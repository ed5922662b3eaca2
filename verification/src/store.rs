//! The color palette of the persistent store: the built-in default palette,
//! the JSON encoding of a palette, and the rule for adding a color.

use vstd::prelude::*;

verus! {

/// The built-in palette used when no colors file exists.
pub open spec fn default_palette() -> Seq<Seq<char>> {
    seq!["#fff9b1"@, "#81B7DD"@, "#65A65B"@, "#AAD2CA"@, "#98C260"@, "#E1A1B1"@, "#B98CB3"@]
}

/// The JSON text that `serde_json` renders a list of color strings to.
pub uninterp spec fn colors_json(colors: Seq<Seq<char>>) -> Seq<char>;

/// The list of color strings that `serde_json` parses out of a text:
/// `None` when the text is not a JSON array of strings.
pub uninterp spec fn colors_of_json(text: Seq<char>) -> Option<Seq<Seq<char>>>;

/// An error of the persistent store's decoding step.
#[derive(Clone, Copy, PartialEq, Eq, Structural, Debug)]
pub enum StoreError {
    /// The persisted text is not a JSON list of strings.
    MalformedData,
}

/// Relies on `serde_json::to_string` for `Vec<String>`: the rendered text is
/// a function of the strings alone, and `serde_json::from_str` parses it
/// back to the same strings (JSON strings round-trip losslessly). The call
/// cannot fail for this type: `to_string` errors only when a `Serialize`
/// impl fails or a map has non-string keys, and a `Vec<String>` has neither.
#[verifier::external_body]
fn encode_colors(colors: &Vec<String>) -> (r: String)
    ensures
        r@ == colors_json(colors.deep_view()),
        colors_of_json(r@) == Some(colors.deep_view()),
{
    serde_json::to_string(colors).unwrap()
}

/// Relies on `serde_json::from_str` for `Vec<String>`: whether a text parses,
/// and to which strings, depends on the text alone.
#[verifier::external_body]
fn decode_colors(text: &str) -> (r: Option<Vec<String>>)
    ensures
        r is Some <==> colors_of_json(text@) is Some,
        r matches Some(v) ==> Some(v.deep_view()) == colors_of_json(text@),
{
    match serde_json::from_str::<Vec<String>>(text) {
        Ok(v) => Some(v),
        Err(_) => None,
    }
}

/// The built-in default palette as a list of owned strings.
pub fn default_colors() -> (r: Vec<String>)
    ensures
        r.deep_view() == default_palette(),
{
    let mut out: Vec<String> = Vec::new();
    out.push("#fff9b1".to_owned());
    out.push("#81B7DD".to_owned());
    out.push("#65A65B".to_owned());
    out.push("#AAD2CA".to_owned());
    out.push("#98C260".to_owned());
    out.push("#E1A1B1".to_owned());
    out.push("#B98CB3".to_owned());
    proof {
        assert(out.deep_view() =~= default_palette());
    }
    out
}

/// Renders the palette as the JSON text to store in the colors file: the
/// `serde_json` rendering of the list, which parses back to the same list.
pub fn save_colors(colors: &Vec<String>) -> (r: String)
    ensures
        r@ == colors_json(colors.deep_view()),
        colors_of_json(r@) == Some(colors.deep_view()),
{
    encode_colors(colors)
}

/// Interprets the contents of the colors file: an absent file yields the
/// built-in default palette; a present file must hold a JSON list of color
/// strings, and any other text is malformed.
pub fn load_colors(content: Option<&str>) -> (r: Result<Vec<String>, StoreError>)
    ensures
        content is None ==> (r matches Ok(v) && v.deep_view() == default_palette()),
        content matches Some(s) ==> (if colors_of_json(s@) is Some {
            r matches Ok(v) && Some(v.deep_view()) == colors_of_json(s@)
        } else {
            r matches Err(e) && e == StoreError::MalformedData
        }),
{
    match content {
        Option::None => Ok(default_colors()),
        Option::Some(text) => match decode_colors(text) {
            Option::Some(v) => Ok(v),
            Option::None => Err(StoreError::MalformedData),
        },
    }
}

/// Adds a color to the palette unless it is already present: the palette
/// gains the color at its end exactly when it was absent, and is unchanged
/// otherwise.
pub fn add_color(colors: &mut Vec<String>, color: &str) -> (added: bool)
    ensures
        added == !old(colors).deep_view().contains(color@),
        added ==> final(colors).deep_view() == old(colors).deep_view().push(color@),
        !added ==> *final(colors) == *old(colors),
{
    let ghost old_views = colors.deep_view();
    let c: String = color.to_owned();
    let mut i: usize = 0;
    while i < colors.len()
        invariant
            0 <= i <= colors@.len(),
            c@ == color@,
            old_views == colors.deep_view(),
            forall|j: int| 0 <= j < i ==> (#[trigger] colors@[j])@ != color@,
        decreases colors@.len() - i,
    {
        if colors[i] == c {
            proof {
                assert(old_views[i as int] == color@);
                assert(old_views.contains(color@));
            }
            return false;
        }
        i = i + 1;
    }
    proof {
        if old_views.contains(color@) {
            let idx = choose|idx: int| 0 <= idx < old_views.len() && old_views[idx] == color@;
            assert(colors@[idx]@ == color@);
        }
    }
    colors.push(c);
    proof {
        assert(final(colors).deep_view() =~= old_views.push(color@));
    }
    true
}

} // verus!

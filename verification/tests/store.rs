use sticky_notes::store::{add_color, default_colors, load_colors, save_colors, StoreError};

#[test]
fn colors_round_trip_through_json() {
    let palette = vec!["#fff9b1".to_string(), "#81B7DD".to_string(), "#123456".to_string()];
    let text = save_colors(&palette);
    let loaded = load_colors(Some(text.as_str())).unwrap();
    assert_eq!(loaded, palette);
}

#[test]
fn save_colors_renders_a_json_array() {
    let palette = vec!["#fff9b1".to_string(), "#81B7DD".to_string()];
    let text = save_colors(&palette);
    assert_eq!(text, "[\"#fff9b1\",\"#81B7DD\"]");
}

#[test]
fn absent_file_yields_the_default_palette() {
    let loaded = load_colors(None).unwrap();
    assert_eq!(
        loaded,
        vec![
            "#fff9b1".to_string(),
            "#81B7DD".to_string(),
            "#65A65B".to_string(),
            "#AAD2CA".to_string(),
            "#98C260".to_string(),
            "#E1A1B1".to_string(),
            "#B98CB3".to_string(),
        ]
    );
    assert_eq!(default_colors().len(), 7);
}

#[test]
fn malformed_colors_file_is_an_error() {
    assert_eq!(load_colors(Some("not json")).unwrap_err(), StoreError::MalformedData);
    assert_eq!(load_colors(Some("{\"a\": 1}")).unwrap_err(), StoreError::MalformedData);
}

#[test]
fn empty_palette_round_trips() {
    let palette: Vec<String> = Vec::new();
    let text = save_colors(&palette);
    assert_eq!(text, "[]");
    assert_eq!(load_colors(Some(text.as_str())).unwrap(), palette);
}

#[test]
fn add_color_appends_only_new_colors() {
    let mut palette = vec!["#fff9b1".to_string()];
    assert!(add_color(&mut palette, "#81B7DD"));
    assert_eq!(palette, vec!["#fff9b1".to_string(), "#81B7DD".to_string()]);
    assert!(!add_color(&mut palette, "#fff9b1"));
    assert_eq!(palette.len(), 2);
}

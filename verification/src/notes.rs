//! The note data model and the persistence filter: the main window's note is
//! never written to storage.

use vstd::prelude::*;
use crate::geometry::main_label;

verus! {

/// One sticky note's persisted state: content, color, outer geometry and the
/// unique label of the window that owns it.
pub struct Note {
    pub color: String,
    pub contents: String,
    pub x: u32,
    pub y: u32,
    pub height: u32,
    pub width: u32,
    pub label: String,
}

impl Note {
    /// An exact copy of this note.
    pub fn duplicate(&self) -> (r: Note)
        ensures
            r == *self,
    {
        Note {
            color: self.color.clone(),
            contents: self.contents.clone(),
            x: self.x,
            y: self.y,
            height: self.height,
            width: self.width,
            label: self.label.clone(),
        }
    }
}

/// The notes that a save writes out: every note except the one labelled as
/// the main window, in their given order.
pub open spec fn saved_notes(notes: Seq<Note>) -> Seq<Note> {
    notes.filter(|n: Note| n.label@ != main_label())
}

/// Drops every note whose label is the reserved main-window label; all other
/// notes are kept unchanged and in order.
pub fn notes_for_save(notes: Vec<Note>) -> (r: Vec<Note>)
    ensures
        r@ == saved_notes(notes@),
{
    let main_s: String = "main".to_owned();
    let mut out: Vec<Note> = Vec::new();
    let mut i: usize = 0;
    proof {
        reveal(Seq::filter);
        assert(notes@.subrange(0, 0) =~= Seq::<Note>::empty());
    }
    while i < notes.len()
        invariant
            0 <= i <= notes@.len(),
            main_s@ == main_label(),
            out@ == saved_notes(notes@.subrange(0, i as int)),
        decreases notes@.len() - i,
    {
        let keep: bool = !(notes[i].label == main_s);
        proof {
            reveal(Seq::filter);
            let pre = notes@.subrange(0, i as int);
            let pre1 = notes@.subrange(0, i + 1);
            assert(pre1.drop_last() =~= pre);
            assert(pre1.last() == notes@[i as int]);
        }
        if keep {
            let n = notes[i].duplicate();
            out.push(n);
        }
        i = i + 1;
    }
    proof {
        assert(notes@.subrange(0, notes@.len() as int) =~= notes@);
    }
    out
}

} // verus!

//! The constants of the immediate-mode GUI library that the menu is drawn
//! with: text alignments, row layouts and the key that toggles the menu.
use vstd::prelude::*;

verus! {

/// How a label's text is aligned.
#[derive(Clone, Copy, PartialEq, Eq, Structural, Debug)]
pub enum TextAlignment {
    LEFT,
    CENTER,
}

impl TextAlignment {
    /// The GUI library's value: vertically centred (16) and left (1) or
    /// horizontally centred (2).
    pub fn value(self) -> (res: u32)
        ensures
            res == match self {
                TextAlignment::LEFT => 17u32,
                TextAlignment::CENTER => 18u32,
            },
    {
        match self {
            TextAlignment::LEFT => 17,
            TextAlignment::CENTER => 18,
        }
    }
}

/// How the widths of a row's columns are given.
#[derive(Clone, Copy, PartialEq, Eq, Structural, Debug)]
pub enum LayoutFormat {
    DYNAMIC,
    STATIC,
}

impl LayoutFormat {
    /// The GUI library's value: 0 for widths as ratios, 1 for pixel widths.
    pub fn value(self) -> (res: u32)
        ensures
            res == match self {
                LayoutFormat::DYNAMIC => 0u32,
                LayoutFormat::STATIC => 1u32,
            },
    {
        match self {
            LayoutFormat::DYNAMIC => 0,
            LayoutFormat::STATIC => 1,
        }
    }
}

/// The GUI library's keys that the program reads.
#[derive(Clone, Copy, PartialEq, Eq, Structural, Debug)]
pub enum NkKey {
    Delete,
}

impl NkKey {
    /// The GUI library's value of the key.
    pub fn value(self) -> (res: u32)
        ensures
            res == 3,
    {
        match self {
            NkKey::Delete => 3,
        }
    }
}

} // verus!

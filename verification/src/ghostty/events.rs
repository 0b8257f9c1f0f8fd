//! What the terminal core's answers mean.
use crate::text::{utf8_lossy, utf8_lossy_text};
use vstd::prelude::*;

verus! {

/// Something that happened while the terminal took input.
#[derive(Debug)]
pub enum Event {
    Bell,
    TitleChanged(String),
}

/// The title that bytes spell; no bytes are an empty title.
pub open spec fn title_text(bytes: Seq<u8>) -> Seq<char> {
    if bytes.len() == 0 {
        Seq::empty()
    } else {
        utf8_lossy_text(bytes)
    }
}

/// The title that bytes spell.
pub fn title_from_bytes(bytes: &[u8]) -> (title: String)
    ensures
        title@ == title_text(bytes@),
        bytes@.len() > 0 && vstd::utf8::valid_utf8(bytes@) ==> title@ == vstd::utf8::decode_utf8(
            bytes@,
        ),
{
    if bytes.len() == 0 {
        String::new()
    } else {
        utf8_lossy(bytes)
    }
}

impl Event {
    /// The event of a title that was set from bytes.
    pub fn title_changed(bytes: &[u8]) -> (event: Event)
        ensures
            event matches Event::TitleChanged(title) && title@ == title_text(bytes@),
    {
        Event::TitleChanged(title_from_bytes(bytes))
    }
}

/// Sizes in pixels that the renderer reports to the terminal.
#[derive(Debug, Clone, Copy, PartialEq, Eq, Structural)]
pub struct TerminalDimensions {
    pub screen_width_px: u32,
    pub screen_height_px: u32,
    pub cell_width_px: u32,
    pub cell_height_px: u32,
}

/// The value, or 1 if it is 0.
pub open spec fn at_least_one(value: u32) -> u32 {
    if value == 0 {
        1
    } else {
        value
    }
}

fn no_less_than_one(value: u32) -> (out: u32)
    ensures
        out == at_least_one(value),
{
    if value == 0 {
        1
    } else {
        value
    }
}

impl TerminalDimensions {
    /// The sizes with every 0 raised to 1.
    pub fn clamped(self) -> (out: TerminalDimensions)
        ensures
            out == (TerminalDimensions {
                screen_width_px: at_least_one(self.screen_width_px),
                screen_height_px: at_least_one(self.screen_height_px),
                cell_width_px: at_least_one(self.cell_width_px),
                cell_height_px: at_least_one(self.cell_height_px),
            }),
    {
        TerminalDimensions {
            screen_width_px: no_less_than_one(self.screen_width_px),
            screen_height_px: no_less_than_one(self.screen_height_px),
            cell_width_px: no_less_than_one(self.cell_width_px),
            cell_height_px: no_less_than_one(self.cell_height_px),
        }
    }
}

/// Whether a selection call succeeded.
pub fn selection_succeeded(code: i32) -> (ok: bool)
    ensures
        ok == (code == 0),
{
    code == 0
}

/// The columns of a row's selection, if the row has one.
pub fn row_selection(selected: bool, start_x: u16, end_x: u16) -> (range: Option<(u16, u16)>)
    ensures
        range == if selected {
            Some((start_x, end_x))
        } else {
            None
        },
{
    if selected {
        Some((start_x, end_x))
    } else {
        None
    }
}

/// Without bytes a title is empty; else it is the text that the bytes spell. No size
/// is below one, and a size that is not stays.
pub proof fn law_titles_and_sizes(bytes: Seq<u8>, value: u32)
    ensures
        bytes.len() == 0 ==> title_text(bytes).len() == 0,
        bytes.len() > 0 ==> title_text(bytes) == utf8_lossy_text(bytes),
        at_least_one(value) >= 1,
        value >= 1 ==> at_least_one(value) == value,
        at_least_one(0) == 1,
{
}

} // verus!

//! Whether a code point is drawn as an emoji by default.
use crate::text::is_scalar;
use unicode_properties::UnicodeEmoji;
use vstd::prelude::*;

verus! {

/// The emoji properties of a character.
#[derive(Clone, Copy, Debug, PartialEq, Eq, Structural)]
pub enum EmojiStatus {
    NonEmoji,
    NonEmojiButEmojiComponent,
    EmojiPresentation,
    EmojiModifierBase,
    EmojiPresentationAndModifierBase,
    EmojiOther,
    EmojiPresentationAndEmojiComponent,
    EmojiPresentationAndModifierAndEmojiComponent,
    EmojiOtherAndEmojiComponent,
    Unlisted,
}

/// The status that the Unicode tables give a character.
pub uninterp spec fn emoji_status_of(ch: char) -> EmojiStatus;

/// `UnicodeEmoji::emoji_status` of `unicode-properties` looks a character up
/// in the tables compiled into the crate.
#[verifier::external_body]
fn emoji_status(ch: char) -> (status: EmojiStatus)
    ensures
        status == emoji_status_of(ch),
{
    match ch.emoji_status() {
        unicode_properties::EmojiStatus::NonEmoji => EmojiStatus::NonEmoji,
        unicode_properties::EmojiStatus::NonEmojiButEmojiComponent => EmojiStatus::NonEmojiButEmojiComponent,
        unicode_properties::EmojiStatus::EmojiPresentation => EmojiStatus::EmojiPresentation,
        unicode_properties::EmojiStatus::EmojiModifierBase => EmojiStatus::EmojiModifierBase,
        unicode_properties::EmojiStatus::EmojiPresentationAndModifierBase => EmojiStatus::EmojiPresentationAndModifierBase,
        unicode_properties::EmojiStatus::EmojiOther => EmojiStatus::EmojiOther,
        unicode_properties::EmojiStatus::EmojiPresentationAndEmojiComponent => EmojiStatus::EmojiPresentationAndEmojiComponent,
        unicode_properties::EmojiStatus::EmojiPresentationAndModifierAndEmojiComponent => EmojiStatus::EmojiPresentationAndModifierAndEmojiComponent,
        unicode_properties::EmojiStatus::EmojiOtherAndEmojiComponent => EmojiStatus::EmojiOtherAndEmojiComponent,
        _ => EmojiStatus::Unlisted,
    }
}

impl EmojiStatus {
    /// Whether the status has `Emoji_Presentation`.
    pub open spec fn has_presentation(self) -> bool {
        ||| self is EmojiPresentation
        ||| self is EmojiPresentationAndModifierBase
        ||| self is EmojiPresentationAndEmojiComponent
        ||| self is EmojiPresentationAndModifierAndEmojiComponent
    }

    /// Whether the status has `Emoji_Presentation`.
    pub fn is_presentation(self) -> (presentation: bool)
        ensures
            presentation == self.has_presentation(),
    {
        matches!(
            self,
            EmojiStatus::EmojiPresentation | EmojiStatus::EmojiPresentationAndModifierBase
                | EmojiStatus::EmojiPresentationAndEmojiComponent
                | EmojiStatus::EmojiPresentationAndModifierAndEmojiComponent
        )
    }
}

/// Whether a code point is drawn as an emoji unless asked otherwise.
pub open spec fn default_emoji(codepoint: u32) -> bool {
    is_scalar(codepoint) && emoji_status_of(codepoint as char).has_presentation()
}

/// Whether a code point is drawn as an emoji unless asked otherwise.
pub fn codepoint_default_emoji_presentation(codepoint: u32) -> (emoji: bool)
    ensures
        emoji == default_emoji(codepoint),
{
    match char::from_u32(codepoint) {
        Some(ch) => {
            let status = emoji_status(ch);
            status.is_presentation()
        },
        None => false,
    }
}

/// A character is drawn as an emoji if its status has the presentation property, and
/// not if it is only an emoji's base or part, another emoji, or none at all. What is
/// no character is none.
pub proof fn law_what_is_drawn_as_an_emoji(status: EmojiStatus, codepoint: u32)
    ensures
        status.has_presentation() <==> match status {
            EmojiStatus::NonEmoji => false,
            EmojiStatus::NonEmojiButEmojiComponent => false,
            EmojiStatus::EmojiPresentation => true,
            EmojiStatus::EmojiModifierBase => false,
            EmojiStatus::EmojiPresentationAndModifierBase => true,
            EmojiStatus::EmojiOther => false,
            EmojiStatus::EmojiPresentationAndEmojiComponent => true,
            EmojiStatus::EmojiPresentationAndModifierAndEmojiComponent => true,
            EmojiStatus::EmojiOtherAndEmojiComponent => false,
            EmojiStatus::Unlisted => false,
        },
        codepoint > 0x10_ffff || 0xd800 <= codepoint <= 0xdfff ==> !default_emoji(codepoint),
        codepoint < 0xd800 || 0xe000 <= codepoint <= 0x10_ffff ==> default_emoji(codepoint)
            == emoji_status_of(codepoint as char).has_presentation(),
{
}

} // verus!

//! The options that key and mouse events are encoded with.
use crate::ghostty::types::{MouseFormat, MouseMode};
use vstd::prelude::*;

verus! {

/// Options for key and mouse encoding.
#[derive(Clone, Copy, Debug, PartialEq, Eq, Structural)]
pub struct InputOpts {
    pub cursor_key_application: bool,
    pub keypad_key_application: bool,
    pub ignore_keypad_with_numlock: bool,
    pub alt_esc_prefix: bool,
    pub modify_other_keys_state_2: bool,
    pub kitty_flags: u8,
    pub mouse_event: MouseMode,
    pub mouse_format: MouseFormat,
    pub bracketed_paste: bool,
    pub focus_event_mode: bool,
}

/// The same options as ten bytes, as the terminal core takes and gives them.
#[derive(Clone, Copy, Debug, PartialEq, Eq, Structural)]
pub struct InputOptsC {
    pub cursor_key_application: u8,
    pub keypad_key_application: u8,
    pub ignore_keypad_with_numlock: u8,
    pub alt_esc_prefix: u8,
    pub modify_other_keys_state_2: u8,
    pub kitty_flags: u8,
    pub mouse_event: u8,
    pub mouse_format: u8,
    pub bracketed_paste: u8,
    pub focus_event_mode: u8,
}

/// 1 for true, 0 for false.
pub open spec fn byte_of(flag: bool) -> u8 {
    if flag {
        1
    } else {
        0
    }
}

fn to_byte(flag: bool) -> (byte: u8)
    ensures
        byte == byte_of(flag),
{
    if flag {
        1
    } else {
        0
    }
}

/// The bytes of options.
pub open spec fn opts_bytes(opts: InputOpts) -> InputOptsC {
    InputOptsC {
        cursor_key_application: byte_of(opts.cursor_key_application),
        keypad_key_application: byte_of(opts.keypad_key_application),
        ignore_keypad_with_numlock: byte_of(opts.ignore_keypad_with_numlock),
        alt_esc_prefix: byte_of(opts.alt_esc_prefix),
        modify_other_keys_state_2: byte_of(opts.modify_other_keys_state_2),
        kitty_flags: opts.kitty_flags,
        mouse_event: opts.mouse_event.raw(),
        mouse_format: opts.mouse_format.raw(),
        bracketed_paste: byte_of(opts.bracketed_paste),
        focus_event_mode: byte_of(opts.focus_event_mode),
    }
}

/// The options of bytes: every byte but 0 is true.
pub open spec fn opts_of_bytes(raw: InputOptsC) -> InputOpts {
    InputOpts {
        cursor_key_application: raw.cursor_key_application != 0,
        keypad_key_application: raw.keypad_key_application != 0,
        ignore_keypad_with_numlock: raw.ignore_keypad_with_numlock != 0,
        alt_esc_prefix: raw.alt_esc_prefix != 0,
        modify_other_keys_state_2: raw.modify_other_keys_state_2 != 0,
        kitty_flags: raw.kitty_flags,
        mouse_event: MouseMode::of_raw(raw.mouse_event),
        mouse_format: MouseFormat::of_raw(raw.mouse_format),
        bracketed_paste: raw.bracketed_paste != 0,
        focus_event_mode: raw.focus_event_mode != 0,
    }
}

impl InputOpts {
    /// The options as bytes.
    pub fn to_c(self) -> (raw: InputOptsC)
        ensures
            raw == opts_bytes(self),
    {
        InputOptsC {
            cursor_key_application: to_byte(self.cursor_key_application),
            keypad_key_application: to_byte(self.keypad_key_application),
            ignore_keypad_with_numlock: to_byte(self.ignore_keypad_with_numlock),
            alt_esc_prefix: to_byte(self.alt_esc_prefix),
            modify_other_keys_state_2: to_byte(self.modify_other_keys_state_2),
            kitty_flags: self.kitty_flags,
            mouse_event: self.mouse_event.to_raw(),
            mouse_format: self.mouse_format.to_raw(),
            bracketed_paste: to_byte(self.bracketed_paste),
            focus_event_mode: to_byte(self.focus_event_mode),
        }
    }

    /// The options that the terminal core reports.
    pub fn from_c(raw: InputOptsC) -> (opts: InputOpts)
        ensures
            opts == opts_of_bytes(raw),
    {
        InputOpts {
            cursor_key_application: raw.cursor_key_application != 0,
            keypad_key_application: raw.keypad_key_application != 0,
            ignore_keypad_with_numlock: raw.ignore_keypad_with_numlock != 0,
            alt_esc_prefix: raw.alt_esc_prefix != 0,
            modify_other_keys_state_2: raw.modify_other_keys_state_2 != 0,
            kitty_flags: raw.kitty_flags,
            mouse_event: MouseMode::from_raw(raw.mouse_event),
            mouse_format: MouseFormat::from_raw(raw.mouse_format),
            bracketed_paste: raw.bracketed_paste != 0,
            focus_event_mode: raw.focus_event_mode != 0,
        }
    }
}

/// Options written as bytes read back as themselves.
pub proof fn law_input_opts_read_back(opts: InputOpts)
    ensures
        opts_of_bytes(opts_bytes(opts)) == opts,
{
}

/// Each option has a byte of its own, 1 if it is on and 0 if not; a mouse setting has
/// its number. Read back, a byte is on unless it is 0.
pub proof fn law_bytes_of_input_opts(opts: InputOpts, raw: InputOptsC)
    ensures
        ({
            let bytes = opts_bytes(opts);
            let is = |byte: u8, flag: bool| (flag ==> byte == 1) && (!flag ==> byte == 0);
            &&& is(bytes.cursor_key_application, opts.cursor_key_application)
            &&& is(bytes.keypad_key_application, opts.keypad_key_application)
            &&& is(bytes.ignore_keypad_with_numlock, opts.ignore_keypad_with_numlock)
            &&& is(bytes.alt_esc_prefix, opts.alt_esc_prefix)
            &&& is(bytes.modify_other_keys_state_2, opts.modify_other_keys_state_2)
            &&& is(bytes.bracketed_paste, opts.bracketed_paste)
            &&& is(bytes.focus_event_mode, opts.focus_event_mode)
            &&& bytes.kitty_flags == opts.kitty_flags
            &&& bytes.mouse_event == opts.mouse_event.raw()
            &&& bytes.mouse_format == opts.mouse_format.raw()
        }),
        ({
            let read = opts_of_bytes(raw);
            &&& read.cursor_key_application <==> raw.cursor_key_application > 0
            &&& read.keypad_key_application <==> raw.keypad_key_application > 0
            &&& read.ignore_keypad_with_numlock <==> raw.ignore_keypad_with_numlock > 0
            &&& read.alt_esc_prefix <==> raw.alt_esc_prefix > 0
            &&& read.modify_other_keys_state_2 <==> raw.modify_other_keys_state_2 > 0
            &&& read.bracketed_paste <==> raw.bracketed_paste > 0
            &&& read.focus_event_mode <==> raw.focus_event_mode > 0
            &&& read.kitty_flags == raw.kitty_flags
            &&& read.mouse_event == MouseMode::of_raw(raw.mouse_event)
            &&& read.mouse_format == MouseFormat::of_raw(raw.mouse_format)
        }),
{
}

} // verus!

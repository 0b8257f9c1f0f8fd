use rustty::ghostty::events::{
    row_selection, selection_succeeded, title_from_bytes, Event, TerminalDimensions,
};
use rustty::ghostty::types::{
    CellStyle, ColorRGB, DirtyState, GraphemeSlice, MouseFormat, MouseMode, OptionalColorRGB,
    RawCell, ScrollbarInfo, StyleColor,
};
use rustty::ghostty_vt::events::{EventQueue, VtEvent};
use rustty::ghostty_vt::input::{InputOpts, InputOptsC};
use rustty::ghostty_vt::types::key_from_code;

#[test]
fn colors_pack_red_lowest() {
    let color = ColorRGB::new(0x12, 0x34, 0x56);
    assert_eq!((color.r(), color.g(), color.b()), (0x12, 0x34, 0x56));
    assert_eq!(color.to_rgba_u32(), 0xff56_3412);
    assert_eq!(color.to_rgba_u32_with_alpha(0x80), 0x8056_3412);
    // The byte above blue is not part of the color.
    assert_eq!(ColorRGB::from_word(0xaa56_3412).to_rgba_u32(), 0xff56_3412);
    assert_eq!(color, ColorRGB::from_word(0x0056_3412));
    assert_eq!(color, ColorRGB::new(0x12, 0x34, 0x56));
    assert_ne!(color, ColorRGB::new(0x13, 0x34, 0x56));
    assert_ne!(color, ColorRGB::new(0x12, 0x35, 0x56));
    assert_ne!(color, ColorRGB::new(0x12, 0x34, 0x57));
    assert_eq!(OptionalColorRGB { rgb: color, tag: 1 }.into_option(), Some(color));
    assert_eq!(OptionalColorRGB { rgb: color, tag: 0 }.into_option(), None);
}

#[test]
fn cells_are_read_bit_by_bit() {
    let word = 1u64 | (0x1f600u64 << 2) | (0x1234u64 << 26) | (1u64 << 42);
    let cell = RawCell::from_word(word);
    assert_eq!(cell.content_tag(), 1);
    assert_eq!(cell.codepoint(), 0x1f600);
    assert_eq!(cell.style_id(), 0x1234);
    assert_eq!(cell.wide(), 1);
    assert!(cell.has_text() && cell.has_grapheme() && !cell.is_bg_only() && !cell.is_spacer());

    let palette = RawCell::from_word(2 | (0x7f << 2));
    assert!(palette.is_bg_only() && !palette.has_text());
    assert_eq!(palette.bg_palette_index(), 0x7f);
    let rgb = RawCell::from_word(3 | (0x11 << 2) | (0x22 << 10) | (0x33 << 18));
    assert!(rgb.is_bg_only());
    assert_eq!(rgb.bg_rgb(), (0x11, 0x22, 0x33));
    assert!(RawCell::from_word(3 << 42).is_spacer());
}

#[test]
fn style_flags_have_their_places() {
    let none = StyleColor { r: 0, g: 0, b: 0, tag: 0 };
    let with = |flags: u16| CellStyle { fg: none, bg: none, underline: none, flags };
    assert!(with(0x01).is_bold());
    assert!(with(0x02).is_italic());
    assert!(with(0x04).is_faint());
    assert!(with(0x08).is_blink());
    assert!(with(0x10).is_inverse());
    assert!(with(0x20).is_invisible());
    assert!(with(0x40).is_strikethrough());
    assert!(with(0x80).is_overline());
    assert_eq!(with(0x300).underline_style(), 3);
    let all = with(0xffff);
    assert!(all.is_bold() && all.is_overline());
    assert_eq!(all.underline_style(), 7);
    assert!(!with(0xff00).is_bold());
}

#[test]
fn states_and_modes_are_numbers() {
    assert_eq!(DirtyState::from_raw(0), DirtyState::Clean);
    assert_eq!(DirtyState::from_raw(1), DirtyState::Partial);
    assert_eq!(DirtyState::from_raw(9), DirtyState::Full);
    assert!(!DirtyState::Clean.is_dirty() && DirtyState::Partial.is_dirty());
    for raw in 0..5 {
        assert_eq!(MouseMode::from_raw(raw).to_raw(), raw);
        assert_eq!(MouseFormat::from_raw(raw).to_raw(), raw);
    }
    assert_eq!(
        ScrollbarInfo::default(),
        ScrollbarInfo { total_rows: 0, top_row: 0, viewport_rows: 0 }
    );
    let empty = GraphemeSlice { codepoints: Vec::new() };
    assert_eq!(empty.as_slice(), None);
    let two = GraphemeSlice { codepoints: vec![0x41, 0x301] };
    assert_eq!(two.as_slice(), Some(&[0x41u32, 0x301][..]));
}

#[test]
fn titles_are_read_as_utf8() {
    assert_eq!(title_from_bytes(b""), "");
    assert_eq!(title_from_bytes("caf\u{e9}".as_bytes()), "caf\u{e9}");
    // What is not UTF-8 is replaced.
    assert_eq!(title_from_bytes(b"a\xffb"), "a\u{fffd}b");
    assert!(matches!(Event::title_changed(b"hi"), Event::TitleChanged(title) if title == "hi"));
}

#[test]
fn dimensions_are_never_zero() {
    let sizes = TerminalDimensions {
        screen_width_px: 0,
        screen_height_px: 7,
        cell_width_px: 0,
        cell_height_px: 1,
    };
    assert_eq!(
        sizes.clamped(),
        TerminalDimensions { screen_width_px: 1, cell_width_px: 1, ..sizes }
    );
}

#[test]
fn answers_of_the_core_are_read() {
    assert!(selection_succeeded(0) && !selection_succeeded(1) && !selection_succeeded(-1));
    assert_eq!(row_selection(true, 2, 5), Some((2, 5)));
    assert_eq!(row_selection(false, 2, 5), None);
    assert_eq!(key_from_code(-1), None);
    assert_eq!(key_from_code(0), Some(0));
}

#[test]
fn events_are_drained_in_order() {
    let mut queue = EventQueue::new();
    queue.bell();
    queue.title(b"one");
    queue.response(b"");
    queue.response(b"\x1b[0n");
    let mut events = vec![VtEvent::Bell];
    queue.drain_events(&mut events);
    assert_eq!(events.len(), 3);
    assert!(matches!(events[0], VtEvent::Bell));
    assert!(matches!(&events[1], VtEvent::TitleChanged(title) if title == "one"));
    assert!(matches!(&events[2], VtEvent::DeviceResponse(bytes) if bytes == b"\x1b[0n"));
    queue.drain_events(&mut events);
    assert!(events.is_empty());
}

#[test]
fn input_options_read_back() {
    let opts = InputOpts {
        cursor_key_application: true,
        keypad_key_application: false,
        ignore_keypad_with_numlock: true,
        alt_esc_prefix: true,
        modify_other_keys_state_2: false,
        kitty_flags: 21,
        mouse_event: MouseMode::Button,
        mouse_format: MouseFormat::from_raw(2),
        bracketed_paste: true,
        focus_event_mode: false,
    };
    let raw = opts.to_c();
    assert_eq!(
        raw,
        InputOptsC {
            cursor_key_application: 1,
            keypad_key_application: 0,
            ignore_keypad_with_numlock: 1,
            alt_esc_prefix: 1,
            modify_other_keys_state_2: 0,
            kitty_flags: 21,
            mouse_event: 3,
            mouse_format: 2,
            bracketed_paste: 1,
            focus_event_mode: 0,
        }
    );
    assert_eq!(InputOpts::from_c(raw), opts);
    assert!(InputOpts::from_c(InputOptsC { focus_event_mode: 7, ..raw }).focus_event_mode);
}

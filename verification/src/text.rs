//! Text as sequences of characters: trimming, splitting and building strings.
use vstd::prelude::*;

verus! {

/// `String::push` appends the character to the end of the string.
pub assume_specification[ String::push ](text: &mut String, c: char)
    ensures
        final(text)@ == old(text)@.push(c),
;

/// The texts of a list of strings.
pub open spec fn texts(strings: Seq<String>) -> Seq<Seq<char>> {
    strings.map_values(|s: String| s@)
}

/// Whether a number is a Unicode scalar value.
pub open spec fn is_scalar(value: u32) -> bool {
    value <= 0xd7ff || 0xe000 <= value <= 0x10ffff
}

/// `char::from_u32` gives the character of a Unicode scalar value and nothing
/// for any other number.
pub assume_specification[ char::from_u32 ](value: u32) -> (c: Option<char>)
    ensures
        match c {
            Some(c) => is_scalar(value) && c == value as char,
            None => !is_scalar(value),
        },
;

/// The UTF-16 units of a scalar value.
pub open spec fn utf16_units(value: u32) -> Seq<u16> {
    if value < 0x1_0000 {
        seq![value as u16]
    } else {
        seq![
            (0xd800 + (value - 0x1_0000) / 0x400) as u16,
            (0xdc00 + (value - 0x1_0000) % 0x400) as u16,
        ]
    }
}

/// The scalar value of a character.
pub fn scalar_value(c: char) -> (value: u32)
    ensures
        value == c as u32,
        is_scalar(value),
{
    c as u32
}

/// Appends the UTF-16 units of a scalar value and gives their number.
pub fn push_utf16(units: &mut Vec<u16>, value: u32) -> (count: usize)
    requires
        value <= 0x10ffff,
    ensures
        final(units)@ == old(units)@ + utf16_units(value),
        count == utf16_units(value).len(),
{
    if value < 0x1_0000 {
        units.push(value as u16);
        assert(units@ =~= old(units)@ + utf16_units(value));
        1
    } else {
        let rest: u32 = value - 0x1_0000;
        units.push((0xd800 + rest / 0x400) as u16);
        units.push((0xdc00 + rest % 0x400) as u16);
        assert(units@ =~= old(units)@ + utf16_units(value));
        2
    }
}

/// The text that `String::from_utf8_lossy` reads from bytes.
pub uninterp spec fn utf8_lossy_text(bytes: Seq<u8>) -> Seq<char>;

/// `String::from_utf8_lossy` decodes UTF-8 and puts a replacement character in
/// place of each invalid sequence; bytes that are valid UTF-8 are decoded as
/// they stand.
#[verifier::external_body]
pub(crate) fn utf8_lossy(bytes: &[u8]) -> (text: String)
    ensures
        text@ == utf8_lossy_text(bytes@),
        vstd::utf8::valid_utf8(bytes@) ==> text@ == vstd::utf8::decode_utf8(bytes@),
{
    String::from_utf8_lossy(bytes).into_owned()
}

/// Whether a character has Unicode's `White_Space` property.
pub open spec fn white_space(c: char) -> bool {
    let u = c as u32;
    ||| 0x09 <= u <= 0x0d
    ||| u == 0x20
    ||| u == 0x85
    ||| u == 0xa0
    ||| u == 0x1680
    ||| 0x2000 <= u <= 0x200a
    ||| u == 0x2028
    ||| u == 0x2029
    ||| u == 0x202f
    ||| u == 0x205f
    ||| u == 0x3000
}

/// Whether a character has Unicode's `White_Space` property.
pub fn is_white_space(c: char) -> (white: bool)
    ensures
        white == white_space(c),
{
    let u: u32 = c as u32;
    (0x09 <= u && u <= 0x0d) || u == 0x20 || u == 0x85 || u == 0xa0 || u == 0x1680 || (0x2000 <= u
        && u <= 0x200a) || u == 0x2028 || u == 0x2029 || u == 0x202f || u == 0x205f || u == 0x3000
}

/// The sequence without the leading characters that `drop` picks.
pub open spec fn strip_start(s: Seq<char>, drop: spec_fn(char) -> bool) -> Seq<char>
    decreases s.len(),
{
    if s.len() > 0 && drop(s[0]) {
        strip_start(s.drop_first(), drop)
    } else {
        s
    }
}

/// The sequence without the trailing characters that `drop` picks.
pub open spec fn strip_end(s: Seq<char>, drop: spec_fn(char) -> bool) -> Seq<char>
    decreases s.len(),
{
    if s.len() > 0 && drop(s.last()) {
        strip_end(s.drop_last(), drop)
    } else {
        s
    }
}

/// The sequence without white space at its ends.
pub open spec fn trimmed(s: Seq<char>) -> Seq<char> {
    strip_end(strip_start(s, |c: char| white_space(c)), |c: char| white_space(c))
}

/// Picks the one character `ch`.
pub open spec fn only(ch: char) -> spec_fn(char) -> bool {
    |c: char| c == ch
}

/// The sequence without any `ch` at its ends.
pub open spec fn stripped_of(s: Seq<char>, ch: char) -> Seq<char> {
    strip_end(strip_start(s, only(ch)), only(ch))
}

/// The characters of a string.
pub fn chars_of(text: &str) -> (chars: Vec<char>)
    ensures
        chars@ == text@,
{
    let mut chars: Vec<char> = Vec::new();
    for c in iter: text.chars()
        invariant
            iter.seq() == text@,
            chars@ == text@.take(iter.index() as int),
    {
        chars.push(c);
        proof {
            let n = iter.index() as int;
            assert(text@.take(n + 1) =~= text@.take(n).push(text@[n]));
        }
    }
    assert(text@.take(text@.len() as int) =~= text@);
    chars
}

/// The string made of the characters.
pub fn string_of(chars: &Vec<char>) -> (text: String)
    ensures
        text@ == chars@,
{
    let mut text = String::new();
    let mut i: usize = 0;
    while i < chars.len()
        invariant
            i <= chars.len(),
            text@ == chars@.take(i as int),
        decreases chars.len() - i,
    {
        text.push(chars[i]);
        assert(chars@.take(i + 1) =~= chars@.take(i as int).push(chars@[i as int]));
        i += 1;
    }
    assert(chars@.take(chars@.len() as int) =~= chars@);
    text
}

/// A copy of the characters from `lo` up to `hi`.
pub fn slice_of(chars: &Vec<char>, lo: usize, hi: usize) -> (part: Vec<char>)
    requires
        lo <= hi <= chars.len(),
    ensures
        part@ == chars@.subrange(lo as int, hi as int),
{
    let mut part: Vec<char> = Vec::new();
    let mut i: usize = lo;
    while i < hi
        invariant
            lo <= i <= hi <= chars.len(),
            part@ == chars@.subrange(lo as int, i as int),
        decreases hi - i,
    {
        part.push(chars[i]);
        assert(chars@.subrange(lo as int, i + 1) =~= chars@.subrange(lo as int, i as int).push(
            chars@[i as int],
        ));
        i += 1;
    }
    part
}

/// The characters without white space at their ends.
pub fn trim(chars: &Vec<char>) -> (inner: Vec<char>)
    ensures
        inner@ == trimmed(chars@),
{
    let ghost drop = |c: char| white_space(c);
    let mut lo: usize = 0;
    assert(chars@.skip(0) =~= chars@);
    while lo < chars.len() && is_white_space(chars[lo])
        invariant
            lo <= chars.len(),
            drop == |c: char| white_space(c),
            strip_start(chars@, drop) == strip_start(chars@.skip(lo as int), drop),
        decreases chars.len() - lo,
    {
        assert(chars@.skip(lo as int).drop_first() =~= chars@.skip(lo + 1));
        lo += 1;
    }
    let ghost tail = chars@.skip(lo as int);
    assert(strip_start(chars@, drop) == tail);
    let mut hi: usize = chars.len();
    assert(chars@.subrange(lo as int, hi as int) =~= tail);
    while hi > lo && is_white_space(chars[hi - 1])
        invariant
            lo <= hi <= chars.len(),
            drop == |c: char| white_space(c),
            strip_end(tail, drop) == strip_end(chars@.subrange(lo as int, hi as int), drop),
        decreases hi - lo,
    {
        assert(chars@.subrange(lo as int, hi as int).drop_last() =~= chars@.subrange(
            lo as int,
            hi - 1,
        ));
        hi -= 1;
    }
    slice_of(chars, lo, hi)
}

/// The characters without any `ch` at their ends.
pub fn strip(chars: &Vec<char>, ch: char) -> (inner: Vec<char>)
    ensures
        inner@ == stripped_of(chars@, ch),
{
    let ghost drop = only(ch);
    let mut lo: usize = 0;
    assert(chars@.skip(0) =~= chars@);
    while lo < chars.len() && chars[lo] == ch
        invariant
            lo <= chars.len(),
            drop == only(ch),
            strip_start(chars@, drop) == strip_start(chars@.skip(lo as int), drop),
        decreases chars.len() - lo,
    {
        assert(chars@.skip(lo as int).drop_first() =~= chars@.skip(lo + 1));
        lo += 1;
    }
    let ghost tail = chars@.skip(lo as int);
    assert(strip_start(chars@, drop) == tail);
    let mut hi: usize = chars.len();
    assert(chars@.subrange(lo as int, hi as int) =~= tail);
    while hi > lo && chars[hi - 1] == ch
        invariant
            lo <= hi <= chars.len(),
            drop == only(ch),
            strip_end(tail, drop) == strip_end(chars@.subrange(lo as int, hi as int), drop),
        decreases hi - lo,
    {
        assert(chars@.subrange(lo as int, hi as int).drop_last() =~= chars@.subrange(
            lo as int,
            hi - 1,
        ));
        hi -= 1;
    }
    slice_of(chars, lo, hi)
}

/// The place of the first `ch` from `i` on, or the length if there is none.
pub open spec fn first_place(s: Seq<char>, ch: char, i: int) -> int
    decreases s.len() - i,
{
    if i < 0 || i >= s.len() {
        s.len() as int
    } else if s[i] == ch {
        i
    } else {
        first_place(s, ch, i + 1)
    }
}

/// The parts before and after the first `ch`.
pub open spec fn parted_at(s: Seq<char>, ch: char) -> Option<(Seq<char>, Seq<char>)> {
    let at = first_place(s, ch, 0);
    if at < s.len() {
        Some((s.take(at), s.skip(at + 1)))
    } else {
        None
    }
}

/// The place of the first `ch` from `start` on, or the length if there is none.
pub fn find(chars: &Vec<char>, ch: char, start: usize) -> (at: usize)
    requires
        start <= chars.len(),
    ensures
        at == first_place(chars@, ch, start as int),
        start <= at <= chars.len(),
{
    let mut i: usize = start;
    while i < chars.len() && chars[i] != ch
        invariant
            start <= i <= chars.len(),
            first_place(chars@, ch, start as int) == first_place(chars@, ch, i as int),
        decreases chars.len() - i,
    {
        i += 1;
    }
    i
}

/// Splits at the first `ch`, which belongs to neither part.
pub fn split_once(chars: &Vec<char>, ch: char) -> (parts: Option<(Vec<char>, Vec<char>)>)
    ensures
        match parts {
            Some((head, tail)) => parted_at(chars@, ch) == Some((head@, tail@)),
            None => parted_at(chars@, ch) is None,
        },
{
    let at = find(chars, ch, 0);
    if at < chars.len() {
        let head = slice_of(chars, 0, at);
        let tail = slice_of(chars, at + 1, chars.len());
        assert(head@ =~= chars@.take(at as int));
        assert(tail@ =~= chars@.skip(at + 1));
        Some((head, tail))
    } else {
        None
    }
}

/// The small form of an ASCII letter; any other character is its own.
pub open spec fn ascii_lower(c: char) -> u32 {
    if 0x41 <= c as u32 <= 0x5a {
        (c as u32 + 0x20) as u32
    } else {
        c as u32
    }
}

/// Whether two texts are equal but for the case of ASCII letters.
pub open spec fn same_but_case(a: Seq<char>, b: Seq<char>) -> bool {
    &&& a.len() == b.len()
    &&& forall|i: int| 0 <= i < a.len() ==> ascii_lower(#[trigger] a[i]) == ascii_lower(b[i])
}

fn to_ascii_lower(c: char) -> (lower: u32)
    ensures
        lower == ascii_lower(c),
{
    let value: u32 = c as u32;
    if 0x41 <= value && value <= 0x5a {
        value + 0x20
    } else {
        value
    }
}

pub fn eq_ignore_ascii_case(a: &str, b: &str) -> (same: bool)
    ensures
        same == same_but_case(a@, b@),
{
    let a_chars = chars_of(a);
    let b_chars = chars_of(b);
    if a_chars.len() != b_chars.len() {
        return false;
    }
    let mut i: usize = 0;
    while i < a_chars.len()
        invariant
            a_chars@ == a@,
            b_chars@ == b@,
            a_chars@.len() == b_chars@.len(),
            i <= a_chars@.len(),
            forall|j: int| 0 <= j < i ==> ascii_lower(#[trigger] a@[j]) == ascii_lower(b@[j]),
        decreases a_chars@.len() - i,
    {
        if to_ascii_lower(a_chars[i]) != to_ascii_lower(b_chars[i]) {
            assert(ascii_lower(a@[i as int]) != ascii_lower(b@[i as int]));
            return false;
        }
        i += 1;
    }
    true
}

/// The UTF-16 form of the first `n` characters.
pub open spec fn utf16_of(text: Seq<char>, n: int) -> Seq<u16>
    decreases n,
{
    if n <= 0 {
        Seq::empty()
    } else {
        utf16_of(text, n - 1) + utf16_units(text[n - 1] as u32)
    }
}

/// The UTF-16 form of a text.
pub fn utf16_from(text: &str) -> (units: Vec<u16>)
    ensures
        units@ == utf16_of(text@, text@.len() as int),
{
    let chars = chars_of(text);
    let mut units: Vec<u16> = Vec::new();
    let mut i: usize = 0;
    while i < chars.len()
        invariant
            i <= chars.len(),
            chars@ == text@,
            units@ == utf16_of(text@, i as int),
        decreases chars.len() - i,
    {
        let value: u32 = scalar_value(chars[i]);
        push_utf16(&mut units, value);
        i += 1;
    }
    units
}

/// Whether a unit is the first of a pair.
pub open spec fn is_high(unit: u16) -> bool {
    0xd800 <= unit <= 0xdbff
}

/// Whether a unit is the second of a pair.
pub open spec fn is_low(unit: u16) -> bool {
    0xdc00 <= unit <= 0xdfff
}

/// The scalar value of a pair of units.
pub open spec fn paired(high: u16, low: u16) -> u32 {
    (0x1_0000 + (high - 0xd800) * 0x400 + (low - 0xdc00)) as u32
}

/// The text of UTF-16 units from `from` on. A unit of a pair that stands alone
/// becomes the replacement character.
pub open spec fn lossy_text(units: Seq<u16>, from: int) -> Seq<char>
    decreases units.len() - from,
{
    if from < 0 || from >= units.len() {
        Seq::empty()
    } else if is_high(units[from]) && from + 1 < units.len() && is_low(units[from + 1]) {
        seq![paired(units[from], units[from + 1]) as char] + lossy_text(units, from + 2)
    } else if is_high(units[from]) || is_low(units[from]) {
        seq!['\u{fffd}'] + lossy_text(units, from + 1)
    } else {
        seq![units[from] as char] + lossy_text(units, from + 1)
    }
}

/// Decodes UTF-16, with the replacement character for what is no text.
pub fn utf16_lossy(units: &Vec<u16>) -> (text: String)
    ensures
        text@ == lossy_text(units@, 0),
{
    let mut text = String::new();
    let mut i: usize = 0;
    assert(text@ + lossy_text(units@, 0) =~= lossy_text(units@, 0));
    while i < units.len()
        invariant
            i <= units@.len(),
            text@ + lossy_text(units@, i as int) == lossy_text(units@, 0),
        decreases units@.len() - i,
    {
        let unit: u16 = units[i];
        let ghost before = text@;
        let high: bool = 0xd800 <= unit && unit <= 0xdbff;
        let low: bool = 0xdc00 <= unit && unit <= 0xdfff;
        let next_low: bool = i + 1 < units.len() && 0xdc00 <= units[i + 1] && units[i + 1]
            <= 0xdfff;
        let mut value: u32 = unit as u32;
        let mut step: usize = 1;
        if high && next_low {
            value = 0x1_0000 + (unit as u32 - 0xd800) * 0x400 + (units[i + 1] as u32 - 0xdc00);
            step = 2;
        } else if high || low {
            value = 0xfffd;
        }
        assert(is_scalar(value));
        let c = match char::from_u32(value) {
            Some(c) => c,
            None => '\u{fffd}',
        };
        text.push(c);
        let ghost rest = lossy_text(units@, i + step);
        assert(lossy_text(units@, i as int) == seq![c] + rest);
        assert(text@ + rest =~= before + (seq![c] + rest));
        i += step;
    }
    assert(text@ + lossy_text(units@, i as int) =~= text@);
    text
}

proof fn lemma_scalar(c: char)
    ensures
        is_scalar(c as u32),
        (c as u32) as char == c,
        (c as u32) < 0x1_0000 ==> ((c as u32) as u16) == (c as u32) && ((c as u32) as u16) as char
            == c,
{
}

proof fn lemma_lossy_behind(a: Seq<u16>, b: Seq<u16>, from: int)
    requires
        0 <= from,
    ensures
        lossy_text(a + b, a.len() + from) == lossy_text(b, from),
    decreases b.len() - from,
{
    if from < b.len() {
        assert((a + b)[a.len() + from] == b[from]);
        if from + 1 < b.len() {
            assert((a + b)[a.len() + from + 1] == b[from + 1]);
            lemma_lossy_behind(a, b, from + 2);
        }
        lemma_lossy_behind(a, b, from + 1);
    }
}

proof fn lemma_utf16_first(text: Seq<char>, n: int)
    requires
        1 <= n <= text.len(),
    ensures
        utf16_of(text, n) == utf16_units(text[0] as u32) + utf16_of(text.skip(1), n - 1),
    decreases n,
{
    let rest = text.skip(1);
    if n == 1 {
        assert(utf16_of(text, 0) =~= Seq::<u16>::empty());
        assert(utf16_of(text, 1) =~= utf16_units(text[0] as u32) + utf16_of(rest, 0));
    } else {
        lemma_utf16_first(text, n - 1);
        assert(rest[n - 2] == text[n - 1]);
        assert(utf16_of(text, n) =~= utf16_units(text[0] as u32) + utf16_of(rest, n - 1));
    }
}

/// Decoding the UTF-16 form of a text gives the text back.
pub proof fn law_utf16_reads_back(text: Seq<char>)
    ensures
        lossy_text(utf16_of(text, text.len() as int), 0) == text,
    decreases text.len(),
{
    if text.len() == 0 {
        assert(text =~= Seq::<char>::empty());
    } else {
        let rest = text.skip(1);
        let first = utf16_units(text[0] as u32);
        let others = utf16_of(rest, rest.len() as int);
        lemma_scalar(text[0]);
        lemma_utf16_first(text, text.len() as int);
        law_utf16_reads_back(rest);
        lemma_lossy_behind(first, others, 0);
        let units = first + others;
        assert(units == utf16_of(text, text.len() as int));
        if (text[0] as u32) < 0x1_0000 {
            assert(units[0] == (text[0] as u32) as u16);
        } else {
            assert(units[0] == first[0] && units[1] == first[1]);
            assert(paired(first[0], first[1]) == text[0] as u32);
        }
        assert(lossy_text(units, 0) =~= seq![text[0]] + rest);
        assert(seq![text[0]] + rest =~= text);
    }
}

proof fn lemma_strip_start(a: Seq<char>, s: Seq<char>, drop: spec_fn(char) -> bool)
    requires
        forall|i: int| 0 <= i < a.len() ==> drop(#[trigger] a[i]),
        s.len() > 0 ==> !drop(s[0]),
    ensures
        strip_start(a + s, drop) == s,
    decreases a.len(),
{
    if a.len() == 0 {
        assert(a + s =~= s);
    } else {
        assert((a + s)[0] == a[0]);
        assert((a + s).drop_first() =~= a.drop_first() + s);
        lemma_strip_start(a.drop_first(), s, drop);
    }
}

proof fn lemma_strip_end(s: Seq<char>, b: Seq<char>, drop: spec_fn(char) -> bool)
    requires
        forall|i: int| 0 <= i < b.len() ==> drop(#[trigger] b[i]),
        s.len() > 0 ==> !drop(s.last()),
    ensures
        strip_end(s + b, drop) == s,
    decreases b.len(),
{
    if b.len() == 0 {
        assert(s + b =~= s);
    } else {
        assert((s + b).last() == b[b.len() - 1]);
        assert((s + b).drop_last() =~= s + b.drop_last());
        lemma_strip_end(s, b.drop_last(), drop);
    }
}

/// The core of a padded text is what is left when the padding is dropped.
proof fn lemma_core(a: Seq<char>, core: Seq<char>, b: Seq<char>, drop: spec_fn(char) -> bool)
    requires
        forall|i: int| 0 <= i < a.len() ==> drop(#[trigger] a[i]),
        forall|i: int| 0 <= i < b.len() ==> drop(#[trigger] b[i]),
        core.len() > 0 ==> !drop(core[0]) && !drop(core.last()),
    ensures
        strip_end(strip_start(a + core + b, drop), drop) == core,
{
    if core.len() > 0 {
        assert(a + core + b =~= a + (core + b));
        lemma_strip_start(a, core + b, drop);
        lemma_strip_end(core, b, drop);
    } else {
        let all = a + b;
        assert(a + core + b =~= all + Seq::<char>::empty());
        assert forall|i: int| 0 <= i < all.len() implies drop(#[trigger] all[i]) by {
            if i >= a.len() {
                assert(all[i] == b[i - a.len()]);
            }
        }
        lemma_strip_start(all, Seq::empty(), drop);
        assert(core =~= Seq::<char>::empty());
    }
}

/// Trimming takes the white space around a text away, and nothing else.
pub proof fn law_trimming_takes_padding_away(a: Seq<char>, core: Seq<char>, b: Seq<char>)
    requires
        forall|i: int| 0 <= i < a.len() ==> white_space(#[trigger] a[i]),
        forall|i: int| 0 <= i < b.len() ==> white_space(#[trigger] b[i]),
        core.len() > 0 ==> !white_space(core[0]) && !white_space(core.last()),
    ensures
        trimmed(a + core + b) == core,
{
    lemma_core(a, core, b, |c: char| white_space(c));
}

/// Stripping takes a character off both ends, however often it stands there,
/// and leaves those within.
pub proof fn law_stripping_takes_ends_away(a: Seq<char>, core: Seq<char>, b: Seq<char>, ch: char)
    requires
        forall|i: int| 0 <= i < a.len() ==> #[trigger] a[i] == ch,
        forall|i: int| 0 <= i < b.len() ==> #[trigger] b[i] == ch,
        core.len() > 0 ==> core[0] != ch && core.last() != ch,
    ensures
        stripped_of(a + core + b, ch) == core,
{
    lemma_core(a, core, b, only(ch));
}

/// Space, tab and the ends of lines are white space; no printed ASCII character
/// is.
pub proof fn law_white_space_of_ascii(c: char)
    ensures
        c == ' ' || c == '\t' || c == '\n' || c == '\r' ==> white_space(c),
        0x20 < c as u32 && (c as u32) < 0x7f ==> !white_space(c),
{
}

pub(crate) proof fn lemma_first_place(s: Seq<char>, ch: char, i: int)
    requires
        0 <= i <= s.len(),
    ensures
        i <= first_place(s, ch, i) <= s.len(),
        first_place(s, ch, i) < s.len() ==> s[first_place(s, ch, i)] == ch,
        forall|j: int| i <= j < first_place(s, ch, i) ==> #[trigger] s[j] != ch,
    decreases s.len() - i,
{
    if i < s.len() && s[i] != ch {
        lemma_first_place(s, ch, i + 1);
    }
}

/// A text is parted at the first place of a character: what is before it and
/// what is after it, put together again, are the text.
pub proof fn law_parting(s: Seq<char>, ch: char)
    ensures
        match parted_at(s, ch) {
            Some((head, tail)) => s == head + seq![ch] + tail && !head.contains(ch),
            None => !s.contains(ch),
        },
{
    lemma_first_place(s, ch, 0);
    if let Some((head, tail)) = parted_at(s, ch) {
        assert(s =~= head + seq![ch] + tail);
        if head.contains(ch) {
            let k = choose|k: int| 0 <= k < head.len() && head[k] == ch;
            assert(s[k] == ch);
        }
    }
}

/// A head without the character, the character and a tail are parted into head
/// and tail.
pub proof fn law_parted_back(head: Seq<char>, tail: Seq<char>, ch: char)
    requires
        !head.contains(ch),
    ensures
        parted_at(head + seq![ch] + tail, ch) == Some((head, tail)),
{
    let s = head + seq![ch] + tail;
    let n = head.len() as int;
    let at = first_place(s, ch, 0);
    lemma_first_place(s, ch, 0);
    assert(s[n] == ch);
    if at < n {
        assert(head[at] == ch);
        assert(head.contains(ch));
    }
    assert(at == n);
    assert(s.take(n) =~= head);
    assert(s.skip(n + 1) =~= tail);
}

/// Small and capital ASCII letters are the same but for case; any other
/// character is the same as itself alone.
pub proof fn law_same_but_case(a: char, b: char)
    ensures
        same_but_case(seq![a], seq![b]) <==> {
            ||| a == b
            ||| 0x41 <= a as u32 && a as u32 <= 0x5a && b as u32 == a as u32 + 0x20
            ||| 0x41 <= b as u32 && b as u32 <= 0x5a && a as u32 == b as u32 + 0x20
        },
{
    let one = seq![a];
    let two = seq![b];
    assert(one[0] == a && two[0] == b);
    if ascii_lower(a) == ascii_lower(b) {
        assert forall|i: int| 0 <= i < one.len() implies ascii_lower(#[trigger] one[i])
            == ascii_lower(two[i]) by {}
    }
}

/// A half of a pair that stands alone is read as a replacement character, and
/// what follows is read as if it stood by itself.
pub proof fn law_lone_half_is_replaced(units: Seq<u16>, from: int)
    requires
        0 <= from < units.len(),
        0xd800 <= units[from] <= 0xdfff,
        units[from] >= 0xdc00 || from + 1 == units.len() || !(0xdc00 <= units[from + 1] <= 0xdfff),
    ensures
        lossy_text(units, from) == seq!['\u{fffd}'] + lossy_text(units, from + 1),
{
}

/// A character has one unit of its own number below 0x10000; beyond, it has two, the
/// first from 0xd800 to 0xdbff and the second from 0xdc00 to 0xdfff, which hold ten
/// bits each of what is above 0x10000. Halves of pairs are no characters.
pub proof fn law_units_of_a_character(value: u32)
    requires
        is_scalar(value),
    ensures
        value < 0x1_0000 ==> utf16_units(value).len() == 1 && utf16_units(value)[0] == value,
        value >= 0x1_0000 ==> {
            let units = utf16_units(value);
            &&& units.len() == 2
            &&& 0xd800 <= units[0] <= 0xdbff
            &&& 0xdc00 <= units[1] <= 0xdfff
            &&& value == 0x1_0000 + (units[0] - 0xd800) * 1024 + (units[1] - 0xdc00)
        },
        value <= 0x10_ffff,
        !(0xd800 <= value <= 0xdfff),
{
}

/// Any number up to 0x10ffff is a character, but for the halves of pairs.
pub proof fn law_what_is_a_character(value: u32)
    ensures
        is_scalar(value) <==> value <= 0x10_ffff && !(0xd800 <= value <= 0xdfff),
{
}

/// A text in UTF-16 is its characters in UTF-16, one after the other.
pub proof fn law_units_of_a_text(text: Seq<char>, c: char)
    ensures
        utf16_of(Seq::empty(), 0).len() == 0,
        utf16_of(text.push(c), text.len() as int + 1) == utf16_of(text, text.len() as int)
            + utf16_units(c as u32),
{
    lemma_units_prefix(text, text.push(c), text.len() as int);
}

proof fn lemma_units_prefix(a: Seq<char>, b: Seq<char>, n: int)
    requires
        0 <= n <= a.len(),
        n <= b.len(),
        forall|i: int| 0 <= i < n ==> a[i] == b[i],
    ensures
        utf16_of(a, n) == utf16_of(b, n),
    decreases n,
{
    if n > 0 {
        lemma_units_prefix(a, b, n - 1);
    }
}

/// Beyond ASCII, the spaces of Unicode are white space and nothing else is.
pub proof fn law_white_space_beyond_ascii(c: char)
    requires
        c as u32 > 0x7f,
    ensures
        white_space(c) <==> {
            ||| c == '\u{85}'
            ||| c == '\u{a0}'
            ||| c == '\u{1680}'
            ||| c == '\u{2000}'
            ||| c == '\u{2001}'
            ||| c == '\u{2002}'
            ||| c == '\u{2003}'
            ||| c == '\u{2004}'
            ||| c == '\u{2005}'
            ||| c == '\u{2006}'
            ||| c == '\u{2007}'
            ||| c == '\u{2008}'
            ||| c == '\u{2009}'
            ||| c == '\u{200a}'
            ||| c == '\u{2028}'
            ||| c == '\u{2029}'
            ||| c == '\u{202f}'
            ||| c == '\u{205f}'
            ||| c == '\u{3000}'
        },
{
}

/// Below that, white space is what moves the cursor from 9 to 13, and the space.
pub proof fn law_white_space_of_controls(c: char)
    requires
        c as u32 <= 0x20 || c as u32 == 0x7f,
    ensures
        white_space(c) <==> 9 <= c as u32 && c as u32 <= 13 || c == ' ',
{
}

} // verus!

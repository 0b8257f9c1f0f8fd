//! Variable-font axis settings and OpenType feature settings as users write
//! them.
//!
//! An axis value is a single-precision number and is carried as its bit
//! pattern.
use crate::font::types::Style;
use crate::text::{chars_of, parted_at, slice_of, split_once, string_of, trim, trimmed};
use vstd::prelude::*;

verus! {

/// The weight axis, `wght`.
pub const AXIS_TAG_WEIGHT: u32 = 0x74686777;

/// The italic axis, `ital`.
pub const AXIS_TAG_ITALIC: u32 = 0x6c617469;

/// The slant axis, `slnt`.
pub const AXIS_TAG_SLANT: u32 = 0x746e6c73;

/// Standard ligatures, `liga`.
pub const FEATURE_TAG_STANDARD_LIGATURES: u32 = 0x6167696c;

/// Contextual ligatures, `clig`.
pub const FEATURE_TAG_CONTEXTUAL_LIGATURES: u32 = 0x67696c63;

/// Contextual alternates, `calt`.
pub const FEATURE_TAG_CONTEXTUAL_ALTERNATES: u32 = 0x746c6163;

/// The bit pattern of 0.
pub const BITS_ZERO: u32 = 0;

/// The bit pattern of 1.
pub const BITS_ONE: u32 = 0x3f800000;

/// The bit pattern of -1, which stands for a value that was not set.
pub const BITS_UNSET: u32 = 0xbf800000;

/// The bit pattern of 700, the weight of a bold face.
pub const BITS_BOLD_WEIGHT: u32 = 0x442f0000;

/// The bit pattern of -12, the slant of an italic face in degrees.
pub const BITS_ITALIC_SLANT: u32 = 0xc1400000;

/// A value for one axis of a variable font.
#[derive(Clone, Copy, Debug, PartialEq, Eq, Structural)]
pub struct FontAxisValue {
    pub tag: u32,
    /// Bit pattern of the single-precision value.
    pub value_bits: u32,
}

/// A value for one OpenType feature.
#[derive(Clone, Copy, Debug, PartialEq, Eq, Structural)]
pub struct FontFeature {
    pub tag: u32,
    pub parameter: u32,
}

/// Whether a bit pattern is that of a number not below zero: no sign and not
/// a NaN, or negative zero.
pub open spec fn at_least_zero(bits: u32) -> bool {
    bits <= 0x7f80_0000 || bits == 0x8000_0000
}

/// The bit pattern of the number `scaled * 2^(exponent - 150)`, where `scaled`
/// has at most 24 bits.
pub open spec fn bits_from(scaled: int, exponent: int) -> int
    decreases 0x100_0000 - scaled,
{
    if scaled <= 0 {
        0
    } else if scaled < 0x80_0000 {
        bits_from(2 * scaled, exponent - 1)
    } else {
        exponent * 0x80_0000 + (scaled - 0x80_0000)
    }
}

/// The bit pattern of a whole number.
pub open spec fn whole_number_bits(n: u16) -> int {
    bits_from(n as int, 150)
}

proof fn lemma_bits_from(scaled: int, exponent: int) -> (k: nat)
    requires
        0 < scaled < 0x100_0000,
    ensures
        ({
            let bits = bits_from(scaled, exponent);
            &&& bits == (exponent - k) * 0x80_0000 + (scaled * vstd::arithmetic::power2::pow2(k)
                - 0x80_0000)
            &&& 0x80_0000 <= scaled * vstd::arithmetic::power2::pow2(k) < 0x100_0000
        }),
    decreases 0x100_0000 - scaled,
{
    vstd::arithmetic::power2::lemma2_to64();
    if scaled < 0x80_0000 {
        let k = lemma_bits_from(2 * scaled, exponent - 1);
        vstd::arithmetic::power2::lemma_pow2_unfold(k + 1);
        assert(2 * scaled * vstd::arithmetic::power2::pow2(k) == scaled
            * vstd::arithmetic::power2::pow2(k + 1)) by (nonlinear_arith)
            requires
                vstd::arithmetic::power2::pow2(k + 1) == 2 * vstd::arithmetic::power2::pow2(k),
        ;
        k + 1
    } else {
        0
    }
}

/// The bit pattern of a whole number other than zero has a significand
/// `1.fraction` and an exponent that give that number back: scaled by a power
/// of two it is the significand with its leading one.
pub proof fn law_whole_number_bits(n: u16)
    requires
        n > 0,
    ensures
        exists|k: nat|
            {
                let bits = whole_number_bits(n);
                &&& bits / 0x80_0000 == 150 - k
                &&& n * #[trigger] vstd::arithmetic::power2::pow2(k) == 0x80_0000 + bits % 0x80_0000
            },
{
    let k = lemma_bits_from(n as int, 150);
    let bits = whole_number_bits(n);
    let scaled = n * vstd::arithmetic::power2::pow2(k);
    vstd::arithmetic::div_mod::lemma_fundamental_div_mod_converse(
        bits,
        0x80_0000,
        150 - k,
        scaled - 0x80_0000,
    );
}

/// The bit pattern of a whole number.
fn bits_of_whole_number(n: u16) -> (bits: u32)
    ensures
        bits == whole_number_bits(n),
{
    if n == 0 {
        return 0;
    }
    let mut scaled: u32 = n as u32;
    let mut exponent: u32 = 150;
    proof {
        vstd::arithmetic::power2::lemma2_to64();
    }
    while scaled < 0x80_0000
        invariant
            0 < scaled < 0x100_0000,
            127 <= exponent <= 150,
            scaled as int >= vstd::arithmetic::power2::pow2((150 - exponent) as nat),
            bits_from(scaled as int, exponent as int) == whole_number_bits(n),
        decreases 0x100_0000 - scaled,
    {
        proof {
            vstd::arithmetic::power2::lemma2_to64();
            if exponent == 127 {
                assert(vstd::arithmetic::power2::pow2(23) == 0x80_0000);
            }
            vstd::arithmetic::power2::lemma_pow2_unfold((150 - exponent + 1) as nat);
        }
        scaled = scaled * 2;
        exponent = exponent - 1;
    }
    exponent * 0x80_0000 + (scaled - 0x80_0000)
}

/// A number doubled `k` times.
pub open spec fn doubled(n: int, k: int) -> int
    decreases k,
{
    if k <= 0 {
        n
    } else {
        doubled(2 * n, k - 1)
    }
}

/// A number halved `k` times, dropping what is left over each time.
pub open spec fn halved(n: int, k: int) -> int
    decreases k,
{
    if k <= 0 {
        n
    } else {
        halved(n / 2, k - 1)
    }
}

/// The whole part of the number with a bit pattern, as far as 64 bits with a
/// sign go: what lies beyond is the largest or the smallest, and what is no
/// number is 0. The pattern is a sign, eight bits of exponent and 23 bits of
/// fraction.
pub open spec fn whole_part(bits: u32) -> int {
    let negative = bits >= 0x8000_0000;
    let exponent = (bits / 0x80_0000) as int % 256;
    let fraction = bits as int % 0x80_0000;
    let significand = 0x80_0000 + fraction;
    let magnitude = if exponent < 127 {
        0
    } else if exponent < 150 {
        halved(significand, 150 - exponent)
    } else {
        doubled(significand, exponent - 150)
    };
    if exponent == 255 && fraction != 0 {
        0
    } else if exponent >= 190 {
        if negative {
            i64::MIN as int
        } else {
            i64::MAX as int
        }
    } else if negative {
        -magnitude
    } else {
        magnitude
    }
}

/// The whole part of the number with a bit pattern.
pub fn truncate_bits(bits: u32) -> (whole: i64)
    ensures
        whole == whole_part(bits),
{
    let negative: bool = bits >= 0x8000_0000;
    let exponent: u32 = (bits / 0x80_0000) % 256;
    let fraction: u32 = bits % 0x80_0000;
    if exponent == 255 && fraction != 0 {
        return 0;
    }
    if exponent >= 190 {
        return if negative {
            i64::MIN
        } else {
            i64::MAX
        };
    }
    let significand: i64 = 0x80_0000 + fraction as i64;
    let mut magnitude: i64 = significand;
    if exponent < 127 {
        magnitude = 0;
    } else if exponent < 150 {
        let mut left: u32 = 150 - exponent;
        while left > 0
            invariant
                0 <= magnitude <= significand,
                left <= 23,
                halved(significand as int, 150 - exponent) == halved(
                    magnitude as int,
                    left as int,
                ),
            decreases left,
        {
            magnitude = magnitude / 2;
            left = left - 1;
        }
    } else {
        let mut left: u32 = exponent - 150;
        let ghost mut limit: int = 0x100_0000;
        proof {
            vstd::arithmetic::power2::lemma2_to64_rest();
            if left < 39 {
                vstd::arithmetic::power2::lemma_pow2_strictly_increases(left as nat, 39);
            }
        }
        while left > 0
            invariant
                0 <= magnitude < limit,
                left <= 39,
                limit * vstd::arithmetic::power2::pow2(left as nat) <= 0x7fff_ffff_ffff_ffff + 1,
                limit >= 1,
                doubled(significand as int, exponent - 150) == doubled(
                    magnitude as int,
                    left as int,
                ),
            decreases left,
        {
            proof {
                vstd::arithmetic::power2::lemma_pow2_unfold(left as nat);
                vstd::arithmetic::power2::lemma_pow2_pos((left - 1) as nat);
                let rest = vstd::arithmetic::power2::pow2((left - 1) as nat);
                assert(limit * (2 * rest) == (2 * limit) * rest) by (nonlinear_arith);
                assert(2 * limit <= (2 * limit) * rest) by (nonlinear_arith)
                    requires
                        limit >= 1,
                        rest >= 1,
                ;
                limit = 2 * limit;
            }
            magnitude = magnitude * 2;
            left = left - 1;
        }
    }
    if negative {
        -magnitude
    } else {
        magnitude
    }
}

/// The place of the first entry for `tag` from `i` on, or the length.
pub open spec fn axis_place(values: Seq<FontAxisValue>, tag: u32, i: int) -> int
    decreases values.len() - i,
{
    if i < 0 || i >= values.len() {
        values.len() as int
    } else if values[i].tag == tag {
        i
    } else {
        axis_place(values, tag, i + 1)
    }
}

/// The bit pattern of the first value for `tag`.
pub open spec fn axis_lookup(values: Seq<FontAxisValue>, tag: u32) -> Option<u32> {
    let at = axis_place(values, tag, 0);
    if at < values.len() {
        Some(values[at].value_bits)
    } else {
        None
    }
}

/// The values with that of `tag` replaced, or added at the end.
pub open spec fn with_axis(
    values: Seq<FontAxisValue>,
    tag: u32,
    value_bits: u32,
) -> Seq<FontAxisValue> {
    let at = axis_place(values, tag, 0);
    if at < values.len() {
        values.update(at, FontAxisValue { tag, value_bits })
    } else {
        values.push(FontAxisValue { tag, value_bits })
    }
}

fn find_axis(values: &Vec<FontAxisValue>, tag: u32) -> (at: usize)
    ensures
        at == axis_place(values@, tag, 0),
        at <= values.len(),
        at < values.len() ==> values@[at as int].tag == tag,
{
    let mut i: usize = 0;
    while i < values.len() && values[i].tag != tag
        invariant
            i <= values.len(),
            axis_place(values@, tag, 0) == axis_place(values@, tag, i as int),
        decreases values.len() - i,
    {
        i += 1;
    }
    i
}

fn axis_value(values: &Vec<FontAxisValue>, tag: u32) -> (value_bits: Option<u32>)
    ensures
        value_bits == axis_lookup(values@, tag),
{
    let at = find_axis(values, tag);
    if at < values.len() {
        Some(values[at].value_bits)
    } else {
        None
    }
}

fn ensure_or_set_axis(values: &mut Vec<FontAxisValue>, tag: u32, value_bits: u32)
    ensures
        final(values)@ == with_axis(old(values)@, tag, value_bits),
{
    let at = find_axis(values, tag);
    if at < values.len() {
        values.set(at, FontAxisValue { tag, value_bits });
    } else {
        values.push(FontAxisValue { tag, value_bits });
    }
}

/// A value that was set and is not below zero, or the fallback.
pub open spec fn set_or(value: Option<u32>, fallback: u32) -> u32 {
    match value {
        Some(bits) => if at_least_zero(bits) {
            bits
        } else {
            fallback
        },
        None => fallback,
    }
}

fn chosen_or(value: Option<u32>, fallback: u32) -> (bits: u32)
    ensures
        bits == set_or(value, fallback),
{
    match value {
        Some(bits) => if bits <= 0x7f80_0000 || bits == 0x8000_0000 {
            bits
        } else {
            fallback
        },
        None => fallback,
    }
}

/// The axis values of a style variant: a bold variant has the bold weight, an
/// italic one is italic and slanted, and what the settings leave open takes
/// its default.
pub open spec fn variant_axes(
    values: Seq<FontAxisValue>,
    variant: Style,
    default_weight: u16,
) -> Seq<FontAxisValue> {
    let bold = variant is Bold || variant is BoldItalic;
    let italic = variant is Italic || variant is BoldItalic;
    let weight = if bold {
        BITS_BOLD_WEIGHT
    } else {
        set_or(axis_lookup(values, AXIS_TAG_WEIGHT), whole_number_bits(default_weight) as u32)
    };
    let weighted = with_axis(values, AXIS_TAG_WEIGHT, weight);
    let ital = if italic {
        BITS_ONE
    } else {
        set_or(axis_lookup(weighted, AXIS_TAG_ITALIC), BITS_ZERO)
    };
    let inclined = with_axis(weighted, AXIS_TAG_ITALIC, ital);
    let slant = if italic {
        BITS_ITALIC_SLANT
    } else {
        set_or(axis_lookup(inclined, AXIS_TAG_SLANT), BITS_ZERO)
    };
    with_axis(inclined, AXIS_TAG_SLANT, slant)
}

/// Gives the axis values those of a style variant.
pub fn apply_variant_axis_defaults(
    values: &mut Vec<FontAxisValue>,
    variant: Style,
    default_weight: u16,
)
    ensures
        final(values)@ == variant_axes(old(values)@, variant, default_weight),
{
    let weight: u32 = if variant.is_bold() {
        BITS_BOLD_WEIGHT
    } else {
        chosen_or(axis_value(values, AXIS_TAG_WEIGHT), bits_of_whole_number(default_weight))
    };
    ensure_or_set_axis(values, AXIS_TAG_WEIGHT, weight);
    let ital: u32 = if variant.is_italic() {
        BITS_ONE
    } else {
        chosen_or(axis_value(values, AXIS_TAG_ITALIC), BITS_ZERO)
    };
    ensure_or_set_axis(values, AXIS_TAG_ITALIC, ital);
    let slant: u32 = if variant.is_italic() {
        BITS_ITALIC_SLANT
    } else {
        chosen_or(axis_value(values, AXIS_TAG_SLANT), BITS_ZERO)
    };
    ensure_or_set_axis(values, AXIS_TAG_SLANT, slant);
}

pub(crate) proof fn lemma_axis_place(values: Seq<FontAxisValue>, tag: u32, i: int)
    requires
        0 <= i <= values.len(),
    ensures
        i <= axis_place(values, tag, i) <= values.len(),
        axis_place(values, tag, i) < values.len() ==> values[axis_place(values, tag, i)].tag == tag,
        forall|j: int| i <= j < axis_place(values, tag, i) ==> (#[trigger] values[j]).tag != tag,
    decreases values.len() - i,
{
    if i < values.len() && values[i].tag != tag {
        lemma_axis_place(values, tag, i + 1);
    }
}

proof fn lemma_axis_place_is(values: Seq<FontAxisValue>, tag: u32, i: int, at: int)
    requires
        0 <= i <= at <= values.len(),
        at < values.len() ==> values[at].tag == tag,
        forall|j: int| i <= j < at ==> (#[trigger] values[j]).tag != tag,
    ensures
        axis_place(values, tag, i) == at,
    decreases at - i,
{
    if i < at {
        lemma_axis_place_is(values, tag, i + 1, at);
    }
}

/// Setting an axis gives it the value and leaves every other axis alone.
pub proof fn law_setting_an_axis(
    values: Seq<FontAxisValue>,
    tag: u32,
    value_bits: u32,
    other: u32,
)
    ensures
        axis_lookup(with_axis(values, tag, value_bits), tag) == Some(value_bits),
        other != tag ==> axis_lookup(with_axis(values, tag, value_bits), other) == axis_lookup(
            values,
            other,
        ),
{
    let after = with_axis(values, tag, value_bits);
    let at = axis_place(values, tag, 0);
    lemma_axis_place(values, tag, 0);
    lemma_axis_place_is(after, tag, 0, at);
    if other != tag {
        let o = axis_place(values, other, 0);
        lemma_axis_place(values, other, 0);
        if o < values.len() {
            lemma_axis_place_is(after, other, 0, o);
        } else {
            lemma_axis_place_is(after, other, 0, after.len() as int);
        }
    }
}

/// A bold variant has the bold weight whatever was set; an italic variant is
/// italic and slanted whatever was set; every axis of the variants has a value
/// in the end.
pub proof fn law_variant_axes(values: Seq<FontAxisValue>, variant: Style, default_weight: u16)
    ensures
        variant is Bold || variant is BoldItalic ==> axis_lookup(
            variant_axes(values, variant, default_weight),
            AXIS_TAG_WEIGHT,
        ) == Some(BITS_BOLD_WEIGHT),
        variant is Italic || variant is BoldItalic ==> axis_lookup(
            variant_axes(values, variant, default_weight),
            AXIS_TAG_ITALIC,
        ) == Some(BITS_ONE) && axis_lookup(
            variant_axes(values, variant, default_weight),
            AXIS_TAG_SLANT,
        ) == Some(BITS_ITALIC_SLANT),
        variant is Normal || variant is Italic ==> axis_lookup(
            variant_axes(values, variant, default_weight),
            AXIS_TAG_WEIGHT,
        ) == Some(
            set_or(axis_lookup(values, AXIS_TAG_WEIGHT), whole_number_bits(default_weight) as u32),
        ),
        variant is Normal || variant is Bold ==> axis_lookup(
            variant_axes(values, variant, default_weight),
            AXIS_TAG_ITALIC,
        ) == Some(set_or(axis_lookup(values, AXIS_TAG_ITALIC), BITS_ZERO)) && axis_lookup(
            variant_axes(values, variant, default_weight),
            AXIS_TAG_SLANT,
        ) == Some(set_or(axis_lookup(values, AXIS_TAG_SLANT), BITS_ZERO)),
{
    let bold = variant is Bold || variant is BoldItalic;
    let italic = variant is Italic || variant is BoldItalic;
    let weight = if bold {
        BITS_BOLD_WEIGHT
    } else {
        set_or(axis_lookup(values, AXIS_TAG_WEIGHT), whole_number_bits(default_weight) as u32)
    };
    let weighted = with_axis(values, AXIS_TAG_WEIGHT, weight);
    law_setting_an_axis(values, AXIS_TAG_WEIGHT, weight, AXIS_TAG_ITALIC);
    law_setting_an_axis(values, AXIS_TAG_WEIGHT, weight, AXIS_TAG_SLANT);
    let ital = if italic {
        BITS_ONE
    } else {
        set_or(axis_lookup(weighted, AXIS_TAG_ITALIC), BITS_ZERO)
    };
    let inclined = with_axis(weighted, AXIS_TAG_ITALIC, ital);
    law_setting_an_axis(weighted, AXIS_TAG_ITALIC, ital, AXIS_TAG_WEIGHT);
    law_setting_an_axis(weighted, AXIS_TAG_ITALIC, ital, AXIS_TAG_SLANT);
    let slant = if italic {
        BITS_ITALIC_SLANT
    } else {
        set_or(axis_lookup(inclined, AXIS_TAG_SLANT), BITS_ZERO)
    };
    law_setting_an_axis(inclined, AXIS_TAG_SLANT, slant, AXIS_TAG_WEIGHT);
    law_setting_an_axis(inclined, AXIS_TAG_SLANT, slant, AXIS_TAG_ITALIC);
}

/// The tag of four ASCII characters, the first in the lowest byte.
pub open spec fn tag4(s: Seq<char>) -> Option<u32> {
    if s.len() == 4 && forall|i: int| 0 <= i < 4 ==> (#[trigger] s[i]) as u32 <= 0x7f {
        Some((s[0] as u32 + (s[1] as u32) * 0x100 + (s[2] as u32) * 0x1_0000 + (s[3] as u32)
            * 0x100_0000) as u32)
    } else {
        None
    }
}

/// Reads a tag of four ASCII characters.
pub fn parse_tag4(tag: &Vec<char>) -> (value: Option<u32>)
    ensures
        value == tag4(tag@),
{
    if tag.len() != 4 {
        return None;
    }
    let a: u32 = tag[0] as u32;
    let b: u32 = tag[1] as u32;
    let c: u32 = tag[2] as u32;
    let d: u32 = tag[3] as u32;
    if a > 0x7f || b > 0x7f || c > 0x7f || d > 0x7f {
        assert(tag@[0] as u32 > 0x7f || tag@[1] as u32 > 0x7f || tag@[2] as u32 > 0x7f
            || tag@[3] as u32 > 0x7f);
        return None;
    }
    proof {
        assert forall|i: int| 0 <= i < 4 implies (#[trigger] tag@[i]) as u32 <= 0x7f by {
            assert(i == 0 || i == 1 || i == 2 || i == 3);
        }
    }
    Some(a + b * 0x100 + c * 0x1_0000 + d * 0x100_0000)
}

/// The list that axis settings start from: the axes of the variants, unset.
pub open spec fn seeded_axes() -> Seq<FontAxisValue> {
    seq![
        FontAxisValue { tag: AXIS_TAG_WEIGHT, value_bits: BITS_UNSET },
        FontAxisValue { tag: AXIS_TAG_ITALIC, value_bits: BITS_UNSET },
        FontAxisValue { tag: AXIS_TAG_SLANT, value_bits: BITS_UNSET },
    ]
}

/// The text that a setting such as `wght=700` gives for its value.
pub open spec fn axis_value_text(entry: Seq<char>) -> Option<Seq<char>> {
    match parted_at(trimmed(entry), '=') {
        Some((_, value)) => Some(trimmed(value)),
        None => None,
    }
}

/// What one setting does to the axis values. `number` is its value, if its
/// value text is a number.
pub open spec fn axes_after(
    values: Seq<FontAxisValue>,
    entry: Seq<char>,
    number: Option<u32>,
) -> Seq<FontAxisValue> {
    match parted_at(trimmed(entry), '=') {
        Some((tag, _)) => match tag4(trimmed(tag)) {
            Some(tag) => match number {
                Some(value_bits) => with_axis(values, tag, value_bits),
                None => values,
            },
            None => values,
        },
        None => values,
    }
}

/// Whether any of the first `n` entries says anything.
pub open spec fn any_entry(entries: Seq<&str>, n: int) -> bool {
    exists|i: int| 0 <= i < n && trimmed((#[trigger] entries[i])@).len() > 0
}

/// The axis values after the first `n` settings.
pub open spec fn axes_of(entries: Seq<&str>, numbers: Seq<Option<u32>>, n: int) -> Seq<
    FontAxisValue,
>
    decreases n,
{
    if n <= 0 {
        Seq::empty()
    } else {
        let before = axes_of(entries, numbers, n - 1);
        if trimmed(entries[n - 1]@).len() == 0 {
            before
        } else if any_entry(entries, n - 1) {
            axes_after(before, entries[n - 1]@, numbers[n - 1])
        } else {
            axes_after(seeded_axes(), entries[n - 1]@, numbers[n - 1])
        }
    }
}

/// Values for the axes of a variable font.
#[derive(Clone, Debug)]
pub struct FontAxisSpec {
    pub values: Vec<FontAxisValue>,
}

impl Default for FontAxisSpec {
    fn default() -> (spec_: FontAxisSpec)
        ensures
            spec_.values@ == Seq::<FontAxisValue>::empty(),
    {
        FontAxisSpec { values: Vec::new() }
    }
}

impl FontAxisSpec {
    /// The text of a setting's value, without surrounding white space.
    pub fn value_text(entry: &str) -> (text: Option<String>)
        ensures
            match text {
                Some(text) => axis_value_text(entry@) == Some(text@),
                None => axis_value_text(entry@) is None,
            },
    {
        let item = trim(&chars_of(entry));
        match split_once(&item, '=') {
            Some((_, value)) => Some(string_of(&trim(&value))),
            None => None,
        }
    }

    /// Reads settings such as `wght=700`, `ital=1`, `slnt=-12` or `opsz=13.5`.
    ///
    /// `numbers` holds, for each entry, the bit pattern of the number that its
    /// value text spells, if it spells one. The first entry that says anything
    /// seeds the axes of the variants with an unset value. Entries with a bad
    /// tag or value are passed over.
    pub fn parse(entries: &[&str], numbers: &[Option<u32>]) -> (spec_: FontAxisSpec)
        requires
            entries.len() == numbers.len(),
        ensures
            spec_.values@ == axes_of(entries@, numbers@, entries@.len() as int),
    {
        let mut values: Vec<FontAxisValue> = Vec::new();
        let mut saw_non_empty: bool = false;
        let mut i: usize = 0;
        while i < entries.len()
            invariant
                entries.len() == numbers.len(),
                i <= entries.len(),
                saw_non_empty == any_entry(entries@, i as int),
                values@ == axes_of(entries@, numbers@, i as int),
            decreases entries.len() - i,
        {
            let item = trim(&chars_of(entries[i]));
            proof {
                assert(any_entry(entries@, i + 1) == (any_entry(entries@, i as int) || trimmed(
                    entries@[i as int]@,
                ).len() > 0));
            }
            if item.len() > 0 {
                if !saw_non_empty {
                    saw_non_empty = true;
                    values = Vec::new();
                    values.push(
                        FontAxisValue { tag: AXIS_TAG_WEIGHT, value_bits: BITS_UNSET },
                    );
                    values.push(
                        FontAxisValue { tag: AXIS_TAG_ITALIC, value_bits: BITS_UNSET },
                    );
                    values.push(FontAxisValue { tag: AXIS_TAG_SLANT, value_bits: BITS_UNSET });
                    assert(values@ =~= seeded_axes());
                }
                if let Some((raw_tag, _)) = split_once(&item, '=') {
                    if let Some(tag) = parse_tag4(&trim(&raw_tag)) {
                        if let Some(value_bits) = numbers[i] {
                            ensure_or_set_axis(&mut values, tag, value_bits);
                        }
                    }
                }
            }
            i += 1;
        }
        FontAxisSpec { values }
    }

    /// Fills `out` with the values that apply to a style variant.
    pub fn resolve_with_variant_defaults_into(
        &self,
        variant: Style,
        default_weight: u16,
        out: &mut Vec<FontAxisValue>,
    )
        ensures
            final(out)@ == variant_axes(self.values@, variant, default_weight),
    {
        out.clear();
        let mut i: usize = 0;
        while i < self.values.len()
            invariant
                i <= self.values.len(),
                out@ == self.values@.take(i as int),
            decreases self.values.len() - i,
        {
            out.push(self.values[i]);
            assert(self.values@.take(i + 1) =~= self.values@.take(i as int).push(
                self.values@[i as int],
            ));
            i += 1;
        }
        assert(self.values@.take(self.values@.len() as int) =~= self.values@);
        apply_variant_axis_defaults(out, variant, default_weight);
    }
}

/// The place of the first entry for `tag` from `i` on, or the length.
pub open spec fn feature_place(features: Seq<FontFeature>, tag: u32, i: int) -> int
    decreases features.len() - i,
{
    if i < 0 || i >= features.len() {
        features.len() as int
    } else if features[i].tag == tag {
        i
    } else {
        feature_place(features, tag, i + 1)
    }
}

/// The features with the parameter of `tag` replaced, or added at the end.
pub open spec fn with_feature(features: Seq<FontFeature>, tag: u32, parameter: u32) -> Seq<
    FontFeature,
> {
    let at = feature_place(features, tag, 0);
    if at < features.len() {
        features.update(at, FontFeature { tag, parameter })
    } else {
        features.push(FontFeature { tag, parameter })
    }
}

/// Sets the parameter of a feature, adding the feature if it is missing.
pub fn ensure_or_set_feature(features: &mut Vec<FontFeature>, tag: u32, parameter: u32)
    ensures
        final(features)@ == with_feature(old(features)@, tag, parameter),
{
    let mut i: usize = 0;
    while i < features.len() && features[i].tag != tag
        invariant
            i <= features.len(),
            features@ == old(features)@,
            feature_place(features@, tag, 0) == feature_place(features@, tag, i as int),
        decreases features.len() - i,
    {
        i += 1;
    }
    if i < features.len() {
        features.set(i, FontFeature { tag, parameter });
    } else {
        features.push(FontFeature { tag, parameter });
    }
}

/// The list that feature settings start from: the ligatures, switched on.
pub open spec fn seeded_features() -> Seq<FontFeature> {
    seq![
        FontFeature { tag: FEATURE_TAG_STANDARD_LIGATURES, parameter: 1 },
        FontFeature { tag: FEATURE_TAG_CONTEXTUAL_LIGATURES, parameter: 1 },
        FontFeature { tag: FEATURE_TAG_CONTEXTUAL_ALTERNATES, parameter: 1 },
    ]
}

/// The tag and parameter that a setting names: `+liga` and `liga` switch on,
/// `-liga` switches off, `calt=0` gives a number. `number` is the parameter
/// for an entry with a value, if its value text is a number.
pub open spec fn feature_setting(entry: Seq<char>, number: Option<u32>) -> Option<(u32, u32)> {
    let item = trimmed(entry);
    if item.len() > 0 && (item[0] == '+' || item[0] == '-') {
        match tag4(trimmed(item.drop_first())) {
            Some(tag) => Some(
                (
                    tag,
                    if item[0] == '+' {
                        1u32
                    } else {
                        0u32
                    },
                ),
            ),
            None => None,
        }
    } else {
        match parted_at(item, '=') {
            Some((tag, _)) => match (tag4(trimmed(tag)), number) {
                (Some(tag), Some(parameter)) => Some((tag, parameter)),
                _ => None,
            },
            None => match tag4(trimmed(item)) {
                Some(tag) => Some((tag, 1u32)),
                None => None,
            },
        }
    }
}

/// The text that a setting such as `calt=0` gives for its value.
pub open spec fn feature_value_text(entry: Seq<char>) -> Option<Seq<char>> {
    let item = trimmed(entry);
    if item.len() > 0 && (item[0] == '+' || item[0] == '-') {
        None
    } else {
        match parted_at(item, '=') {
            Some((_, value)) => Some(trimmed(value)),
            None => None,
        }
    }
}

/// What one setting does to the features.
pub open spec fn features_after(
    features: Seq<FontFeature>,
    entry: Seq<char>,
    number: Option<u32>,
) -> Seq<FontFeature> {
    match feature_setting(entry, number) {
        Some((tag, parameter)) => with_feature(features, tag, parameter),
        None => features,
    }
}

/// The features after the first `n` settings.
pub open spec fn features_of(entries: Seq<&str>, numbers: Seq<Option<u32>>, n: int) -> Seq<
    FontFeature,
>
    decreases n,
{
    if n <= 0 {
        Seq::empty()
    } else {
        let before = features_of(entries, numbers, n - 1);
        if trimmed(entries[n - 1]@).len() == 0 {
            before
        } else if any_entry(entries, n - 1) {
            features_after(before, entries[n - 1]@, numbers[n - 1])
        } else {
            features_after(seeded_features(), entries[n - 1]@, numbers[n - 1])
        }
    }
}

/// OpenType features and their parameters.
#[derive(Clone, Debug)]
pub struct FontFeatureSpec {
    pub features: Vec<FontFeature>,
}

impl Default for FontFeatureSpec {
    fn default() -> (spec_: FontFeatureSpec)
        ensures
            spec_.features@ == Seq::<FontFeature>::empty(),
    {
        FontFeatureSpec { features: Vec::new() }
    }
}

impl FontFeatureSpec {
    /// The text of a setting's value, without surrounding white space.
    pub fn value_text(entry: &str) -> (text: Option<String>)
        ensures
            match text {
                Some(text) => feature_value_text(entry@) == Some(text@),
                None => feature_value_text(entry@) is None,
            },
    {
        let item = trim(&chars_of(entry));
        if item.len() > 0 && (item[0] == '+' || item[0] == '-') {
            return None;
        }
        match split_once(&item, '=') {
            Some((_, value)) => Some(string_of(&trim(&value))),
            None => None,
        }
    }

    /// Reads one entry that says something.
    fn parse_entry(item: &Vec<char>, number: Option<u32>, Ghost(entry): Ghost<Seq<char>>) -> (setting:
        Option<(u32, u32)>)
        requires
            item@ == trimmed(entry),
            item@.len() > 0,
        ensures
            setting == feature_setting(entry, number),
    {
        if item[0] == '+' || item[0] == '-' {
            let on: bool = item[0] == '+';
            let rest = slice_of(item, 1, item.len());
            assert(rest@ =~= item@.drop_first());
            return match parse_tag4(&trim(&rest)) {
                Some(tag) => Some(
                    (
                        tag,
                        if on {
                            1u32
                        } else {
                            0u32
                        },
                    ),
                ),
                None => None,
            };
        }
        match split_once(item, '=') {
            Some((raw_tag, _)) => match (parse_tag4(&trim(&raw_tag)), number) {
                (Some(tag), Some(parameter)) => Some((tag, parameter)),
                _ => None,
            },
            None => match parse_tag4(&trim(item)) {
                Some(tag) => Some((tag, 1u32)),
                None => None,
            },
        }
    }

    /// Reads settings such as `liga`, `+liga`, `-liga`, `calt=0` or `ss01=1`.
    ///
    /// `numbers` holds, for each entry, the parameter that its value text
    /// spells, if it spells a number. The first entry that says anything seeds
    /// the ligature features as enabled. Entries with a bad tag or value are
    /// passed over.
    pub fn parse(entries: &[&str], numbers: &[Option<u32>]) -> (spec_: FontFeatureSpec)
        requires
            entries.len() == numbers.len(),
        ensures
            spec_.features@ == features_of(entries@, numbers@, entries@.len() as int),
    {
        let mut features: Vec<FontFeature> = Vec::new();
        let mut saw_non_empty: bool = false;
        let mut i: usize = 0;
        while i < entries.len()
            invariant
                entries.len() == numbers.len(),
                i <= entries.len(),
                saw_non_empty == any_entry(entries@, i as int),
                features@ == features_of(entries@, numbers@, i as int),
            decreases entries.len() - i,
        {
            let item = trim(&chars_of(entries[i]));
            proof {
                assert(any_entry(entries@, i + 1) == (any_entry(entries@, i as int) || trimmed(
                    entries@[i as int]@,
                ).len() > 0));
            }
            if item.len() > 0 {
                if !saw_non_empty {
                    saw_non_empty = true;
                    features = Vec::new();
                    features.push(
                        FontFeature { tag: FEATURE_TAG_STANDARD_LIGATURES, parameter: 1 },
                    );
                    features.push(
                        FontFeature { tag: FEATURE_TAG_CONTEXTUAL_LIGATURES, parameter: 1 },
                    );
                    features.push(
                        FontFeature { tag: FEATURE_TAG_CONTEXTUAL_ALTERNATES, parameter: 1 },
                    );
                    assert(features@ =~= seeded_features());
                }
                if let Some((tag, parameter)) = Self::parse_entry(
                    &item,
                    numbers[i],
                    Ghost(entries@[i as int]@),
                ) {
                    ensure_or_set_feature(&mut features, tag, parameter);
                }
            }
            i += 1;
        }
        FontFeatureSpec { features }
    }
}

} // verus!

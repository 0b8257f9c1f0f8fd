//! What each kind of font setting does.
#[allow(unused_imports)]
use crate::font::settings::{
    any_entry, axes_after, axes_of, axis_lookup, axis_value_text, doubled, feature_place,
    feature_value_text, features_after, features_of, halved, law_setting_an_axis, law_variant_axes,
    law_whole_number_bits, seeded_axes, seeded_features, tag4, variant_axes, whole_number_bits,
    whole_part, with_axis, with_feature, FontAxisValue, FontFeature,
};
#[allow(unused_imports)]
use crate::font::types::Style;
#[allow(unused_imports)]
use crate::text::{
    law_parted_back, law_parting, law_trimming_takes_padding_away, law_white_space_of_ascii,
    trimmed, white_space,
};
#[allow(unused_imports)]
use vstd::arithmetic::power2::{lemma2_to64, lemma_pow2_pos, lemma_pow2_unfold, pow2};
use vstd::prelude::*;

verus! {

/// The parameter of the first entry for a feature.
pub open spec fn parameter_of(features: Seq<FontFeature>, tag: u32) -> Option<u32>
    decreases features.len(),
{
    if features.len() == 0 {
        None
    } else if features[0].tag == tag {
        Some(features[0].parameter)
    } else {
        parameter_of(features.drop_first(), tag)
    }
}

/// The value of the first entry for an axis.
pub open spec fn value_of(values: Seq<FontAxisValue>, tag: u32) -> Option<u32>
    decreases values.len(),
{
    if values.len() == 0 {
        None
    } else if values[0].tag == tag {
        Some(values[0].value_bits)
    } else {
        value_of(values.drop_first(), tag)
    }
}

/// Four printed ASCII characters, none of which is `=`, and the first of which
/// is no sign.
pub open spec fn is_tag(tag: Seq<char>) -> bool {
    &&& tag.len() == 4
    &&& forall|i: int|
        0 <= i < 4 ==> 0x20 < (#[trigger] tag[i]) as u32 && (tag[i] as u32) < 0x7f && tag[i] != '='
    &&& tag[0] != '+'
    &&& tag[0] != '-'
}

/// The number of a tag: its characters, the first in the lowest byte.
pub open spec fn tag_number(tag: Seq<char>) -> u32 {
    (tag[0] as u32 + 0x100 * (tag[1] as u32) + 0x1_0000 * (tag[2] as u32) + 0x100_0000 * (
    tag[3] as u32)) as u32
}

/// Whether a text is white space throughout.
pub open spec fn is_blank(s: Seq<char>) -> bool {
    forall|i: int| 0 <= i < s.len() ==> white_space(#[trigger] s[i])
}

proof fn lemma_parameter_at(features: Seq<FontFeature>, tag: u32, at: int)
    requires
        0 <= at <= features.len(),
        at < features.len() ==> features[at].tag == tag,
        forall|j: int| 0 <= j < at ==> (#[trigger] features[j]).tag != tag,
    ensures
        parameter_of(features, tag) == if at < features.len() {
            Some(features[at].parameter)
        } else {
            None
        },
    decreases features.len(),
{
    if at > 0 {
        assert(features[0].tag != tag);
        let rest = features.drop_first();
        assert forall|j: int| 0 <= j < at - 1 implies (#[trigger] rest[j]).tag != tag by {
            assert(rest[j] == features[j + 1]);
        }
        if at < features.len() {
            assert(rest[at - 1] == features[at]);
        }
        lemma_parameter_at(rest, tag, at - 1);
    }
}

proof fn lemma_feature_place(features: Seq<FontFeature>, tag: u32, i: int)
    requires
        0 <= i <= features.len(),
    ensures
        i <= feature_place(features, tag, i) <= features.len(),
        feature_place(features, tag, i) < features.len() ==> features[feature_place(
            features,
            tag,
            i,
        )].tag == tag,
        forall|j: int|
            i <= j < feature_place(features, tag, i) ==> (#[trigger] features[j]).tag != tag,
    decreases features.len() - i,
{
    if i < features.len() && features[i].tag != tag {
        lemma_feature_place(features, tag, i + 1);
    }
}

/// Setting a feature gives it the parameter and leaves every other alone.
pub proof fn law_setting_a_feature(
    features: Seq<FontFeature>,
    tag: u32,
    parameter: u32,
    other: u32,
)
    ensures
        parameter_of(with_feature(features, tag, parameter), other) == if other == tag {
            Some(parameter)
        } else {
            parameter_of(features, other)
        },
{
    let after = with_feature(features, tag, parameter);
    lemma_feature_place(features, tag, 0);
    lemma_feature_place(features, other, 0);
    let at = feature_place(features, tag, 0);
    let place = feature_place(features, other, 0);
    lemma_parameter_at(features, other, place);
    if other == tag {
        lemma_parameter_at(after, tag, at);
    } else if place < features.len() {
        lemma_parameter_at(after, other, place);
    } else {
        lemma_parameter_at(after, other, after.len() as int);
    }
}

proof fn lemma_value_is_lookup(values: Seq<FontAxisValue>, tag: u32)
    ensures
        value_of(values, tag) == axis_lookup(values, tag),
    decreases values.len(),
{
    if values.len() > 0 && values[0].tag != tag {
        let rest = values.drop_first();
        lemma_value_is_lookup(rest, tag);
        lemma_place_shifts(values, tag, 0);
        crate::font::settings::lemma_axis_place(rest, tag, 0);
    }
}

proof fn lemma_place_shifts(values: Seq<FontAxisValue>, tag: u32, i: int)
    requires
        0 <= i < values.len(),
    ensures
        crate::font::settings::axis_place(values, tag, i + 1) == crate::font::settings::axis_place(
            values.drop_first(),
            tag,
            i,
        ) + 1,
    decreases values.len() - i,
{
    if i + 1 < values.len() {
        assert(values.drop_first()[i] == values[i + 1]);
        lemma_place_shifts(values, tag, i + 1);
    }
}

proof fn lemma_tag(tag: Seq<char>)
    requires
        is_tag(tag),
    ensures
        trimmed(tag) == tag,
        tag4(tag) == Some(tag_number(tag)),
        !tag.contains('='),
        !white_space(tag[0]),
        !white_space(tag[3]),
{
    law_white_space_of_ascii(tag[0]);
    law_white_space_of_ascii(tag[3]);
    let none = Seq::<char>::empty();
    law_trimming_takes_padding_away(none, tag, none);
    assert(none + tag + none =~= tag);
    assert(tag[0] as u32 <= 0x7f && tag[1] as u32 <= 0x7f && tag[2] as u32 <= 0x7f && tag[3] as u32
        <= 0x7f);
    if tag.contains('=') {
        let k = choose|k: int| 0 <= k < tag.len() && tag[k] == '=';
        assert(tag[k] != '=');
    }
}

/// What a setting of each kind does: `+` and a tag, or a tag alone, switches the
/// feature on; `-` and a tag switches it off; a tag, `=` and a number gives it the
/// number; and no other feature changes. White space around a setting does not
/// matter.
pub proof fn law_what_a_feature_setting_does(
    features: Seq<FontFeature>,
    a: Seq<char>,
    b: Seq<char>,
    tag: Seq<char>,
    value: Seq<char>,
    number: Option<u32>,
    other: u32,
)
    requires
        is_blank(a),
        is_blank(b),
        is_tag(tag),
        value.len() > 0 ==> !white_space(value.last()),
    ensures
        ({
            let after = |entry: Seq<char>|
                parameter_of(features_after(features, a + entry + b, number), other);
            let before = parameter_of(features, other);
            if other == tag_number(tag) {
                &&& after(seq!['+'] + tag) == Some(1u32)
                &&& after(seq!['-'] + tag) == Some(0u32)
                &&& after(tag) == Some(1u32)
                &&& after(tag + seq!['='] + value) == match number {
                    Some(n) => Some(n),
                    None => before,
                }
            } else {
                &&& after(seq!['+'] + tag) == before
                &&& after(seq!['-'] + tag) == before
                &&& after(tag) == before
                &&& after(tag + seq!['='] + value) == before
            }
        }),
{
    lemma_tag(tag);
    let v = tag_number(tag);
    let on = seq!['+'] + tag;
    let off = seq!['-'] + tag;
    let set = tag + seq!['='] + value;
    law_white_space_of_ascii('+');
    law_white_space_of_ascii('-');
    law_white_space_of_ascii('=');
    law_trimming_takes_padding_away(a, on, b);
    law_trimming_takes_padding_away(a, off, b);
    law_trimming_takes_padding_away(a, tag, b);
    assert(set.last() == if value.len() > 0 {
        value.last()
    } else {
        '='
    });
    assert(set[0] == tag[0]);
    law_trimming_takes_padding_away(a, set, b);
    assert(on.drop_first() =~= tag);
    assert(off.drop_first() =~= tag);
    law_parted_back(tag, value, '=');
    law_parting(tag, '=');
    law_setting_a_feature(features, v, 1, other);
    law_setting_a_feature(features, v, 0, other);
    if let Some(n) = number {
        law_setting_a_feature(features, v, n, other);
    }
}

/// Settings work one after the other; blank ones are passed over; the first that
/// is not blank finds the three ligature features switched on and no other. Without
/// any, there are no features.
pub proof fn law_features_one_after_the_other(
    entries: Seq<&str>,
    numbers: Seq<Option<u32>>,
    n: int,
    tag: u32,
)
    requires
        0 < n <= entries.len(),
    ensures
        ({
            let before = features_of(entries, numbers, n - 1);
            let after = features_of(entries, numbers, n);
            let first = forall|i: int| 0 <= i < n - 1 ==> is_blank((#[trigger] entries[i])@);
            let last = entries[n - 1]@;
            &&& is_blank(last) ==> after == before
            &&& !is_blank(last) && !first ==> after == features_after(
                before,
                last,
                numbers[n - 1],
            )
            &&& !is_blank(last) && first ==> exists|seed: Seq<FontFeature>|
                after == #[trigger] features_after(seed, last, numbers[n - 1]) && parameter_of(
                    seed,
                    tag,
                ) == if tag == tag_number(seq!['l', 'i', 'g', 'a']) || tag == tag_number(
                    seq!['c', 'l', 'i', 'g'],
                ) || tag == tag_number(seq!['c', 'a', 'l', 't']) {
                    Some(1u32)
                } else {
                    None
                }
            &&& features_of(entries, numbers, 0).len() == 0
        }),
{
    let last = entries[n - 1]@;
    lemma_blank(last);
    assert(any_entry(entries, n - 1) == !(forall|i: int|
        0 <= i < n - 1 ==> is_blank((#[trigger] entries[i])@))) by {
        assert forall|i: int| 0 <= i < n - 1 implies is_blank((#[trigger] entries[i])@) == (trimmed(
            entries[i]@,
        ).len() == 0) by {
            lemma_blank(entries[i]@);
        }
    }
    let seed = seeded_features();
    reveal_with_fuel(parameter_of, 4);
    assert(seed.drop_first().drop_first().drop_first() =~= Seq::<FontFeature>::empty());
    assert(features_after(seed, last, numbers[n - 1]) == features_after(
        seed,
        last,
        numbers[n - 1],
    ));
}

/// A text is blank exactly if nothing is left when it is trimmed.
proof fn lemma_blank(s: Seq<char>)
    ensures
        is_blank(s) == (trimmed(s).len() == 0),
{
    let none = Seq::<char>::empty();
    if is_blank(s) {
        law_trimming_takes_padding_away(s, none, none);
        assert(s + none + none =~= s);
    } else {
        lemma_keeps_core(s);
    }
}

proof fn lemma_keeps_core(s: Seq<char>)
    requires
        !is_blank(s),
    ensures
        trimmed(s).len() > 0,
{
    let lo = lemma_first_solid(s, 0);
    let hi = lemma_last_solid(s, s.len() as int);
    let a = s.take(lo);
    let core = s.subrange(lo, hi + 1);
    let b = s.skip(hi + 1);
    assert(s =~= a + core + b);
    law_trimming_takes_padding_away(a, core, b);
}

proof fn lemma_first_solid(s: Seq<char>, i: int) -> (at: int)
    requires
        0 <= i <= s.len(),
        !is_blank(s),
        forall|k: int| 0 <= k < i ==> white_space(#[trigger] s[k]),
    ensures
        i <= at < s.len(),
        !white_space(s[at]),
        forall|k: int| 0 <= k < at ==> white_space(#[trigger] s[k]),
    decreases s.len() - i,
{
    if i < s.len() && white_space(s[i]) {
        lemma_first_solid(s, i + 1)
    } else {
        assert(i < s.len());
        i
    }
}

proof fn lemma_last_solid(s: Seq<char>, i: int) -> (at: int)
    requires
        0 <= i <= s.len(),
        !is_blank(s),
        forall|k: int| i <= k < s.len() ==> white_space(#[trigger] s[k]),
    ensures
        0 <= at < i,
        !white_space(s[at]),
        forall|k: int| at < k < s.len() ==> white_space(#[trigger] s[k]),
    decreases i,
{
    if i > 0 && white_space(s[i - 1]) {
        lemma_last_solid(s, i - 1)
    } else {
        assert(i > 0);
        i - 1
    }
}

/// A list of settings whose last entry is `+` and a tag has the feature with
/// parameter 1, one whose last is `-` and a tag with parameter 0, one whose last
/// is a tag alone with 1, and one whose last is a tag, `=` and a number with that
/// number, whatever came before.
pub proof fn law_last_feature_setting_counts(
    entries: Seq<&str>,
    numbers: Seq<Option<u32>>,
    tag: Seq<char>,
    value: Seq<char>,
)
    requires
        entries.len() > 0,
        entries.len() == numbers.len(),
        is_tag(tag),
        value.len() > 0 ==> !white_space(value.last()),
    ensures
        ({
            let last = entries[entries.len() - 1]@;
            let set = parameter_of(
                features_of(entries, numbers, entries.len() as int),
                tag_number(tag),
            );
            &&& last == seq!['+'] + tag ==> set == Some(1u32)
            &&& last == seq!['-'] + tag ==> set == Some(0u32)
            &&& last == tag ==> set == Some(1u32)
            &&& last == tag + seq!['='] + value && numbers[entries.len() - 1] is Some ==> set
                == numbers[entries.len() - 1]
        }),
{
    let n = entries.len() as int;
    let last = entries[n - 1]@;
    let before = if any_entry(entries, n - 1) {
        features_of(entries, numbers, n - 1)
    } else {
        seeded_features()
    };
    let none = Seq::<char>::empty();
    law_what_a_feature_setting_does(
        before,
        none,
        none,
        tag,
        value,
        numbers[n - 1],
        tag_number(tag),
    );
    lemma_tag(tag);
    lemma_blank(last);
    let on = seq!['+'] + tag;
    let off = seq!['-'] + tag;
    let set = tag + seq!['='] + value;
    assert(none + on + none =~= on);
    assert(none + off + none =~= off);
    assert(none + tag + none =~= tag);
    assert(none + set + none =~= set);
    assert(set[0] == tag[0]);
    law_white_space_of_ascii('+');
    law_white_space_of_ascii('-');
    if last == on || last == off || last == tag || last == set {
        assert(!white_space(last[0]));
        assert(!is_blank(last));
    }
}

/// A list of axis settings whose last entry is a tag, `=` and a number has that
/// number for the axis, whatever came before, and every other axis as it was. The
/// first entry that is not blank finds weight, italic and slant unset, at -1.
pub proof fn law_axis_setting(
    entries: Seq<&str>,
    numbers: Seq<Option<u32>>,
    a: Seq<char>,
    b: Seq<char>,
    tag: Seq<char>,
    value: Seq<char>,
    other: u32,
)
    requires
        entries.len() > 0,
        entries.len() == numbers.len(),
        is_blank(a),
        is_blank(b),
        is_tag(tag),
        value.len() > 0 ==> !white_space(value.last()),
        entries[entries.len() - 1]@ == a + (tag + seq!['='] + value) + b,
    ensures
        ({
            let n = entries.len() as int;
            let after = axes_of(entries, numbers, n);
            let first = forall|i: int| 0 <= i < n - 1 ==> is_blank((#[trigger] entries[i])@);
            let before = if !first {
                value_of(axes_of(entries, numbers, n - 1), other)
            } else if other == tag_number(seq!['w', 'g', 'h', 't']) || other == tag_number(
                seq!['i', 't', 'a', 'l'],
            ) || other == tag_number(seq!['s', 'l', 'n', 't']) {
                Some(0xbf80_0000u32)
            } else {
                None
            };
            value_of(after, other) == if other == tag_number(tag) && numbers[n - 1] is Some {
                numbers[n - 1]
            } else {
                before
            }
        }),
{
    let n = entries.len() as int;
    let set = tag + seq!['='] + value;
    let last = entries[n - 1]@;
    lemma_tag(tag);
    law_white_space_of_ascii('=');
    assert(set[0] == tag[0]);
    assert(set.last() == if value.len() > 0 {
        value.last()
    } else {
        '='
    });
    law_trimming_takes_padding_away(a, set, b);
    law_parted_back(tag, value, '=');
    assert(any_entry(entries, n - 1) == !(forall|i: int|
        0 <= i < n - 1 ==> is_blank((#[trigger] entries[i])@))) by {
        assert forall|i: int| 0 <= i < n - 1 implies is_blank((#[trigger] entries[i])@) == (trimmed(
            entries[i]@,
        ).len() == 0) by {
            lemma_blank(entries[i]@);
        }
    }
    let before = if any_entry(entries, n - 1) {
        axes_of(entries, numbers, n - 1)
    } else {
        seeded_axes()
    };
    let after = axes_of(entries, numbers, n);
    assert(after == axes_after(before, last, numbers[n - 1]));
    let seed = seeded_axes();
    reveal_with_fuel(value_of, 4);
    assert(seed.drop_first().drop_first().drop_first() =~= Seq::<FontAxisValue>::empty());
    lemma_value_is_lookup(before, other);
    lemma_value_is_lookup(after, other);
    if let Some(bits) = numbers[n - 1] {
        law_setting_an_axis(before, tag_number(tag), bits, other);
    }
}

proof fn lemma_halved(n: int, k: int)
    requires
        0 <= n,
        0 <= k,
    ensures
        halved(n, k) * pow2(k as nat) <= n < (halved(n, k) + 1) * pow2(k as nat),
    decreases k,
{
    lemma2_to64();
    if k > 0 {
        lemma_halved(n / 2, k - 1);
        lemma_pow2_unfold(k as nat);
        let h = halved(n, k);
        let p = pow2((k - 1) as nat) as int;
        let q = pow2(k as nat) as int;
        assert(h * q == 2 * (h * p) && (h + 1) * q == 2 * ((h + 1) * p)) by (nonlinear_arith)
            requires
                q == 2 * p,
        ;
        assert(h == halved(n / 2, k - 1));
    } else {
        let q = pow2(0) as int;
        assert(n * q == n && (n + 1) * q == n + 1) by (nonlinear_arith)
            requires
                q == 1,
        ;
    }
}

proof fn lemma_doubled(n: int, k: int)
    requires
        0 <= k,
    ensures
        doubled(n, k) == n * pow2(k as nat),
    decreases k,
{
    lemma2_to64();
    if k > 0 {
        lemma_doubled(2 * n, k - 1);
        lemma_pow2_unfold(k as nat);
        let p = pow2((k - 1) as nat) as int;
        let q = pow2(k as nat) as int;
        assert((2 * n) * p == n * q) by (nonlinear_arith)
            requires
                q == 2 * p,
        ;
    } else {
        let q = pow2(0) as int;
        assert(n * q == n) by (nonlinear_arith)
            requires
                q == 1,
        ;
    }
}

/// The whole part of a number whose bit pattern has this sign, exponent and
/// fraction: its magnitude is `1.fraction` times two to the power of the exponent
/// less 127, and what is beyond the point is dropped. Small numbers are 0, what is
/// no number too; numbers of 63 bits and more are the largest or the smallest.
pub proof fn law_whole_part(negative: bool, exponent: int, fraction: int)
    requires
        0 <= exponent < 256,
        0 <= fraction < 0x80_0000,
    ensures
        ({
            let bits = exponent * 0x80_0000 + fraction + if negative {
                0x8000_0000int
            } else {
                0
            };
            let significand = 0x80_0000 + fraction;
            let whole = whole_part(bits as u32);
            let magnitude = if negative {
                -whole
            } else {
                whole
            };
            &&& exponent < 127 ==> whole == 0
            &&& 127 <= exponent < 150 ==> magnitude * pow2((150 - exponent) as nat) <= significand
                < (magnitude + 1) * pow2((150 - exponent) as nat)
            &&& 150 <= exponent < 190 ==> magnitude == significand * pow2((exponent - 150) as nat)
            &&& 190 <= exponent < 255 || (exponent == 255 && fraction == 0) ==> whole == if negative {
                i64::MIN as int
            } else {
                i64::MAX as int
            }
            &&& exponent == 255 && fraction > 0 ==> whole == 0
        }),
{
    let low = exponent * 0x80_0000 + fraction;
    let bits = low + if negative {
        0x8000_0000int
    } else {
        0
    };
    let word = bits as u32;
    assert(0 <= bits <= u32::MAX);
    assert(word / 0x80_0000 == if negative {
        exponent + 256
    } else {
        exponent
    });
    assert((word / 0x80_0000) as int % 256 == exponent);
    assert(word as int % 0x80_0000 == fraction);
    let significand = 0x80_0000 + fraction;
    if 127 <= exponent < 150 {
        lemma_halved(significand, 150 - exponent);
    } else if 150 <= exponent {
        lemma_doubled(significand, exponent - 150);
    }
}

proof fn lemma_weight_bits(weight: u16)
    ensures
        0 <= whole_number_bits(weight) <= 0x7f80_0000,
        whole_part(whole_number_bits(weight) as u32) == weight,
{
    lemma2_to64();
    if weight > 0 {
        law_whole_number_bits(weight);
        let bits = whole_number_bits(weight);
        let k = choose|k: nat|
            {
                &&& bits / 0x80_0000 == 150 - k
                &&& weight * #[trigger] pow2(k) == 0x80_0000 + bits % 0x80_0000
            };
        let fraction = bits % 0x80_0000;
        lemma_pow2_pos(k);
        if k > 23 {
            vstd::arithmetic::power2::lemma_pow2_strictly_increases(23, k);
            assert(weight * pow2(k) >= pow2(k)) by (nonlinear_arith)
                requires
                    weight >= 1,
                    pow2(k) > 0,
            ;
            assert(pow2(23) == 0x80_0000);
            if k > 24 {
                vstd::arithmetic::power2::lemma_pow2_strictly_increases(24, k);
            }
            assert(pow2(24) == 0x100_0000);
            assert(false);
        }
        law_whole_part(false, 150 - k as int, fraction);
        assert((150 - k) * 0x80_0000 + fraction == bits);
        let whole = whole_part(bits as u32);
        let p = pow2(k) as int;
        let w = weight as int;
        if k > 0 {
            assert(whole == w) by (nonlinear_arith)
                requires
                    whole * p <= w * p < (whole + 1) * p,
                    p > 0,
            ;
        } else {
            assert(whole == (0x80_0000 + fraction) * pow2(0));
            assert(whole == w) by (nonlinear_arith)
                requires
                    whole == (0x80_0000 + fraction) * p,
                    w * p == 0x80_0000 + fraction,
                    p == 1,
            ;
        }
    } else {
        law_whole_part(false, 0, 0);
    }
}

/// A bold variant has the weight 700, an italic one is italic at 1 and slants by -12;
/// else what was set counts if it is not below zero, and if not the weight is the
/// default one and there is neither. No other axis changes.
pub proof fn law_axes_of_a_variant(
    values: Seq<FontAxisValue>,
    variant: Style,
    weight: u16,
    other: u32,
)
    ensures
        ({
            let wght = tag_number(seq!['w', 'g', 'h', 't']);
            let ital = tag_number(seq!['i', 't', 'a', 'l']);
            let slnt = tag_number(seq!['s', 'l', 'n', 't']);
            let after = variant_axes(values, variant, weight);
            let set = |tag: u32, bits: u32|
                value_of(values, tag) == Some(bits) && (bits <= 0x7f80_0000 || bits == 0x8000_0000);
            let unset = |tag: u32| forall|bits: u32| !(#[trigger] set(tag, bits));
            &&& variant is Bold || variant is BoldItalic ==> (value_of(after, wght) matches Some(bits)
                && bits == 0x442f_0000)
            &&& variant is Normal || variant is Italic ==> (value_of(after, wght) matches Some(bits)
                && (set(wght, bits) || (unset(wght) && whole_part(bits) == weight)))
            &&& variant is Italic || variant is BoldItalic ==> value_of(after, ital) == Some(
                0x3f80_0000u32,
            ) && value_of(after, slnt) == Some(0xc140_0000u32)
            &&& variant is Normal || variant is Bold ==> (value_of(after, ital) matches Some(bits)
                && (set(ital, bits) || (unset(ital) && bits == 0)))
            &&& variant is Normal || variant is Bold ==> (value_of(after, slnt) matches Some(bits)
                && (set(slnt, bits) || (unset(slnt) && bits == 0)))
            &&& other != wght && other != ital && other != slnt ==> value_of(after, other)
                == value_of(values, other)
        }),
{
    let wght = tag_number(seq!['w', 'g', 'h', 't']);
    let ital = tag_number(seq!['i', 't', 'a', 'l']);
    let slnt = tag_number(seq!['s', 'l', 'n', 't']);
    assert(wght == 0x74686777u32);
    assert(ital == 0x6c617469u32);
    assert(slnt == 0x746e6c73u32);
    let after = variant_axes(values, variant, weight);
    law_variant_axes(values, variant, weight);
    lemma_weight_bits(weight);
    lemma_value_is_lookup(values, wght);
    lemma_value_is_lookup(values, ital);
    lemma_value_is_lookup(values, slnt);
    lemma_value_is_lookup(values, other);
    lemma_value_is_lookup(after, wght);
    lemma_value_is_lookup(after, ital);
    lemma_value_is_lookup(after, slnt);
    lemma_value_is_lookup(after, other);
    if other != wght && other != ital && other != slnt {
        lemma_other_axis(values, variant, weight, other);
    }
}

proof fn lemma_other_axis(values: Seq<FontAxisValue>, variant: Style, weight: u16, other: u32)
    requires
        other != 0x74686777,
        other != 0x6c617469,
        other != 0x746e6c73,
    ensures
        axis_lookup(variant_axes(values, variant, weight), other) == axis_lookup(values, other),
{
    assert forall|v: Seq<FontAxisValue>, tag: u32, bits: u32| tag != other implies axis_lookup(
        #[trigger] with_axis(v, tag, bits),
        other,
    ) == axis_lookup(v, other) by {
        law_setting_an_axis(v, tag, bits, other);
    }
}

/// The text of a setting's value is what stands after its `=`, without the blanks
/// around it; a setting without one has none, nor has a feature with a sign.
pub proof fn law_text_of_a_value(a: Seq<char>, b: Seq<char>, tag: Seq<char>, value: Seq<char>)
    requires
        is_blank(a),
        is_blank(b),
        is_tag(tag),
        value.len() > 0 ==> !white_space(value.last()),
    ensures
        axis_value_text(a + (tag + seq!['='] + value) + b) == Some(trimmed(value)),
        feature_value_text(a + (tag + seq!['='] + value) + b) == Some(trimmed(value)),
        axis_value_text(a + tag + b) is None,
        feature_value_text(a + tag + b) is None,
{
    let set = tag + seq!['='] + value;
    lemma_tag(tag);
    law_white_space_of_ascii('=');
    assert(set[0] == tag[0]);
    assert(set.last() == if value.len() > 0 {
        value.last()
    } else {
        '='
    });
    law_trimming_takes_padding_away(a, set, b);
    law_trimming_takes_padding_away(a, tag, b);
    law_parted_back(tag, value, '=');
    law_parting(tag, '=');
}

} // verus!

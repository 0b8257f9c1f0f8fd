use rustty::font::settings::{
    truncate_bits, FontAxisSpec, FontFeatureSpec, AXIS_TAG_ITALIC, AXIS_TAG_SLANT,
    AXIS_TAG_WEIGHT, FEATURE_TAG_CONTEXTUAL_ALTERNATES, FEATURE_TAG_CONTEXTUAL_LIGATURES,
    FEATURE_TAG_STANDARD_LIGATURES,
};
use rustty::font::types::Style;

fn parse_features(entries: &[&str]) -> FontFeatureSpec {
    let numbers: Vec<Option<u32>> = entries
        .iter()
        .map(|entry| {
            FontFeatureSpec::value_text(entry)
                .and_then(|text| text.parse::<f32>().ok())
                .map(|value| value.round().max(0.0) as u32)
        })
        .collect();
    FontFeatureSpec::parse(entries, &numbers)
}

fn parse_axes(entries: &[&str]) -> FontAxisSpec {
    let numbers: Vec<Option<u32>> = entries
        .iter()
        .map(|entry| {
            FontAxisSpec::value_text(entry)
                .and_then(|text| text.parse::<f32>().ok())
                .map(|value| value.to_bits())
        })
        .collect();
    FontAxisSpec::parse(entries, &numbers)
}

#[test]
fn feature_parse_supports_defaults_and_overrides() {
    let spec = parse_features(&["-liga", "ss01=1", "clig=0"]);
    let find = |tag: u32| spec.features.iter().find(|f| f.tag == tag).unwrap();
    let liga = find(FEATURE_TAG_STANDARD_LIGATURES);
    let clig = find(FEATURE_TAG_CONTEXTUAL_LIGATURES);
    let calt = find(FEATURE_TAG_CONTEXTUAL_ALTERNATES);
    assert_eq!(liga.parameter, 0);
    assert_eq!(clig.parameter, 0);
    assert_eq!(calt.parameter, 1);
    assert!(spec
        .features
        .iter()
        .any(|f| f.tag == u32::from_le_bytes(*b"ss01") && f.parameter == 1));
}

#[test]
fn axis_parse_and_variant_defaults_match_wt_style() {
    let spec = parse_axes(&["opsz=13.5"]);
    let mut resolved = Vec::new();
    spec.resolve_with_variant_defaults_into(Style::Italic, 450, &mut resolved);

    let value = |tag: u32| {
        f32::from_bits(resolved.iter().find(|v| v.tag == tag).unwrap().value_bits)
    };
    assert_eq!(value(AXIS_TAG_WEIGHT), 450.0);
    assert_eq!(value(AXIS_TAG_ITALIC), 1.0);
    assert_eq!(value(AXIS_TAG_SLANT), -12.0);
    assert_eq!(value(u32::from_le_bytes(*b"opsz")), 13.5);
}

#[test]
fn tags_are_what_they_spell() {
    assert_eq!(AXIS_TAG_WEIGHT, u32::from_le_bytes(*b"wght"));
    assert_eq!(FEATURE_TAG_STANDARD_LIGATURES, u32::from_le_bytes(*b"liga"));
}

#[test]
fn the_whole_part_of_a_number() {
    for value in [0.0f32, 0.5, 1.0, 1.75, 450.0, 13.5, -12.9, 16777216.0] {
        assert_eq!(truncate_bits(value.to_bits()), value as i64);
    }
    assert_eq!(truncate_bits(f32::NAN.to_bits()), 0);
    assert_eq!(truncate_bits(f32::INFINITY.to_bits()), i64::MAX);
}

#[test]
fn malformed_settings_are_left_out() {
    assert!(parse_axes(&["", "  "]).values.is_empty());
    // Only the marks of what is not set are there.
    let spec = parse_axes(&["opsz", "ab=1", "opsz=x"]);
    let values: Vec<f32> = spec.values.iter().map(|v| f32::from_bits(v.value_bits)).collect();
    assert_eq!(values, vec![-1.0, -1.0, -1.0]);
    assert!(parse_features(&[" "]).features.is_empty());
    assert_eq!(parse_features(&["xyz=1", "+", "ss01=a"]).features.len(), 3);
}

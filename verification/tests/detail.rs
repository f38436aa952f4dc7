use tf2_demo_player::detail::{detail_pairs, format_value, trim_fraction, DetailValue};

fn float(f: f64) -> DetailValue {
    DetailValue::Float(trim_fraction(&format!("{f:.4}")))
}

#[test]
fn arrays_and_pairs_stay_readable() {
    assert_eq!(format_value(&DetailValue::List(vec![float(1.5), float(2.25)])), "[1.5, 2.25]");
    let nested = DetailValue::List(vec![
        DetailValue::List(vec![float(1.0), float(2.0)]),
        DetailValue::List(vec![float(3.0), float(4.0)]),
    ]);
    assert_eq!(format_value(&nested), "[[1, 2], [3, 4]]");
}

#[test]
fn four_decimal_numbers_lose_their_trailing_zeros() {
    assert_eq!(trim_fraction("0.0280"), "0.028");
    assert_eq!(trim_fraction("20.0000"), "20");
    assert_eq!(trim_fraction("12.5280"), "12.528");
    assert_eq!(trim_fraction("100"), "1");
}

#[test]
fn scalars_render_plainly() {
    assert_eq!(format_value(&DetailValue::Null), "-");
    assert_eq!(format_value(&DetailValue::Bool(true)), "yes");
    assert_eq!(format_value(&DetailValue::Bool(false)), "no");
    assert_eq!(format_value(&DetailValue::Int(-42)), "-42");
    assert_eq!(format_value(&DetailValue::Int(i64::MIN)), "-9223372036854775808");
    assert_eq!(format_value(&DetailValue::UInt(u64::MAX)), "18446744073709551615");
    assert_eq!(format_value(&DetailValue::Text("Scout".to_string())), "Scout");
    assert_eq!(format_value(&DetailValue::List(vec![])), "[]");
}

#[test]
fn nested_fields_read_as_name_value_lists() {
    let v = DetailValue::Fields(vec![
        ("\u{200b}tick".to_string(), DetailValue::UInt(76561198000000000)),
        ("pos".to_string(), DetailValue::List(vec![DetailValue::Int(1), DetailValue::Int(-2)])),
    ]);
    assert_eq!(format_value(&v), "tick: 76561198000000000, pos: [1, -2]");
}

#[test]
fn payload_pairs_follow_the_payload_shape() {
    let data = DetailValue::Fields(vec![
        ("angle_attacker".to_string(), float(179.12)),
        ("\u{200b}angle_victim".to_string(), float(154.83)),
        ("\u{200b}\u{200b}type".to_string(), DetailValue::Text("Angle".to_string())),
    ]);
    let pairs = detail_pairs(&data);
    assert_eq!(
        pairs,
        vec![
            ("angle_attacker".to_string(), "179.12".to_string()),
            ("angle_victim".to_string(), "154.83".to_string()),
            ("type".to_string(), "Angle".to_string()),
        ]
    );
    assert!(detail_pairs(&DetailValue::Null).is_empty());
    assert_eq!(detail_pairs(&DetailValue::Int(3)), vec![("value".to_string(), "3".to_string())]);
}

use sqint::format::extract_precision;
use sqint::format::format_value_as_binary;
use sqint::format::format_value_as_char;
use sqint::format::format_value_as_float;
use sqint::format::format_value_as_general;
use sqint::format::format_value_as_hex;
use sqint::format::format_value_as_int;
use sqint::format::format_value_as_octal;
use sqint::format::format_value_as_pointer;
use sqint::format::format_value_as_scientific;
use sqint::format::format_value_as_unsigned;
use sqint::format::format_with_spans;
use sqint::format::stray_percent;
use sqint::format::substitute;
use sqint::FinderType;
use sqint::FloatValue;

fn given(expected: &str) -> Option<String> {
    Some(expected.to_string())
}

#[test]
fn spans_are_replaced_in_order() {
    let args = vec![FinderType::Str("users".to_string()), FinderType::Int("7".to_string())];
    let spans = vec![(5, 7), (14, 16)];
    assert_eq!(format_with_spans("from %s where %d;", &spans, &args, &[]), given("from users where 7;"));
}

#[test]
fn no_span_leaves_the_text() {
    let spans = vec![];
    assert_eq!(format_with_spans("100% sure", &spans, &[], &[]), given("100% sure"));
    assert!(stray_percent("100% sure", &spans));
    assert!(!stray_percent("100 sure", &spans));
    assert!(!stray_percent("100%d", &vec![(3, 5)]));
    assert!(stray_percent("%d%", &vec![(0, 2)]));
    assert!(stray_percent("é%d", &vec![(0, 2)]));
    assert!(!stray_percent("é%d", &vec![(2, 4)]));
}

#[test]
fn span_of_a_percent_sign_takes_no_value() {
    let args = vec![FinderType::Int("7".to_string())];
    let spans = vec![(0, 2), (2, 4)];
    assert_eq!(format_with_spans("%%%d", &spans, &args, &[]), given("%7"));
}

#[test]
fn spans_count_bytes() {
    let args = vec![FinderType::Str("ü".to_string())];
    let spans = vec![(3, 5)];
    assert_eq!(format_with_spans("é=%s!", &spans, &args, &[]), given("é=ü!"));
}

#[test]
fn empty_span_has_no_conversion() {
    let args = vec![FinderType::Int("7".to_string())];
    let spans = vec![(1, 1)];
    assert_eq!(format_with_spans("ab", &spans, &args, &[]), None);
}

#[test]
fn substitute_reads_the_name_between_the_brackets() {
    let kwargs = vec![("id".to_string(), FinderType::Int("9".to_string()))];
    assert_eq!(substitute("%(id)d", 0, &[], &kwargs), given("9"));
    assert_eq!(substitute("%(id", 0, &[], &kwargs), None);
    assert_eq!(substitute("%()d", 0, &[], &kwargs), None);
}

#[test]
fn substitute_takes_the_value_at_the_given_position() {
    let args = vec![FinderType::Int("1".to_string()), FinderType::Int("2".to_string())];
    assert_eq!(substitute("%d", 1, &args, &[]), given("2"));
    assert_eq!(substitute("%d", 2, &args, &[]), None);
    assert_eq!(substitute("%z", 0, &args, &[]), None);
    assert_eq!(substitute("%%", 5, &args, &[]), given("%"));
}

#[test]
fn precision_is_read_after_the_first_point() {
    assert_eq!(extract_precision("%.2f"), Some(2));
    assert_eq!(extract_precision("%10.3e"), Some(3));
    assert_eq!(extract_precision("%-08.12lf"), Some(12));
    assert_eq!(extract_precision("%(a.b).3f"), Some(3));
    assert_eq!(extract_precision("%(n)5.0d"), Some(0));
    assert_eq!(extract_precision("%.f"), Some(0));
    assert_eq!(extract_precision("%f"), None);
    assert_eq!(extract_precision("%(a.b)f"), None);
    assert_eq!(extract_precision("%.+4f"), None);
    assert_eq!(extract_precision("%.*f"), None);
    assert_eq!(extract_precision("%.3"), None);
    assert_eq!(extract_precision("%.3ff"), None);
    assert_eq!(extract_precision(".3f"), None);
    assert_eq!(extract_precision(""), None);
}

#[test]
fn each_conversion_by_its_own_function() {
    let seven = FinderType::Int("7".to_string());
    let half = FinderType::Float(FloatValue::from_text("12.5").unwrap());
    assert_eq!(format_value_as_int(&half), given("12"));
    assert_eq!(format_value_as_unsigned(&seven), given("7"));
    assert_eq!(format_value_as_binary(&seven), given("111"));
    assert_eq!(format_value_as_octal(&half), given("14"));
    assert_eq!(format_value_as_hex(&half, false), given("c"));
    assert_eq!(format_value_as_hex(&half, true), given("C"));
    assert_eq!(format_value_as_char(&FinderType::Int("97".to_string())), given("a"));
    assert_eq!(format_value_as_pointer(&seven), given("0x7"));
    assert_eq!(format_value_as_float(&half, "%.1f"), given("12.5"));
    assert_eq!(format_value_as_float(&half, "%f"), given("12.500000"));
    assert_eq!(format_value_as_scientific(&half, "%.2e"), given("1.25e+01"));
    assert_eq!(format_value_as_scientific(&half, "%.2E"), given("1.25E+01"));
    assert_eq!(format_value_as_general(&half, "%g"), given("12.5"));
    assert_eq!(format_value_as_general(&half, "%.1g"), given("1e+01"));
    assert_eq!(format_value_as_general(&half, "%.1G"), given("1E+01"));
}

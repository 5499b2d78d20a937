use ca1d::{Border, CAEvalType, Output, CA};

fn rule_digits(spec: &str, radix: u32, upto: usize) -> Vec<u8> {
    let ca = CA::new(1, radix, CAEvalType::new(spec).unwrap(), Border::Ring);
    let mut ds = Vec::new();
    for i in 0..upto {
        ds.push(ca.rule_lookup(i));
    }
    ds
}

#[test]
fn hex_and_decimal_denote_the_same_rule() {
    let hex = CAEvalType::new("0x1e").unwrap();
    let dec = CAEvalType::new("30").unwrap();
    assert_eq!(hex, dec);
    assert_eq!(hex.clone(), dec);
}

#[test]
fn base_markers_select_the_base() {
    assert_eq!(CAEvalType::new("0b101").unwrap(), CAEvalType::new("5").unwrap());
    assert_eq!(CAEvalType::new("0o17").unwrap(), CAEvalType::new("15").unwrap());
    assert_eq!(CAEvalType::new("0z10").unwrap(), CAEvalType::new("36").unwrap());
    assert_eq!(CAEvalType::new("0zz").unwrap(), CAEvalType::new("35").unwrap());
}

#[test]
fn mode_markers_select_the_mode() {
    let code = CAEvalType::new("code=30").unwrap();
    let rule = CAEvalType::new("rule=30").unwrap();
    let bare = CAEvalType::new("30").unwrap();
    assert_eq!(rule, bare);
    assert!(matches!(code, CAEvalType::Code(_)));
    assert!(matches!(rule, CAEvalType::Rule(_)));
    assert_ne!(code, rule);
}

#[test]
fn plus_and_separator_literals() {
    assert_eq!(CAEvalType::new("+30").unwrap(), CAEvalType::new("30").unwrap());
    assert_eq!(CAEvalType::new("1_0_0").unwrap(), CAEvalType::new("100").unwrap());
    assert_eq!(CAEvalType::new("5_").unwrap(), CAEvalType::new("5").unwrap());
    assert!(CAEvalType::new("++30").is_err());
    assert!(CAEvalType::new("_30").is_err());
    assert!(CAEvalType::new("+_5").is_err());
    assert!(CAEvalType::new("+").is_err());
    assert!(CAEvalType::new("0x_1e").is_err());
}

#[test]
fn invalid_literals_are_rejected() {
    assert!(CAEvalType::new("").is_err());
    assert!(CAEvalType::new("rule=").is_err());
    assert!(CAEvalType::new("0x").is_err());
    assert!(CAEvalType::new("12a").is_err());
    assert!(CAEvalType::new("0b12").is_err());
    assert!(CAEvalType::new("rule thirty").is_err());
}

#[test]
fn rule_table_holds_the_base_radix_digits() {
    // 30 in base 2 is 11110: lowest digit first 0,1,1,1,1
    assert_eq!(rule_digits("30", 2, 7), vec![0, 1, 1, 1, 1, 0, 0]);
    // 600 in base 3 is 211020: lowest digit first 0,2,0,1,1,2
    assert_eq!(rule_digits("code=600", 3, 8), vec![0, 2, 0, 1, 1, 2, 0, 0]);
}

#[test]
fn rule_table_stores_only_nonzero_digits() {
    // 90 in base 2 is 1011010: four non-zero digits
    let ca = CA::new(3, 2, CAEvalType::new("90").unwrap(), Border::Ring);
    assert_eq!(ca.table_len(), 4);
    // 600 in base 3 is 211020: four non-zero digits
    let ca = CA::new(3, 3, CAEvalType::new("code=600").unwrap(), Border::Ring);
    assert_eq!(ca.table_len(), 4);
    // rule 0 stores nothing at all
    let ca = CA::new(3, 2, CAEvalType::new("0").unwrap(), Border::Ring);
    assert_eq!(ca.table_len(), 0);
    assert_eq!(ca.rule_lookup(0), 0);
}

#[test]
fn output_names_parse() {
    assert_eq!(Output::parse("Null").unwrap(), Output::Null);
    assert_eq!(Output::parse("UnicodeAnsi").unwrap(), Output::UnicodeAnsi);
    assert_eq!(Output::parse("PNG").unwrap(), Output::PNG);
    assert_eq!(Output::parse("Cell").unwrap(), Output::Cell);
    assert!(Output::parse("png").is_err());
    assert!(Output::parse("").is_err());
}

#[test]
fn border_names_parse() {
    assert_eq!(Border::parse("ring").unwrap(), Border::Ring);
    assert_eq!(Border::parse("fixed").unwrap(), Border::Fixed);
    assert!(Border::parse("Ring").is_err());
    assert!(Border::parse("torus").is_err());
}

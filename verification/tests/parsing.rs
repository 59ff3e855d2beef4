use grepr::positions::parse_pos;
use grepr::positions::Extract;
use grepr::text::parse_positive_int;
use grepr::text::parse_usize;
use grepr::text::split_on;
use grepr::text::usize_to_string;

#[test]
fn test_parse_positive_int() {
    assert_eq!(parse_positive_int("10").unwrap(), 10);
    assert!(parse_positive_int("a").is_err());
    assert!(parse_positive_int("0").is_err());
}

#[test]
fn test_parse_pos() {
    // The empty string is an error
    assert!(parse_pos("".to_string()).is_err());

    // Zero is an error
    let res = parse_pos("0".to_string());
    assert!(res.is_err());
    assert_eq!(res.unwrap_err().to_string(), r#"illegal list value: "0""#);

    let res = parse_pos("0-1".to_string());
    assert!(res.is_err());
    assert_eq!(res.unwrap_err().to_string(), r#"illegal list value: "0""#);

    // A leading "+" is an error
    let res = parse_pos("+1".to_string());
    assert!(res.is_err());
    assert_eq!(res.unwrap_err().to_string(), r#"illegal list value: "+1""#,);

    let res = parse_pos("+1-2".to_string());
    assert!(res.is_err());
    assert_eq!(
        res.unwrap_err().to_string(),
        r#"illegal list value: "+1-2""#,
    );

    let res = parse_pos("1-+2".to_string());
    assert!(res.is_err());
    assert_eq!(
        res.unwrap_err().to_string(),
        r#"illegal list value: "1-+2""#,
    );

    // Any non-number is an error
    let res = parse_pos("a".to_string());
    assert!(res.is_err());
    assert_eq!(res.unwrap_err().to_string(), r#"illegal list value: "a""#);

    let res = parse_pos("1,a".to_string());
    assert!(res.is_err());
    assert_eq!(res.unwrap_err().to_string(), r#"illegal list value: "a""#);

    let res = parse_pos("1-a".to_string());
    assert!(res.is_err());
    assert_eq!(res.unwrap_err().to_string(), r#"illegal list value: "1-a""#,);

    let res = parse_pos("a-1".to_string());
    assert!(res.is_err());
    assert_eq!(res.unwrap_err().to_string(), r#"illegal list value: "a-1""#,);

    // Wonky ranges
    let res = parse_pos("-".to_string());
    assert!(res.is_err());

    let res = parse_pos(",".to_string());
    assert!(res.is_err());

    let res = parse_pos("1,".to_string());
    assert!(res.is_err());

    let res = parse_pos("1-".to_string());
    assert!(res.is_err());

    let res = parse_pos("1-1-1".to_string());
    assert!(res.is_err());

    let res = parse_pos("1-1-a".to_string());
    assert!(res.is_err());

    // First number must be less than second
    let res = parse_pos("1-1".to_string());
    assert!(res.is_err());
    assert_eq!(
        res.unwrap_err().to_string(),
        "First number in range (1) must be lower than second number (1)"
    );

    let res = parse_pos("2-1".to_string());
    assert!(res.is_err());
    assert_eq!(
        res.unwrap_err().to_string(),
        "First number in range (2) must be lower than second number (1)"
    );

    // All the following are acceptable
    let res = parse_pos("1".to_string());
    assert!(res.is_ok());
    assert_eq!(res.unwrap(), vec![0..1]);

    let res = parse_pos("01".to_string());
    assert!(res.is_ok());
    assert_eq!(res.unwrap(), vec![0..1]);

    let res = parse_pos("1,3".to_string());
    assert!(res.is_ok());
    assert_eq!(res.unwrap(), vec![0..1, 2..3]);

    let res = parse_pos("001,0003".to_string());
    assert!(res.is_ok());
    assert_eq!(res.unwrap(), vec![0..1, 2..3]);

    let res = parse_pos("1-3".to_string());
    assert!(res.is_ok());
    assert_eq!(res.unwrap(), vec![0..3]);

    let res = parse_pos("0001-03".to_string());
    assert!(res.is_ok());
    assert_eq!(res.unwrap(), vec![0..3]);

    let res = parse_pos("1,7,3-5".to_string());
    assert!(res.is_ok());
    assert_eq!(res.unwrap(), vec![0..1, 6..7, 2..5]);

    let res = parse_pos("15,19-20".to_string());
    assert!(res.is_ok());
    assert_eq!(res.unwrap(), vec![14..15, 18..20]);
}

#[test]
fn extract_holds_parsed_positions() {
    let positions = parse_pos("1,3-5".to_string()).unwrap();
    let extract = Extract::Fields(positions);
    match extract {
        Extract::Fields(ps) => assert_eq!(ps, vec![0..1, 2..5]),
        other => panic!("expected a field selection, got {:?}", other),
    }
}

#[test]
fn parse_positive_int_error_message() {
    assert_eq!(parse_positive_int("a").unwrap_err(), "invalid value 'a'");
    assert_eq!(parse_positive_int("0").unwrap_err(), "invalid value '0'");
    assert_eq!(parse_positive_int("-3").unwrap_err(), "invalid value '-3'");
}

#[test]
fn parse_positive_int_accepts_signed_plus() {
    // the underlying numeral reader takes an optional leading plus sign
    assert_eq!(parse_positive_int("+7").unwrap(), 7);
}

#[test]
fn parse_usize_reads_decimals() {
    assert_eq!(parse_usize("0"), Some(0));
    assert_eq!(parse_usize("0042"), Some(42));
    assert_eq!(parse_usize(""), None);
    assert_eq!(parse_usize("+"), None);
    assert_eq!(parse_usize("4 2"), None);
    // far beyond what a machine word holds
    assert_eq!(parse_usize("99999999999999999999999999"), None);
}

#[test]
fn usize_to_string_writes_decimals() {
    assert_eq!(usize_to_string(0), "0");
    assert_eq!(usize_to_string(7), "7");
    assert_eq!(usize_to_string(1024), "1024");
    assert_eq!(usize_to_string(1000000), "1000000");
}

#[test]
fn split_on_keeps_empty_parts() {
    assert_eq!(split_on("a,b,c", ','), vec!["a", "b", "c"]);
    assert_eq!(split_on("", ','), vec![""]);
    assert_eq!(split_on("x,,y,", ','), vec!["x", "", "y", ""]);
    assert_eq!(split_on("plain", ','), vec!["plain"]);
}

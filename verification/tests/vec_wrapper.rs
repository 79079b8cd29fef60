use serde_cs::element::ParseError;
use serde_cs::vec::CS;

fn assert_ok_from_str(s: &str, expected: Vec<u32>) {
    let cs: Result<CS<u32>, ParseError> = CS::from_str(s);
    assert!(matches!(cs, Ok(v) if v == CS(expected)));
}

fn assert_err_from_str(s: &str) {
    let cs: Result<CS<u32>, ParseError> = CS::from_str(s);
    assert!(cs.is_err());
}

#[test]
fn vec_from_str() {
    assert_ok_from_str("", vec![]);
    assert_ok_from_str(",,,,", vec![]);

    assert_ok_from_str("1", vec![1]);
    assert_ok_from_str(",1", vec![1]);
    assert_ok_from_str("1,", vec![1]);
    assert_ok_from_str(",,,1,", vec![1]);

    assert_ok_from_str("1,2", vec![1, 2]);
    assert_ok_from_str("1,2,3,4,5", vec![1, 2, 3, 4, 5]);
    assert_ok_from_str("1,,,,,2", vec![1, 2]);
    assert_ok_from_str(",,,1,,,,,2,,,,,", vec![1, 2]);

    assert_err_from_str("-1");
    assert_err_from_str("1,a,");
}

fn assert_to_string(values: Vec<u32>, expected: &str) {
    let cs = CS(values).to_text();
    assert_eq!(cs, expected);
}

#[test]
fn vec_to_string() {
    assert_to_string(vec![], "");
    assert_to_string(vec![1], "1");
    assert_to_string(vec![1, 2], "1,2");
    assert_to_string(vec![1, 2, 3, 4, 5], "1,2,3,4,5");
}

#[test]
fn vec_error_token() {
    let err = CS::<u32>::from_str("1,a,").unwrap_err();
    assert_eq!(err.token, "a");
    let err = CS::<u32>::from_str("12,34,5x,78").unwrap_err();
    assert_eq!(err.token, "5x");
}

#[test]
fn vec_inner_access() {
    let mut cs = CS(vec![1u32, 2]);
    assert_eq!(cs.to_inner(), &vec![1, 2]);
    cs.to_inner_mut().push(3);
    assert_eq!(cs.clone().into_inner(), vec![1, 2, 3]);
    let from_vec: CS<u32> = CS::from(vec![7u32]);
    assert_eq!(from_vec.into_inner(), vec![7]);
    let empty: CS<u32> = Default::default();
    assert_eq!(empty.into_inner(), vec![]);
}

#[test]
fn vec_round_trip() {
    let v = vec![0u32, 1, 42, 4294967295];
    let text = CS(v.clone()).to_text();
    let parsed = CS::<u32>::from_str(&text).unwrap();
    assert_eq!(parsed.clone().into_inner(), v);
    assert_eq!(parsed.to_text(), text);
}

#[test]
fn vec_delimiter_filtering() {
    let plain = CS::<u32>::from_str("1,2,3").unwrap();
    for s in [",1,2,3", "1,2,3,", "1,,2,3", ",,1,,,2,,3,,"] {
        assert_eq!(CS::<u32>::from_str(s).unwrap(), plain);
    }
}

#[test]
fn vec_element_limits() {
    assert_ok_from_str("4294967295", vec![u32::MAX]);
    assert_err_from_str("4294967296");
    assert_err_from_str("99999999999999999999");
    assert_ok_from_str("007", vec![7]);
    assert_ok_from_str("+1", vec![1]);
    assert_err_from_str("+");
    assert_err_from_str("++1");
    assert_err_from_str("1 ,2");
}

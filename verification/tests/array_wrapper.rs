use serde_cs::array::CS;
use serde_cs::element::ParseError;

fn assert_ok_from_str<const N: usize>(s: &str, expected: [u32; N]) {
    let cs: Result<CS<u32, N>, ParseError> = CS::from_str(s);
    assert!(matches!(cs, Ok(v) if v == CS(expected)));
}

fn assert_err_from_str<const N: usize>(s: &str) {
    let cs: Result<CS<u32, N>, ParseError> = CS::from_str(s);
    assert!(cs.is_err());
}

#[test]
fn array_from_str() {
    assert_ok_from_str("", []);
    assert_ok_from_str(",,,,", []);

    assert_ok_from_str("1", [1]);
    assert_ok_from_str(",1", [1]);
    assert_ok_from_str("1,", [1]);
    assert_ok_from_str(",,,1,", [1]);

    assert_ok_from_str("1,2", [1, 2]);
    assert_ok_from_str("1,2,3,4,5", [1, 2, 3, 4, 5]);
    assert_ok_from_str("1,,,,,2", [1, 2]);
    assert_ok_from_str(",,,1,,,,,2,,,,,", [1, 2]);

    assert_err_from_str::<1>("-1");
    assert_err_from_str::<2>("1,a,");
}

fn assert_to_string<const N: usize>(values: [u32; N], expected: &str) {
    let cs = CS(values).to_text();
    assert_eq!(cs, expected);
}

#[test]
fn array_to_string() {
    assert_to_string([], "");
    assert_to_string([1], "1");
    assert_to_string([1, 2], "1,2");
    assert_to_string([1, 2, 3, 4, 5], "1,2,3,4,5");
}

#[test]
fn array_fill_defaults() {
    let cs: CS<u32, 3> = CS::from_str("1,").unwrap();
    assert_eq!(cs.into_inner(), [1, 0, 0]);
    let cs: CS<u32, 3> = CS::from_str(",,,,").unwrap();
    assert_eq!(cs.into_inner(), [0, 0, 0]);
    let empty: CS<u32, 4> = Default::default();
    assert_eq!(empty.into_inner(), [0, 0, 0, 0]);
}

#[test]
fn array_truncates_silently() {
    let cs: CS<u32, 3> = CS::from_str("1,2,3,4,5").unwrap();
    assert_eq!(cs.into_inner(), [1, 2, 3]);
    let cs: CS<u32, 2> = CS::from_str("1,2,oops").unwrap();
    assert_eq!(cs.into_inner(), [1, 2]);
}

#[test]
fn array_error_token() {
    let err = CS::<u32, 2>::from_str("1,a,").unwrap_err();
    assert_eq!(err.token, "a");
    assert_err_from_str::<3>("x,1,2");
}

#[test]
fn array_inner_access() {
    let cs: CS<u32, 2> = CS([4, 5]);
    assert_eq!(cs.to_inner(), &[4, 5]);
    assert_eq!(cs.into_inner(), [4, 5]);
}

#[test]
fn array_round_trip() {
    let v: [u32; 4] = [0, 1, 42, 4294967295];
    let text = CS(v).to_text();
    let parsed: CS<u32, 4> = CS::from_str(&text).unwrap();
    assert_eq!(parsed.to_inner(), &v);
    assert_eq!(parsed.to_text(), text);
}

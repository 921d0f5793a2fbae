use mmorpg::math::Vector3;

#[test]
fn parses_three_fields() {
    assert_eq!(Vector3::parse("1,2,3"), Some(Vector3::new(1, 2, 3)));
    assert_eq!(Vector3::parse("-4,0,+7"), Some(Vector3::new(-4, 0, 7)));
    assert_eq!(Vector3::parse("10,20,30,40"), Some(Vector3::new(10, 20, 30)));
}

#[test]
fn parses_extremes() {
    assert_eq!(
        Vector3::parse("2147483647,-2147483648,0"),
        Some(Vector3::new(i32::MAX, i32::MIN, 0))
    );
    assert_eq!(Vector3::parse("2147483648,0,0"), None);
    assert_eq!(Vector3::parse("0,-2147483649,0"), None);
    assert_eq!(Vector3::parse("0,0,99999999999999999999"), None);
}

#[test]
fn refuses_bad_text() {
    assert_eq!(Vector3::parse(""), None);
    assert_eq!(Vector3::parse("1,2"), None);
    assert_eq!(Vector3::parse("1,,3"), None);
    assert_eq!(Vector3::parse("1,2,"), None);
    assert_eq!(Vector3::parse("a,2,3"), None);
    assert_eq!(Vector3::parse("1, 2,3"), None);
    assert_eq!(Vector3::parse("-,2,3"), None);
}

use numan::version::Version;

#[test]
fn new_sets_fields() {
    let v = Version::new(1, 2, 3);
    assert_eq!(v.major, 1);
    assert_eq!(v.minor, 2);
    assert_eq!(v.patch, 3);
}

#[test]
fn parse_simple_name() {
    assert_eq!(Version::from_name("pkg.1.2.3.nupkg"), Some(Version::new(1, 2, 3)));
}

#[test]
fn parse_two_tokens_fails() {
    assert_eq!(Version::from_name("foo.bar.nupkg"), None);
}

#[test]
fn parse_no_dots_fails() {
    assert_eq!(Version::from_name("nupkg"), None);
}

#[test]
fn parse_too_few_numbers_fails() {
    assert_eq!(Version::from_name("1.2.nupkg"), None);
}

#[test]
fn parse_nonnumeric_token_fails() {
    assert_eq!(Version::from_name("pkg.1.x.3.nupkg"), None);
}

#[test]
fn parse_empty_token_fails() {
    assert_eq!(Version::from_name("pkg.1..3.nupkg"), None);
}

#[test]
fn parse_leading_zeros() {
    assert_eq!(Version::from_name("pkg.007.2.3.nupkg"), Some(Version::new(7, 2, 3)));
}

#[test]
fn parse_at_u32_limit() {
    assert_eq!(
        Version::from_name("pkg.4294967295.0.0.nupkg"),
        Some(Version::new(u32::MAX, 0, 0))
    );
}

#[test]
fn parse_above_u32_limit_fails() {
    assert_eq!(Version::from_name("pkg.4294967296.0.0.nupkg"), None);
}

#[test]
fn ordering_is_numeric_not_lexical() {
    // lexical comparison of "9" and "10" would reverse this
    assert!(Version::new(1, 9, 0) < Version::new(1, 10, 0));
    assert!(!(Version::new(1, 10, 0) < Version::new(1, 9, 0)));
}

#[test]
fn ordering_by_components() {
    assert!(Version::new(1, 9, 9) < Version::new(2, 0, 0));
    assert!(Version::new(1, 2, 3) < Version::new(1, 2, 4));
    assert!(Version::new(1, 2, 3) < Version::new(1, 3, 0));
    assert!(!(Version::new(1, 2, 3) < Version::new(1, 2, 3)));
    assert!(Version::new(2, 0, 0) > Version::new(1, 9, 9));
}

#[test]
fn render_simple() {
    assert_eq!(Version::new(1, 2, 3).render().as_str(), "1.2.3");
    assert_eq!(Version::new(0, 0, 0).render().as_str(), "0.0.0");
    assert_eq!(Version::new(10, 200, 3000).render().as_str(), "10.200.3000");
}

#[test]
fn parse_recovers_rendered_version() {
    let v = Version::new(10, 20, 30);
    let name = format!("mylib.core.{}.nupkg", v.render());
    assert_eq!(name.as_str(), "mylib.core.10.20.30.nupkg");
    assert_eq!(Version::from_name(&name), Some(v));
}

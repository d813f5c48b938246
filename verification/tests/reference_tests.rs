use vat::VatError;
use vat::reference::{PackageFrom, PackageResolver};
use vat::version::Version;

#[test]
fn parses_name_version_and_envs() {
    let r = PackageResolver::parse_package_string("foo/1.2.3[a,b]").unwrap();
    assert_eq!(r.package_name, "foo");
    assert!(matches!(r.from, PackageFrom::Version(v) if v == Version::new(1, 2, 3)));
    assert_eq!(r.env, Some(vec!["a".to_string(), "b".to_string()]));
    assert!(r.package_path.is_none());
    assert!(r.package.is_none());
}

#[test]
fn bare_name_selects_latest() {
    let r = PackageResolver::parse_package_string("foo").unwrap();
    assert_eq!(r.package_name, "foo");
    assert!(matches!(r.from, PackageFrom::Latest));
    assert!(r.env.is_none());
}

#[test]
fn env_list_without_selector() {
    let r = PackageResolver::parse_package_string("foo[a]").unwrap();
    assert_eq!(r.package_name, "foo");
    assert!(matches!(r.from, PackageFrom::Latest));
    assert_eq!(r.env, Some(vec!["a".to_string()]));
}

#[test]
fn unparseable_selector_falls_back_to_workspace() {
    let r = PackageResolver::parse_package_string("foo/bogus").unwrap();
    assert_eq!(r.package_name, "foo");
    assert!(matches!(r.from, PackageFrom::Main));
}

#[test]
fn literal_latest_selector() {
    let r = PackageResolver::parse_package_string("foo/latest").unwrap();
    assert!(matches!(r.from, PackageFrom::Latest));
}

#[test]
fn env_names_are_trimmed() {
    let r = PackageResolver::parse_package_string("foo[ a , b ]").unwrap();
    assert_eq!(r.env, Some(vec!["a".to_string(), "b".to_string()]));
}

#[test]
fn missing_name_is_refused() {
    let r = PackageResolver::parse_package_string("");
    assert_eq!(r.unwrap_err(), VatError::ReferenceParseError);
    let r = PackageResolver::parse_package_string("/1.2.3");
    assert_eq!(r.unwrap_err(), VatError::ReferenceParseError);
}

#[test]
fn closing_bracket_before_opening_is_refused() {
    let r = PackageResolver::parse_package_string("]a[");
    assert_eq!(r.unwrap_err(), VatError::ReferenceParseError);
}

#[test]
fn lone_bracket_is_refused() {
    let r = PackageResolver::parse_package_string("foo[a");
    assert_eq!(r.unwrap_err(), VatError::ReferenceParseError);
}

#[test]
fn bad_name_characters_are_refused() {
    let r = PackageResolver::parse_package_string("fo o/1.2.3");
    assert_eq!(r.unwrap_err(), VatError::ReferenceParseError);
}

#[test]
fn empty_selector_is_refused() {
    let r = PackageResolver::parse_package_string("foo/");
    assert_eq!(r.unwrap_err(), VatError::ReferenceParseError);
}

#[test]
fn prerelease_selector_keeps_numeric_components() {
    // semver reads the full grammar; the reference keeps the triple.
    let r = PackageResolver::parse_package_string("foo/1.2.3-alpha.1").unwrap();
    assert!(matches!(r.from, PackageFrom::Version(v) if v == Version::new(1, 2, 3)));
}

#[test]
fn version_string_renders_decimal_triple() {
    assert_eq!(Version::new(1, 2, 3).version_string(), "1.2.3");
    assert_eq!(Version::new(0, 0, 0).version_string(), "0.0.0");
    assert_eq!(
        Version::new(u64::MAX, 10, 20).version_string(),
        format!("{}.10.20", u64::MAX)
    );
}

#[test]
fn version_order_is_by_components() {
    let a = Version::new(0, 1, 5);
    let b = Version::new(0, 2, 0);
    assert!(a.lt(&b));
    assert!(!b.lt(&a));
    assert!(!a.lt(&a));
    assert!(Version::new(1, 0, 0).lt(&Version::new(2, 0, 0)));
    assert!(Version::new(1, 9, 9).lt(&Version::new(2, 0, 0)));
}

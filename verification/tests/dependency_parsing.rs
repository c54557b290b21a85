use butido::dependency::Dependency;
use butido::dependency::DependencyParseError;
use butido::dependency::ParseDependency;
use butido::dependency::parse_package_dependency_string_into_name_and_version;
use butido::package::PackageName;
use butido::package::PackageVersion;
use butido::package::PackageVersionConstraint;

fn name(s: &'static str) -> PackageName {
    PackageName::from(String::from(s))
}

fn exact(s: &'static str) -> PackageVersionConstraint {
    PackageVersionConstraint::Exact(PackageVersion::from(String::from(s)))
}

fn higher_as(s: &'static str) -> PackageVersionConstraint {
    PackageVersionConstraint::HigherAs(PackageVersion::from(String::from(s)))
}

#[test]
fn test_dependency_conversion_1() {
    let s = "vim =8.2";
    let d = Dependency::from(String::from(s));

    let (n, c) = d.parse_into_name_and_version().unwrap();

    assert_eq!(n, name("vim"));
    assert_eq!(c, exact("8.2"));
}

#[test]
fn test_dependency_conversion_2() {
    let s = "gtk15 >1b";
    let d = Dependency::from(String::from(s));

    let (n, c) = d.parse_into_name_and_version().unwrap();

    assert_eq!(n, name("gtk15"));
    assert_eq!(c, higher_as("1b"));
}

#[test]
fn parse_rejects_missing_separator() {
    let r = parse_package_dependency_string_into_name_and_version("vim=8.2");
    assert_eq!(r.unwrap_err(), DependencyParseError::NoSeparator);
}

#[test]
fn parse_rejects_bad_name() {
    let r = parse_package_dependency_string_into_name_and_version("9lives =1.0");
    assert_eq!(r.unwrap_err(), DependencyParseError::InvalidName);
}

#[test]
fn parse_rejects_bad_constraint() {
    assert_eq!(
        parse_package_dependency_string_into_name_and_version("vim 8.2").unwrap_err(),
        DependencyParseError::InvalidConstraint
    );
    assert_eq!(
        parse_package_dependency_string_into_name_and_version("vim =").unwrap_err(),
        DependencyParseError::InvalidConstraint
    );
    assert_eq!(
        parse_package_dependency_string_into_name_and_version("vim <1.0").unwrap_err(),
        DependencyParseError::InvalidConstraint
    );
}

#[test]
fn constraint_matching() {
    let v = |s: &str| PackageVersion::from(String::from(s));
    assert!(exact("8.2").matches(&v("8.2")));
    assert!(!exact("8.2").matches(&v("8.3")));
    assert!(higher_as("1b").matches(&v("1c")));
    assert!(!higher_as("1b").matches(&v("1b")));
    assert!(!higher_as("1b").matches(&v("1a")));
    assert!(PackageVersionConstraint::Wildcard.matches(&v("anything")));
}

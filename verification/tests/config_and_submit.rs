use butido::config::ConfigError;
use butido::config::ConfigFacts;
use butido::config::DockerConfig;
use butido::config::NotValidatedConfiguration;
use butido::package::EnvVar;
use butido::package::ImageName;
use butido::package::PackageName;
use butido::package::PackageVersion;
use butido::package::PhaseName;
use butido::package::SourceHash;
use butido::package::Source;
use butido::repository::Dependencies;
use butido::repository::Package;
use butido::repository::Repository;
use butido::source::SourceCache;
use butido::submit::check_requested_image;
use butido::submit::parse_env_assignment;
use butido::submit::select_package;
use butido::submit::source_verification_gate;
use butido::submit::EnvParseError;
use butido::submit::PackageSelectionError;

fn config() -> NotValidatedConfiguration {
    NotValidatedConfiguration {
        compatibility: String::from(">=0.1.0"),
        log_dir: String::from("/var/log/builds"),
        strict_script_interpolation: true,
        build_error_lines: 80,
        script_highlight_theme: Some(String::from("InspiredGitHub")),
        script_linter: None,
        shebang: String::from("#!/bin/bash"),
        releases_directory: String::from("/var/releases"),
        release_stores: vec![String::from("default")],
        staging_directory: String::from("/var/staging"),
        source_cache_root: String::from("/var/cache/sources"),
        docker: DockerConfig {
            endpoints: vec![String::from("local")],
            images: vec![ImageName::from(String::from("debian:12"))],
            verify_images_present: true,
            docker_versions: vec![String::from("24")],
            docker_api_versions: vec![String::from("1.43")],
        },
        available_phases: vec![PhaseName::from(String::from("build"))],
    }
}

fn good_facts() -> ConfigFacts {
    ConfigFacts {
        compatibility_matches: true,
        linter_is_file: true,
        staging_is_dir: true,
        releases_is_dir: true,
        source_cache_is_dir: true,
    }
}

#[test]
fn config_validation_accepts_a_sane_configuration() {
    let validated = config().validate(good_facts()).unwrap();
    assert_eq!(validated.inner.shebang, "#!/bin/bash");
}

#[test]
fn config_validation_rejects_each_broken_rule() {
    let mut facts = good_facts();
    facts.compatibility_matches = false;
    assert_eq!(config().validate(facts).unwrap_err(), ConfigError::Incompatible);

    let mut c = config();
    c.script_linter = Some(String::from("/usr/bin/shellcheck"));
    let mut facts = good_facts();
    facts.linter_is_file = false;
    assert_eq!(c.validate(facts).unwrap_err(), ConfigError::LinterNotAFile);

    let mut facts = good_facts();
    facts.staging_is_dir = false;
    assert_eq!(
        config().validate(facts).unwrap_err(),
        ConfigError::StagingNotADirectory
    );

    let mut facts = good_facts();
    facts.releases_is_dir = false;
    assert_eq!(
        config().validate(facts).unwrap_err(),
        ConfigError::ReleasesNotADirectory
    );

    let mut c = config();
    c.release_stores = vec![];
    assert_eq!(
        c.validate(good_facts()).unwrap_err(),
        ConfigError::NoReleaseStores
    );

    let mut facts = good_facts();
    facts.source_cache_is_dir = false;
    assert_eq!(
        config().validate(facts).unwrap_err(),
        ConfigError::SourceCacheNotADirectory
    );

    let mut c = config();
    c.available_phases = vec![];
    assert_eq!(c.validate(good_facts()).unwrap_err(), ConfigError::NoPhases);

    let mut c = config();
    c.script_highlight_theme = Some(String::from("neon-zebra"));
    assert_eq!(c.validate(good_facts()).unwrap_err(), ConfigError::UnknownTheme);
}

#[test]
fn env_assignment_parsing() {
    let e = parse_env_assignment("CFLAGS=-O2").unwrap();
    assert_eq!(e.name(), "CFLAGS");
    assert_eq!(e.value(), "-O2");

    let e = parse_env_assignment("A=B=C").unwrap();
    assert_eq!(e.name(), "A");
    assert_eq!(e.value(), "B=C");

    let e = parse_env_assignment("EMPTY=").unwrap();
    assert_eq!(e.name(), "EMPTY");
    assert_eq!(e.value(), "");

    assert_eq!(
        parse_env_assignment("NOEQ").unwrap_err(),
        EnvParseError::NoAssignment
    );
    assert_eq!(
        parse_env_assignment("=value").unwrap_err(),
        EnvParseError::InvalidName
    );
    assert_eq!(
        parse_env_assignment("9BAD=1").unwrap_err(),
        EnvParseError::InvalidName
    );
}

#[test]
fn requested_image_check() {
    let configured = vec![
        ImageName::from(String::from("debian:12")),
        ImageName::from(String::from("alpine:3")),
    ];
    let good = ImageName::from(String::from("alpine:3"));
    let bad = ImageName::from(String::from("arch:latest"));
    assert!(check_requested_image(&good, &configured, true).is_ok());
    assert!(check_requested_image(&bad, &configured, true).is_err());
    assert!(check_requested_image(&bad, &configured, false).is_ok());
}

#[test]
fn package_selection_needs_exactly_one_candidate() {
    assert_eq!(
        select_package(&vec![]).unwrap_err(),
        PackageSelectionError::NoneFound
    );
    assert_eq!(select_package(&vec![4]).unwrap(), 4);
    assert_eq!(
        select_package(&vec![1, 2]).unwrap_err(),
        PackageSelectionError::Ambiguous
    );
}

#[test]
fn repository_find_with_version() {
    let mk = |name: &str, version: &str| Package {
        name: PackageName::from(String::from(name)),
        version: PackageVersion::from(String::from(version)),
        source: Source::new(
            String::from("https://sources.example/archive.tar"),
            SourceHash::new(String::from("0123abcd")),
        ),
        environment: None,
        allowed_images: None,
        denied_images: None,
        dependencies: Dependencies::new(vec![], vec![]),
        phases: vec![],
    };
    let repo = Repository::new(vec![mk("a", "1.0"), mk("a", "2.0"), mk("b", "1.0")]);
    let a = PackageName::from(String::from("a"));
    assert_eq!(repo.find_by_name(&a), vec![0, 1]);
    assert_eq!(repo.find(&a, &PackageVersion::from(String::from("2.0"))), vec![1]);
    let exact = butido::package::PackageVersionConstraint::Exact(PackageVersion::from(
        String::from("1.0"),
    ));
    assert_eq!(repo.find_with_version(&a, &exact), vec![0]);
}

#[test]
fn source_verification_gate_blocks_the_submit() {
    // Every hash verified: orchestration may start.
    let all_good = vec![
        (String::from("a"), true),
        (String::from("b"), true),
    ];
    assert!(source_verification_gate(&all_good).is_ok());

    // One package failed verification: the submit stops before any job,
    // and the failing package is named.
    let one_bad = vec![
        (String::from("a"), true),
        (String::from("b"), false),
        (String::from("c"), false),
    ];
    let failed = source_verification_gate(&one_bad).unwrap_err();
    assert_eq!(failed, vec![String::from("b"), String::from("c")]);
}

#[test]
fn source_cache_paths_and_checks() {
    let cache = SourceCache::new(String::from("/var/cache/sources"));
    let p = Package {
        name: PackageName::from(String::from("vim")),
        version: PackageVersion::from(String::from("8.2")),
        source: Source::new(
            String::from("https://sources.example/vim-8.2.tar"),
            SourceHash::new(String::from("feedbeef")),
        ),
        environment: None,
        allowed_images: None,
        denied_images: None,
        dependencies: Dependencies::new(vec![], vec![]),
        phases: vec![],
    };
    let entry = cache.source_for(&p);
    assert_eq!(entry.path(), "/var/cache/sources/vim-8.2.source");

    let listing = vec![String::from("/var/cache/sources/vim-8.2.source")];
    assert!(entry.is_present(&listing));
    assert!(!entry.is_present(&vec![]));

    assert!(entry.verify_hash(&String::from("feedbeef")));
    assert!(!entry.verify_hash(&String::from("00000000")));
}

#[test]
fn env_var_accessors() {
    let e = EnvVar::new(String::from("PATH"), String::from("/usr/bin"));
    assert_eq!(e.name(), "PATH");
    assert_eq!(e.value(), "/usr/bin");
    let d = e.duplicate();
    assert_eq!(d.name(), "PATH");
}

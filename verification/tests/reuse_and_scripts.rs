use butido::dependency::BuildDependency;
use butido::filestore::ReleaseStore;
use butido::filestore::StagingStore;
use butido::package::EnvVar;
use butido::package::ImageName;
use butido::package::PackageName;
use butido::package::PackageVersion;
use butido::package::Phase;
use butido::package::PhaseName;
use butido::package::SourceHash;
use butido::package::Source;
use butido::path::StoreRoot;
use butido::repository::Dependencies;
use butido::repository::Package;
use butido::reuse::decide_substitution;
use butido::reuse::find_artifacts;
use butido::reuse::LedgerJobRow;
use butido::reuse::ReuseDecision;
use butido::script::render_script;
use butido::script::ScriptError;

fn pkg(name: &str, version: &str) -> Package {
    Package {
        name: PackageName::from(String::from(name)),
        version: PackageVersion::from(String::from(version)),
        source: Source::new(
            String::from("https://sources.example/archive.tar"),
            SourceHash::new(String::from("0123abcd")),
        ),
        environment: None,
        allowed_images: None,
        denied_images: None,
        dependencies: Dependencies::new(vec![], vec![]),
        phases: vec![],
    }
}

fn env(k: &str, v: &str) -> EnvVar {
    EnvVar::new(String::from(k), String::from(v))
}

fn row(name: &str, version: &str, image: &str, env: Vec<EnvVar>, path: &str) -> LedgerJobRow {
    LedgerJobRow {
        package_name: String::from(name),
        package_version: String::from(version),
        image_name: String::from(image),
        script_text: String::from(""),
        env,
        artifact_path: String::from(path),
        release_date: None,
    }
}

fn staging(files: Vec<&str>) -> StagingStore {
    StagingStore::load(
        StoreRoot::new(String::from("/var/staging")).unwrap(),
        files.into_iter().map(String::from).collect(),
    )
    .unwrap()
}

fn release(files: Vec<&str>) -> ReleaseStore {
    ReleaseStore::load(
        StoreRoot::new(String::from("/var/releases")).unwrap(),
        files.into_iter().map(String::from).collect(),
    )
    .unwrap()
}

fn shebang() -> String {
    String::from("#!/bin/bash")
}

#[test]
fn reuse_hit_with_env_superset_and_miss_with_subset() {
    // A prior job for p 1.0 ran with {A=1}.  An overlay {A=1, B=2} covers
    // it and reuses the artifact; an empty overlay does not.
    let p = pkg("p", "1.0");
    let rows = vec![row("p", "1.0", "i", vec![env("A", "1")], "p-1.0.tar")];
    let st = staging(vec!["p-1.0.tar"]);

    let overlay = vec![env("A", "1"), env("B", "2")];
    let hits = find_artifacts(
        &p,
        &rows,
        &vec![],
        Some(&st),
        &overlay,
        &shebang(),
        &vec![],
        false,
    )
    .unwrap();
    assert_eq!(hits.len(), 1);
    assert_eq!(hits[0].0.as_str(), "p-1.0.tar");
    assert_eq!(hits[0].1.as_str(), "/var/staging/p-1.0.tar");

    let rows = vec![row("p", "1.0", "i", vec![env("A", "1")], "p-1.0.tar")];
    let empty_overlay: Vec<EnvVar> = vec![];
    let misses = find_artifacts(
        &p,
        &rows,
        &vec![],
        Some(&st),
        &empty_overlay,
        &shebang(),
        &vec![],
        false,
    )
    .unwrap();
    assert_eq!(misses.len(), 0);
}

#[test]
fn reuse_is_independent_of_env_order() {
    // The same overlay in two orders returns identical results.
    let p = pkg("p", "1.0");
    let st = staging(vec!["p-1.0.tar"]);
    let rows1 = vec![row("p", "1.0", "i", vec![env("A", "1"), env("B", "2")], "p-1.0.tar")];
    let rows2 = vec![row("p", "1.0", "i", vec![env("A", "1"), env("B", "2")], "p-1.0.tar")];
    let one_way = vec![env("A", "1"), env("B", "2"), env("C", "3")];
    let other_way = vec![env("C", "3"), env("B", "2"), env("A", "1")];
    let r1 = find_artifacts(&p, &rows1, &vec![], Some(&st), &one_way, &shebang(), &vec![], false)
        .unwrap();
    let r2 = find_artifacts(&p, &rows2, &vec![], Some(&st), &other_way, &shebang(), &vec![], false)
        .unwrap();
    assert_eq!(r1.len(), r2.len());
    assert_eq!(r1.len(), 1);
    assert_eq!(r1[0].0.as_str(), r2[0].0.as_str());
    assert_eq!(r1[0].1.as_str(), r2[0].1.as_str());
    assert_eq!(r1[0].2, r2[0].2);
}

#[test]
fn reuse_respects_allowed_and_denied_images() {
    let mut p = pkg("p", "1.0");
    p.allowed_images = Some(vec![ImageName::from(String::from("good"))]);
    p.denied_images = Some(vec![ImageName::from(String::from("bad"))]);
    let st = staging(vec!["p-1.0.tar"]);
    let no_env: Vec<EnvVar> = vec![];

    let rows = vec![row("p", "1.0", "good", vec![], "p-1.0.tar")];
    let hit = find_artifacts(&p, &rows, &vec![], Some(&st), &no_env, &shebang(), &vec![], false)
        .unwrap();
    assert_eq!(hit.len(), 1);

    let rows = vec![row("p", "1.0", "bad", vec![], "p-1.0.tar")];
    let miss = find_artifacts(&p, &rows, &vec![], Some(&st), &no_env, &shebang(), &vec![], false)
        .unwrap();
    assert_eq!(miss.len(), 0);

    let rows = vec![row("p", "1.0", "other", vec![], "p-1.0.tar")];
    let miss = find_artifacts(&p, &rows, &vec![], Some(&st), &no_env, &shebang(), &vec![], false)
        .unwrap();
    assert_eq!(miss.len(), 0);
}

#[test]
fn reuse_resolution_prefers_staging_then_release_order() {
    let p = pkg("p", "1.0");
    let no_env: Vec<EnvVar> = vec![];
    let st = staging(vec!["p-1.0.tar"]);
    let rel = release(vec!["p-1.0.tar", "only-released.tar"]);

    // Present in both: the staging path wins.
    let rows = vec![row("p", "1.0", "i", vec![], "p-1.0.tar")];
    let r = find_artifacts(
        &p,
        &rows,
        &vec![rel],
        Some(&st),
        &no_env,
        &shebang(),
        &vec![],
        false,
    )
    .unwrap();
    assert_eq!(r.len(), 1);
    assert_eq!(r[0].1.as_str(), "/var/staging/p-1.0.tar");

    // Present only in the release store.
    let rel = release(vec!["only-released.tar"]);
    let rows = vec![row("p", "1.0", "i", vec![], "only-released.tar")];
    let r = find_artifacts(
        &p,
        &rows,
        &vec![rel],
        Some(&st),
        &no_env,
        &shebang(),
        &vec![],
        false,
    )
    .unwrap();
    assert_eq!(r.len(), 1);
    assert_eq!(r[0].0.as_str(), "only-released.tar");
    assert_eq!(r[0].1.as_str(), "/var/releases/only-released.tar");

    // Recorded in the ledger but gone from every store: skipped silently.
    let rel = release(vec![]);
    let rows = vec![row("p", "1.0", "i", vec![], "vanished.tar")];
    let r = find_artifacts(
        &p,
        &rows,
        &vec![rel],
        Some(&st),
        &no_env,
        &shebang(),
        &vec![],
        false,
    )
    .unwrap();
    assert_eq!(r.len(), 0);
}

#[test]
fn reuse_script_filter_compares_the_rendered_script() {
    let mut p = pkg("p", "1.0");
    p.phases = vec![(
        PhaseName::from(String::from("build")),
        Phase::Text(String::from("make")),
    )];
    let phases = vec![PhaseName::from(String::from("build"))];
    let st = staging(vec!["p-1.0.tar"]);
    let no_env: Vec<EnvVar> = vec![];

    let mut matching = row("p", "1.0", "i", vec![], "p-1.0.tar");
    matching.script_text = String::from("#!/bin/bash\nmake\n");
    let r = find_artifacts(
        &p,
        &vec![matching],
        &vec![],
        Some(&st),
        &no_env,
        &shebang(),
        &phases,
        true,
    )
    .unwrap();
    assert_eq!(r.len(), 1);

    let mut differing = row("p", "1.0", "i", vec![], "p-1.0.tar");
    differing.script_text = String::from("#!/bin/bash\nmake -j64\n");
    let r = find_artifacts(
        &p,
        &vec![differing],
        &vec![],
        Some(&st),
        &no_env,
        &shebang(),
        &phases,
        true,
    )
    .unwrap();
    assert_eq!(r.len(), 0);
}

#[test]
fn script_render_is_deterministic_and_ordered() {
    let mut p = pkg("p", "1.0");
    p.phases = vec![
        (
            PhaseName::from(String::from("install")),
            Phase::Text(String::from("make install")),
        ),
        (
            PhaseName::from(String::from("build")),
            Phase::Text(String::from("make")),
        ),
    ];
    let phases = vec![
        PhaseName::from(String::from("build")),
        PhaseName::from(String::from("install")),
        PhaseName::from(String::from("package")),
    ];
    let once = render_script(&shebang(), &phases, &p).unwrap();
    let twice = render_script(&shebang(), &phases, &p).unwrap();
    assert_eq!(once, "#!/bin/bash\nmake\nmake install\n");
    assert_eq!(once, twice);
}

#[test]
fn script_render_rejects_file_phases() {
    let mut p = pkg("p", "1.0");
    p.phases = vec![(
        PhaseName::from(String::from("build")),
        Phase::Path(String::from("scripts/build.sh")),
    )];
    let phases = vec![PhaseName::from(String::from("build"))];
    assert_eq!(
        render_script(&shebang(), &phases, &p).unwrap_err(),
        ScriptError::PhaseNotInline
    );
}

#[test]
fn package_dependency_getters() {
    let mut p = pkg("p", "1.0");
    p.dependencies = Dependencies::new(
        vec![BuildDependency::from(String::from("dep =1.0"))],
        vec![],
    );
    assert_eq!(p.dependencies().build().len(), 1);
    assert_eq!(p.dependencies().runtime().len(), 0);
    assert_eq!(p.name().as_str(), "p");
    assert_eq!(p.version().as_str(), "1.0");
    let copy = p.duplicate();
    assert_eq!(copy.name().as_str(), "p");
    assert_eq!(copy.dependencies().build().len(), 1);
}

#[test]
fn substitution_is_consulted_before_scheduling() {
    // A reuse hit substitutes the prior artifacts, in query order, for a
    // fresh run; an empty result schedules the job.
    let p = pkg("p", "1.0");
    let st = staging(vec!["p-1.0.tar"]);
    let no_env: Vec<EnvVar> = vec![];
    let rows = vec![row("p", "1.0", "i", vec![], "p-1.0.tar")];
    let hits = find_artifacts(&p, &rows, &vec![], Some(&st), &no_env, &shebang(), &vec![], false)
        .unwrap();
    match decide_substitution(hits) {
        ReuseDecision::Substitute(arts) => {
            assert_eq!(arts.len(), 1);
            assert_eq!(arts[0].as_str(), "p-1.0.tar");
        }
        other => panic!("unexpected: {:?}", other),
    }

    match decide_substitution(vec![]) {
        ReuseDecision::RunFresh => {}
        other => panic!("unexpected: {:?}", other),
    }
}

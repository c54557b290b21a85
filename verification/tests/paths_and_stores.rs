use butido::filestore::ReleaseStore;
use butido::filestore::StagingStore;
use butido::path::ArtifactPath;
use butido::path::PathError;
use butido::path::StoreRoot;

fn root(s: &str) -> StoreRoot {
    StoreRoot::new(String::from(s)).unwrap()
}

fn art(s: &str) -> ArtifactPath {
    ArtifactPath::new(String::from(s)).unwrap()
}

#[test]
fn artifact_path_accepts_normalized_relative_paths() {
    assert!(ArtifactPath::new(String::from("a.tar")).is_ok());
    assert!(ArtifactPath::new(String::from("pkg/a.tar")).is_ok());
    assert!(ArtifactPath::new(String::from("deep/er/still/x")).is_ok());
    assert!(ArtifactPath::new(String::from("..a/b")).is_ok());
    assert!(ArtifactPath::new(String::from("a../b")).is_ok());
}

#[test]
fn artifact_path_rejects_escaping_paths() {
    assert_eq!(
        ArtifactPath::new(String::from("/abs/a.tar")).unwrap_err(),
        PathError::NotRelative
    );
    assert_eq!(
        ArtifactPath::new(String::from("../a.tar")).unwrap_err(),
        PathError::NotRelative
    );
    assert_eq!(
        ArtifactPath::new(String::from("a/../b")).unwrap_err(),
        PathError::NotRelative
    );
    assert_eq!(ArtifactPath::new(String::from("a/..")).unwrap_err(), PathError::NotRelative);
    assert_eq!(ArtifactPath::new(String::from("..")).unwrap_err(), PathError::NotRelative);
}

#[test]
fn artifact_path_rejects_unnormalized_paths() {
    assert!(ArtifactPath::new(String::from("")).is_err());
    assert!(ArtifactPath::new(String::from("a//b")).is_err());
    assert!(ArtifactPath::new(String::from("a/b/")).is_err());
    assert!(ArtifactPath::new(String::from("./a")).is_err());
    assert!(ArtifactPath::new(String::from("a/./b")).is_err());
}

#[test]
fn store_root_validation() {
    assert!(StoreRoot::new(String::from("/var/stores/staging")).is_ok());
    assert!(StoreRoot::new(String::from("relative/root")).is_err());
    assert!(StoreRoot::new(String::from("/var/../etc")).is_err());
    assert!(StoreRoot::new(String::from("/")).is_err());
}

#[test]
fn join_builds_full_paths_and_rejects_escapes() {
    let r = root("/var/staging");
    let full = r.join(&art("pkg/a.tar"));
    assert_eq!(full.as_str(), "/var/staging/pkg/a.tar");

    assert!(r.join_checked(String::from("pkg/a.tar")).is_ok());
    assert!(r.join_checked(String::from("/etc/passwd")).is_err());
    assert!(r.join_checked(String::from("../outside")).is_err());
    assert!(r.join_checked(String::from("ok/../../outside")).is_err());
}

#[test]
fn filestore_indexes_and_answers_membership() {
    let st = StagingStore::load(
        root("/var/staging"),
        vec![String::from("a.tar"), String::from("sub/b.tar")],
    )
    .unwrap();
    assert!(st.0.get(&art("a.tar")).is_some());
    assert!(st.0.get(&art("sub/b.tar")).is_some());
    assert!(st.0.get(&art("c.tar")).is_none());
    let full = st.0.full_path(&art("sub/b.tar"));
    assert_eq!(full.as_str(), "/var/staging/sub/b.tar");
}

#[test]
fn filestore_load_rejects_bad_listings() {
    let r = ReleaseStore::load(root("/var/releases"), vec![String::from("../../etc/passwd")]);
    assert!(r.is_err());
}

#[test]
fn staging_store_appends() {
    let mut st = StagingStore::load(root("/var/staging"), vec![]).unwrap();
    assert!(st.0.get(&art("fresh.tar")).is_none());
    st.0.add(art("fresh.tar"));
    assert!(st.0.get(&art("fresh.tar")).is_some());
}

use butido::dependency::BuildDependency;
use butido::graph::GraphBuildError;
use butido::graph::JobGraph;
use butido::ids::JobId;
use butido::orchestrator::root_result;
use butido::orchestrator::run_graph;
use butido::orchestrator::wire_tasks;
use butido::orchestrator::CloseDecision;
use butido::orchestrator::JobOutcome;
use butido::orchestrator::OrchestrationError;
use butido::orchestrator::TaskState;
use butido::package::EnvVar;
use butido::package::ImageName;
use butido::package::PackageName;
use butido::package::PackageVersion;
use butido::package::SourceHash;
use butido::package::Source;
use butido::path::ArtifactPath;
use butido::repository::Dependencies;
use butido::repository::Package;
use butido::repository::Repository;

fn pkg(name: &str, version: &str, build_deps: Vec<&str>) -> Package {
    let build = build_deps
        .into_iter()
        .map(|d| BuildDependency::from(String::from(d)))
        .collect();
    Package {
        name: PackageName::from(String::from(name)),
        version: PackageVersion::from(String::from(version)),
        source: Source::new(
            String::from("https://sources.example/archive.tar"),
            SourceHash::new(String::from("0123abcd")),
        ),
        environment: None,
        allowed_images: None,
        denied_images: None,
        dependencies: Dependencies::new(build, vec![]),
        phases: vec![],
    }
}

fn art(s: &str) -> ArtifactPath {
    ArtifactPath::new(String::from(s)).unwrap()
}

fn image() -> ImageName {
    ImageName::from(String::from("debian:12"))
}

fn resources() -> Vec<EnvVar> {
    vec![]
}

fn build_graph(root: &Package, repo_pkgs: Vec<Package>) -> JobGraph {
    let repo = Repository::new(repo_pkgs);
    JobGraph::build(root, &repo, &image(), &resources()).unwrap()
}

#[test]
fn single_leaf_clean_build() {
    // One node, one successful job: the root receives its artifact and no
    // errors.
    let a = pkg("a", "1.0", vec![]);
    let g = build_graph(&a, vec![a.clone()]);
    assert_eq!(g.len(), 1);
    let outcomes = vec![JobOutcome::Success(vec![art("a.tar")])];
    let (arts, errs) = run_graph(&g, &outcomes);
    assert_eq!(arts.len(), 1);
    assert_eq!(arts[0].as_str(), "a.tar");
    assert_eq!(errs.len(), 0);
}

#[test]
fn chain_of_three_orders_artifacts_bottom_up() {
    // c depends on b depends on a; all succeed.  The root's artifact list
    // is [a, b, c].
    let a = pkg("a", "1.0", vec![]);
    let b = pkg("b", "1.0", vec!["a =1.0"]);
    let c = pkg("c", "1.0", vec!["b =1.0"]);
    let g = build_graph(&c, vec![a.clone(), b.clone(), c.clone()]);
    assert_eq!(g.len(), 3);
    let outcomes = vec![
        JobOutcome::Success(vec![art("a.tar")]),
        JobOutcome::Success(vec![art("b.tar")]),
        JobOutcome::Success(vec![art("c.tar")]),
    ];
    let (arts, errs) = run_graph(&g, &outcomes);
    assert_eq!(errs.len(), 0);
    let names: Vec<&str> = arts.iter().map(|a| a.as_str()).collect();
    assert_eq!(names, vec!["a.tar", "b.tar", "c.tar"]);
}

#[test]
fn sibling_failure_accumulates_at_the_root() {
    // r depends on l1 and l2; l1 succeeds, l2 fails: the root receives no
    // artifacts and exactly the failing leaf's error.
    let l1 = pkg("l1", "1.0", vec![]);
    let l2 = pkg("l2", "1.0", vec![]);
    let r = pkg("r", "1.0", vec!["l1 =1.0", "l2 =1.0"]);
    let g = build_graph(&r, vec![l1.clone(), l2.clone(), r.clone()]);
    assert_eq!(g.len(), 3);
    let l2_uuid = g.node(1).uuid;
    let outcomes = vec![
        JobOutcome::Success(vec![art("l1.tar")]),
        JobOutcome::Failure(String::from("E")),
        JobOutcome::Success(vec![art("r.tar")]),
    ];
    let (arts, errs) = run_graph(&g, &outcomes);
    assert_eq!(arts.len(), 0);
    assert_eq!(errs.len(), 1);
    assert_eq!(errs[0].job_uuid, l2_uuid);
    assert_eq!(errs[0].message, "E");
}

#[test]
fn two_failing_leaves_give_two_errors() {
    let l1 = pkg("l1", "1.0", vec![]);
    let l2 = pkg("l2", "1.0", vec![]);
    let r = pkg("r", "1.0", vec!["l1 =1.0", "l2 =1.0"]);
    let g = build_graph(&r, vec![l1.clone(), l2.clone(), r.clone()]);
    let l1_uuid = g.node(0).uuid;
    let l2_uuid = g.node(1).uuid;
    let outcomes = vec![
        JobOutcome::Failure(String::from("boom-1")),
        JobOutcome::Failure(String::from("boom-2")),
        JobOutcome::Success(vec![art("r.tar")]),
    ];
    let (arts, errs) = run_graph(&g, &outcomes);
    assert_eq!(arts.len(), 0);
    assert_eq!(errs.len(), 2);
    assert_eq!(errs[0].job_uuid, l1_uuid);
    assert_eq!(errs[0].message, "boom-1");
    assert_eq!(errs[1].job_uuid, l2_uuid);
    assert_eq!(errs[1].message, "boom-2");
}

#[test]
fn graph_soundness_at_runtime() {
    // Every dependency identifier names another node of the same graph,
    // and every non-root node is listed by exactly one node.
    let a = pkg("a", "1.0", vec![]);
    let b = pkg("b", "1.0", vec!["a =1.0"]);
    let c = pkg("c", "1.0", vec!["a =1.0", "b =1.0"]);
    let g = build_graph(&c, vec![a.clone(), b.clone(), c.clone()]);
    let n = g.len();
    let mut all_ids: Vec<JobId> = Vec::new();
    for i in 0..n {
        all_ids.push(g.node(i).uuid);
    }
    for i in 0..n {
        // Every node identifier is a version 4 UUID.
        assert_eq!((g.node(i).uuid.bits >> 76) & 0xf, 4);
        // The children mirror the declared dependencies one to one.
        let declared = g.node(i).package.dependencies().build().len()
            + g.node(i).package.dependencies().runtime().len();
        assert_eq!(g.node(i).dependencies.len(), declared);
        for d in g.node(i).dependencies.iter() {
            assert!(all_ids.iter().any(|x| x == d));
            assert!(*d != g.node(i).uuid);
        }
    }
    let root = g.root_index();
    for i in 0..n {
        let listed_by = (0..n)
            .filter(|p| g.node(*p).dependencies.iter().any(|d| *d == g.node(i).uuid))
            .count();
        if i == root {
            assert_eq!(listed_by, 0);
        } else {
            assert_eq!(listed_by, 1);
        }
    }
}

#[test]
fn shared_dependency_appears_once_per_occurrence() {
    // Both b and c depend on a: the closure walk gives each occurrence its
    // own node, so the graph stays a tree.
    let a = pkg("a", "1.0", vec![]);
    let b = pkg("b", "1.0", vec!["a =1.0"]);
    let c = pkg("c", "1.0", vec!["a =1.0", "b =1.0"]);
    let g = build_graph(&c, vec![a.clone(), b.clone(), c.clone()]);
    assert_eq!(g.len(), 4);
}

#[test]
fn graph_build_failures() {
    let lonely = pkg("lonely", "1.0", vec!["missing =1.0"]);
    let repo = Repository::new(vec![lonely.clone()]);
    assert_eq!(
        JobGraph::build(&lonely, &repo, &image(), &resources()).unwrap_err(),
        GraphBuildError::UnresolvedDependency
    );

    let one = pkg("dup", "1.0", vec![]);
    let two = pkg("dup", "1.0", vec![]);
    let top = pkg("top", "1.0", vec!["dup =1.0"]);
    let repo = Repository::new(vec![one, two, top.clone()]);
    assert_eq!(
        JobGraph::build(&top, &repo, &image(), &resources()).unwrap_err(),
        GraphBuildError::AmbiguousDependency
    );

    let bad = pkg("bad", "1.0", vec!["no-constraint"]);
    let repo = Repository::new(vec![bad.clone()]);
    assert_eq!(
        JobGraph::build(&bad, &repo, &image(), &resources()).unwrap_err(),
        GraphBuildError::MalformedDependency
    );

    let ping = pkg("ping", "1.0", vec!["pong =1.0"]);
    let pong = pkg("pong", "1.0", vec!["ping =1.0"]);
    let repo = Repository::new(vec![ping.clone(), pong.clone()]);
    assert_eq!(
        JobGraph::build(&ping, &repo, &image(), &resources()).unwrap_err(),
        GraphBuildError::DependencyCycle
    );
}

#[test]
fn wiring_points_each_task_at_its_parent() {
    let l1 = pkg("l1", "1.0", vec![]);
    let l2 = pkg("l2", "1.0", vec![]);
    let r = pkg("r", "1.0", vec!["l1 =1.0", "l2 =1.0"]);
    let g = build_graph(&r, vec![l1.clone(), l2.clone(), r.clone()]);
    let parents = wire_tasks(&g);
    assert_eq!(parents.len(), 3);
    assert_eq!(parents[0], Some(2));
    assert_eq!(parents[1], Some(2));
    assert_eq!(parents[2], None);
}

#[test]
fn task_state_waits_forwards_and_flattens() {
    let d1 = JobId::new(1);
    let d2 = JobId::new(2);
    let mut task = TaskState::new(vec![d1, d2]);
    assert!(!task.all_dependencies_reported());
    assert_eq!(task.close_decision(), CloseDecision::Abandoned);

    task.on_dependency_result(d1, vec![art("one.tar"), art("two.tar")]);
    assert!(!task.all_dependencies_reported());
    task.on_dependency_result(d2, vec![art("three.tar")]);
    assert!(task.all_dependencies_reported());
    assert_eq!(task.close_decision(), CloseDecision::Proceed);

    let flat: Vec<String> = task
        .flattened_artifacts()
        .iter()
        .map(|a| String::from(a.as_str()))
        .collect();
    assert_eq!(flat, vec!["one.tar", "two.tar", "three.tar"]);
}

#[test]
fn task_state_forwards_errors_unchanged() {
    let d1 = JobId::new(1);
    let mut task = TaskState::new(vec![d1]);
    let errs = vec![butido::orchestrator::JobError {
        job_uuid: JobId::new(7),
        message: String::from("leaf failed"),
    }];
    task.on_dependency_errors(&errs);
    assert!(task.has_errors());
    assert_eq!(task.close_decision(), CloseDecision::ForwardErrors);
    assert_eq!(task.errors().len(), 1);
    assert_eq!(task.errors()[0].message, "leaf failed");
}

#[test]
fn root_channel_interpretation() {
    let abandoned = root_result(None);
    assert_eq!(abandoned.unwrap_err(), OrchestrationError::RootAbandoned);

    let ok = root_result(Some(Ok((JobId::new(1), vec![art("a.tar")])))).unwrap();
    assert_eq!(ok.0.len(), 1);
    assert_eq!(ok.1.len(), 0);

    let err = root_result(Some(Err(vec![butido::orchestrator::JobError {
        job_uuid: JobId::new(2),
        message: String::from("E"),
    }])))
    .unwrap();
    assert_eq!(err.0.len(), 0);
    assert_eq!(err.1.len(), 1);
}

#[test]
fn fresh_job_ids_carry_the_version_nibble() {
    let id = JobId::fresh();
    assert_eq!((id.bits >> 76) & 0xf, 4);
    let other = JobId::fresh();
    assert_eq!((other.bits >> 76) & 0xf, 4);
}

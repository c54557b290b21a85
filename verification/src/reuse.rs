use vstd::prelude::*;

use crate::filestore::store_contains;
use crate::filestore::ReleaseStore;
use crate::filestore::StagingStore;
use crate::package::env_subset_of;
use crate::package::EnvVar;
use crate::package::ImageName;
use crate::package::PhaseName;
use crate::path::valid_rel_path;
use crate::path::ArtifactPath;
use crate::path::FullArtifactPath;
use crate::repository::Package;
use crate::script::all_phases_inline;
use crate::script::render_script;
use crate::script::script_of;
use crate::script::ScriptError;

verus! {

/// The artifact-reuse query.
///
/// Given a package, the rows the ledger recorded for earlier jobs of that
/// package, and the loaded stores, the query returns the on-disk artifact
/// paths of every earlier job with the same fingerprint: same package name
/// and version, an image the package allows, the same rendered script when
/// script filtering is on, and a recorded environment contained in the
/// candidate environment.  Each surviving path is looked up in the staging
/// store first, then in each release store in declared order; rows whose
/// file is gone everywhere are skipped silently.

/// One candidate row of the ledger: one artifact of one earlier job,
/// joined with that job's data.
#[derive(Debug)]
pub struct LedgerJobRow {
    /// The name of the package the job built.
    pub package_name: String,
    /// The version of the package the job built.
    pub package_version: String,
    /// The image the job ran on.
    pub image_name: String,
    /// The script the job ran, verbatim.
    pub script_text: String,
    /// The environment the job ran under.
    pub env: Vec<EnvVar>,
    /// The artifact's path relative to its store root.
    pub artifact_path: String,
    /// When the artifact was released, if it was.
    pub release_date: Option<i64>,
}

/// The candidate environment: the package's declared variables, then the
/// extra overlay.
pub open spec fn env_union(pkg: Package, additional: Seq<(Seq<char>, Seq<char>)>) -> Seq<
    (Seq<char>, Seq<char>),
> {
    (match pkg@.environment {
        Option::Some(e) => e,
        Option::None => Seq::empty(),
    }) + additional
}

/// The row carries the same fingerprint as the candidate job.
pub open spec fn row_matches(
    row: LedgerJobRow,
    pkg: Package,
    additional: Seq<(Seq<char>, Seq<char>)>,
    script: Option<Seq<char>>,
) -> bool {
    &&& row.package_name@ == pkg@.name
    &&& row.package_version@ == pkg@.version
    &&& match pkg@.allowed_images {
        Option::Some(imgs) => imgs.contains(row.image_name@),
        Option::None => true,
    }
    &&& match pkg@.denied_images {
        Option::Some(imgs) => !imgs.contains(row.image_name@),
        Option::None => true,
    }
    &&& match script {
        Option::Some(s) => row.script_text@ == s,
        Option::None => true,
    }
    &&& env_subset_of(row.env@.map_values(|e: EnvVar| e@), env_union(pkg, additional))
}

/// Resolution against the release stores, in declared order: the first
/// store that indexes the path wins.
pub open spec fn resolve_in_stores(
    p: Seq<char>,
    stores: Seq<(Seq<char>, Seq<Seq<char>>)>,
) -> Option<Seq<char>>
    decreases stores.len(),
{
    if stores.len() == 0 {
        Option::None
    } else if store_contains(stores[0].1, p) {
        Option::Some(stores[0].0 + seq!['/'] + p)
    } else {
        resolve_in_stores(p, stores.skip(1))
    }
}

/// Resolution of one artifact path: the staging store first, then the
/// release stores in declared order.
pub open spec fn resolve_path(
    p: Seq<char>,
    staging: Option<(Seq<char>, Seq<Seq<char>>)>,
    stores: Seq<(Seq<char>, Seq<Seq<char>>)>,
) -> Option<Seq<char>> {
    match staging {
        Option::Some((root, entries)) => if store_contains(entries, p) {
            Option::Some(root + seq!['/'] + p)
        } else {
            resolve_in_stores(p, stores)
        },
        Option::None => resolve_in_stores(p, stores),
    }
}

/// What one row contributes to the query result: the artifact's
/// store-relative path, the absolute path it resolved to, and its release
/// date.
pub open spec fn row_contribution(
    row: LedgerJobRow,
    pkg: Package,
    additional: Seq<(Seq<char>, Seq<char>)>,
    script: Option<Seq<char>>,
    staging: Option<(Seq<char>, Seq<Seq<char>>)>,
    stores: Seq<(Seq<char>, Seq<Seq<char>>)>,
) -> Seq<(Seq<char>, Seq<char>, Option<i64>)> {
    if row_matches(row, pkg, additional, script) {
        match resolve_path(row.artifact_path@, staging, stores) {
            Option::Some(f) => seq![(row.artifact_path@, f, row.release_date)],
            Option::None => Seq::empty(),
        }
    } else {
        Seq::empty()
    }
}

/// The whole query result, row by row in ledger order.
pub open spec fn reuse_results(
    rows: Seq<LedgerJobRow>,
    pkg: Package,
    additional: Seq<(Seq<char>, Seq<char>)>,
    script: Option<Seq<char>>,
    staging: Option<(Seq<char>, Seq<Seq<char>>)>,
    stores: Seq<(Seq<char>, Seq<Seq<char>>)>,
) -> Seq<(Seq<char>, Seq<char>, Option<i64>)>
    decreases rows.len(),
{
    if rows.len() == 0 {
        Seq::empty()
    } else {
        reuse_results(rows.drop_last(), pkg, additional, script, staging, stores)
            + row_contribution(rows.last(), pkg, additional, script, staging, stores)
    }
}

/// Every matching row names a valid relative artifact path.
pub open spec fn matching_paths_valid(
    rows: Seq<LedgerJobRow>,
    pkg: Package,
    additional: Seq<(Seq<char>, Seq<char>)>,
    script: Option<Seq<char>>,
) -> bool {
    forall|i: int|
        0 <= i < rows.len() && row_matches(#[trigger] rows[i], pkg, additional, script)
            ==> valid_rel_path(rows[i].artifact_path@)
}

/// Why the reuse query failed.
#[derive(Clone, Copy, PartialEq, Eq, Structural, Debug)]
pub enum ReuseError {
    /// The candidate script could not be rendered.
    ScriptRender(ScriptError),
    /// A matching ledger row names an artifact path that is not a
    /// normalized relative path.
    InvalidArtifactPath,
}

/// Whether the pair occurs in the list.
fn env_list_contains(env: &Vec<EnvVar>, name: &str, value: &str) -> (r: bool)
    ensures
        r == env@.map_values(|e: EnvVar| e@).contains((name@, value@)),
{
    let n = env.len();
    let mut i: usize = 0;
    while i < n
        invariant
            n == env@.len(),
            i <= n,
            forall|j: int| 0 <= j < i ==> (#[trigger] env@[j])@ != (name@, value@),
        decreases n - i,
    {
        if crate::package::str_chars_equal(env[i].name(), name) && crate::package::str_chars_equal(
            env[i].value(),
            value,
        ) {
            proof {
                assert(env@.map_values(|e: EnvVar| e@)[i as int] == (name@, value@));
            }
            return true;
        }
        i = i + 1;
    }
    proof {
        let ghost ms = env@.map_values(|e: EnvVar| e@);
        if ms.contains((name@, value@)) {
            let j = choose|j: int| 0 <= j < ms.len() && ms[j] == (name@, value@);
            assert(env@[j]@ == (name@, value@));
        }
    }
    false
}

/// Whether every variable of `sub` occurs, with the same value, in the
/// package environment or the overlay.
fn env_contained(sub: &Vec<EnvVar>, pkg: &Package, additional: &Vec<EnvVar>) -> (r: bool)
    ensures
        r == env_subset_of(
            sub@.map_values(|e: EnvVar| e@),
            env_union(*pkg, additional@.map_values(|e: EnvVar| e@)),
        ),
{
    let ghost sup = env_union(*pkg, additional@.map_values(|e: EnvVar| e@));
    let n = sub.len();
    let mut i: usize = 0;
    while i < n
        invariant
            n == sub@.len(),
            i <= n,
            sup == env_union(*pkg, additional@.map_values(|e: EnvVar| e@)),
            forall|j: int| 0 <= j < i ==> sup.contains((#[trigger] sub@[j])@),
        decreases n - i,
    {
        let e = &sub[i];
        let in_pkg = match pkg.environment() {
            Option::Some(pkg_env) => env_list_contains(pkg_env, e.name(), e.value()),
            Option::None => false,
        };
        let found = in_pkg || env_list_contains(additional, e.name(), e.value());
        if !found {
            proof {
                assert(!sup.contains(sub@[i as int]@)) by {
                    if sup.contains(sub@[i as int]@) {
                        let t = choose|t: int| 0 <= t < sup.len() && sup[t] == sub@[i as int]@;
                        let pe = match pkg@.environment {
                            Option::Some(e2) => e2,
                            Option::None => Seq::empty(),
                        };
                        if t < pe.len() {
                            assert(pe.contains(sub@[i as int]@));
                        } else {
                            assert(additional@.map_values(|x: EnvVar| x@)[t - pe.len()] == sub@[i
                                as int]@);
                            assert(additional@.map_values(|x: EnvVar| x@).contains(
                                sub@[i as int]@,
                            ));
                        }
                    }
                }
                assert(!env_subset_of(sub@.map_values(|e2: EnvVar| e2@), sup)) by {
                    assert(sub@.map_values(|e2: EnvVar| e2@)[i as int] == sub@[i as int]@);
                }
            }
            return false;
        }
        proof {
            let pe = match pkg@.environment {
                Option::Some(e2) => e2,
                Option::None => Seq::<(Seq<char>, Seq<char>)>::empty(),
            };
            if in_pkg {
                let t = choose|t: int| 0 <= t < pe.len() && pe[t] == sub@[i as int]@;
                assert(sup[t] == sub@[i as int]@);
            } else {
                let ae = additional@.map_values(|x: EnvVar| x@);
                let t = choose|t: int| 0 <= t < ae.len() && ae[t] == sub@[i as int]@;
                assert(sup[pe.len() + t] == sub@[i as int]@);
            }
            assert(sup.contains(sub@[i as int]@));
        }
        i = i + 1;
    }
    proof {
        let ghost ms = sub@.map_values(|e2: EnvVar| e2@);
        assert forall|j: int| 0 <= j < ms.len() implies sup.contains(#[trigger] ms[j]) by {
            assert(sup.contains(sub@[j]@));
        }
    }
    true
}

/// Decides the fingerprint match of one row.
fn check_row_matches(
    row: &LedgerJobRow,
    pkg: &Package,
    additional: &Vec<EnvVar>,
    script: Option<&String>,
) -> (r: bool)
    ensures
        r == row_matches(
            *row,
            *pkg,
            additional@.map_values(|e: EnvVar| e@),
            match script {
                Option::Some(s) => Option::Some(s@),
                Option::None => Option::None,
            },
        ),
{
    if !crate::package::str_chars_equal(row.package_name.as_str(), pkg.name().as_str()) {
        return false;
    }
    if !crate::package::str_chars_equal(row.package_version.as_str(), pkg.version().as_str()) {
        return false;
    }
    match pkg.allowed_images() {
        Option::Some(imgs) => {
            if !crate::package::image_list_contains(imgs, &row.image_name) {
                return false;
            }
        },
        Option::None => {},
    }
    match pkg.denied_images() {
        Option::Some(imgs) => {
            if crate::package::image_list_contains(imgs, &row.image_name) {
                return false;
            }
        },
        Option::None => {},
    }
    match script {
        Option::Some(s) => {
            if !crate::package::str_chars_equal(row.script_text.as_str(), s.as_str()) {
                return false;
            }
        },
        Option::None => {},
    }
    env_contained(&row.env, pkg, additional)
}

/// The spec-level contents of the release stores.
pub open spec fn stores_spec(stores: Seq<ReleaseStore>) -> Seq<(Seq<char>, Seq<Seq<char>>)> {
    stores.map_values(|s: ReleaseStore| (s.0.root_spec(), s.0.entries_spec()))
}

/// Resolves one artifact path against the release stores in order.
fn resolve_in_release_stores(stores: &Vec<ReleaseStore>, p: &ArtifactPath) -> (r: Option<
    FullArtifactPath,
>)
    requires
        forall|i: int| 0 <= i < stores@.len() ==> (#[trigger] stores@[i]).0.wf(),
        p.wf(),
    ensures
        match r {
            Option::Some(f) => resolve_in_stores(p@, stores_spec(stores@)) == Option::Some(f@),
            Option::None => resolve_in_stores(p@, stores_spec(stores@)) is None,
        },
{
    let ghost ss = stores_spec(stores@);
    proof {
        assert(ss.skip(0) =~= ss);
    }
    let n = stores.len();
    let mut i: usize = 0;
    while i < n
        invariant
            n == stores@.len(),
            i <= n,
            forall|t: int| 0 <= t < n ==> (#[trigger] stores@[t]).0.wf(),
            p.wf(),
            ss == stores_spec(stores@),
            resolve_in_stores(p@, ss) == resolve_in_stores(p@, ss.skip(i as int)),
        decreases n - i,
    {
        proof {
            assert(ss.skip(i as int)[0] == ss[i as int]);
            assert(ss.skip(i as int).skip(1) =~= ss.skip(i as int + 1));
        }
        match stores[i].0.get(p) {
            Option::Some(found) => {
                let full = stores[i].0.full_path(found);
                proof {
                    assert(store_contains(ss.skip(i as int)[0].1, p@));
                    assert(full@ == ss[i as int].0 + seq!['/'] + p@);
                }
                return Option::Some(full);
            },
            Option::None => {
                proof {
                    assert(!store_contains(ss.skip(i as int)[0].1, p@));
                }
            },
        }
        i = i + 1;
    }
    proof {
        assert(ss.skip(n as int) =~= Seq::<(Seq<char>, Seq<Seq<char>>)>::empty());
    }
    Option::None
}

/// Answers the artifact-reuse query.
///
/// Renders the candidate script when `script_filter` is on, keeps every
/// ledger row with the same fingerprint, and resolves each kept artifact
/// path against the staging store, then the release stores in order; rows
/// whose file exists nowhere are skipped.  Fails exactly when the script
/// cannot be rendered, or a kept row names an invalid artifact path.
pub fn find_artifacts(
    pkg: &Package,
    rows: &Vec<LedgerJobRow>,
    release_stores: &Vec<ReleaseStore>,
    staging_store: Option<&StagingStore>,
    additional_env: &Vec<EnvVar>,
    shebang: &String,
    available_phases: &Vec<PhaseName>,
    script_filter: bool,
) -> (r: Result<Vec<(ArtifactPath, FullArtifactPath, Option<i64>)>, ReuseError>)
    requires
        forall|i: int| 0 <= i < release_stores@.len() ==> (#[trigger] release_stores@[i]).0.wf(),
        staging_store matches Some(st) ==> st.0.wf(),
    ensures
        ({
            let additional = additional_env@.map_values(|e: EnvVar| e@);
            let names = available_phases@.map_values(|n: PhaseName| n@);
            let script: Option<Seq<char>> = if script_filter {
                Option::Some(script_of(shebang@, names, pkg@.phases))
            } else {
                Option::None
            };
            let staging: Option<(Seq<char>, Seq<Seq<char>>)> = match staging_store {
                Option::Some(st) => Option::Some((st.0.root_spec(), st.0.entries_spec())),
                Option::None => Option::None,
            };
            let stores = stores_spec(release_stores@);
            &&& r is Ok <==> (script_filter ==> all_phases_inline(pkg@.phases, names))
                && matching_paths_valid(rows@, *pkg, additional, script)
            &&& r matches Ok(v) ==> v@.map_values(
                |t: (ArtifactPath, FullArtifactPath, Option<i64>)| (t.0@, t.1@, t.2),
            ) == reuse_results(rows@, *pkg, additional, script, staging, stores)
        }),
{
    let ghost additional = additional_env@.map_values(|e: EnvVar| e@);
    let ghost names = available_phases@.map_values(|n: PhaseName| n@);
    let ghost staging: Option<(Seq<char>, Seq<Seq<char>>)> = match staging_store {
        Option::Some(st) => Option::Some((st.0.root_spec(), st.0.entries_spec())),
        Option::None => Option::None,
    };
    let ghost stores = stores_spec(release_stores@);
    let script: Option<String> = if script_filter {
        match render_script(shebang, available_phases, pkg) {
            Ok(s) => Option::Some(s),
            Err(e) => {
                return Err(ReuseError::ScriptRender(e));
            },
        }
    } else {
        Option::None
    };
    let ghost script_spec: Option<Seq<char>> = match &script {
        Option::Some(s) => Option::Some(s@),
        Option::None => Option::None,
    };
    let mut out: Vec<(ArtifactPath, FullArtifactPath, Option<i64>)> = Vec::new();
    let n = rows.len();
    let mut i: usize = 0;
    while i < n
        invariant
            n == rows@.len(),
            i <= n,
            forall|t: int| 0 <= t < release_stores@.len() ==> (#[trigger] release_stores@[t]).0.wf(),
            staging_store matches Some(st) ==> st.0.wf(),
            additional == additional_env@.map_values(|e: EnvVar| e@),
            staging == (match staging_store {
                Option::Some(st) => Option::Some((st.0.root_spec(), st.0.entries_spec())),
                Option::None => Option::<(Seq<char>, Seq<Seq<char>>)>::None,
            }),
            stores == stores_spec(release_stores@),
            script_spec == (match script {
                Option::Some(s) => Option::Some(s@),
                Option::None => Option::<Seq<char>>::None,
            }),
            script_filter ==> script is Some,
            names == available_phases@.map_values(|n2: PhaseName| n2@),
            script_filter ==> script_spec == Option::Some(script_of(shebang@, names, pkg@.phases)),
            !script_filter ==> script_spec is None,
            forall|j: int|
                0 <= j < i && row_matches(#[trigger] rows@[j], *pkg, additional, script_spec)
                    ==> valid_rel_path(rows@[j].artifact_path@),
            out@.map_values(
                |t: (ArtifactPath, FullArtifactPath, Option<i64>)| (t.0@, t.1@, t.2),
            ) == reuse_results(
                rows@.take(i as int),
                *pkg,
                additional,
                script_spec,
                staging,
                stores,
            ),
        decreases n - i,
    {
        let row = &rows[i];
        let ghost pre = rows@.take(i as int + 1);
        proof {
            assert(pre.drop_last() =~= rows@.take(i as int));
            assert(pre.last() == rows@[i as int]);
        }
        let matched = check_row_matches(
            row,
            pkg,
            additional_env,
            match &script {
                Option::Some(s) => Option::Some(s),
                Option::None => Option::None,
            },
        );
        if matched {
            let ap = match ArtifactPath::new(row.artifact_path.clone()) {
                Ok(ap) => ap,
                Err(_) => {
                    proof {
                        assert(!valid_rel_path(rows@[i as int].artifact_path@));
                        assert(row_matches(rows@[i as int], *pkg, additional, script_spec));
                        assert(!matching_paths_valid(rows@, *pkg, additional, script_spec));
                    }
                    return Err(ReuseError::InvalidArtifactPath);
                },
            };
            let resolved: Option<FullArtifactPath> = match staging_store {
                Option::Some(st) => match st.0.get(&ap) {
                    Option::Some(found) => Option::Some(st.0.full_path(found)),
                    Option::None => resolve_in_release_stores(release_stores, &ap),
                },
                Option::None => resolve_in_release_stores(release_stores, &ap),
            };
            let ghost prev_out = out@;
            match resolved {
                Option::Some(full) => {
                    let date = row.release_date;
                    out.push((ap, full, date));
                    proof {
                        prev_out.lemma_push_map_commute(
                            |t: (ArtifactPath, FullArtifactPath, Option<i64>)| (t.0@, t.1@, t.2),
                            out@[prev_out.len() as int],
                        );
                        assert(resolve_path(rows@[i as int].artifact_path@, staging, stores)
                            == Option::Some(out@[prev_out.len() as int].1@));
                        assert(out@.map_values(
                            |t: (ArtifactPath, FullArtifactPath, Option<i64>)| (t.0@, t.1@, t.2),
                        ) =~= reuse_results(pre, *pkg, additional, script_spec, staging, stores));
                    }
                },
                Option::None => {
                    proof {
                        assert(resolve_path(rows@[i as int].artifact_path@, staging, stores)
                            is None);
                        assert(out@.map_values(
                            |t: (ArtifactPath, FullArtifactPath, Option<i64>)| (t.0@, t.1@, t.2),
                        ) =~= reuse_results(pre, *pkg, additional, script_spec, staging, stores));
                    }
                },
            }
        } else {
            proof {
                assert(out@.map_values(
                    |t: (ArtifactPath, FullArtifactPath, Option<i64>)| (t.0@, t.1@, t.2),
                ) =~= reuse_results(pre, *pkg, additional, script_spec, staging, stores));
            }
        }
        i = i + 1;
    }
    proof {
        assert(rows@.take(n as int) =~= rows@);
    }
    Ok(out)
}

/// What a task does with its job, decided before anything is scheduled.
#[derive(Debug)]
pub enum ReuseDecision {
    /// A prior build with the same fingerprint exists on disk: substitute
    /// its artifacts, in query order, for a fresh run.
    Substitute(Vec<ArtifactPath>),
    /// Nothing to reuse: schedule the job.
    RunFresh,
}

/// Consulted with the reuse query's results before a job is scheduled: a
/// hit substitutes the prior artifacts, an empty result runs the job.
pub fn decide_substitution(hits: Vec<(ArtifactPath, FullArtifactPath, Option<i64>)>) -> (r:
    ReuseDecision)
    ensures
        hits@.len() == 0 ==> r is RunFresh,
        hits@.len() > 0 ==> (r matches ReuseDecision::Substitute(arts) && arts@.map_values(
            |a: ArtifactPath| a@,
        ) == hits@.map_values(|t: (ArtifactPath, FullArtifactPath, Option<i64>)| t.0@)),
{
    if hits.len() == 0 {
        return ReuseDecision::RunFresh;
    }
    let ghost hs = hits@;
    let mut arts: Vec<ArtifactPath> = Vec::new();
    let n = hits.len();
    let mut i: usize = 0;
    while i < n
        invariant
            n == hs.len(),
            hits@ == hs,
            i <= n,
            arts@.map_values(|a: ArtifactPath| a@) == hs.map_values(
                |t: (ArtifactPath, FullArtifactPath, Option<i64>)| t.0@,
            ).take(i as int),
        decreases n - i,
    {
        let d = hits[i].0.duplicate();
        let ghost prev = arts@;
        arts.push(d);
        proof {
            prev.lemma_push_map_commute(|a: ArtifactPath| a@, arts@[prev.len() as int]);
            hs.lemma_map_take_succ(
                |t: (ArtifactPath, FullArtifactPath, Option<i64>)| t.0@,
                i as int,
            );
            assert(arts@.map_values(|a: ArtifactPath| a@) =~= hs.map_values(
                |t: (ArtifactPath, FullArtifactPath, Option<i64>)| t.0@,
            ).take(i as int + 1));
        }
        i = i + 1;
    }
    proof {
        assert(hs.map_values(|t: (ArtifactPath, FullArtifactPath, Option<i64>)| t.0@).take(
            n as int,
        ) =~= hs.map_values(|t: (ArtifactPath, FullArtifactPath, Option<i64>)| t.0@));
    }
    ReuseDecision::Substitute(arts)
}

// ---------------------------------------------------------------------------
// Fingerprint determinism
// ---------------------------------------------------------------------------

/// Two overlays with the same variables make the same candidate
/// environment, as far as membership goes.
proof fn lemma_union_same_members(
    pkg: Package,
    env1: Seq<(Seq<char>, Seq<char>)>,
    env2: Seq<(Seq<char>, Seq<char>)>,
    x: (Seq<char>, Seq<char>),
)
    requires
        forall|y: (Seq<char>, Seq<char>)| env1.contains(y) <==> env2.contains(y),
    ensures
        env_union(pkg, env1).contains(x) <==> env_union(pkg, env2).contains(x),
{
    let pe = match pkg@.environment {
        Option::Some(e) => e,
        Option::None => Seq::<(Seq<char>, Seq<char>)>::empty(),
    };
    if env_union(pkg, env1).contains(x) {
        let t = choose|t: int| 0 <= t < env_union(pkg, env1).len() && env_union(pkg, env1)[t] == x;
        if t < pe.len() {
            assert(env_union(pkg, env2)[t] == x);
        } else {
            assert(env1[t - pe.len()] == x);
            assert(env1.contains(x));
            assert(env2.contains(x));
            let u = choose|u: int| 0 <= u < env2.len() && env2[u] == x;
            assert(env_union(pkg, env2)[pe.len() + u] == x);
        }
        assert(env_union(pkg, env2).contains(x));
    }
    if env_union(pkg, env2).contains(x) {
        let t = choose|t: int| 0 <= t < env_union(pkg, env2).len() && env_union(pkg, env2)[t] == x;
        if t < pe.len() {
            assert(env_union(pkg, env1)[t] == x);
        } else {
            assert(env2[t - pe.len()] == x);
            assert(env2.contains(x));
            assert(env1.contains(x));
            let u = choose|u: int| 0 <= u < env1.len() && env1[u] == x;
            assert(env_union(pkg, env1)[pe.len() + u] == x);
        }
        assert(env_union(pkg, env1).contains(x));
    }
}

/// Fingerprint determinism: the reuse query depends on the overlay only
/// through which variables it contains.  Two overlays with the same
/// variables — in any order — give identical results, row for row.
pub proof fn lemma_reuse_ignores_env_order(
    rows: Seq<LedgerJobRow>,
    pkg: Package,
    env1: Seq<(Seq<char>, Seq<char>)>,
    env2: Seq<(Seq<char>, Seq<char>)>,
    script: Option<Seq<char>>,
    staging: Option<(Seq<char>, Seq<Seq<char>>)>,
    stores: Seq<(Seq<char>, Seq<Seq<char>>)>,
)
    requires
        forall|y: (Seq<char>, Seq<char>)| env1.contains(y) <==> env2.contains(y),
    ensures
        reuse_results(rows, pkg, env1, script, staging, stores) == reuse_results(
            rows,
            pkg,
            env2,
            script,
            staging,
            stores,
        ),
    decreases rows.len(),
{
    if rows.len() > 0 {
        lemma_reuse_ignores_env_order(rows.drop_last(), pkg, env1, env2, script, staging, stores);
        let row = rows.last();
        assert(row_matches(row, pkg, env1, script) == row_matches(row, pkg, env2, script)) by {
            let sub = row.env@.map_values(|e: EnvVar| e@);
            assert forall|j: int| 0 <= j < sub.len() implies (env_union(pkg, env1).contains(
                #[trigger] sub[j],
            ) <==> env_union(pkg, env2).contains(sub[j])) by {
                lemma_union_same_members(pkg, env1, env2, sub[j]);
            }
        }
    }
}

} // verus!

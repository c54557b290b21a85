use vstd::prelude::*;

use crate::dependency::constraint_represents;
use crate::dependency::dep_split_at;
use crate::dependency::parseable_dep_string;
use crate::dependency::ParseDependency;
use crate::ids::JobId;
use crate::package::EnvVar;
use crate::package::ImageName;
use crate::package::PackageName;
use crate::package::PackageVersionConstraint;
use crate::repository::Package;
use crate::repository::Repository;

verus! {

/// The job graph of one submit.
///
/// Construction walks the root package's dependency closure.  Every
/// occurrence of a package becomes one node with a fresh identifier, so the
/// graph is a tree: each node's direct dependencies are its children, and
/// the nodes are stored in postorder — a node's subtree is the contiguous
/// index interval `[subtree_start, own index]`, its children's subtrees
/// tile the interval below it, and the root is the last node, whose subtree
/// spans the whole vector.  Dependencies therefore always point to earlier
/// nodes: the graph cannot contain a cycle.

/// One node of the job graph: one package build.
#[derive(Clone, Debug)]
pub struct JobDefinition {
    /// The fresh identifier of this job.
    pub uuid: JobId,
    /// The package this job builds.
    pub package: Package,
    /// The container image the job runs on.
    pub image: ImageName,
    /// Additional environment handed to the job.
    pub resources: Vec<EnvVar>,
    /// The identifiers of the direct dependencies, in declaration order.
    pub dependencies: Vec<JobId>,
    /// The graph indices of the same direct dependencies, in the same order.
    pub dep_indices: Vec<usize>,
    /// The first index of this node's subtree.
    pub subtree_start: usize,
}

/// The structural invariant of one node: its children lie below it and
/// their subtrees tile `[subtree_start, i - 1]` from left to right.
pub open spec fn node_wf(nodes: Seq<JobDefinition>, i: int) -> bool {
    let nd = nodes[i];
    &&& nd.dep_indices@.len() == nd.dependencies@.len()
    &&& nd.subtree_start <= i
    &&& forall|k: int|
        0 <= k < nd.dep_indices@.len() ==> {
            let c = #[trigger] nd.dep_indices@[k] as int;
            &&& nd.subtree_start <= c < i
            &&& nodes[c].uuid == nd.dependencies@[k]
            &&& nodes[c].subtree_start == if k == 0 {
                nd.subtree_start as int
            } else {
                nd.dep_indices@[k - 1] + 1
            }
        }
    &&& (nd.dep_indices@.len() == 0 ==> nd.subtree_start == i)
    &&& (nd.dep_indices@.len() > 0 ==> nd.dep_indices@[nd.dep_indices@.len() - 1] + 1 == i)
}

/// The structural invariant of a forest of such nodes: identifiers are
/// distinct and every node is well-formed.
pub open spec fn forest_wf(nodes: Seq<JobDefinition>) -> bool {
    &&& forall|i: int, j: int|
        0 <= i < j < nodes.len() ==> (#[trigger] nodes[i]).uuid != (#[trigger] nodes[j]).uuid
    &&& forall|i: int| 0 <= i < nodes.len() ==> #[trigger] node_wf(nodes, i)
}

/// Node `i` lists node `j` among its direct dependencies.
pub open spec fn depends_on(nodes: Seq<JobDefinition>, i: int, j: int) -> bool {
    exists|k: int|
        0 <= k < nodes[i].dep_indices@.len() && #[trigger] nodes[i].dep_indices@[k] as int == j
}

/// Node `j` is below node `i`: a direct dependency, or below one.
pub open spec fn reaches(nodes: Seq<JobDefinition>, i: int, j: int) -> bool
    decreases i,
{
    if 0 <= i < nodes.len() {
        depends_on(nodes, i, j) || exists|m: int|
            0 <= m < i && #[trigger] depends_on(nodes, i, m) && reaches(nodes, m, j)
    } else {
        false
    }
}

/// The job graph: a non-empty forest whose last node's subtree spans every
/// node, so the last node is the root.
#[derive(Debug)]
pub struct JobGraph {
    pub nodes: Vec<JobDefinition>,
}

impl JobGraph {
    pub open spec fn wf(&self) -> bool {
        &&& forest_wf(self.nodes@)
        &&& self.nodes@.len() > 0
        &&& self.nodes@[self.nodes@.len() - 1].subtree_start == 0
    }

    /// The index of the root node.
    pub open spec fn root_spec(&self) -> int {
        self.nodes@.len() - 1
    }

    pub fn root_index(&self) -> (r: usize)
        requires
            self.wf(),
        ensures
            r as int == self.root_spec(),
    {
        self.nodes.len() - 1
    }

    pub fn len(&self) -> (r: usize)
        ensures
            r == self.nodes@.len(),
    {
        self.nodes.len()
    }

    pub fn node(&self, i: usize) -> (r: &JobDefinition)
        requires
            i < self.nodes@.len(),
        ensures
            r == &self.nodes@[i as int],
    {
        &self.nodes[i]
    }
}

/// Why the job graph could not be built.
#[derive(Clone, Copy, PartialEq, Eq, Structural, Debug)]
pub enum GraphBuildError {
    /// A dependency declaration of some package does not follow the
    /// dependency grammar.
    MalformedDependency,
    /// No package in the repository satisfies a dependency.
    UnresolvedDependency,
    /// More than one package in the repository satisfies a dependency.
    AmbiguousDependency,
    /// The dependency chain is longer than the repository has packages, so
    /// the dependency relation contains a cycle.
    DependencyCycle,
    /// A freshly drawn job identifier collided with an existing one.
    IdCollision,
}

/// The dependency declarations of a package, build-time first, then
/// run-time, as the constructed node orders its children.
pub open spec fn dep_strings_of(p: Package) -> Seq<Seq<char>> {
    p@.build_deps + p@.runtime_deps
}

/// The entry `e` is the parse of the dependency declaration `s`.
pub open spec fn parsed_entry_ok(s: Seq<char>, e: (PackageName, PackageVersionConstraint)) -> bool {
    &&& parseable_dep_string(s)
    &&& dep_split_at(s, e.0@.len() as int)
    &&& e.0@ == s.take(e.0@.len() as int)
    &&& constraint_represents(e.1, s.skip(e.0@.len() as int + 1))
}

/// The dependency declarations of a package's spec-level value, build-time
/// first, then run-time.
pub open spec fn deps_of_view(pv: crate::repository::PackageView) -> Seq<Seq<char>> {
    pv.build_deps + pv.runtime_deps
}

/// Where a well-formed dependency declaration splits into name and
/// constraint; the split is unique.
pub open spec fn split_pos(s: Seq<char>) -> int {
    choose|m: int| dep_split_at(s, m)
}

/// The package satisfies the dependency declaration `s`: its name is the
/// declared name and its version satisfies the declared constraint.
pub open spec fn satisfies_declaration(pv: crate::repository::PackageView, s: Seq<char>) -> bool {
    pv.name == s.take(split_pos(s)) && crate::dependency::constraint_str_matches(
        s.skip(split_pos(s) + 1),
        pv.version,
    )
}

/// Exactly one package of the repository satisfies the declaration, and it
/// has this spec-level value.
pub open spec fn uniquely_resolves_to(
    repo: Seq<Package>,
    s: Seq<char>,
    child: crate::repository::PackageView,
) -> bool {
    &&& exists|idx: int| 0 <= idx < repo.len() && (#[trigger] repo[idx])@ == child
    &&& satisfies_declaration(child, s)
    &&& forall|idx: int|
        0 <= idx < repo.len() && satisfies_declaration((#[trigger] repo[idx])@, s) ==> repo[idx]@
            == child
}

/// The children of node `i` mirror its package's dependency declarations:
/// one child per declaration, in build-then-runtime declaration order,
/// each built from the unique package of the repository that resolves it.
pub open spec fn node_mirrors_dependencies(
    nodes: Seq<JobDefinition>,
    i: int,
    repo: Seq<Package>,
) -> bool {
    let ds = dep_strings_of(nodes[i].package);
    &&& n_children(nodes, i) == ds.len()
    &&& forall|k: int|
        0 <= k < ds.len() ==> parseable_dep_string(#[trigger] ds[k]) && uniquely_resolves_to(
            repo,
            ds[k],
            nodes[child(nodes, i, k)].package@,
        )
}

/// Every node's identifier is a version 4 UUID.
pub open spec fn ids_are_v4(nodes: Seq<JobDefinition>) -> bool {
    forall|i: int| 0 <= i < nodes.len() ==> ((#[trigger] nodes[i]).uuid.bits >> 76) & 0xf == 4
}

/// What the closure walk decides for one package: the first error it
/// meets — an unparseable declaration, a declaration no package or more
/// than one package resolves, a chain deeper than the fuel allows (a
/// cycle) — or nothing, when the whole closure is well-formed.
pub open spec fn closure_walk(
    pv: crate::repository::PackageView,
    repo: Seq<Package>,
    fuel: nat,
) -> Option<GraphBuildError>
    decreases fuel, deps_of_view(pv).len() + 1,
{
    if fuel == 0 {
        Option::Some(GraphBuildError::DependencyCycle)
    } else if !(forall|t: int|
        0 <= t < deps_of_view(pv).len() ==> parseable_dep_string(#[trigger] deps_of_view(pv)[t])) {
        Option::Some(GraphBuildError::MalformedDependency)
    } else {
        deps_walk(pv, repo, fuel, 0)
    }
}

/// The walk over the declarations of `pv`, from the `k`-th on: the first
/// resolution error, the first error inside a resolved child's closure, or
/// nothing.
pub open spec fn deps_walk(
    pv: crate::repository::PackageView,
    repo: Seq<Package>,
    fuel: nat,
    k: int,
) -> Option<GraphBuildError>
    decreases fuel, deps_of_view(pv).len() - k,
{
    let ds = deps_of_view(pv);
    if fuel == 0 || k < 0 || k >= ds.len() {
        Option::None
    } else {
        let s = ds[k];
        if forall|idx: int|
            0 <= idx < repo.len() ==> !satisfies_declaration((#[trigger] repo[idx])@, s) {
            Option::Some(GraphBuildError::UnresolvedDependency)
        } else if exists|i1: int, i2: int|
            0 <= i1 < i2 < repo.len() && #[trigger] satisfies_declaration(repo[i1]@, s)
                && #[trigger] satisfies_declaration(repo[i2]@, s) {
            Option::Some(GraphBuildError::AmbiguousDependency)
        } else {
            let idx = choose|idx: int|
                0 <= idx < repo.len() && satisfies_declaration((#[trigger] repo[idx])@, s);
            match closure_walk(repo[idx]@, repo, (fuel - 1) as nat) {
                Option::Some(e) => Option::Some(e),
                Option::None => deps_walk(pv, repo, fuel, k + 1),
            }
        }
    }
}

/// A parsed entry resolves at the declaration's unique split, so the
/// constraint-level and declaration-level satisfaction agree.
proof fn lemma_satisfies_bridge(
    s: Seq<char>,
    e: (PackageName, PackageVersionConstraint),
    p: Package,
)
    requires
        parsed_entry_ok(s, e),
    ensures
        split_pos(s) == e.0@.len() as int,
        crate::repository::package_satisfies(p, e.0@, e.1) == satisfies_declaration(p@, s),
{
    assert(dep_split_at(s, e.0@.len() as int));
    assert(dep_split_at(s, split_pos(s)));
    crate::dependency::lemma_dep_split_unique(s, split_pos(s), e.0@.len() as int);
    crate::dependency::lemma_constraint_represents_matches(
        e.1,
        s.skip(split_pos(s) + 1),
        p@.version,
    );
}

/// Appending nodes does not disturb what an existing node's children
/// mirror: the node and its children keep their places.
proof fn lemma_mirror_prefix(
    prev: Seq<JobDefinition>,
    cur: Seq<JobDefinition>,
    i: int,
    repo: Seq<Package>,
)
    requires
        prev.len() <= cur.len(),
        cur.take(prev.len() as int) == prev,
        0 <= i < prev.len(),
        node_wf(prev, i),
        node_mirrors_dependencies(prev, i, repo),
    ensures
        node_mirrors_dependencies(cur, i, repo),
{
    assert forall|x: int| 0 <= x < prev.len() implies cur[x] == prev[x] by {
        assert(cur.take(prev.len() as int)[x] == cur[x]);
    }
    let ds = dep_strings_of(cur[i].package);
    assert(cur[i] == prev[i]);
    assert forall|k: int|
        0 <= k < ds.len() implies parseable_dep_string(#[trigger] ds[k]) && uniquely_resolves_to(
        repo,
        ds[k],
        cur[child(cur, i, k)].package@,
    ) by {
        assert((prev[i].dep_indices@[k] as int) < i);
        assert(cur[child(cur, i, k)] == prev[child(prev, i, k)]);
    }
}

/// Parses every dependency declaration of the package, in order.
fn collect_dependencies(pkg: &Package) -> (r: Result<
    Vec<(PackageName, PackageVersionConstraint)>,
    GraphBuildError,
>)
    ensures
        r is Ok <==> forall|t: int|
            0 <= t < dep_strings_of(*pkg).len() ==> parseable_dep_string(
                #[trigger] dep_strings_of(*pkg)[t],
            ),
        r matches Ok(v) ==> v@.len() == dep_strings_of(*pkg).len() && forall|t: int|
            0 <= t < v@.len() ==> parsed_entry_ok(dep_strings_of(*pkg)[t], #[trigger] v@[t]),
        r matches Err(e) ==> e == GraphBuildError::MalformedDependency,
{
    let ghost ds = dep_strings_of(*pkg);
    let mut v: Vec<(PackageName, PackageVersionConstraint)> = Vec::new();
    let build = pkg.dependencies().build();
    let nb = build.len();
    let mut i: usize = 0;
    while i < nb
        invariant
            nb == build@.len(),
            build == pkg.dependencies.build,
            ds == dep_strings_of(*pkg),
            ds.len() == pkg.dependencies.build@.len() + pkg.dependencies.runtime@.len(),
            forall|t: int| 0 <= t < nb ==> ds[t] == (#[trigger] build@[t])@,
            i <= nb,
            v@.len() == i,
            forall|t: int| 0 <= t < i ==> parsed_entry_ok(ds[t], #[trigger] v@[t]),
        decreases nb - i,
    {
        match build[i].parse_into_name_and_version() {
            Ok(nc) => {
                let ghost gnc = nc;
                v.push(nc);
                proof {
                    assert(v@[i as int] == gnc);
                    assert(ds[i as int] == build@[i as int]@);
                }
            },
            Err(_) => {
                assert(!parseable_dep_string(ds[i as int]));
                return Err(GraphBuildError::MalformedDependency);
            },
        }
        i = i + 1;
    }
    let runtime = pkg.dependencies().runtime();
    let nr = runtime.len();
    let mut j: usize = 0;
    while j < nr
        invariant
            nb == pkg.dependencies.build@.len(),
            nr == runtime@.len(),
            runtime == pkg.dependencies.runtime,
            ds == dep_strings_of(*pkg),
            ds.len() == nb + nr,
            forall|t: int| 0 <= t < nr ==> ds[nb + t] == (#[trigger] runtime@[t])@,
            j <= nr,
            v@.len() == nb + j,
            forall|t: int| 0 <= t < nb + j ==> parsed_entry_ok(ds[t], #[trigger] v@[t]),
        decreases nr - j,
    {
        match runtime[j].parse_into_name_and_version() {
            Ok(nc) => {
                let ghost gnc = nc;
                v.push(nc);
                proof {
                    assert(v@[nb + j as int] == gnc);
                    assert(ds[nb + j as int] == runtime@[j as int]@);
                }
            },
            Err(_) => {
                assert(!parseable_dep_string(ds[nb + j as int]));
                return Err(GraphBuildError::MalformedDependency);
            },
        }
        j = j + 1;
    }
    assert(v@.len() == ds.len());
    proof {
        assert forall|t: int|
            0 <= t < dep_strings_of(*pkg).len() implies parseable_dep_string(
            dep_strings_of(*pkg)[t],
        ) by {
            assert(parsed_entry_ok(ds[t], v@[t]));
        }
    }
    Ok(v)
}

/// Whether some node already carries this identifier.
fn uuid_in_nodes(nodes: &Vec<JobDefinition>, id: JobId) -> (r: bool)
    ensures
        r == exists|j: int| 0 <= j < nodes@.len() && (#[trigger] nodes@[j]).uuid == id,
{
    let mut i: usize = 0;
    while i < nodes.len()
        invariant
            i <= nodes@.len(),
            forall|j: int| 0 <= j < i ==> (#[trigger] nodes@[j]).uuid != id,
        decreases nodes@.len() - i,
    {
        if nodes[i].uuid == id {
            return true;
        }
        i = i + 1;
    }
    false
}

/// Builds the subtree of one package: first, recursively, one subtree per
/// dependency declaration, then the package's own node.  `fuel` bounds the
/// recursion depth; a well-founded dependency relation never exhausts it
/// when it starts above the number of packages in the repository.  The
/// walk fails exactly as `closure_walk` says — except that a random
/// identifier collision can cut the walk short anywhere.
#[verifier::rlimit(100)]
fn build_subtree(
    pkg: &Package,
    repo: &Repository,
    image: &ImageName,
    resources: &Vec<EnvVar>,
    nodes: &mut Vec<JobDefinition>,
    fuel: usize,
) -> (r: Result<(), GraphBuildError>)
    requires
        forest_wf(old(nodes)@),
        ids_are_v4(old(nodes)@),
    ensures
        forest_wf(final(nodes)@),
        ids_are_v4(final(nodes)@),
        final(nodes)@.len() >= old(nodes)@.len(),
        final(nodes)@.take(old(nodes)@.len() as int) == old(nodes)@,
        forall|j: int|
            old(nodes)@.len() <= j < final(nodes)@.len() ==> #[trigger] node_mirrors_dependencies(
                final(nodes)@,
                j,
                repo.packages()@,
            ),
        r is Ok ==> {
            &&& final(nodes)@.len() > old(nodes)@.len()
            &&& final(nodes)@[final(nodes)@.len() - 1].subtree_start == old(nodes)@.len()
            &&& final(nodes)@[final(nodes)@.len() - 1].package@ == pkg@
            &&& final(nodes)@[final(nodes)@.len() - 1].image@ == image@
            &&& closure_walk(pkg@, repo.packages()@, fuel as nat) is None
        },
        r matches Err(e) ==> e == GraphBuildError::IdCollision || closure_walk(
            pkg@,
            repo.packages()@,
            fuel as nat,
        ) == Option::Some(e),
    decreases fuel,
{
    let ghost rp = repo.packages()@;
    let ghost pv = pkg@;
    if fuel == 0 {
        assert(nodes@.take(nodes@.len() as int) =~= nodes@);
        assert(closure_walk(pv, rp, fuel as nat) == Option::Some(GraphBuildError::DependencyCycle));
        return Err(GraphBuildError::DependencyCycle);
    }
    let base_len: usize = nodes.len();
    let ghost base = base_len as int;
    let repo_len: usize = repo.all_packages().len();
    proof {
        assert(rp.len() == repo_len);
    }
    let ghost ds = dep_strings_of(*pkg);
    proof {
        assert(ds == deps_of_view(pv));
    }
    let deps = match collect_dependencies(pkg) {
        Ok(v) => v,
        Err(e) => {
            proof {
                assert(nodes@.take(nodes@.len() as int) =~= nodes@);
                assert(e == GraphBuildError::MalformedDependency);
                assert(!(forall|t: int|
                    0 <= t < deps_of_view(pv).len() ==> parseable_dep_string(
                        #[trigger] deps_of_view(pv)[t],
                    )));
                assert(closure_walk(pv, rp, fuel as nat) == Option::Some(
                    GraphBuildError::MalformedDependency,
                ));
            }
            return Err(e);
        },
    };
    proof {
        assert forall|t2: int|
            0 <= t2 < deps_of_view(pv).len() implies parseable_dep_string(
            #[trigger] deps_of_view(pv)[t2],
        ) by {
            assert(parsed_entry_ok(ds[t2], deps@[t2]));
        }
        assert(closure_walk(pv, rp, fuel as nat) == deps_walk(pv, rp, fuel as nat, 0));
    }
    let mut child_ids: Vec<JobId> = Vec::new();
    let mut child_idx: Vec<usize> = Vec::new();
    let mut t: usize = 0;
    while t < deps.len()
        invariant
            fuel >= 1,
            base == base_len as int,
            rp == repo.packages()@,
            rp.len() == repo_len,
            pv == pkg@,
            ds == deps_of_view(pv),
            ds == dep_strings_of(*pkg),
            forest_wf(nodes@),
            ids_are_v4(nodes@),
            base <= nodes@.len(),
            nodes@.take(base) == old(nodes)@,
            base == old(nodes)@.len(),
            t <= deps@.len(),
            deps@.len() == ds.len(),
            forall|t2: int| 0 <= t2 < deps@.len() ==> parsed_entry_ok(ds[t2], #[trigger] deps@[t2]),
            forall|t2: int|
                0 <= t2 < deps_of_view(pv).len() ==> parseable_dep_string(
                    #[trigger] deps_of_view(pv)[t2],
                ),
            child_ids@.len() == t,
            child_idx@.len() == t,
            forall|u: int|
                0 <= u < t ==> {
                    let c = #[trigger] child_idx@[u] as int;
                    &&& base <= c < nodes@.len()
                    &&& nodes@[c].uuid == child_ids@[u]
                    &&& nodes@[c].subtree_start == if u == 0 {
                        base
                    } else {
                        child_idx@[u - 1] + 1
                    }
                },
            forall|u: int|
                0 <= u < t ==> uniquely_resolves_to(
                    rp,
                    ds[u],
                    nodes@[#[trigger] child_idx@[u] as int].package@,
                ),
            forall|j: int|
                base <= j < nodes@.len() ==> #[trigger] node_mirrors_dependencies(nodes@, j, rp),
            deps_walk(pv, rp, fuel as nat, 0) == deps_walk(pv, rp, fuel as nat, t as int),
            t > 0 ==> child_idx@[t - 1] + 1 == nodes@.len(),
            t == 0 ==> nodes@.len() == base,
        decreases deps@.len() - t,
    {
        let ghost e = deps@[t as int];
        let ghost s = ds[t as int];
        let (dname, dconstraint) = (deps[t].0.duplicate(), deps[t].1.duplicate());
        proof {
            assert(parsed_entry_ok(s, e));
            assert forall|idx: int|
                0 <= idx < rp.len() implies crate::repository::package_satisfies(
                #[trigger] rp[idx],
                dname@,
                dconstraint,
            ) == satisfies_declaration(rp[idx]@, s) by {
                crate::package::lemma_same_constraint_matches(dconstraint, e.1, rp[idx]@.version);
                lemma_satisfies_bridge(s, e, rp[idx]);
            }
        }
        let matches = repo.find_with_version(&dname, &dconstraint);
        if matches.len() == 0 {
            proof {
                assert forall|idx: int|
                    0 <= idx < rp.len() implies !satisfies_declaration((#[trigger] rp[idx])@, s) by {
                    if crate::repository::package_satisfies(rp[idx], dname@, dconstraint) {
                        assert(matches@.contains(idx as usize));
                    }
                }
                assert(deps_walk(pv, rp, fuel as nat, t as int) == Option::Some(
                    GraphBuildError::UnresolvedDependency,
                ));
                lemma_take_of_longer(nodes@, base);
            }
            return Err(GraphBuildError::UnresolvedDependency);
        }
        if matches.len() > 1 {
            proof {
                let i1 = matches@[0] as int;
                let i2 = matches@[1] as int;
                assert(i1 < i2);
                assert(satisfies_declaration(rp[i1]@, s));
                assert(satisfies_declaration(rp[i2]@, s));
                assert(deps_walk(pv, rp, fuel as nat, t as int) == Option::Some(
                    GraphBuildError::AmbiguousDependency,
                ));
                lemma_take_of_longer(nodes@, base);
            }
            return Err(GraphBuildError::AmbiguousDependency);
        }
        let ghost m0 = matches@[0] as int;
        proof {
            assert(satisfies_declaration(rp[m0]@, s));
            assert forall|idx: int|
                0 <= idx < rp.len() && satisfies_declaration(
                    (#[trigger] rp[idx])@,
                    s,
                ) implies idx == m0 by {
                assert(crate::repository::package_satisfies(rp[idx], dname@, dconstraint));
                assert(matches@.contains(idx as usize));
                let t0 = choose|t0: int| 0 <= t0 < matches@.len() && matches@[t0] == idx as usize;
                assert(t0 == 0);
                assert(matches@[0] == idx as usize);
                assert(idx < rp.len() <= usize::MAX);
            }
            if exists|i1: int, i2: int|
                0 <= i1 < i2 < rp.len() && #[trigger] satisfies_declaration(rp[i1]@, s)
                    && #[trigger] satisfies_declaration(rp[i2]@, s) {
                let (i1, i2) = choose|i1: int, i2: int|
                    0 <= i1 < i2 < rp.len() && #[trigger] satisfies_declaration(rp[i1]@, s)
                        && #[trigger] satisfies_declaration(rp[i2]@, s);
                assert(i1 == m0);
                assert(i2 == m0);
                assert(false);
            }
            let widx = choose|idx: int|
                0 <= idx < rp.len() && satisfies_declaration((#[trigger] rp[idx])@, s);
            assert(widx == m0);
            assert(deps_walk(pv, rp, fuel as nat, t as int) == (match closure_walk(
                rp[m0]@,
                rp,
                (fuel - 1) as nat,
            ) {
                Option::Some(e2) => Option::Some(e2),
                Option::None => deps_walk(pv, rp, fuel as nat, t as int + 1),
            }));
        }
        let dep_pkg = repo.all_packages()[matches[0]].duplicate();
        let ghost nodes_before = nodes@;
        match build_subtree(&dep_pkg, repo, image, resources, nodes, fuel - 1) {
            Ok(()) => {},
            Err(e2) => {
                proof {
                    assert(nodes@.take(base) =~= nodes_before.take(base));
                    lemma_take_of_longer(nodes@, base);
                    assert forall|j: int|
                        base <= j < nodes@.len() implies #[trigger] node_mirrors_dependencies(
                        nodes@,
                        j,
                        rp,
                    ) by {
                        if j < nodes_before.len() {
                            assert(node_mirrors_dependencies(nodes_before, j, rp));
                            assert(node_wf(nodes_before, j));
                            lemma_mirror_prefix(nodes_before, nodes@, j, rp);
                        }
                    }
                    if e2 != GraphBuildError::IdCollision {
                        assert(closure_walk(rp[m0]@, rp, (fuel - 1) as nat) == Option::Some(e2));
                        assert(deps_walk(pv, rp, fuel as nat, t as int) == Option::Some(e2));
                    }
                }
                return Err(e2);
            },
        }
        proof {
            assert(nodes@.take(base) =~= nodes_before.take(base));
            assert(closure_walk(rp[m0]@, rp, (fuel - 1) as nat) is None);
            assert(deps_walk(pv, rp, fuel as nat, t as int) == deps_walk(
                pv,
                rp,
                fuel as nat,
                t as int + 1,
            ));
        }
        let root_of_child = nodes.len() - 1;
        child_ids.push(nodes[root_of_child].uuid);
        child_idx.push(root_of_child);
        proof {
            assert forall|u: int|
                0 <= u < t + 1 implies {
                let c = #[trigger] child_idx@[u] as int;
                &&& base <= c < nodes@.len()
                &&& nodes@[c].uuid == child_ids@[u]
                &&& nodes@[c].subtree_start == if u == 0 {
                    base
                } else {
                    child_idx@[u - 1] + 1
                }
            } by {
                if u < t {
                    assert((child_idx@[u] as int) < nodes_before.len());
                    assert(nodes@.take(nodes_before.len() as int) == nodes_before);
                    assert(nodes@[child_idx@[u] as int] == nodes_before[child_idx@[u] as int]);
                    if u > 0 {
                        assert(nodes@[child_idx@[u] as int].subtree_start == child_idx@[u - 1] + 1);
                    }
                }
            }
            assert forall|j: int|
                base <= j < nodes@.len() implies #[trigger] node_mirrors_dependencies(
                nodes@,
                j,
                rp,
            ) by {
                if j < nodes_before.len() {
                    assert(node_mirrors_dependencies(nodes_before, j, rp));
                    assert(node_wf(nodes_before, j));
                    lemma_mirror_prefix(nodes_before, nodes@, j, rp);
                }
            }
            assert(nodes@[child_idx@[t as int] as int].package@ == rp[m0]@);
            assert forall|u: int|
                0 <= u < t + 1 implies uniquely_resolves_to(
                rp,
                ds[u],
                nodes@[#[trigger] child_idx@[u] as int].package@,
            ) by {
                if u < t {
                    assert((child_idx@[u] as int) < nodes_before.len());
                    assert(nodes@[child_idx@[u] as int] == nodes_before[child_idx@[u] as int]);
                } else {
                    assert(uniquely_resolves_to(rp, s, rp[m0]@));
                }
            }
        }
        t = t + 1;
    }
    proof {
        assert(deps_walk(pv, rp, fuel as nat, t as int) is None);
    }
    let id = JobId::fresh();
    if uuid_in_nodes(nodes, id) {
        proof {
            lemma_take_of_longer(nodes@, base);
        }
        return Err(GraphBuildError::IdCollision);
    }
    let subtree_start: usize = base_len;
    let nd = JobDefinition {
        uuid: id,
        package: pkg.duplicate(),
        image: image.duplicate(),
        resources: dup_env_list(resources),
        dependencies: child_ids,
        dep_indices: child_idx,
        subtree_start,
    };
    let ghost before_push = nodes@;
    nodes.push(nd);
    proof {
        let n = nodes@.len() - 1;
        assert(nodes@.take(n) =~= before_push);
        assert(node_wf(nodes@, n)) by {
            assert(forall|k: int|
                0 <= k < nodes@[n].dep_indices@.len() ==> (#[trigger] nodes@[n].dep_indices@[k]
                    as int) < n);
        }
        assert forall|i: int| 0 <= i < nodes@.len() implies #[trigger] node_wf(nodes@, i) by {
            if i < n {
                assert(node_wf(before_push, i));
                lemma_node_wf_push(before_push, nodes@[n as int], i);
            }
        }
        assert(forest_wf(nodes@));
        assert(ids_are_v4(nodes@)) by {
            assert(forall|i: int|
                0 <= i < n ==> ((#[trigger] nodes@[i]).uuid.bits >> 76) & 0xf == 4);
            assert(nodes@[n as int].uuid == id);
        }
        assert(node_mirrors_dependencies(nodes@, n, rp)) by {
            assert(nodes@[n as int].package@ == pv);
            assert(dep_strings_of(nodes@[n as int].package) == ds);
            assert(n_children(nodes@, n) == ds.len());
            assert forall|k: int|
                0 <= k < ds.len() implies parseable_dep_string(#[trigger] ds[k])
                && uniquely_resolves_to(rp, ds[k], nodes@[child(nodes@, n, k)].package@) by {
                assert(parsed_entry_ok(ds[k], deps@[k]));
                assert((child_idx@[k] as int) < before_push.len());
                assert(nodes@[child_idx@[k] as int] == before_push[child_idx@[k] as int]);
                assert(uniquely_resolves_to(rp, ds[k], before_push[child_idx@[k] as int].package@));
            }
        }
        assert forall|j: int|
            base <= j < nodes@.len() implies #[trigger] node_mirrors_dependencies(
            nodes@,
            j,
            rp,
        ) by {
            if j < n {
                assert(node_mirrors_dependencies(before_push, j, rp));
                assert(node_wf(before_push, j));
                lemma_mirror_prefix(before_push, nodes@, j, rp);
            }
        }
        lemma_take_of_longer(nodes@, base);
        assert(nodes@.take(base) =~= before_push.take(base));
        assert(closure_walk(pv, rp, fuel as nat) is None);
    }
    Ok(())
}

/// Taking a prefix of a longer sequence equals taking it before the growth.
proof fn lemma_take_of_longer(nodes: Seq<JobDefinition>, base: int)
    requires
        0 <= base <= nodes.len(),
    ensures
        nodes.take(base).len() == base,
{
}

/// Appending a node preserves the well-formedness of the existing ones.
proof fn lemma_node_wf_push(nodes: Seq<JobDefinition>, nd: JobDefinition, i: int)
    requires
        0 <= i < nodes.len(),
        node_wf(nodes, i),
    ensures
        node_wf(nodes.push(nd), i),
{
    let after = nodes.push(nd);
    assert(after[i] == nodes[i]);
    assert forall|k: int|
        0 <= k < after[i].dep_indices@.len() implies {
        let c = #[trigger] after[i].dep_indices@[k] as int;
        &&& after[i].subtree_start <= c < i
        &&& after[c].uuid == after[i].dependencies@[k]
        &&& after[c].subtree_start == if k == 0 {
            after[i].subtree_start as int
        } else {
            after[i].dep_indices@[k - 1] + 1
        }
    } by {
        assert((nodes[i].dep_indices@[k] as int) < i);
        assert(after[nodes[i].dep_indices@[k] as int] == nodes[nodes[i].dep_indices@[k] as int]);
    }
}

fn dup_env_list(v: &Vec<EnvVar>) -> (r: Vec<EnvVar>)
    ensures
        r@.len() == v@.len(),
        forall|i: int| 0 <= i < v@.len() ==> (#[trigger] r@[i])@ == v@[i]@,
{
    let mut r: Vec<EnvVar> = Vec::new();
    let mut i: usize = 0;
    while i < v.len()
        invariant
            i <= v@.len(),
            r@.len() == i,
            forall|j: int| 0 <= j < i ==> (#[trigger] r@[j])@ == v@[j]@,
        decreases v@.len() - i,
    {
        r.push(v[i].duplicate());
        i = i + 1;
    }
    r
}

// ---------------------------------------------------------------------------
// Structural laws
// ---------------------------------------------------------------------------

/// The `k`-th child of node `p`.
pub open spec fn child(nodes: Seq<JobDefinition>, p: int, k: int) -> int {
    nodes[p].dep_indices@[k] as int
}

/// How many children node `p` has.
pub open spec fn n_children(nodes: Seq<JobDefinition>, p: int) -> int {
    nodes[p].dep_indices@.len() as int
}

/// Where node `i`'s subtree starts.
pub open spec fn start(nodes: Seq<JobDefinition>, i: int) -> int {
    nodes[i].subtree_start as int
}

/// Node `p` lists node `c`'s identifier among its dependencies.
pub open spec fn lists_dependency(nodes: Seq<JobDefinition>, p: int, c: int) -> bool {
    nodes[p].dependencies@.contains(nodes[c].uuid)
}

/// Some node lists node `c`'s identifier among its dependencies.
pub open spec fn has_parent(nodes: Seq<JobDefinition>, c: int) -> bool {
    exists|p: int| 0 <= p < nodes.len() && #[trigger] lists_dependency(nodes, p, c)
}

/// Graph soundness, first half: every identifier in a node's dependency
/// list is the identifier of another node of the same graph.
pub proof fn lemma_graph_soundness(g: JobGraph, i: int, k: int)
    requires
        g.wf(),
        0 <= i < g.nodes@.len(),
        0 <= k < g.nodes@[i].dependencies@.len(),
    ensures
        exists|j: int|
            0 <= j < g.nodes@.len() && j != i && (#[trigger] g.nodes@[j]).uuid
                == g.nodes@[i].dependencies@[k],
{
    assert(node_wf(g.nodes@, i));
    let c = g.nodes@[i].dep_indices@[k] as int;
    assert(g.nodes@[c].uuid == g.nodes@[i].dependencies@[k]);
}

/// Every dependency chain leads strictly downwards in node order.
pub proof fn lemma_reaches_points_down(nodes: Seq<JobDefinition>, i: int, j: int)
    requires
        forest_wf(nodes),
        0 <= i < nodes.len(),
        reaches(nodes, i, j),
    ensures
        0 <= j < i,
    decreases i,
{
    assert(node_wf(nodes, i));
    if depends_on(nodes, i, j) {
        let k = choose|k: int|
            0 <= k < nodes[i].dep_indices@.len() && #[trigger] nodes[i].dep_indices@[k] as int
                == j;
        assert((nodes[i].dep_indices@[k] as int) < i);
    } else {
        let m = choose|m: int| 0 <= m < i && #[trigger] depends_on(nodes, i, m) && reaches(nodes, m, j);
        lemma_reaches_points_down(nodes, m, j);
    }
}

/// Graph soundness, second half: no node reaches itself through the
/// dependency relation — the graph is acyclic.
pub proof fn lemma_graph_acyclic(g: JobGraph, i: int)
    requires
        g.wf(),
        0 <= i < g.nodes@.len(),
    ensures
        !reaches(g.nodes@, i, i),
{
    if reaches(g.nodes@, i, i) {
        lemma_reaches_points_down(g.nodes@, i, i);
    }
}

/// A direct dependency lies inside its parent's subtree, below the parent.
proof fn lemma_dep_in_interval(nodes: Seq<JobDefinition>, p: int, c: int)
    requires
        forest_wf(nodes),
        0 <= p < nodes.len(),
        depends_on(nodes, p, c),
    ensures
        start(nodes, p) <= c < p,
{
    assert(node_wf(nodes, p));
    let k = choose|k: int|
        0 <= k < nodes[p].dep_indices@.len() && #[trigger] nodes[p].dep_indices@[k] as int == c;
    assert(nodes[p].subtree_start <= nodes[p].dep_indices@[k] < p);
}

/// The chain of children: each child's subtree starts where the previous
/// one ended, and never before the parent's.
pub proof fn lemma_child_chain(nodes: Seq<JobDefinition>, p: int, k: int)
    requires
        forest_wf(nodes),
        0 <= p < nodes.len(),
        0 <= k < n_children(nodes, p),
    ensures
        start(nodes, p) <= start(nodes, child(nodes, p, k)),
        start(nodes, child(nodes, p, k)) == if k == 0 {
            start(nodes, p)
        } else {
            child(nodes, p, k - 1) + 1
        },
        start(nodes, child(nodes, p, k)) <= child(nodes, p, k),
        child(nodes, p, k) < p,
    decreases k,
{
    assert(node_wf(nodes, p));
    assert(node_wf(nodes, child(nodes, p, k)));
    if k > 0 {
        lemma_child_chain(nodes, p, k - 1);
    }
}

/// Children later in the list lie strictly after earlier ones.
proof fn lemma_children_monotone(nodes: Seq<JobDefinition>, p: int, k1: int, k2: int)
    requires
        forest_wf(nodes),
        0 <= p < nodes.len(),
        0 <= k1 < k2 < n_children(nodes, p),
    ensures
        child(nodes, p, k1) < start(nodes, child(nodes, p, k2)),
    decreases k2 - k1,
{
    lemma_child_chain(nodes, p, k2);
    if k1 + 1 < k2 {
        lemma_children_monotone(nodes, p, k1, k2 - 1);
        lemma_child_chain(nodes, p, k2 - 1);
    }
}

/// Every position strictly inside a node's subtree lies in the subtree of
/// exactly one of its children; this returns that child's position.
proof fn lemma_find_child_from(nodes: Seq<JobDefinition>, p: int, k: int, x: int) -> (r: int)
    requires
        forest_wf(nodes),
        0 <= p < nodes.len(),
        0 <= k < n_children(nodes, p),
        start(nodes, child(nodes, p, k)) <= x < p,
    ensures
        k <= r < n_children(nodes, p),
        start(nodes, child(nodes, p, r)) <= x <= child(nodes, p, r),
    decreases n_children(nodes, p) - k,
{
    assert(node_wf(nodes, p));
    lemma_child_chain(nodes, p, k);
    if x <= child(nodes, p, k) {
        k
    } else {
        assert(k + 1 < n_children(nodes, p)) by {
            if k == n_children(nodes, p) - 1 {
                assert(child(nodes, p, k) + 1 == p);
            }
        }
        lemma_child_chain(nodes, p, k + 1);
        lemma_find_child_from(nodes, p, k + 1, x)
    }
}

proof fn lemma_find_child(nodes: Seq<JobDefinition>, p: int, x: int) -> (r: int)
    requires
        forest_wf(nodes),
        0 <= p < nodes.len(),
        start(nodes, p) <= x < p,
    ensures
        0 <= r < n_children(nodes, p),
        start(nodes, child(nodes, p, r)) <= x <= child(nodes, p, r),
{
    assert(node_wf(nodes, p));
    assert(n_children(nodes, p) > 0);
    lemma_child_chain(nodes, p, 0);
    lemma_find_child_from(nodes, p, 0, x)
}

/// Subtrees nest: everything in a node's subtree starts no earlier than
/// the node's own subtree.
proof fn lemma_nesting(nodes: Seq<JobDefinition>, c: int, j: int)
    requires
        forest_wf(nodes),
        0 <= c < nodes.len(),
        start(nodes, c) <= j <= c,
    ensures
        start(nodes, c) <= start(nodes, j),
    decreases c,
{
    if j < c {
        let k = lemma_find_child(nodes, c, j);
        lemma_child_chain(nodes, c, k);
        lemma_nesting(nodes, child(nodes, c, k), j);
    }
}

/// Two children's subtrees never overlap: a position inside both belongs
/// to the same child.
proof fn lemma_same_child(nodes: Seq<JobDefinition>, p: int, k1: int, k2: int, x: int)
    requires
        forest_wf(nodes),
        0 <= p < nodes.len(),
        0 <= k1 < n_children(nodes, p),
        0 <= k2 < n_children(nodes, p),
        start(nodes, child(nodes, p, k1)) <= x <= child(nodes, p, k1),
        start(nodes, child(nodes, p, k2)) <= x <= child(nodes, p, k2),
    ensures
        k1 == k2,
{
    if k1 < k2 {
        lemma_children_monotone(nodes, p, k1, k2);
    } else if k2 < k1 {
        lemma_children_monotone(nodes, p, k2, k1);
    }
}

/// Inside the subtree of `p`, every position below `p` has exactly one
/// parent, and that parent lies inside the subtree as well.
proof fn lemma_unique_parent_in_subtree(nodes: Seq<JobDefinition>, p: int, x: int)
    requires
        forest_wf(nodes),
        0 <= p < nodes.len(),
        start(nodes, p) <= x < p,
    ensures
        exists|j: int| x < j <= p && #[trigger] depends_on(nodes, j, x),
        forall|j1: int, j2: int|
            start(nodes, p) <= j1 <= p && start(nodes, p) <= j2 <= p && #[trigger] depends_on(
                nodes,
                j1,
                x,
            ) && #[trigger] depends_on(nodes, j2, x) ==> j1 == j2,
    decreases p,
{
    assert(node_wf(nodes, p));
    let k = lemma_find_child(nodes, p, x);
    let ck = child(nodes, p, k);
    lemma_child_chain(nodes, p, k);
    if x == ck {
        assert(depends_on(nodes, p, x)) by {
            assert(nodes[p].dep_indices@[k] as int == x);
        }
        assert forall|j1: int, j2: int|
            start(nodes, p) <= j1 <= p && start(nodes, p) <= j2 <= p && #[trigger] depends_on(
                nodes,
                j1,
                x,
            ) && #[trigger] depends_on(nodes, j2, x) implies j1 == j2 by {
            lemma_parent_of_child_is_p(nodes, p, k, j1);
            lemma_parent_of_child_is_p(nodes, p, k, j2);
        }
    } else {
        lemma_unique_parent_in_subtree(nodes, ck, x);
        assert forall|j1: int, j2: int|
            start(nodes, p) <= j1 <= p && start(nodes, p) <= j2 <= p && #[trigger] depends_on(
                nodes,
                j1,
                x,
            ) && #[trigger] depends_on(nodes, j2, x) implies j1 == j2 by {
            lemma_parent_of_inner_is_in_child(nodes, p, k, x, j1);
            lemma_parent_of_inner_is_in_child(nodes, p, k, x, j2);
        }
        let j = choose|j: int| x < j <= ck && #[trigger] depends_on(nodes, j, x);
        assert(x < j <= p && depends_on(nodes, j, x));
    }
}

/// If `x` is the `k`-th child of `p`, then the only node in `p`'s subtree
/// that depends on `x` is `p` itself.
proof fn lemma_parent_of_child_is_p(nodes: Seq<JobDefinition>, p: int, k: int, j: int)
    requires
        forest_wf(nodes),
        0 <= p < nodes.len(),
        0 <= k < n_children(nodes, p),
        start(nodes, p) <= j <= p,
        depends_on(nodes, j, child(nodes, p, k)),
    ensures
        j == p,
{
    let x = child(nodes, p, k);
    lemma_child_chain(nodes, p, k);
    if j < p {
        lemma_dep_in_interval(nodes, j, x);
        let k2 = lemma_find_child(nodes, p, j);
        lemma_child_chain(nodes, p, k2);
        lemma_nesting(nodes, child(nodes, p, k2), j);
        // x lies in child k2's subtree as well, so k2 == k and x < j <= ck,
        // contradicting that x == ck is the end of that subtree.
        assert(start(nodes, child(nodes, p, k2)) <= x <= child(nodes, p, k2));
        lemma_same_child(nodes, p, k, k2, x);
        assert(j <= child(nodes, p, k));
        assert(x < j);
        assert(false);
    }
}

/// If `x` lies strictly inside the subtree of the `k`-th child of `p`,
/// every node of `p`'s subtree that depends on `x` lies in that child's
/// subtree too.
proof fn lemma_parent_of_inner_is_in_child(
    nodes: Seq<JobDefinition>,
    p: int,
    k: int,
    x: int,
    j: int,
)
    requires
        forest_wf(nodes),
        0 <= p < nodes.len(),
        0 <= k < n_children(nodes, p),
        start(nodes, child(nodes, p, k)) <= x < child(nodes, p, k),
        start(nodes, p) <= j <= p,
        depends_on(nodes, j, x),
    ensures
        start(nodes, child(nodes, p, k)) <= j <= child(nodes, p, k),
{
    let ck = child(nodes, p, k);
    lemma_child_chain(nodes, p, k);
    lemma_dep_in_interval(nodes, j, x);
    if j == p {
        // x would be a child of p, but it lies strictly inside child k's
        // subtree, which no other child's subtree overlaps.
        let k2 = choose|k2: int|
            0 <= k2 < nodes[p].dep_indices@.len() && #[trigger] nodes[p].dep_indices@[k2] as int
                == x;
        lemma_child_chain(nodes, p, k2);
        lemma_same_child(nodes, p, k, k2, x);
        assert(false);
    } else {
        let k2 = lemma_find_child(nodes, p, j);
        lemma_child_chain(nodes, p, k2);
        lemma_nesting(nodes, child(nodes, p, k2), j);
        assert(start(nodes, child(nodes, p, k2)) <= x <= child(nodes, p, k2));
        lemma_same_child(nodes, p, k, k2, x);
    }
}

/// Listing a dependency and depending on a node are the same relation,
/// because identifiers are distinct.
pub proof fn lemma_lists_iff_depends(nodes: Seq<JobDefinition>, p: int, c: int)
    requires
        forest_wf(nodes),
        0 <= p < nodes.len(),
        0 <= c < nodes.len(),
    ensures
        lists_dependency(nodes, p, c) <==> depends_on(nodes, p, c),
{
    assert(node_wf(nodes, p));
    if lists_dependency(nodes, p, c) {
        let k = choose|k: int|
            0 <= k < nodes[p].dependencies@.len() && nodes[p].dependencies@[k] == nodes[c].uuid;
        let c2 = nodes[p].dep_indices@[k] as int;
        assert(nodes[c2].uuid == nodes[c].uuid);
        assert(c2 == c) by {
            if c2 < c {
                assert(nodes[c2].uuid != nodes[c].uuid);
            } else if c < c2 {
                assert(nodes[c].uuid != nodes[c2].uuid);
            }
        }
        assert(nodes[p].dep_indices@[k] as int == c);
    }
    if depends_on(nodes, p, c) {
        let k = choose|k: int|
            0 <= k < nodes[p].dep_indices@.len() && #[trigger] nodes[p].dep_indices@[k] as int
                == c;
        assert(nodes[p].dependencies@[k] == nodes[c].uuid);
        assert(nodes[p].dependencies@.contains(nodes[c].uuid));
    }
}

/// Parent uniqueness at wiring time: in a well-formed graph, every node
/// except the root is listed in the dependencies of exactly one node, and
/// the root is listed by none.
pub proof fn lemma_parent_uniqueness(g: JobGraph)
    requires
        g.wf(),
    ensures
        forall|c: int| 0 <= c < g.root_spec() ==> #[trigger] has_parent(g.nodes@, c),
        forall|c: int, p1: int, p2: int|
            0 <= c < g.nodes@.len() && 0 <= p1 < g.nodes@.len() && 0 <= p2 < g.nodes@.len()
                && #[trigger] lists_dependency(g.nodes@, p1, c) && #[trigger] lists_dependency(
                g.nodes@,
                p2,
                c,
            ) ==> p1 == p2,
        forall|p: int|
            0 <= p < g.nodes@.len() ==> !(#[trigger] lists_dependency(
                g.nodes@,
                p,
                g.root_spec(),
            )),
{
    let nodes = g.nodes@;
    let root = g.root_spec();
    assert forall|c: int| 0 <= c < root implies #[trigger] has_parent(nodes, c) by {
        lemma_unique_parent_in_subtree(nodes, root, c);
        let j = choose|j: int| c < j <= root && #[trigger] depends_on(nodes, j, c);
        lemma_lists_iff_depends(nodes, j, c);
        assert(0 <= j < nodes.len() && lists_dependency(nodes, j, c));
    }
    assert forall|c: int, p1: int, p2: int|
        0 <= c < nodes.len() && 0 <= p1 < nodes.len() && 0 <= p2 < nodes.len()
            && #[trigger] lists_dependency(nodes, p1, c) && #[trigger] lists_dependency(
            nodes,
            p2,
            c,
        ) implies p1 == p2 by {
        lemma_lists_iff_depends(nodes, p1, c);
        lemma_lists_iff_depends(nodes, p2, c);
        lemma_dep_in_interval(nodes, p1, c);
        lemma_unique_parent_in_subtree(nodes, root, c);
    }
    assert forall|p: int| 0 <= p < nodes.len() implies !(#[trigger] lists_dependency(
        nodes,
        p,
        root,
    )) by {
        lemma_lists_iff_depends(nodes, p, root);
        if depends_on(nodes, p, root) {
            lemma_dep_in_interval(nodes, p, root);
        }
    }
}

impl JobGraph {
    /// Builds the job graph for one submit: the root package's dependency
    /// closure, one node per package occurrence, the root node last.  On
    /// success every node carries a fresh version 4 identifier and its
    /// children mirror its package's dependency declarations, one child
    /// per declaration in build-then-runtime order, each built from the
    /// unique resolving package.  The walk fails exactly as `closure_walk`
    /// says — a malformed declaration, a declaration that zero or several
    /// packages resolve, or a chain deeper than the repository is large (a
    /// cycle) — except that a random identifier collision can cut any walk
    /// short.
    pub fn build(
        root_pkg: &Package,
        repo: &Repository,
        image: &ImageName,
        resources: &Vec<EnvVar>,
    ) -> (r: Result<JobGraph, GraphBuildError>)
        ensures
            r matches Ok(g) ==> {
                &&& g.wf()
                &&& g.nodes@[g.root_spec()].package@ == root_pkg@
                &&& g.nodes@[g.root_spec()].image@ == image@
                &&& ids_are_v4(g.nodes@)
                &&& forall|j: int|
                    0 <= j < g.nodes@.len() ==> #[trigger] node_mirrors_dependencies(
                        g.nodes@,
                        j,
                        repo.packages()@,
                    )
                &&& closure_walk(
                    root_pkg@,
                    repo.packages()@,
                    graph_fuel(repo.packages()@.len()),
                ) is None
            },
            r matches Err(e) ==> e == GraphBuildError::IdCollision || closure_walk(
                root_pkg@,
                repo.packages()@,
                graph_fuel(repo.packages()@.len()),
            ) == Option::Some(e),
    {
        let mut nodes: Vec<JobDefinition> = Vec::new();
        let n_packages = repo.all_packages().len();
        let fuel = if n_packages < usize::MAX {
            n_packages + 1
        } else {
            n_packages
        };
        proof {
            assert(fuel as nat == graph_fuel(repo.packages()@.len()));
        }
        match build_subtree(root_pkg, repo, image, resources, &mut nodes, fuel) {
            Ok(()) => Ok(JobGraph { nodes }),
            Err(e) => Err(e),
        }
    }
}

/// The recursion budget the builder starts with: one more than the number
/// of packages, so that only a cyclic dependency relation can exhaust it.
pub open spec fn graph_fuel(n_packages: nat) -> nat {
    if n_packages < usize::MAX as nat {
        (n_packages + 1) as nat
    } else {
        n_packages
    }
}

} // verus!

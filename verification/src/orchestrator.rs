use vstd::prelude::*;

use crate::graph::child;
use crate::graph::depends_on;
use crate::graph::forest_wf;
use crate::graph::lemma_child_chain;
use crate::graph::lemma_lists_iff_depends;
use crate::graph::lemma_parent_uniqueness;
use crate::graph::n_children;
use crate::graph::node_wf;
use crate::graph::start;
use crate::graph::JobDefinition;
use crate::graph::JobGraph;
use crate::ids::JobId;
use crate::path::ArtifactPath;

verus! {

/// The orchestrator's execution model.
///
/// One task runs per graph node.  A task waits for the results of its
/// dependencies, and then either forwards their accumulated errors, or runs
/// its own job and sends its own artifacts appended to the flattened
/// dependency artifacts.  The functions here fold a whole graph's job
/// outcomes up the tree in one deterministic pass; the per-task state
/// machine that the surrounding program drives with live channel messages
/// is in `TaskState`.

/// How the job of one node ended: the artifacts it produced, or the error
/// that failed it.
#[derive(Debug)]
pub enum JobOutcome {
    Success(Vec<ArtifactPath>),
    Failure(String),
}

impl View for JobOutcome {
    type V = Result<Seq<Seq<char>>, Seq<char>>;

    open spec fn view(&self) -> Result<Seq<Seq<char>>, Seq<char>> {
        match self {
            JobOutcome::Success(a) => Result::Ok(a@.map_values(|p: ArtifactPath| p@)),
            JobOutcome::Failure(m) => Result::Err(m@),
        }
    }
}

/// One entry of an error list: the identifier of the failed job and its
/// error message.
#[derive(Debug)]
pub struct JobError {
    pub job_uuid: JobId,
    pub message: String,
}

impl View for JobError {
    type V = (JobId, Seq<char>);

    open spec fn view(&self) -> (JobId, Seq<char>) {
        (self.job_uuid, self.message@)
    }
}

impl JobError {
    pub fn duplicate(&self) -> (r: JobError)
        ensures
            r@ == self@,
    {
        JobError { job_uuid: self.job_uuid, message: self.message.clone() }
    }
}

/// What one task sends to its parent: its identifier with the artifact
/// closure of its subtree, or the error list of its subtree.
pub type JobMessage = Result<(JobId, Vec<ArtifactPath>), Vec<JobError>>;

/// The artifacts the node's own job produced, empty on failure.
pub open spec fn own_arts(o: Seq<Result<Seq<Seq<char>>, Seq<char>>>, i: int) -> Seq<Seq<char>> {
    match o[i] {
        Result::Ok(a) => a,
        Result::Err(_) => Seq::empty(),
    }
}

/// The node's own error entry, empty on success.
pub open spec fn own_err(
    nodes: Seq<JobDefinition>,
    o: Seq<Result<Seq<Seq<char>>, Seq<char>>>,
    i: int,
) -> Seq<(JobId, Seq<char>)> {
    match o[i] {
        Result::Ok(_) => Seq::empty(),
        Result::Err(m) => seq![(nodes[i].uuid, m)],
    }
}

/// The error list node `i` sends: the concatenated error lists of its
/// children if any are non-empty, else its own error entry.
pub open spec fn errs_of(
    nodes: Seq<JobDefinition>,
    o: Seq<Result<Seq<Seq<char>>, Seq<char>>>,
    i: int,
) -> Seq<(JobId, Seq<char>)>
    decreases i, n_children(nodes, i) + 1,
{
    let ce = child_errs(nodes, o, i, n_children(nodes, i));
    if ce.len() > 0 {
        ce
    } else if 0 <= i < o.len() {
        own_err(nodes, o, i)
    } else {
        Seq::empty()
    }
}

/// The concatenated error lists of the first `k` children of node `i`.
pub open spec fn child_errs(
    nodes: Seq<JobDefinition>,
    o: Seq<Result<Seq<Seq<char>>, Seq<char>>>,
    i: int,
    k: int,
) -> Seq<(JobId, Seq<char>)>
    decreases i, k,
{
    if k <= 0 {
        Seq::empty()
    } else {
        let c = child(nodes, i, k - 1);
        child_errs(nodes, o, i, k - 1) + if 0 <= c < i {
            errs_of(nodes, o, c)
        } else {
            Seq::empty()
        }
    }
}

/// The artifact closure node `i` sends on success: the flattened artifact
/// lists of its children, then its own artifacts.
pub open spec fn arts_of(
    nodes: Seq<JobDefinition>,
    o: Seq<Result<Seq<Seq<char>>, Seq<char>>>,
    i: int,
) -> Seq<Seq<char>>
    decreases i, n_children(nodes, i) + 1,
{
    child_arts(nodes, o, i, n_children(nodes, i)) + if 0 <= i < o.len() {
        own_arts(o, i)
    } else {
        Seq::empty()
    }
}

/// The concatenated artifact closures of the first `k` children of node `i`.
pub open spec fn child_arts(
    nodes: Seq<JobDefinition>,
    o: Seq<Result<Seq<Seq<char>>, Seq<char>>>,
    i: int,
    k: int,
) -> Seq<Seq<char>>
    decreases i, k,
{
    if k <= 0 {
        Seq::empty()
    } else {
        let c = child(nodes, i, k - 1);
        child_arts(nodes, o, i, k - 1) + if 0 <= c < i {
            arts_of(nodes, o, c)
        } else {
            Seq::empty()
        }
    }
}

/// The exec message `m` carries the spec message of node `i`.
pub open spec fn message_matches(
    nodes: Seq<JobDefinition>,
    o: Seq<Result<Seq<Seq<char>>, Seq<char>>>,
    i: int,
    m: JobMessage,
) -> bool {
    match m {
        Result::Ok((id, arts)) => {
            &&& errs_of(nodes, o, i).len() == 0
            &&& id == nodes[i].uuid
            &&& arts@.map_values(|p: ArtifactPath| p@) == arts_of(nodes, o, i)
        },
        Result::Err(es) => {
            &&& errs_of(nodes, o, i).len() > 0
            &&& es@.map_values(|e: JobError| e@) == errs_of(nodes, o, i)
        },
    }
}

/// Appends fresh copies of the artifacts to the accumulator.
fn extend_artifacts(acc: &mut Vec<ArtifactPath>, more: &Vec<ArtifactPath>)
    ensures
        final(acc)@.len() == old(acc)@.len() + more@.len(),
        final(acc)@.map_values(|p: ArtifactPath| p@) == old(acc)@.map_values(
            |p: ArtifactPath| p@,
        ) + more@.map_values(|p: ArtifactPath| p@),
{
    let mut k: usize = 0;
    while k < more.len()
        invariant
            k <= more@.len(),
            acc@.len() == old(acc)@.len() + k,
            acc@.map_values(|p: ArtifactPath| p@) == old(acc)@.map_values(|p: ArtifactPath| p@)
                + more@.map_values(|p: ArtifactPath| p@).take(k as int),
        decreases more@.len() - k,
    {
        let d = more[k].duplicate();
        let ghost prev = acc@;
        acc.push(d);
        proof {
            prev.lemma_push_map_commute(|p: ArtifactPath| p@, d);
            more@.lemma_map_take_succ(|p: ArtifactPath| p@, k as int);
            assert(acc@.map_values(|p: ArtifactPath| p@) =~= old(acc)@.map_values(
                |p: ArtifactPath| p@,
            ) + more@.map_values(|p: ArtifactPath| p@).take(k as int + 1));
        }
        k = k + 1;
    }
    proof {
        assert(more@.map_values(|p: ArtifactPath| p@).take(more@.len() as int) =~= more@.map_values(
            |p: ArtifactPath| p@,
        ));
    }
}

/// Appends fresh copies of the error entries to the accumulator.
fn extend_errors(acc: &mut Vec<JobError>, more: &Vec<JobError>)
    ensures
        final(acc)@.len() == old(acc)@.len() + more@.len(),
        final(acc)@.map_values(|e: JobError| e@) == old(acc)@.map_values(|e: JobError| e@)
            + more@.map_values(|e: JobError| e@),
{
    let mut k: usize = 0;
    while k < more.len()
        invariant
            k <= more@.len(),
            acc@.len() == old(acc)@.len() + k,
            acc@.map_values(|e: JobError| e@) == old(acc)@.map_values(|e: JobError| e@)
                + more@.map_values(|e: JobError| e@).take(k as int),
        decreases more@.len() - k,
    {
        let d = more[k].duplicate();
        let ghost prev = acc@;
        acc.push(d);
        proof {
            prev.lemma_push_map_commute(|e: JobError| e@, d);
            more@.lemma_map_take_succ(|e: JobError| e@, k as int);
            assert(acc@.map_values(|e: JobError| e@) =~= old(acc)@.map_values(|e: JobError| e@)
                + more@.map_values(|e: JobError| e@).take(k as int + 1));
        }
        k = k + 1;
    }
    proof {
        assert(more@.map_values(|e: JobError| e@).take(more@.len() as int) =~= more@.map_values(
            |e: JobError| e@,
        ));
    }
}

/// Folds the outcomes of every node's job up the tree, bottom to top, and
/// returns what the root receives: the artifact closure of the whole graph
/// and an empty error list, or no artifacts and the accumulated error
/// list.  Errors propagate strictly upwards: a failing subtree does not
/// cancel its siblings, whose outcomes are folded in all the same.
pub fn run_graph(g: &JobGraph, outcomes: &Vec<JobOutcome>) -> (r: (Vec<ArtifactPath>, Vec<
    JobError,
>))
    requires
        g.wf(),
        outcomes@.len() == g.nodes@.len(),
    ensures
        ({
            let o = outcomes@.map_values(|x: JobOutcome| x@);
            let es = errs_of(g.nodes@, o, g.root_spec());
            &&& r.1@.map_values(|e: JobError| e@) == es
            &&& es.len() == 0 ==> r.0@.map_values(|p: ArtifactPath| p@) == arts_of(
                g.nodes@,
                o,
                g.root_spec(),
            )
            &&& es.len() > 0 ==> r.0@.len() == 0
        }),
{
    let ghost o = outcomes@.map_values(|x: JobOutcome| x@);
    let n = g.len();
    let mut msgs: Vec<JobMessage> = Vec::new();
    let mut i: usize = 0;
    while i < n
        invariant
            g.wf(),
            outcomes@.len() == g.nodes@.len(),
            o == outcomes@.map_values(|x: JobOutcome| x@),
            n == g.nodes@.len(),
            i <= n,
            msgs@.len() == i,
            forall|j: int| 0 <= j < i ==> message_matches(g.nodes@, o, j, #[trigger] msgs@[j]),
        decreases n - i,
    {
        let nd = g.node(i);
        let m = nd.dep_indices.len();
        let mut acc_errs: Vec<JobError> = Vec::new();
        let mut acc_arts: Vec<ArtifactPath> = Vec::new();
        let mut k: usize = 0;
        proof {
            assert(node_wf(g.nodes@, i as int));
        }
        while k < m
            invariant
                g.wf(),
                outcomes@.len() == g.nodes@.len(),
                o == outcomes@.map_values(|x: JobOutcome| x@),
                n == g.nodes@.len(),
                i < n,
                msgs@.len() == i,
                forall|j: int| 0 <= j < i ==> message_matches(g.nodes@, o, j, #[trigger] msgs@[j]),
                nd == &g.nodes@[i as int],
                m == nd.dep_indices@.len(),
                node_wf(g.nodes@, i as int),
                k <= m,
                acc_errs@.map_values(|e: JobError| e@) == child_errs(g.nodes@, o, i as int, k as int),
                child_errs(g.nodes@, o, i as int, k as int).len() == 0 ==> acc_arts@.map_values(
                    |p: ArtifactPath| p@,
                ) == child_arts(g.nodes@, o, i as int, k as int),
            decreases m - k,
        {
            let c = nd.dep_indices[k];
            proof {
                assert((nd.dep_indices@[k as int] as int) < i as int);
            }
            match &msgs[c] {
                Result::Ok((_, arts)) => {
                    extend_artifacts(&mut acc_arts, arts);
                },
                Result::Err(es) => {
                    extend_errors(&mut acc_errs, es);
                },
            }
            proof {
                let ci = nd.dep_indices@[k as int] as int;
                assert(message_matches(g.nodes@, o, ci, msgs@[ci]));
                assert(child_errs(g.nodes@, o, i as int, k as int + 1) == child_errs(
                    g.nodes@,
                    o,
                    i as int,
                    k as int,
                ) + errs_of(g.nodes@, o, ci));
                assert(child_arts(g.nodes@, o, i as int, k as int + 1) == child_arts(
                    g.nodes@,
                    o,
                    i as int,
                    k as int,
                ) + arts_of(g.nodes@, o, ci));
            }
            k = k + 1;
        }
        if acc_errs.len() > 0 {
            proof {
                assert(errs_of(g.nodes@, o, i as int) == child_errs(
                    g.nodes@,
                    o,
                    i as int,
                    m as int,
                ));
            }
            msgs.push(Result::Err(acc_errs));
        } else {
            match &outcomes[i] {
                JobOutcome::Failure(msg) => {
                    let mut es: Vec<JobError> = Vec::new();
                    es.push(JobError { job_uuid: nd.uuid, message: msg.clone() });
                    proof {
                        assert(o[i as int] == outcomes@[i as int]@);
                        assert(errs_of(g.nodes@, o, i as int) == own_err(g.nodes@, o, i as int));
                        assert(es@.map_values(|e: JobError| e@) =~= own_err(
                            g.nodes@,
                            o,
                            i as int,
                        ));
                    }
                    msgs.push(Result::Err(es));
                },
                JobOutcome::Success(arts) => {
                    extend_artifacts(&mut acc_arts, arts);
                    proof {
                        assert(o[i as int] == outcomes@[i as int]@);
                        assert(errs_of(g.nodes@, o, i as int).len() == 0);
                        assert(acc_arts@.map_values(|p: ArtifactPath| p@) == arts_of(
                            g.nodes@,
                            o,
                            i as int,
                        ));
                    }
                    msgs.push(Result::Ok((nd.uuid, acc_arts)));
                },
            }
        }
        proof {
            assert(message_matches(g.nodes@, o, i as int, msgs@[i as int]));
        }
        i = i + 1;
    }
    let root = n - 1;
    let root_msg = msgs.pop().unwrap();
    proof {
        assert(message_matches(g.nodes@, o, root as int, root_msg));
    }
    match root_msg {
        Result::Ok((_, arts)) => (arts, Vec::new()),
        Result::Err(es) => (Vec::new(), es),
    }
}

// ---------------------------------------------------------------------------
// Laws of the fold
// ---------------------------------------------------------------------------

/// The artifacts the nodes in `[lo, hi)` produced, in node order.
pub open spec fn all_artifacts(
    nodes: Seq<JobDefinition>,
    o: Seq<Result<Seq<Seq<char>>, Seq<char>>>,
    lo: int,
    hi: int,
) -> Seq<Seq<char>>
    decreases hi - lo,
{
    if lo < hi {
        all_artifacts(nodes, o, lo, hi - 1) + own_arts(o, hi - 1)
    } else {
        Seq::empty()
    }
}

/// The error entries of the failing nodes in `[lo, hi)`, in node order.
pub open spec fn all_failures(
    nodes: Seq<JobDefinition>,
    o: Seq<Result<Seq<Seq<char>>, Seq<char>>>,
    lo: int,
    hi: int,
) -> Seq<(JobId, Seq<char>)>
    decreases hi - lo,
{
    if lo < hi {
        all_failures(nodes, o, lo, hi - 1) + own_err(nodes, o, hi - 1)
    } else {
        Seq::empty()
    }
}

proof fn lemma_all_artifacts_concat(
    nodes: Seq<JobDefinition>,
    o: Seq<Result<Seq<Seq<char>>, Seq<char>>>,
    lo: int,
    mid: int,
    hi: int,
)
    requires
        lo <= mid <= hi,
    ensures
        all_artifacts(nodes, o, lo, mid) + all_artifacts(nodes, o, mid, hi) == all_artifacts(
            nodes,
            o,
            lo,
            hi,
        ),
    decreases hi - mid,
{
    if mid == hi {
        assert(all_artifacts(nodes, o, lo, mid) + all_artifacts(nodes, o, mid, hi)
            =~= all_artifacts(nodes, o, lo, hi));
    } else {
        lemma_all_artifacts_concat(nodes, o, lo, mid, hi - 1);
        assert(all_artifacts(nodes, o, lo, mid) + all_artifacts(nodes, o, mid, hi)
            =~= all_artifacts(nodes, o, lo, hi));
    }
}

proof fn lemma_all_failures_concat(
    nodes: Seq<JobDefinition>,
    o: Seq<Result<Seq<Seq<char>>, Seq<char>>>,
    lo: int,
    mid: int,
    hi: int,
)
    requires
        lo <= mid <= hi,
    ensures
        all_failures(nodes, o, lo, mid) + all_failures(nodes, o, mid, hi) == all_failures(
            nodes,
            o,
            lo,
            hi,
        ),
    decreases hi - mid,
{
    if mid == hi {
        assert(all_failures(nodes, o, lo, mid) + all_failures(nodes, o, mid, hi) =~= all_failures(
            nodes,
            o,
            lo,
            hi,
        ));
    } else {
        lemma_all_failures_concat(nodes, o, lo, mid, hi - 1);
        assert(all_failures(nodes, o, lo, mid) + all_failures(nodes, o, mid, hi) =~= all_failures(
            nodes,
            o,
            lo,
            hi,
        ));
    }
}

/// The subtree fold of artifacts is the plain interval concatenation.
#[verifier::rlimit(100)]
proof fn lemma_arts_interval(
    nodes: Seq<JobDefinition>,
    o: Seq<Result<Seq<Seq<char>>, Seq<char>>>,
    i: int,
)
    requires
        forest_wf(nodes),
        o.len() == nodes.len(),
        0 <= i < nodes.len(),
    ensures
        arts_of(nodes, o, i) == all_artifacts(nodes, o, start(nodes, i), i + 1),
    decreases i, n_children(nodes, i) + 1,
{
    assert(node_wf(nodes, i));
    lemma_child_arts_interval(nodes, o, i, n_children(nodes, i));
    assert(arts_of(nodes, o, i) == child_arts(nodes, o, i, n_children(nodes, i)) + own_arts(o, i));
    assert(all_artifacts(nodes, o, start(nodes, i), i + 1) == all_artifacts(
        nodes,
        o,
        start(nodes, i),
        i,
    ) + own_arts(o, i));
}

/// The first `k` children's artifact folds concatenate to the interval
/// from the node's subtree start to the end of child `k - 1`.
#[verifier::rlimit(100)]
proof fn lemma_child_arts_interval(
    nodes: Seq<JobDefinition>,
    o: Seq<Result<Seq<Seq<char>>, Seq<char>>>,
    i: int,
    k: int,
)
    requires
        forest_wf(nodes),
        o.len() == nodes.len(),
        0 <= i < nodes.len(),
        0 <= k <= n_children(nodes, i),
    ensures
        child_arts(nodes, o, i, k) == all_artifacts(
            nodes,
            o,
            start(nodes, i),
            if k == 0 {
                start(nodes, i)
            } else {
                child(nodes, i, k - 1) + 1
            },
        ),
        k == n_children(nodes, i) ==> child_arts(nodes, o, i, k) == all_artifacts(
            nodes,
            o,
            start(nodes, i),
            i,
        ),
    decreases i, k,
{
    assert(node_wf(nodes, i));
    if k == 0 {
        if k == n_children(nodes, i) {
            assert(start(nodes, i) == i);
        }
    } else {
        let c = child(nodes, i, k - 1);
        lemma_child_chain(nodes, i, k - 1);
        lemma_child_arts_interval(nodes, o, i, k - 1);
        lemma_arts_interval(nodes, o, c);
        let lo = start(nodes, i);
        let mid = start(nodes, c);
        lemma_all_artifacts_concat(nodes, o, lo, mid, c + 1);
        assert(child_arts(nodes, o, i, k) == child_arts(nodes, o, i, k - 1) + arts_of(
            nodes,
            o,
            c,
        ));
    }
}

/// Only leaves fail: every failing node has no dependencies.
pub open spec fn only_leaves_fail(
    nodes: Seq<JobDefinition>,
    o: Seq<Result<Seq<Seq<char>>, Seq<char>>>,
) -> bool {
    forall|i: int|
        0 <= i < nodes.len() && (#[trigger] o[i]) is Err ==> n_children(nodes, i) == 0
}

/// When only leaves fail, the subtree error fold is the plain interval
/// concatenation of the failing nodes' entries.
#[verifier::rlimit(100)]
proof fn lemma_errs_interval(
    nodes: Seq<JobDefinition>,
    o: Seq<Result<Seq<Seq<char>>, Seq<char>>>,
    i: int,
)
    requires
        forest_wf(nodes),
        o.len() == nodes.len(),
        only_leaves_fail(nodes, o),
        0 <= i < nodes.len(),
    ensures
        errs_of(nodes, o, i) == all_failures(nodes, o, start(nodes, i), i + 1),
    decreases i, n_children(nodes, i) + 1,
{
    assert(node_wf(nodes, i));
    lemma_child_errs_interval(nodes, o, i, n_children(nodes, i));
    let ce = child_errs(nodes, o, i, n_children(nodes, i));
    if ce.len() > 0 {
        // A child reported errors, so this node has children and, failing
        // only at leaves, did not fail itself.
        assert(n_children(nodes, i) > 0);
        assert(own_err(nodes, o, i) == Seq::<(JobId, Seq<char>)>::empty());
        assert(ce + own_err(nodes, o, i) =~= ce);
        assert(errs_of(nodes, o, i) == ce);
    } else {
        assert(Seq::<(JobId, Seq<char>)>::empty() + own_err(nodes, o, i) =~= own_err(nodes, o, i));
        assert(errs_of(nodes, o, i) == own_err(nodes, o, i));
    }
    assert(all_failures(nodes, o, start(nodes, i), i + 1) == all_failures(
        nodes,
        o,
        start(nodes, i),
        i,
    ) + own_err(nodes, o, i));
}

#[verifier::rlimit(100)]
proof fn lemma_child_errs_interval(
    nodes: Seq<JobDefinition>,
    o: Seq<Result<Seq<Seq<char>>, Seq<char>>>,
    i: int,
    k: int,
)
    requires
        forest_wf(nodes),
        o.len() == nodes.len(),
        only_leaves_fail(nodes, o),
        0 <= i < nodes.len(),
        0 <= k <= n_children(nodes, i),
    ensures
        child_errs(nodes, o, i, k) == all_failures(
            nodes,
            o,
            start(nodes, i),
            if k == 0 {
                start(nodes, i)
            } else {
                child(nodes, i, k - 1) + 1
            },
        ),
        k == n_children(nodes, i) ==> child_errs(nodes, o, i, k) == all_failures(
            nodes,
            o,
            start(nodes, i),
            i,
        ),
    decreases i, k,
{
    assert(node_wf(nodes, i));
    if k == 0 {
        if k == n_children(nodes, i) {
            assert(start(nodes, i) == i);
        }
    } else {
        let c = child(nodes, i, k - 1);
        lemma_child_chain(nodes, i, k - 1);
        lemma_child_errs_interval(nodes, o, i, k - 1);
        lemma_errs_interval(nodes, o, c);
        let lo = start(nodes, i);
        let mid = start(nodes, c);
        lemma_all_failures_concat(nodes, o, lo, mid, c + 1);
        assert(child_errs(nodes, o, i, k) == child_errs(nodes, o, i, k - 1) + errs_of(
            nodes,
            o,
            c,
        ));
    }
}

// ---------------------------------------------------------------------------
// Task wiring and the live task state
// ---------------------------------------------------------------------------

/// Computes each task's outbox: the index of its unique parent.  The root
/// has none; its messages go to the channel the orchestrator itself
/// reads.
/// Some child among the first `k` of node `p` has index `c`.
pub open spec fn partial_child(nodes: Seq<JobDefinition>, p: int, k: int, c: int) -> bool {
    exists|k2: int|
        0 <= k2 < k && k2 < nodes[p].dep_indices@.len() && #[trigger] nodes[p].dep_indices@[k2]
            as int == c
}

/// Records node `p` as the parent of each of its children.
#[verifier::rlimit(100)]
fn assign_children(parent: &mut Vec<Option<usize>>, g: &JobGraph, p: usize)
    requires
        g.wf(),
        p < g.nodes@.len(),
        old(parent)@.len() == g.nodes@.len(),
    ensures
        final(parent)@.len() == old(parent)@.len(),
        forall|c: int|
            0 <= c < final(parent)@.len() ==> final(parent)@[c] == (if depends_on(
                g.nodes@,
                p as int,
                c,
            ) {
                Option::Some(p)
            } else {
                old(parent)@[c]
            }),
{
    proof {
        assert(node_wf(g.nodes@, p as int));
    }
    let m = g.node(p).dep_indices.len();
    let mut k: usize = 0;
    while k < m
        invariant
            p < g.nodes@.len(),
            node_wf(g.nodes@, p as int),
            m == g.nodes@[p as int].dep_indices@.len(),
            k <= m,
            parent@.len() == old(parent)@.len(),
            old(parent)@.len() == g.nodes@.len(),
            forall|c: int|
                0 <= c < parent@.len() ==> parent@[c] == (if partial_child(
                    g.nodes@,
                    p as int,
                    k as int,
                    c,
                ) {
                    Option::Some(p)
                } else {
                    old(parent)@[c]
                }),
        decreases m - k,
    {
        let c = g.node(p).dep_indices[k];
        proof {
            assert((g.nodes@[p as int].dep_indices@[k as int] as int) < p as int);
        }
        parent.set(c, Option::Some(p));
        proof {
            assert forall|c2: int| 0 <= c2 < parent@.len() implies parent@[c2] == (if partial_child(
                g.nodes@,
                p as int,
                k as int + 1,
                c2,
            ) {
                Option::Some(p)
            } else {
                old(parent)@[c2]
            }) by {
                if c2 == c as int {
                    assert(g.nodes@[p as int].dep_indices@[k as int] as int == c2);
                    assert(partial_child(g.nodes@, p as int, k as int + 1, c2));
                } else {
                    assert(partial_child(g.nodes@, p as int, k as int + 1, c2) == partial_child(
                        g.nodes@,
                        p as int,
                        k as int,
                        c2,
                    )) by {
                        if partial_child(g.nodes@, p as int, k as int + 1, c2) {
                            let k2 = choose|k2: int|
                                0 <= k2 < k as int + 1 && k2 < g.nodes@[p as int].dep_indices@.len()
                                    && #[trigger] g.nodes@[p as int].dep_indices@[k2] as int == c2;
                            assert(k2 < k as int);
                        }
                    }
                }
            }
        }
        k = k + 1;
    }
    proof {
        assert forall|c: int|
            0 <= c < parent@.len() implies parent@[c] == (if depends_on(g.nodes@, p as int, c) {
            Option::Some(p)
        } else {
            old(parent)@[c]
        }) by {
            assert(partial_child(g.nodes@, p as int, m as int, c) == depends_on(
                g.nodes@,
                p as int,
                c,
            )) by {
                if depends_on(g.nodes@, p as int, c) {
                    let k2 = choose|k2: int|
                        0 <= k2 < g.nodes@[p as int].dep_indices@.len()
                            && #[trigger] g.nodes@[p as int].dep_indices@[k2] as int == c;
                    assert(partial_child(g.nodes@, p as int, m as int, c));
                }
                if partial_child(g.nodes@, p as int, m as int, c) {
                    let k2 = choose|k2: int|
                        0 <= k2 < m as int && k2 < g.nodes@[p as int].dep_indices@.len()
                            && #[trigger] g.nodes@[p as int].dep_indices@[k2] as int == c;
                    assert(depends_on(g.nodes@, p as int, c));
                }
            }
        }
    }
}

/// Computes each task's outbox: the index of its unique parent.  The root
/// has none; its messages go to the channel the orchestrator itself
/// reads.
#[verifier::rlimit(100)]
pub fn wire_tasks(g: &JobGraph) -> (r: Vec<Option<usize>>)
    requires
        g.wf(),
    ensures
        r@.len() == g.nodes@.len(),
        forall|c: int|
            0 <= c < g.root_spec() ==> ((#[trigger] r@[c]) matches Some(p) && depends_on(
                g.nodes@,
                p as int,
                c,
            )),
        r@[g.root_spec()] is None,
{
    let n = g.len();
    let mut parent: Vec<Option<usize>> = Vec::new();
    let mut t: usize = 0;
    while t < n
        invariant
            t <= n,
            parent@.len() == t,
            forall|c: int| 0 <= c < t ==> (#[trigger] parent@[c]) is None,
        decreases n - t,
    {
        parent.push(Option::None);
        t = t + 1;
    }
    let mut p: usize = 0;
    while p < n
        invariant
            g.wf(),
            n == g.nodes@.len(),
            p <= n,
            parent@.len() == n,
            forall|c: int|
                0 <= c < n ==> ((#[trigger] parent@[c]) matches Some(q) ==> q < n && depends_on(
                    g.nodes@,
                    q as int,
                    c,
                )),
            forall|p2: int, c: int|
                0 <= p2 < p && 0 <= c < n && #[trigger] depends_on(g.nodes@, p2, c) ==> parent@[c]
                    is Some,
        decreases n - p,
    {
        assign_children(&mut parent, g, p);
        p = p + 1;
    }
    proof {
        let nodes = g.nodes@;
        let root = g.root_spec();
        lemma_parent_uniqueness(*g);
        assert forall|c: int| 0 <= c < root implies ((#[trigger] parent@[c]) matches Some(q)
            && depends_on(nodes, q as int, c)) by {
            assert(crate::graph::has_parent(nodes, c));
            let q0 = choose|q0: int|
                0 <= q0 < nodes.len() && #[trigger] crate::graph::lists_dependency(nodes, q0, c);
            lemma_lists_iff_depends(nodes, q0, c);
            assert(parent@[c] is Some);
        }
        if parent@[root] is Some {
            let q2 = parent@[root]->Some_0;
            assert(depends_on(nodes, q2 as int, root));
            lemma_lists_iff_depends(nodes, q2 as int, root);
            assert(crate::graph::lists_dependency(nodes, q2 as int, root));
            assert(false);
        }
    }
    parent
}

/// The result of the dependency with this identifier has arrived.
pub open spec fn reported_in(rcv: Seq<(JobId, Seq<Seq<char>>)>, id: JobId) -> bool {
    exists|j: int| 0 <= j < rcv.len() && (#[trigger] rcv[j]).0 == id
}

/// The flattened dependency artifacts: each received result's artifacts,
/// in arrival order, preserving per-dependency order.
pub open spec fn flatten_received(rcv: Seq<(JobId, Seq<Seq<char>>)>) -> Seq<Seq<char>>
    decreases rcv.len(),
{
    if rcv.len() == 0 {
        Seq::empty()
    } else {
        flatten_received(rcv.drop_last()) + rcv.last().1
    }
}

/// What a task does when its inbox closes.
#[derive(Clone, Copy, PartialEq, Eq, Structural, Debug)]
pub enum CloseDecision {
    /// Errors arrived: forward them to the parent and stop.
    ForwardErrors,
    /// No errors, but a dependency never reported: the subtree was
    /// abandoned; the task fails with its own error entry.
    Abandoned,
    /// Every dependency reported: run the job.
    Proceed,
}

/// The live state of one task while the surrounding program drives its
/// inbox: the results and errors received from dependency tasks so far.
pub struct TaskState {
    deps: Vec<JobId>,
    received: Vec<(JobId, Vec<ArtifactPath>)>,
    errors: Vec<JobError>,
}

impl TaskState {
    pub closed spec fn deps_spec(&self) -> Seq<JobId> {
        self.deps@
    }

    pub closed spec fn received_spec(&self) -> Seq<(JobId, Seq<Seq<char>>)> {
        self.received@.map_values(
            |t: (JobId, Vec<ArtifactPath>)| (t.0, t.1@.map_values(|a: ArtifactPath| a@)),
        )
    }

    pub closed spec fn errors_spec(&self) -> Seq<(JobId, Seq<char>)> {
        self.errors@.map_values(|e: JobError| e@)
    }

    /// Every declared dependency has reported a result.
    pub open spec fn all_reported_spec(&self) -> bool {
        forall|d: int|
            0 <= d < self.deps_spec().len() ==> reported_in(
                self.received_spec(),
                #[trigger] self.deps_spec()[d],
            )
    }

    /// A task waiting for these dependencies.
    pub fn new(deps: Vec<JobId>) -> (r: TaskState)
        ensures
            r.deps_spec() == deps@,
            r.received_spec() == Seq::<(JobId, Seq<Seq<char>>)>::empty(),
            r.errors_spec() == Seq::<(JobId, Seq<char>)>::empty(),
    {
        let r = TaskState { deps, received: Vec::new(), errors: Vec::new() };
        proof {
            assert(r.received_spec() =~= Seq::<(JobId, Seq<Seq<char>>)>::empty());
            assert(r.errors_spec() =~= Seq::<(JobId, Seq<char>)>::empty());
        }
        r
    }

    /// A dependency task succeeded and sent its artifact closure.
    pub fn on_dependency_result(&mut self, id: JobId, artifacts: Vec<ArtifactPath>)
        ensures
            final(self).deps_spec() == old(self).deps_spec(),
            final(self).errors_spec() == old(self).errors_spec(),
            final(self).received_spec() == old(self).received_spec().push(
                (id, artifacts@.map_values(|a: ArtifactPath| a@)),
            ),
    {
        let ghost prev = self.received@;
        self.received.push((id, artifacts));
        proof {
            prev.lemma_push_map_commute(
                |t: (JobId, Vec<ArtifactPath>)| (t.0, t.1@.map_values(|a: ArtifactPath| a@)),
                self.received@[prev.len() as int],
            );
        }
    }

    /// A dependency task failed and sent its subtree's error list; the
    /// entries are appended in arrival order.
    pub fn on_dependency_errors(&mut self, errs: &Vec<JobError>)
        ensures
            final(self).deps_spec() == old(self).deps_spec(),
            final(self).received_spec() == old(self).received_spec(),
            final(self).errors_spec() == old(self).errors_spec() + errs@.map_values(
                |e: JobError| e@,
            ),
    {
        extend_errors(&mut self.errors, errs);
    }

    /// Whether errors have arrived.
    pub fn has_errors(&self) -> (r: bool)
        ensures
            r == (self.errors_spec().len() > 0),
    {
        self.errors.len() > 0
    }

    /// Whether every declared dependency has reported.
    pub fn all_dependencies_reported(&self) -> (r: bool)
        ensures
            r == self.all_reported_spec(),
    {
        let nd = self.deps.len();
        let mut d: usize = 0;
        while d < nd
            invariant
                nd == self.deps@.len(),
                d <= nd,
                forall|d2: int|
                    0 <= d2 < d ==> reported_in(
                        self.received_spec(),
                        #[trigger] self.deps_spec()[d2],
                    ),
            decreases nd - d,
        {
            let want = self.deps[d];
            let nr = self.received.len();
            let mut j: usize = 0;
            let mut found = false;
            while j < nr
                invariant
                    nr == self.received@.len(),
                    j <= nr,
                    want == self.deps@[d as int],
                    d < nd,
                    nd == self.deps@.len(),
                    found ==> reported_in(self.received_spec(), want),
                    !found ==> forall|t: int| 0 <= t < j ==> self.received@[t].0 != want,
                decreases nr - j,
            {
                if self.received[j].0 == want {
                    found = true;
                    proof {
                        assert((self.received_spec()[j as int]).0 == want);
                    }
                }
                j = j + 1;
            }
            if !found {
                proof {
                    if reported_in(self.received_spec(), self.deps_spec()[d as int]) {
                        let t = choose|t: int|
                            0 <= t < self.received_spec().len() && (
                            #[trigger] self.received_spec()[t]).0 == self.deps_spec()[d as int];
                        assert(self.received@[t].0 == want);
                    }
                    assert(!self.all_reported_spec());
                }
                return false;
            }
            d = d + 1;
        }
        true
    }

    /// What to do when the inbox closes: forward any errors; otherwise a
    /// missing dependency means the subtree was abandoned; otherwise run.
    pub fn close_decision(&self) -> (r: CloseDecision)
        ensures
            self.errors_spec().len() > 0 ==> r == CloseDecision::ForwardErrors,
            self.errors_spec().len() == 0 && !self.all_reported_spec() ==> r
                == CloseDecision::Abandoned,
            self.errors_spec().len() == 0 && self.all_reported_spec() ==> r
                == CloseDecision::Proceed,
    {
        if self.has_errors() {
            CloseDecision::ForwardErrors
        } else if !self.all_dependencies_reported() {
            CloseDecision::Abandoned
        } else {
            CloseDecision::Proceed
        }
    }

    /// The received dependency artifacts, flattened in arrival order.
    pub fn flattened_artifacts(&self) -> (r: Vec<ArtifactPath>)
        ensures
            r@.map_values(|a: ArtifactPath| a@) == flatten_received(self.received_spec()),
    {
        let mut out: Vec<ArtifactPath> = Vec::new();
        let nr = self.received.len();
        let mut j: usize = 0;
        proof {
            assert(self.received_spec().take(0) =~= Seq::<(JobId, Seq<Seq<char>>)>::empty());
            assert(out@.map_values(|a: ArtifactPath| a@) =~= flatten_received(
                self.received_spec().take(0),
            ));
        }
        while j < nr
            invariant
                nr == self.received@.len(),
                j <= nr,
                out@.map_values(|a: ArtifactPath| a@) == flatten_received(
                    self.received_spec().take(j as int),
                ),
            decreases nr - j,
        {
            extend_artifacts(&mut out, &self.received[j].1);
            proof {
                let rs = self.received_spec();
                let pre = rs.take(j as int + 1);
                assert(pre.drop_last() =~= rs.take(j as int));
                assert(pre.last() == rs[j as int]);
                assert(rs[j as int].1 == self.received@[j as int].1@.map_values(
                    |a: ArtifactPath| a@,
                ));
            }
            j = j + 1;
        }
        proof {
            assert(self.received_spec().take(nr as int) =~= self.received_spec());
        }
        out
    }

    /// The accumulated error list, to forward unchanged to the parent.
    pub fn errors(&self) -> (r: &Vec<JobError>)
        ensures
            r@.map_values(|e: JobError| e@) == self.errors_spec(),
    {
        &self.errors
    }
}

/// Why a whole run failed without any job result.
#[derive(Clone, Copy, PartialEq, Eq, Structural, Debug)]
pub enum OrchestrationError {
    /// The root channel closed before any message arrived.
    RootAbandoned,
}

/// Interprets what the root channel delivered: the artifact closure with
/// no errors, no artifacts with the accumulated errors, or — when the
/// channel closed without a message — a failure of the whole run.
pub fn root_result(msg: Option<JobMessage>) -> (r: Result<
    (Vec<ArtifactPath>, Vec<JobError>),
    OrchestrationError,
>)
    ensures
        msg is None ==> r == Result::<
            (Vec<ArtifactPath>, Vec<JobError>),
            OrchestrationError,
        >::Err(OrchestrationError::RootAbandoned),
        msg matches Some(m) ==> r matches Ok((arts, errs)) && (match m {
            Result::Ok((_, a)) => arts == a && errs@.len() == 0,
            Result::Err(es) => errs == es && arts@.len() == 0,
        }),
{
    match msg {
        Option::None => Err(OrchestrationError::RootAbandoned),
        Option::Some(Result::Ok((_, arts))) => Ok((arts, Vec::new())),
        Option::Some(Result::Err(errs)) => Ok((Vec::new(), errs)),
    }
}

/// Artifact closure: the artifact list at the root is the concatenation,
/// in node order, of the artifacts every node of the graph produced.
pub proof fn lemma_artifact_closure(g: JobGraph, o: Seq<Result<Seq<Seq<char>>, Seq<char>>>)
    requires
        g.wf(),
        o.len() == g.nodes@.len(),
    ensures
        arts_of(g.nodes@, o, g.root_spec()) == all_artifacts(g.nodes@, o, 0, g.nodes@.len() as int),
{
    lemma_arts_interval(g.nodes@, o, g.root_spec());
}

/// Error accumulation: when exactly the failing nodes are leaves, the
/// error list at the root has one entry per failing leaf, in node order,
/// each tagged with that leaf's identifier and message.
pub proof fn lemma_error_accumulation(g: JobGraph, o: Seq<Result<Seq<Seq<char>>, Seq<char>>>)
    requires
        g.wf(),
        o.len() == g.nodes@.len(),
        only_leaves_fail(g.nodes@, o),
    ensures
        errs_of(g.nodes@, o, g.root_spec()) == all_failures(g.nodes@, o, 0, g.nodes@.len() as int),
{
    lemma_errs_interval(g.nodes@, o, g.root_spec());
}

} // verus!

use vstd::prelude::*;

use crate::ids::JobId;
use crate::package::ImageName;
use crate::path::ArtifactPath;

verus! {

/// The endpoint scheduler's decisions.
///
/// The scheduler polls every container endpoint for its current load — the
/// number of running containers — and places the next job on the
/// least-loaded endpoint that answered, breaking ties by declaration
/// order.  Polling, leases and the container run itself happen outside the
/// library; the selection and the combination of a finished job's results
/// are decided here.

/// Endpoint `j` answered the load poll.
pub open spec fn reported(loads: Seq<Option<u64>>, j: int) -> bool {
    loads[j] is Some
}

/// The load endpoint `j` reported.
pub open spec fn load_val(loads: Seq<Option<u64>>, j: int) -> u64 {
    match loads[j] {
        Option::Some(v) => v,
        Option::None => 0,
    }
}

/// Picks the endpoint for the next job from one round of load polls:
/// the first endpoint among those that answered with the smallest load.
/// Returns nothing when no endpoint answered, and the caller polls again.
pub fn select_endpoint(loads: &Vec<Option<u64>>) -> (r: Option<usize>)
    ensures
        r is None <==> forall|j: int| 0 <= j < loads@.len() ==> !reported(loads@, j),
        r matches Some(i) ==> {
            &&& i < loads@.len()
            &&& reported(loads@, i as int)
            &&& forall|j: int|
                0 <= j < loads@.len() && #[trigger] reported(loads@, j) ==> load_val(
                    loads@,
                    i as int,
                ) <= load_val(loads@, j)
            &&& forall|j: int|
                0 <= j < i as int && #[trigger] reported(loads@, j) ==> load_val(loads@, i as int)
                    < load_val(loads@, j)
        },
{
    let mut best: Option<usize> = Option::None;
    let mut j: usize = 0;
    while j < loads.len()
        invariant
            j <= loads@.len(),
            best is None <==> forall|t: int| 0 <= t < j ==> !reported(loads@, t),
            best matches Some(i) ==> {
                &&& i < j
                &&& reported(loads@, i as int)
                &&& forall|t: int|
                    0 <= t < j && #[trigger] reported(loads@, t) ==> load_val(loads@, i as int)
                        <= load_val(loads@, t)
                &&& forall|t: int|
                    0 <= t < i as int && #[trigger] reported(loads@, t) ==> load_val(
                        loads@,
                        i as int,
                    ) < load_val(loads@, t)
            },
        decreases loads@.len() - j,
    {
        match &loads[j] {
            Option::Some(v) => {
                proof {
                    assert(reported(loads@, j as int));
                }
                let take_it = match best {
                    Option::None => true,
                    Option::Some(b) => {
                        let bv = match &loads[b] {
                            Option::Some(bv) => *bv,
                            Option::None => 0,
                        };
                        *v < bv
                    },
                };
                if take_it {
                    best = Option::Some(j);
                }
            },
            Option::None => {
                proof {
                    assert(!reported(loads@, j as int));
                }
            },
        }
        j = j + 1;
    }
    best
}

/// What one finished job hands back for the ledger: the values of its job
/// row.
#[derive(Debug)]
pub struct JobRecord {
    pub job_uuid: JobId,
    pub container_hash: String,
    pub script: String,
    pub log: String,
}

/// Why a job handle failed.
#[derive(Debug)]
pub enum JobHandleError {
    /// Collecting the job's log failed; no accumulated log exists, so no
    /// job row can be written.
    LogCollection(String),
    /// The container run itself failed.  The job row, carrying the
    /// accumulated log, must still be inserted: a failed run reports no
    /// container hash and no script text, so those columns stay empty.
    ContainerRun(String, JobRecord),
}

/// Combines the two halves of one job run — the container result and the
/// collected log — into the job row to insert and the artifact paths to
/// forward, or into the error that fails the job.  The log must have been
/// collected even for a failed run, so a log failure is reported first;
/// the accumulated log is never dropped: a failed run's row travels with
/// its error.
pub fn finish_job(
    job_uuid: JobId,
    run: Result<(Vec<ArtifactPath>, String, String), String>,
    log: Result<String, String>,
) -> (r: Result<(Vec<ArtifactPath>, JobRecord), JobHandleError>)
    ensures
        log matches Err(m) ==> r matches Err(JobHandleError::LogCollection(x)) && x@ == m@,
        log matches Ok(l) ==> run matches Err(m) ==> r matches Err(
            JobHandleError::ContainerRun(x, record),
        ) && {
            &&& x@ == m@
            &&& record.job_uuid == job_uuid
            &&& record.container_hash@ == Seq::<char>::empty()
            &&& record.script@ == Seq::<char>::empty()
            &&& record.log@ == l@
        },
        log matches Ok(l) ==> run matches Ok((paths, hash, script)) ==> r matches Ok(
            (rpaths, record),
        ) && {
            &&& rpaths == paths
            &&& record.job_uuid == job_uuid
            &&& record.container_hash@ == hash@
            &&& record.script@ == script@
            &&& record.log@ == l@
        },
{
    let log_text = match log {
        Result::Ok(l) => l,
        Result::Err(m) => {
            return Result::Err(JobHandleError::LogCollection(m));
        },
    };
    match run {
        Result::Ok((paths, container_hash, script)) => Result::Ok(
            (
                paths,
                JobRecord { job_uuid, container_hash, script, log: log_text },
            ),
        ),
        Result::Err(m) => Result::Err(
            JobHandleError::ContainerRun(
                m,
                JobRecord {
                    job_uuid,
                    container_hash: String::new(),
                    script: String::new(),
                    log: log_text,
                },
            ),
        ),
    }
}

/// Why an endpoint failed its setup check.
#[derive(Clone, Copy, PartialEq, Eq, Structural, Debug)]
pub enum EndpointSetupError {
    /// A required image is not present on the endpoint.
    MissingImage,
    /// The endpoint's daemon version is not among the accepted ones.
    DaemonVersionNotAllowed,
    /// The endpoint's daemon API version is not among the accepted ones.
    ApiVersionNotAllowed,
}

/// Whether some string in the list has exactly these characters.
fn string_list_contains(list: &Vec<String>, s: &String) -> (r: bool)
    ensures
        r == list@.map_values(|x: String| x@).contains(s@),
{
    let n = list.len();
    let mut i: usize = 0;
    while i < n
        invariant
            n == list@.len(),
            i <= n,
            forall|j: int| 0 <= j < i ==> (#[trigger] list@[j])@ != s@,
        decreases n - i,
    {
        if crate::package::str_chars_equal(list[i].as_str(), s.as_str()) {
            proof {
                assert(list@.map_values(|x: String| x@)[i as int] == s@);
            }
            return true;
        }
        i = i + 1;
    }
    proof {
        let ghost ms = list@.map_values(|x: String| x@);
        if ms.contains(s@) {
            let j = choose|j: int| 0 <= j < ms.len() && ms[j] == s@;
            assert(list@[j]@ == s@);
        }
    }
    false
}

/// Every required image is among the present ones.
pub open spec fn images_present(
    present: Seq<Seq<char>>,
    required: Seq<Seq<char>>,
) -> bool {
    forall|i: int| 0 <= i < required.len() ==> present.contains(#[trigger] required[i])
}

/// A reported version satisfies the accepted list; an empty list accepts
/// every version.
pub open spec fn version_accepted(reported: Seq<char>, accepted: Seq<Seq<char>>) -> bool {
    accepted.len() == 0 || accepted.contains(reported)
}

/// The setup check of one endpoint: every required image must be present,
/// and the reported daemon and API versions must be among the accepted
/// ones.  An endpoint that fails is dropped from the pool; the pool itself
/// dies only when no endpoint survives.
pub fn endpoint_setup_check(
    present_images: &Vec<ImageName>,
    required_images: &Vec<ImageName>,
    reported_version: &String,
    accepted_versions: &Vec<String>,
    reported_api_version: &String,
    accepted_api_versions: &Vec<String>,
) -> (r: Result<(), EndpointSetupError>)
    ensures
        ({
            let present = present_images@.map_values(|i: ImageName| i@);
            let required = required_images@.map_values(|i: ImageName| i@);
            let versions = accepted_versions@.map_values(|s: String| s@);
            let api_versions = accepted_api_versions@.map_values(|s: String| s@);
            &&& r is Ok <==> images_present(present, required) && version_accepted(
                reported_version@,
                versions,
            ) && version_accepted(reported_api_version@, api_versions)
            &&& !images_present(present, required) ==> r == Result::<
                (),
                EndpointSetupError,
            >::Err(EndpointSetupError::MissingImage)
            &&& images_present(present, required) && !version_accepted(
                reported_version@,
                versions,
            ) ==> r == Result::<(), EndpointSetupError>::Err(
                EndpointSetupError::DaemonVersionNotAllowed,
            )
            &&& images_present(present, required) && version_accepted(
                reported_version@,
                versions,
            ) && !version_accepted(reported_api_version@, api_versions) ==> r == Result::<
                (),
                EndpointSetupError,
            >::Err(EndpointSetupError::ApiVersionNotAllowed)
        }),
{
    let ghost present = present_images@.map_values(|i: ImageName| i@);
    let ghost required = required_images@.map_values(|i: ImageName| i@);
    let n = required_images.len();
    let mut i: usize = 0;
    while i < n
        invariant
            n == required_images@.len(),
            i <= n,
            present == present_images@.map_values(|x: ImageName| x@),
            required == required_images@.map_values(|x: ImageName| x@),
            forall|j: int| 0 <= j < i ==> present.contains(#[trigger] required[j]),
        decreases n - i,
    {
        let img = &required_images[i];
        if !crate::package::image_list_contains(present_images, &img.name) {
            proof {
                assert(required[i as int] == img@);
                assert(!images_present(present, required));
            }
            return Err(EndpointSetupError::MissingImage);
        }
        proof {
            assert(required[i as int] == img@);
        }
        i = i + 1;
    }
    if accepted_versions.len() > 0 && !string_list_contains(accepted_versions, reported_version) {
        return Err(EndpointSetupError::DaemonVersionNotAllowed);
    }
    if accepted_api_versions.len() > 0 && !string_list_contains(
        accepted_api_versions,
        reported_api_version,
    ) {
        return Err(EndpointSetupError::ApiVersionNotAllowed);
    }
    Ok(())
}

/// Why the endpoint pool cannot run at all.
#[derive(Clone, Copy, PartialEq, Eq, Structural, Debug)]
pub enum PoolError {
    /// No endpoint survived its setup check.
    NoEndpoints,
}

/// Keeps the endpoints whose setup check passed: their indices, in
/// declaration order.  A pool in which every endpoint failed cannot run
/// any job, which is fatal for the whole submit.
pub fn surviving_endpoints(setup_ok: &Vec<bool>) -> (r: Result<Vec<usize>, PoolError>)
    ensures
        r is Ok <==> exists|j: int| 0 <= j < setup_ok@.len() && setup_ok@[j],
        r matches Ok(v) ==> {
            &&& v@.len() > 0
            &&& forall|t: int|
                0 <= t < v@.len() ==> #[trigger] v@[t] < setup_ok@.len() && setup_ok@[v@[t] as int]
            &&& forall|j: int| 0 <= j < setup_ok@.len() && setup_ok@[j] ==> v@.contains(j as usize)
            &&& forall|t1: int, t2: int| 0 <= t1 < t2 < v@.len() ==> v@[t1] < v@[t2]
        },
{
    let mut v: Vec<usize> = Vec::new();
    let n = setup_ok.len();
    let mut i: usize = 0;
    while i < n
        invariant
            n == setup_ok@.len(),
            i <= n,
            forall|t: int| 0 <= t < v@.len() ==> #[trigger] v@[t] < i && setup_ok@[v@[t] as int],
            forall|j: int| 0 <= j < i && setup_ok@[j] ==> v@.contains(j as usize),
            forall|t1: int, t2: int| 0 <= t1 < t2 < v@.len() ==> v@[t1] < v@[t2],
            v@.len() == 0 <==> forall|j: int| 0 <= j < i ==> !setup_ok@[j],
        decreases n - i,
    {
        if setup_ok[i] {
            let ghost prev = v@;
            v.push(i);
            proof {
                assert(v@[prev.len() as int] == i);
                assert forall|x: usize| prev.contains(x) implies v@.contains(x) by {
                    let k = choose|k: int| 0 <= k < prev.len() && prev[k] == x;
                    assert(v@[k] == x);
                }
            }
        }
        i = i + 1;
    }
    if v.len() == 0 {
        proof {
            if exists|j: int| 0 <= j < setup_ok@.len() && setup_ok@[j] {
                let j = choose|j: int| 0 <= j < setup_ok@.len() && setup_ok@[j];
                assert(!setup_ok@[j]);
            }
        }
        Err(PoolError::NoEndpoints)
    } else {
        proof {
            assert(v@[0] < n && setup_ok@[v@[0] as int]);
        }
        Ok(v)
    }
}

/// One endpoint's bounded ping session: how many pings remain, and whether
/// one has failed.  The caller performs each ping and reports its result;
/// the session decides whether to continue.
#[derive(Clone, Copy, PartialEq, Eq, Structural, Debug)]
pub struct PingSession {
    /// Pings still to send.
    pub remaining: u64,
    /// A ping failed; the session is over.
    pub failed: bool,
}

impl PingSession {
    /// A session of `n` pings.
    pub fn new(n: u64) -> (r: PingSession)
        ensures
            r.remaining == n,
            !r.failed,
    {
        PingSession { remaining: n, failed: false }
    }

    /// Another ping is owed exactly while none failed and some remain.
    pub fn should_ping(&self) -> (r: bool)
        ensures
            r == (!self.failed && self.remaining > 0),
    {
        !self.failed && self.remaining > 0
    }

    /// Records one ping result.
    pub fn record(&mut self, ok: bool)
        requires
            old(self).remaining > 0,
            !old(self).failed,
        ensures
            final(self).remaining == old(self).remaining - 1,
            final(self).failed == !ok,
    {
        self.remaining = self.remaining - 1;
        self.failed = !ok;
    }

    /// The session succeeded: every ping was sent and none failed.
    pub fn succeeded(&self) -> (r: bool)
        ensures
            r == (self.remaining == 0 && !self.failed),
    {
        self.remaining == 0 && !self.failed
    }
}

} // verus!

use vstd::prelude::*;

use crate::package::valid_env_name;
use crate::package::EnvVar;
use crate::package::ImageName;

verus! {

/// The decisions a submit makes before orchestration starts: parsing
/// environment assignments, checking the requested image, settling which
/// package to build, and the source verification gate.

/// `k` splits `s` into a well-formed assignment: a shell identifier, the
/// `=` at `k`, and the value.
pub open spec fn env_split_at(s: Seq<char>, k: int) -> bool {
    0 < k < s.len() && s[k] == '=' && valid_env_name(s.take(k)) && forall|j: int|
        0 <= j < k ==> s[j] != '='
}

/// The string is a well-formed `KEY=VALUE` assignment: a non-empty shell
/// identifier, then `=`, then the value, which may itself contain `=`.
pub open spec fn parseable_env_assignment(s: Seq<char>) -> bool {
    exists|k: int| #[trigger] env_split_at(s, k)
}

/// Why an environment assignment was rejected.
#[derive(Clone, Copy, PartialEq, Eq, Structural, Debug)]
pub enum EnvParseError {
    /// The assignment has no `=`.
    NoAssignment,
    /// The part before the first `=` is not a shell identifier.
    InvalidName,
}

/// Parses one `KEY=VALUE` argument into an environment variable: the key
/// is everything before the first `=` and must be a shell identifier; the
/// value is everything after it.
pub fn parse_env_assignment(s: &str) -> (r: Result<EnvVar, EnvParseError>)
    ensures
        r is Ok <==> parseable_env_assignment(s@),
        r matches Ok(e) ==> {
            &&& env_split_at(s@, e@.0.len() as int)
            &&& e@.0 == s@.take(e@.0.len() as int)
            &&& e@.1 == s@.skip(e@.0.len() as int + 1)
        },
{
    let n = s.unicode_len();
    let mut k: usize = 0;
    while k < n && s.get_char(k) != '='
        invariant
            n == s@.len(),
            k <= n,
            forall|j: int| 0 <= j < k ==> s@[j] != '=',
        decreases n - k,
    {
        k = k + 1;
    }
    if k == n {
        proof {
            assert forall|k2: int| !(#[trigger] env_split_at(s@, k2)) by {
                if 0 < k2 < s@.len() {
                    assert(s@[k2] != '=');
                }
            }
        }
        return Err(EnvParseError::NoAssignment);
    }
    let name_part = s.substring_char(0, k);
    assert(name_part@ =~= s@.take(k as int));
    if !crate::package::check_env_name(name_part) {
        proof {
            assert forall|k2: int| !(#[trigger] env_split_at(s@, k2)) by {
                if 0 < k2 < s@.len() && s@[k2] == '=' {
                    if k2 < k as int {
                        assert(s@[k2] != '=');
                    } else if k2 > k as int {
                        assert(s@.take(k2)[k as int] == '=');
                    }
                }
            }
        }
        return Err(EnvParseError::InvalidName);
    }
    let value_part = s.substring_char(k + 1, n);
    assert(value_part@ =~= s@.skip(k as int + 1));
    let e = EnvVar::new(String::from_str(name_part), String::from_str(value_part));
    proof {
        assert(env_split_at(s@, k as int));
    }
    Ok(e)
}

/// Why the requested image was rejected.
#[derive(Clone, Copy, PartialEq, Eq, Structural, Debug)]
pub enum ImageError {
    /// Image verification is on and the requested image is not among the
    /// configured ones.
    NotConfigured,
}

/// The startup image check: when verification is on, the requested image
/// must be one of the configured images.
pub fn check_requested_image(
    requested: &ImageName,
    configured: &Vec<ImageName>,
    verify_images_present: bool,
) -> (r: Result<(), ImageError>)
    ensures
        r is Ok <==> !verify_images_present || configured@.map_values(
            |i: ImageName| i@,
        ).contains(requested@),
{
    if !verify_images_present {
        return Ok(());
    }
    let n = configured.len();
    let mut i: usize = 0;
    while i < n
        invariant
            n == configured@.len(),
            i <= n,
            forall|j: int| 0 <= j < i ==> (#[trigger] configured@[j])@ != requested@,
        decreases n - i,
    {
        if crate::package::str_chars_equal(configured[i].as_str(), requested.as_str()) {
            proof {
                assert(configured@.map_values(|x: ImageName| x@)[i as int] == requested@);
            }
            return Ok(());
        }
        i = i + 1;
    }
    proof {
        let ghost ms = configured@.map_values(|x: ImageName| x@);
        if ms.contains(requested@) {
            let j = choose|j: int| 0 <= j < ms.len() && ms[j] == requested@;
            assert(configured@[j]@ == requested@);
        }
    }
    Err(ImageError::NotConfigured)
}

/// Why no package could be settled on.
#[derive(Clone, Copy, PartialEq, Eq, Structural, Debug)]
pub enum PackageSelectionError {
    /// No package matched the request.
    NoneFound,
    /// More than one package matched; one submit builds one package.
    Ambiguous,
}

/// Settles which package a submit builds: the find result must hold
/// exactly one candidate.
pub fn select_package(candidates: &Vec<usize>) -> (r: Result<usize, PackageSelectionError>)
    ensures
        candidates@.len() == 0 ==> r == Result::<usize, PackageSelectionError>::Err(
            PackageSelectionError::NoneFound,
        ),
        candidates@.len() == 1 ==> r == Result::<usize, PackageSelectionError>::Ok(
            candidates@[0],
        ),
        candidates@.len() > 1 ==> r == Result::<usize, PackageSelectionError>::Err(
            PackageSelectionError::Ambiguous,
        ),
{
    if candidates.len() == 0 {
        Err(PackageSelectionError::NoneFound)
    } else if candidates.len() > 1 {
        Err(PackageSelectionError::Ambiguous)
    } else {
        Ok(candidates[0])
    }
}

/// The names of the packages whose source verification failed, in order.
pub open spec fn failed_verification_names(results: Seq<(String, bool)>) -> Seq<Seq<char>>
    decreases results.len(),
{
    if results.len() == 0 {
        Seq::empty()
    } else {
        failed_verification_names(results.drop_last()) + if !results.last().1 {
            seq![results.last().0@]
        } else {
            Seq::empty()
        }
    }
}

/// The source verification gate: orchestration may start only when every
/// package's source hash verified.  Returns the names of the packages
/// whose verification failed, in order; an empty error list never occurs.
pub fn source_verification_gate(results: &Vec<(String, bool)>) -> (r: Result<(), Vec<String>>)
    ensures
        r is Ok <==> forall|i: int| 0 <= i < results@.len() ==> (#[trigger] results@[i]).1,
        r matches Err(failed) ==> {
            &&& failed@.len() > 0
            &&& failed@.map_values(|s: String| s@) == failed_verification_names(results@)
        },
{
    let mut failed: Vec<String> = Vec::new();
    let n = results.len();
    let mut i: usize = 0;
    while i < n
        invariant
            n == results@.len(),
            i <= n,
            failed@.map_values(|s: String| s@) == failed_verification_names(
                results@.take(i as int),
            ),
            failed@.len() == 0 <==> forall|j: int| 0 <= j < i ==> (#[trigger] results@[j]).1,
        decreases n - i,
    {
        let ghost pre = results@.take(i as int + 1);
        proof {
            assert(pre.drop_last() =~= results@.take(i as int));
            assert(pre.last() == results@[i as int]);
        }
        if !results[i].1 {
            let ghost prev = failed@;
            failed.push(results[i].0.clone());
            proof {
                prev.lemma_push_map_commute(|s: String| s@, failed@[prev.len() as int]);
                assert(failed@.map_values(|s: String| s@) =~= failed_verification_names(pre));
            }
        } else {
            proof {
                assert(failed@.map_values(|s: String| s@) =~= failed_verification_names(pre));
            }
        }
        i = i + 1;
    }
    proof {
        assert(results@.take(n as int) =~= results@);
    }
    if failed.len() == 0 {
        Ok(())
    } else {
        Err(failed)
    }
}

} // verus!

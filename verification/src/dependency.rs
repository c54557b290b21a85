use vstd::prelude::*;

use crate::package::is_alnum_char;
use crate::package::is_name_char;
use crate::package::is_punct_char;
use crate::package::valid_package_name;
use crate::package::check_package_name;
use crate::package::PackageName;
use crate::package::PackageVersion;
use crate::package::PackageVersionConstraint;

verus! {

/// Dependency declarations and their grammar.
///
/// A dependency is declared as one string: a package name, one space, and a
/// version constraint.  The constraint is an operator — `=` for an exact
/// version, `>` for a higher version — followed by the version itself, which
/// starts with a letter or digit and continues with letters, digits and
/// punctuation.  A declaration whose operator is any other punctuation
/// character, `*` and `<` included, is rejected as unsupported: wildcard
/// constraints exist only as values, built directly for whole-name queries,
/// and lower-than ordering is not offered.

/// The version characters after the leading one.
pub open spec fn valid_constraint_body(v: Seq<char>) -> bool {
    v.len() > 0 && is_alnum_char(v[0]) && forall|i: int|
        1 <= i < v.len() ==> is_alnum_char(#[trigger] v[i]) || is_punct_char(v[i])
}

/// A version constraint the library supports: `=` or `>`, then a version.
pub open spec fn supported_constraint_str(v: Seq<char>) -> bool {
    v.len() >= 2 && (v[0] == '=' || v[0] == '>') && valid_constraint_body(v.skip(1))
}

/// `k` splits `s` into a valid dependency: a package name, the space at
/// `k`, and a supported version constraint.
pub open spec fn dep_split_at(s: Seq<char>, k: int) -> bool {
    0 < k < s.len() && s[k] == ' ' && valid_package_name(s.take(k)) && supported_constraint_str(
        s.skip(k + 1),
    )
}

/// The string is a well-formed dependency declaration.
pub open spec fn parseable_dep_string(s: Seq<char>) -> bool {
    exists|k: int| #[trigger] dep_split_at(s, k)
}

/// `c` is the constraint that the characters `v` declare.
pub open spec fn constraint_represents(c: PackageVersionConstraint, v: Seq<char>) -> bool {
    if v.len() >= 1 && v[0] == '=' {
        c matches PackageVersionConstraint::Exact(e) && e@ == v.skip(1)
    } else if v.len() >= 1 && v[0] == '>' {
        c matches PackageVersionConstraint::HigherAs(e) && e@ == v.skip(1)
    } else {
        false
    }
}

/// What the constraint characters mean, directly: `=` demands exactly the
/// version after it, `>` any lexicographically greater one.
pub open spec fn constraint_str_matches(v: Seq<char>, version: Seq<char>) -> bool {
    if v.len() >= 1 && v[0] == '=' {
        version == v.skip(1)
    } else if v.len() >= 1 && v[0] == '>' {
        crate::package::lex_lt(v.skip(1), version)
    } else {
        false
    }
}

/// A parsed constraint means exactly what its characters say.
pub proof fn lemma_constraint_represents_matches(
    c: PackageVersionConstraint,
    v: Seq<char>,
    version: Seq<char>,
)
    requires
        constraint_represents(c, v),
    ensures
        c.matches_spec(version) == constraint_str_matches(v, version),
{
}

/// A dependency declaration splits in at most one place: the name cannot
/// contain the space, and the constraint cannot either.
pub proof fn lemma_dep_split_unique(s: Seq<char>, m1: int, m2: int)
    requires
        dep_split_at(s, m1),
        dep_split_at(s, m2),
    ensures
        m1 == m2,
{
    if m1 < m2 {
        assert(s.take(m2)[m1] == ' ');
        assert(is_name_char(s.take(m2)[m1]));
        assert(!is_name_char(' '));
    } else if m2 < m1 {
        assert(s.take(m1)[m2] == ' ');
        assert(is_name_char(s.take(m1)[m2]));
        assert(!is_name_char(' '));
    }
}

/// Why a dependency declaration was rejected.
#[derive(Clone, Copy, PartialEq, Eq, Structural, Debug)]
pub enum DependencyParseError {
    /// No space separates a name from a constraint.
    NoSeparator,
    /// The part before the space is not a package name.
    InvalidName,
    /// The part after the space is not a supported version constraint.
    InvalidConstraint,
}

/// A name and a space can only meet at the first space of the string.
proof fn lemma_split_is_first_space(s: Seq<char>, k: int)
    requires
        0 <= k < s.len(),
        s[k] == ' ',
        forall|j: int| 0 <= j < k ==> s[j] != ' ',
    ensures
        forall|k2: int| #[trigger] dep_split_at(s, k2) ==> k2 == k,
{
    assert forall|k2: int| #[trigger] dep_split_at(s, k2) implies k2 == k by {
        if k2 < k {
            assert(s[k2] == ' ');
        } else if k2 > k {
            let name = s.take(k2);
            if k == 0 {
                assert(name[0] == ' ');
                assert(!crate::package::is_alpha_char(' '));
            } else {
                assert(name[k] == ' ');
                assert(is_name_char(name[k]));
                assert(!is_name_char(' '));
            }
        }
    }
}

/// Without any space there is no valid split.
proof fn lemma_no_space_no_split(s: Seq<char>)
    requires
        forall|j: int| 0 <= j < s.len() ==> s[j] != ' ',
    ensures
        !parseable_dep_string(s),
{
    assert forall|k2: int| !(#[trigger] dep_split_at(s, k2)) by {
        if 0 < k2 < s.len() {
            assert(s[k2] != ' ');
        }
    }
}

/// Splits a dependency declaration into the package name and the version
/// constraint it declares, and rejects exactly the malformed declarations.
pub fn parse_package_dependency_string_into_name_and_version(s: &str) -> (r: Result<
    (PackageName, PackageVersionConstraint),
    DependencyParseError,
>)
    ensures
        r is Ok <==> parseable_dep_string(s@),
        r matches Ok((n, c)) ==> {
            &&& dep_split_at(s@, n@.len() as int)
            &&& n@ == s@.take(n@.len() as int)
            &&& constraint_represents(c, s@.skip(n@.len() as int + 1))
        },
{
    let n = s.unicode_len();
    let mut k: usize = 0;
    while k < n && s.get_char(k) != ' '
        invariant
            n == s@.len(),
            0 <= k <= n,
            forall|j: int| 0 <= j < k ==> s@[j] != ' ',
        decreases n - k,
    {
        k = k + 1;
    }
    if k == n {
        proof {
            lemma_no_space_no_split(s@);
        }
        return Err(DependencyParseError::NoSeparator);
    }
    proof {
        lemma_split_is_first_space(s@, k as int);
    }
    let name_part = s.substring_char(0, k);
    assert(name_part@ =~= s@.take(k as int));
    if !check_package_name(name_part) {
        return Err(DependencyParseError::InvalidName);
    }
    // The constraint part: an operator, then the version body.
    if n - k < 3 {
        assert(!supported_constraint_str(s@.skip(k as int + 1)));
        return Err(DependencyParseError::InvalidConstraint);
    }
    let ghost vpart = s@.skip(k as int + 1);
    let op = s.get_char(k + 1);
    assert(op == vpart[0]);
    if !(op == '=' || op == '>') {
        assert(!supported_constraint_str(vpart));
        return Err(DependencyParseError::InvalidConstraint);
    }
    let body = s.substring_char(k + 2, n);
    assert(body@ =~= vpart.skip(1));
    if !check_constraint_body(body) {
        assert(!supported_constraint_str(vpart));
        return Err(DependencyParseError::InvalidConstraint);
    }
    assert(dep_split_at(s@, k as int));
    let name = PackageName::from(String::from_str(name_part));
    let version = PackageVersion::from(String::from_str(body));
    let constraint = if op == '=' {
        PackageVersionConstraint::Exact(version)
    } else {
        PackageVersionConstraint::HigherAs(version)
    };
    assert(constraint_represents(constraint, vpart));
    assert(name@ == s@.take(k as int));
    Ok((name, constraint))
}

/// Decides `valid_constraint_body`.
fn check_constraint_body(s: &str) -> (r: bool)
    ensures
        r == valid_constraint_body(s@),
{
    let n = s.unicode_len();
    if n == 0 {
        return false;
    }
    if !crate::package::check_alnum_char(s.get_char(0)) {
        return false;
    }
    let mut i: usize = 1;
    while i < n
        invariant
            n == s@.len(),
            1 <= i <= n,
            forall|j: int|
                1 <= j < i ==> is_alnum_char(#[trigger] s@[j]) || is_punct_char(s@[j]),
        decreases n - i,
    {
        let c = s.get_char(i);
        if !(crate::package::check_alnum_char(c) || crate::package::check_punct_char(c)) {
            return false;
        }
        i = i + 1;
    }
    true
}

/// A dependency of a package that must be built and staged before the
/// package itself is built.
#[derive(Clone, Debug)]
pub struct BuildDependency {
    pub dep: String,
}

/// A dependency of a package that its artifacts need at run time.  It is
/// scheduled and staged exactly like a build dependency.
#[derive(Clone, Debug)]
pub struct Dependency {
    pub dep: String,
}

/// Comparing a dependency declaration against a raw string.
pub trait StringEqual {
    /// The characters of the declaration.
    spec fn str_spec(&self) -> Seq<char>;

    fn str_equal(&self, s: &str) -> (r: bool)
        ensures
            r == (self.str_spec() == s@),
    ;
}

/// Parsing a dependency declaration into the package name and version
/// constraint it declares.
pub trait ParseDependency {
    /// The characters of the declaration.
    spec fn dep_str_spec(&self) -> Seq<char>;

    fn parse_into_name_and_version(&self) -> (r: Result<
        (PackageName, PackageVersionConstraint),
        DependencyParseError,
    >)
        ensures
            r is Ok <==> parseable_dep_string(self.dep_str_spec()),
            r matches Ok((n, c)) ==> {
                &&& dep_split_at(self.dep_str_spec(), n@.len() as int)
                &&& n@ == self.dep_str_spec().take(n@.len() as int)
                &&& constraint_represents(c, self.dep_str_spec().skip(n@.len() as int + 1))
            },
    ;
}

impl View for BuildDependency {
    type V = Seq<char>;

    open spec fn view(&self) -> Seq<char> {
        self.dep@
    }
}

impl From<String> for BuildDependency {
    fn from(s: String) -> (r: BuildDependency) {
        BuildDependency { dep: s }
    }
}

impl vstd::std_specs::convert::FromSpecImpl<String> for BuildDependency {
    open spec fn obeys_from_spec() -> bool {
        true
    }

    open spec fn from_spec(s: String) -> BuildDependency {
        BuildDependency { dep: s }
    }
}

impl StringEqual for BuildDependency {
    open spec fn str_spec(&self) -> Seq<char> {
        self@
    }

    fn str_equal(&self, s: &str) -> (r: bool) {
        crate::package::str_chars_equal(self.dep.as_str(), s)
    }
}

impl ParseDependency for BuildDependency {
    open spec fn dep_str_spec(&self) -> Seq<char> {
        self@
    }

    fn parse_into_name_and_version(&self) -> (r: Result<
        (PackageName, PackageVersionConstraint),
        DependencyParseError,
    >) {
        parse_package_dependency_string_into_name_and_version(self.dep.as_str())
    }
}

impl View for Dependency {
    type V = Seq<char>;

    open spec fn view(&self) -> Seq<char> {
        self.dep@
    }
}

impl From<String> for Dependency {
    fn from(s: String) -> (r: Dependency) {
        Dependency { dep: s }
    }
}

impl vstd::std_specs::convert::FromSpecImpl<String> for Dependency {
    open spec fn obeys_from_spec() -> bool {
        true
    }

    open spec fn from_spec(s: String) -> Dependency {
        Dependency { dep: s }
    }
}

impl StringEqual for Dependency {
    open spec fn str_spec(&self) -> Seq<char> {
        self@
    }

    fn str_equal(&self, s: &str) -> (r: bool) {
        crate::package::str_chars_equal(self.dep.as_str(), s)
    }
}

impl ParseDependency for Dependency {
    open spec fn dep_str_spec(&self) -> Seq<char> {
        self@
    }

    fn parse_into_name_and_version(&self) -> (r: Result<
        (PackageName, PackageVersionConstraint),
        DependencyParseError,
    >) {
        parse_package_dependency_string_into_name_and_version(self.dep.as_str())
    }
}

} // verus!

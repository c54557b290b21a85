use vstd::prelude::*;

verus! {

/// The package data model: names, versions, version constraints, images,
/// environment variables, build phases and the package record itself.

// ---------------------------------------------------------------------------
// Character classes
// ---------------------------------------------------------------------------

/// An ASCII letter.
pub open spec fn is_alpha_char(c: char) -> bool {
    (('A' as u32) <= (c as u32) && (c as u32) <= ('Z' as u32)) || (('a' as u32) <= (c as u32)
        && (c as u32) <= ('z' as u32))
}

/// An ASCII digit.
pub open spec fn is_digit_char(c: char) -> bool {
    ('0' as u32) <= (c as u32) && (c as u32) <= ('9' as u32)
}

/// An ASCII letter or digit.
pub open spec fn is_alnum_char(c: char) -> bool {
    is_alpha_char(c) || is_digit_char(c)
}

/// An ASCII punctuation character.
pub open spec fn is_punct_char(c: char) -> bool {
    (('!' as u32) <= (c as u32) && (c as u32) <= ('/' as u32)) || ((':' as u32) <= (c as u32)
        && (c as u32) <= ('@' as u32)) || (('[' as u32) <= (c as u32) && (c as u32) <= ('`' as u32))
        || (('{' as u32) <= (c as u32) && (c as u32) <= ('~' as u32))
}

/// A character allowed after the first one in a package name.
pub open spec fn is_name_char(c: char) -> bool {
    is_alnum_char(c) || c == '-' || c == '_'
}

/// A character allowed in an environment variable name after the first one.
pub open spec fn is_env_name_char(c: char) -> bool {
    is_alnum_char(c) || c == '_'
}

/// A package name: an ASCII letter followed by letters, digits, `-` or `_`.
pub open spec fn valid_package_name(s: Seq<char>) -> bool {
    s.len() > 0 && is_alpha_char(s[0]) && forall|i: int|
        1 <= i < s.len() ==> is_name_char(#[trigger] s[i])
}

/// A shell identifier: a letter or `_` followed by letters, digits or `_`.
pub open spec fn valid_env_name(s: Seq<char>) -> bool {
    s.len() > 0 && (is_alpha_char(s[0]) || s[0] == '_') && forall|i: int|
        1 <= i < s.len() ==> is_env_name_char(#[trigger] s[i])
}

fn alpha_char(c: char) -> (r: bool)
    ensures
        r == is_alpha_char(c),
{
    let u = c as u32;
    (('A' as u32) <= u && u <= ('Z' as u32)) || (('a' as u32) <= u && u <= ('z' as u32))
}

fn digit_char(c: char) -> (r: bool)
    ensures
        r == is_digit_char(c),
{
    let u = c as u32;
    ('0' as u32) <= u && u <= ('9' as u32)
}

/// Decides `is_alnum_char`.
pub fn check_alnum_char(c: char) -> (r: bool)
    ensures
        r == is_alnum_char(c),
{
    alpha_char(c) || digit_char(c)
}

/// Decides `is_punct_char`.
pub fn check_punct_char(c: char) -> (r: bool)
    ensures
        r == is_punct_char(c),
{
    let u = c as u32;
    (('!' as u32) <= u && u <= ('/' as u32)) || ((':' as u32) <= u && u <= ('@' as u32)) || (('['
        as u32) <= u && u <= ('`' as u32)) || (('{' as u32) <= u && u <= ('~' as u32))
}

fn name_char(c: char) -> (r: bool)
    ensures
        r == is_name_char(c),
{
    check_alnum_char(c) || c == '-' || c == '_'
}

fn env_name_char(c: char) -> (r: bool)
    ensures
        r == is_env_name_char(c),
{
    check_alnum_char(c) || c == '_'
}

/// Compares two string slices character by character.
pub fn str_chars_equal(a: &str, b: &str) -> (r: bool)
    ensures
        r == (a@ == b@),
{
    let an = a.unicode_len();
    let bn = b.unicode_len();
    if an != bn {
        return false;
    }
    let mut i: usize = 0;
    while i < an
        invariant
            an == a@.len(),
            bn == b@.len(),
            an == bn,
            i <= an,
            forall|j: int| 0 <= j < i ==> a@[j] == b@[j],
        decreases an - i,
    {
        if a.get_char(i) != b.get_char(i) {
            return false;
        }
        i = i + 1;
    }
    proof {
        assert(a@ =~= b@);
    }
    true
}

/// Decides `valid_package_name`.
pub fn check_package_name(s: &str) -> (r: bool)
    ensures
        r == valid_package_name(s@),
{
    let n = s.unicode_len();
    if n == 0 {
        return false;
    }
    if !alpha_char(s.get_char(0)) {
        return false;
    }
    let mut i: usize = 1;
    while i < n
        invariant
            n == s@.len(),
            1 <= i <= n,
            forall|j: int| 1 <= j < i ==> is_name_char(#[trigger] s@[j]),
        decreases n - i,
    {
        if !name_char(s.get_char(i)) {
            return false;
        }
        i = i + 1;
    }
    true
}

/// Decides `valid_env_name`.
pub fn check_env_name(s: &str) -> (r: bool)
    ensures
        r == valid_env_name(s@),
{
    let n = s.unicode_len();
    if n == 0 {
        return false;
    }
    let c0 = s.get_char(0);
    if !(alpha_char(c0) || c0 == '_') {
        return false;
    }
    let mut i: usize = 1;
    while i < n
        invariant
            n == s@.len(),
            1 <= i <= n,
            forall|j: int| 1 <= j < i ==> is_env_name_char(#[trigger] s@[j]),
        decreases n - i,
    {
        if !env_name_char(s.get_char(i)) {
            return false;
        }
        i = i + 1;
    }
    true
}

// ---------------------------------------------------------------------------
// Names and versions
// ---------------------------------------------------------------------------

/// The name of a package.
#[derive(Clone, Debug, Hash)]
pub struct PackageName {
    pub name: String,
}

impl View for PackageName {
    type V = Seq<char>;

    open spec fn view(&self) -> Seq<char> {
        self.name@
    }
}

impl From<String> for PackageName {
    fn from(s: String) -> (r: PackageName) {
        PackageName { name: s }
    }
}

impl vstd::std_specs::convert::FromSpecImpl<String> for PackageName {
    open spec fn obeys_from_spec() -> bool {
        true
    }

    open spec fn from_spec(s: String) -> PackageName {
        PackageName { name: s }
    }
}

impl PartialEq for PackageName {
    fn eq(&self, other: &PackageName) -> bool {
        self.name == other.name
    }
}

impl vstd::std_specs::cmp::PartialEqSpecImpl for PackageName {
    open spec fn obeys_eq_spec() -> bool {
        true
    }

    open spec fn eq_spec(&self, other: &PackageName) -> bool {
        self@ == other@
    }
}

impl PackageName {
    pub fn as_str(&self) -> (r: &str)
        ensures
            r@ == self@,
    {
        self.name.as_str()
    }

    pub fn duplicate(&self) -> (r: PackageName)
        ensures
            r@ == self@,
    {
        PackageName { name: self.name.clone() }
    }
}

/// The version of a package.  Versions are ordered lexicographically by
/// their characters.
#[derive(Clone, Debug, Hash)]
pub struct PackageVersion {
    pub version: String,
}

impl View for PackageVersion {
    type V = Seq<char>;

    open spec fn view(&self) -> Seq<char> {
        self.version@
    }
}

impl From<String> for PackageVersion {
    fn from(s: String) -> (r: PackageVersion) {
        PackageVersion { version: s }
    }
}

impl vstd::std_specs::convert::FromSpecImpl<String> for PackageVersion {
    open spec fn obeys_from_spec() -> bool {
        true
    }

    open spec fn from_spec(s: String) -> PackageVersion {
        PackageVersion { version: s }
    }
}

impl PartialEq for PackageVersion {
    fn eq(&self, other: &PackageVersion) -> bool {
        self.version == other.version
    }
}

impl vstd::std_specs::cmp::PartialEqSpecImpl for PackageVersion {
    open spec fn obeys_eq_spec() -> bool {
        true
    }

    open spec fn eq_spec(&self, other: &PackageVersion) -> bool {
        self@ == other@
    }
}

impl PackageVersion {
    pub fn as_str(&self) -> (r: &str)
        ensures
            r@ == self@,
    {
        self.version.as_str()
    }

    pub fn duplicate(&self) -> (r: PackageVersion)
        ensures
            r@ == self@,
    {
        PackageVersion { version: self.version.clone() }
    }
}

/// Strict lexicographic order on character sequences, comparing characters
/// by their code points.
pub open spec fn lex_lt(a: Seq<char>, b: Seq<char>) -> bool
    decreases a.len(),
{
    if b.len() == 0 {
        false
    } else if a.len() == 0 {
        true
    } else if a[0] == b[0] {
        lex_lt(a.skip(1), b.skip(1))
    } else {
        (a[0] as u32) < (b[0] as u32)
    }
}

/// Decides `lex_lt` on two string slices.
pub fn str_lex_lt(a: &str, b: &str) -> (r: bool)
    ensures
        r == lex_lt(a@, b@),
    decreases a@.len(),
{
    let an = a.unicode_len();
    let bn = b.unicode_len();
    if bn == 0 {
        false
    } else if an == 0 {
        true
    } else {
        let ca = a.get_char(0);
        let cb = b.get_char(0);
        if ca == cb {
            let ar = a.substring_char(1, an);
            let br = b.substring_char(1, bn);
            proof {
                assert(ar@ =~= a@.skip(1));
                assert(br@ =~= b@.skip(1));
            }
            str_lex_lt(ar, br)
        } else {
            (ca as u32) < (cb as u32)
        }
    }
}

// ---------------------------------------------------------------------------
// Version constraints
// ---------------------------------------------------------------------------

/// A constraint a dependency places on the version of the package that
/// satisfies it.
#[derive(Clone, Debug)]
pub enum PackageVersionConstraint {
    /// Satisfied by exactly this version.
    Exact(PackageVersion),
    /// Satisfied by every version strictly greater in lexicographic order.
    HigherAs(PackageVersion),
    /// Satisfied by every version.
    Wildcard,
}

/// The two constraints have the same shape and the same characters.
pub open spec fn same_constraint(a: PackageVersionConstraint, b: PackageVersionConstraint) -> bool {
    match (a, b) {
        (PackageVersionConstraint::Exact(x), PackageVersionConstraint::Exact(y)) => x@ == y@,
        (PackageVersionConstraint::HigherAs(x), PackageVersionConstraint::HigherAs(y)) => x@ == y@,
        (PackageVersionConstraint::Wildcard, PackageVersionConstraint::Wildcard) => true,
        _ => false,
    }
}

/// Two constraints of the same shape and characters mean the same thing.
pub proof fn lemma_same_constraint_matches(
    a: PackageVersionConstraint,
    b: PackageVersionConstraint,
    v: Seq<char>,
)
    requires
        same_constraint(a, b),
    ensures
        a.matches_spec(v) == b.matches_spec(v),
{
}

impl PackageVersionConstraint {
    /// What the constraint means, over the candidate version's characters.
    pub open spec fn matches_spec(self, v: Seq<char>) -> bool {
        match self {
            PackageVersionConstraint::Exact(e) => v == e@,
            PackageVersionConstraint::HigherAs(e) => lex_lt(e@, v),
            PackageVersionConstraint::Wildcard => true,
        }
    }

    /// Whether the candidate version satisfies the constraint.  Total: every
    /// constraint answers for every version.
    pub fn matches(&self, v: &PackageVersion) -> (r: bool)
        ensures
            r == self.matches_spec(v@),
    {
        match self {
            PackageVersionConstraint::Exact(e) => e == v,
            PackageVersionConstraint::HigherAs(e) => str_lex_lt(e.as_str(), v.as_str()),
            PackageVersionConstraint::Wildcard => true,
        }
    }

    pub fn duplicate(&self) -> (r: PackageVersionConstraint)
        ensures
            same_constraint(r, *self),
    {
        match self {
            PackageVersionConstraint::Exact(e) => PackageVersionConstraint::Exact(e.duplicate()),
            PackageVersionConstraint::HigherAs(e) => PackageVersionConstraint::HigherAs(
                e.duplicate(),
            ),
            PackageVersionConstraint::Wildcard => PackageVersionConstraint::Wildcard,
        }
    }
}

impl PartialEq for PackageVersionConstraint {
    fn eq(&self, other: &PackageVersionConstraint) -> bool {
        match (self, other) {
            (PackageVersionConstraint::Exact(a), PackageVersionConstraint::Exact(b)) => a == b,
            (PackageVersionConstraint::HigherAs(a), PackageVersionConstraint::HigherAs(b)) => a
                == b,
            (PackageVersionConstraint::Wildcard, PackageVersionConstraint::Wildcard) => true,
            _ => false,
        }
    }
}

impl vstd::std_specs::cmp::PartialEqSpecImpl for PackageVersionConstraint {
    open spec fn obeys_eq_spec() -> bool {
        true
    }

    open spec fn eq_spec(&self, other: &PackageVersionConstraint) -> bool {
        match (self, other) {
            (PackageVersionConstraint::Exact(a), PackageVersionConstraint::Exact(b)) => a@ == b@,
            (PackageVersionConstraint::HigherAs(a), PackageVersionConstraint::HigherAs(b)) => a@
                == b@,
            (PackageVersionConstraint::Wildcard, PackageVersionConstraint::Wildcard) => true,
            _ => false,
        }
    }
}

// ---------------------------------------------------------------------------
// Images and environment variables
// ---------------------------------------------------------------------------

/// The name of a container image.  Two image names are equal exactly when
/// their characters are equal.
#[derive(Clone, Debug)]
pub struct ImageName {
    pub name: String,
}

impl View for ImageName {
    type V = Seq<char>;

    open spec fn view(&self) -> Seq<char> {
        self.name@
    }
}

impl From<String> for ImageName {
    fn from(s: String) -> (r: ImageName) {
        ImageName { name: s }
    }
}

impl vstd::std_specs::convert::FromSpecImpl<String> for ImageName {
    open spec fn obeys_from_spec() -> bool {
        true
    }

    open spec fn from_spec(s: String) -> ImageName {
        ImageName { name: s }
    }
}

impl PartialEq for ImageName {
    fn eq(&self, other: &ImageName) -> bool {
        self.name == other.name
    }
}

impl vstd::std_specs::cmp::PartialEqSpecImpl for ImageName {
    open spec fn obeys_eq_spec() -> bool {
        true
    }

    open spec fn eq_spec(&self, other: &ImageName) -> bool {
        self@ == other@
    }
}

impl ImageName {
    pub fn as_str(&self) -> (r: &str)
        ensures
            r@ == self@,
    {
        self.name.as_str()
    }

    pub fn duplicate(&self) -> (r: ImageName)
        ensures
            r@ == self@,
    {
        ImageName { name: self.name.clone() }
    }
}

/// Whether some image name in the list has exactly these characters.
pub fn image_list_contains(imgs: &Vec<ImageName>, name: &String) -> (r: bool)
    ensures
        r == imgs@.map_values(|i: ImageName| i@).contains(name@),
{
    let n = imgs.len();
    let mut i: usize = 0;
    while i < n
        invariant
            n == imgs@.len(),
            i <= n,
            forall|j: int| 0 <= j < i ==> (#[trigger] imgs@[j])@ != name@,
        decreases n - i,
    {
        if crate::package::str_chars_equal(imgs[i].as_str(), name.as_str()) {
            proof {
                assert(imgs@.map_values(|x: ImageName| x@)[i as int] == name@);
            }
            return true;
        }
        i = i + 1;
    }
    proof {
        let ghost ms = imgs@.map_values(|x: ImageName| x@);
        if ms.contains(name@) {
            let j = choose|j: int| 0 <= j < ms.len() && ms[j] == name@;
            assert(imgs@[j]@ == name@);
        }
    }
    false
}

/// One environment variable: a name and a value.
#[derive(Clone, Debug)]
pub struct EnvVar {
    pub name: String,
    pub value: String,
}

impl View for EnvVar {
    type V = (Seq<char>, Seq<char>);

    open spec fn view(&self) -> (Seq<char>, Seq<char>) {
        (self.name@, self.value@)
    }
}

impl EnvVar {
    pub fn new(name: String, value: String) -> (r: EnvVar)
        ensures
            r@ == (name@, value@),
    {
        EnvVar { name, value }
    }

    pub fn name(&self) -> (r: &str)
        ensures
            r@ == self@.0,
    {
        self.name.as_str()
    }

    pub fn value(&self) -> (r: &str)
        ensures
            r@ == self@.1,
    {
        self.value.as_str()
    }

    pub fn duplicate(&self) -> (r: EnvVar)
        ensures
            r@ == self@,
    {
        EnvVar { name: self.name.clone(), value: self.value.clone() }
    }
}

/// The names in an environment are unique.
pub open spec fn env_names_unique(env: Seq<(Seq<char>, Seq<char>)>) -> bool {
    forall|i: int, j: int| 0 <= i < j < env.len() ==> (#[trigger] env[i]).0 != (#[trigger] env[j]).0
}

/// The environment `sub` is contained in `sup`: every variable of `sub`
/// appears in `sup` with the same value.
pub open spec fn env_subset_of(sub: Seq<(Seq<char>, Seq<char>)>, sup: Seq<(Seq<char>, Seq<char>)>) -> bool {
    forall|i: int| 0 <= i < sub.len() ==> sup.contains(#[trigger] sub[i])
}

// ---------------------------------------------------------------------------
// Phases
// ---------------------------------------------------------------------------

/// The name of one build phase.
#[derive(Clone, Debug, Hash)]
pub struct PhaseName {
    pub name: String,
}

impl View for PhaseName {
    type V = Seq<char>;

    open spec fn view(&self) -> Seq<char> {
        self.name@
    }
}

impl From<String> for PhaseName {
    fn from(s: String) -> (r: PhaseName) {
        PhaseName { name: s }
    }
}

impl vstd::std_specs::convert::FromSpecImpl<String> for PhaseName {
    open spec fn obeys_from_spec() -> bool {
        true
    }

    open spec fn from_spec(s: String) -> PhaseName {
        PhaseName { name: s }
    }
}

impl PartialEq for PhaseName {
    fn eq(&self, other: &PhaseName) -> bool {
        self.name == other.name
    }
}

impl vstd::std_specs::cmp::PartialEqSpecImpl for PhaseName {
    open spec fn obeys_eq_spec() -> bool {
        true
    }

    open spec fn eq_spec(&self, other: &PhaseName) -> bool {
        self@ == other@
    }
}

impl PhaseName {
    pub fn as_str(&self) -> (r: &str)
        ensures
            r@ == self@,
    {
        self.name.as_str()
    }

    pub fn duplicate(&self) -> (r: PhaseName)
        ensures
            r@ == self@,
    {
        PhaseName { name: self.name.clone() }
    }
}

/// The content of one build phase: either a path to a script file or the
/// script text itself.
#[derive(Clone, Debug)]
pub enum Phase {
    Path(String),
    Text(String),
}

// ---------------------------------------------------------------------------
// Sources
// ---------------------------------------------------------------------------

/// The declared hash of a source file.
#[derive(Clone, Debug)]
pub struct SourceHash {
    pub digest: String,
}

impl View for SourceHash {
    type V = Seq<char>;

    open spec fn view(&self) -> Seq<char> {
        self.digest@
    }
}

impl SourceHash {
    pub fn new(digest: String) -> (r: SourceHash)
        ensures
            r@ == digest@,
    {
        SourceHash { digest }
    }

    /// Whether a digest computed over the source file's bytes matches the
    /// declared one.
    pub fn matches_digest(&self, computed: &String) -> (r: bool)
        ensures
            r == (self@ == computed@),
    {
        self.digest == *computed
    }

    pub fn duplicate(&self) -> (r: SourceHash)
        ensures
            r@ == self@,
    {
        SourceHash { digest: self.digest.clone() }
    }
}

/// Where a package's source comes from: a URL and the expected hash of the
/// downloaded file.
#[derive(Clone, Debug)]
pub struct Source {
    pub url: String,
    pub hash: SourceHash,
}

impl Source {
    pub fn new(url: String, hash: SourceHash) -> (r: Source)
        ensures
            r.url_spec() == url@,
            r.hash_spec() == hash@,
    {
        Source { url, hash }
    }

    pub open spec fn url_spec(&self) -> Seq<char> {
        self.url@
    }

    pub open spec fn hash_spec(&self) -> Seq<char> {
        self.hash@
    }

    pub fn url(&self) -> (r: &str)
        ensures
            r@ == self.url_spec(),
    {
        self.url.as_str()
    }

    pub fn hash(&self) -> (r: &SourceHash)
        ensures
            r@ == self.hash_spec(),
    {
        &self.hash
    }

    pub fn duplicate(&self) -> (r: Source)
        ensures
            r.url_spec() == self.url_spec(),
            r.hash_spec() == self.hash_spec(),
    {
        Source { url: self.url.clone(), hash: self.hash.duplicate() }
    }
}

} // verus!

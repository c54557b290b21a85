use vstd::prelude::*;

verus! {

/// Paths of artifacts under a store root.
///
/// A store indexes every artifact by a path relative to its root.  A
/// relative path is held in normalized form: non-empty, `/`-separated,
/// no empty, `.` or `..` components, no leading or trailing separator.
/// Joining such a path onto an absolute root therefore cannot leave the
/// root's directory tree.

/// `i` starts a component of `s`: it is the first position, or follows a
/// separator.
pub open spec fn comp_start(s: Seq<char>, i: int) -> bool {
    0 <= i < s.len() && (i == 0 || s[i - 1] == '/')
}

/// The component starting at `i` is exactly `.`.
pub open spec fn dot_component_at(s: Seq<char>, i: int) -> bool {
    s[i] == '.' && (i + 1 == s.len() || s[i + 1] == '/')
}

/// The component starting at `i` is exactly `..`.
pub open spec fn parent_component_at(s: Seq<char>, i: int) -> bool {
    i + 1 < s.len() && s[i] == '.' && s[i + 1] == '.' && (i + 2 == s.len() || s[i + 2] == '/')
}

/// A normalized relative path: non-empty, no leading or trailing `/`, no
/// empty components, and no `.` or `..` components.
pub open spec fn valid_rel_path(s: Seq<char>) -> bool {
    &&& s.len() > 0
    &&& s[0] != '/'
    &&& s[s.len() - 1] != '/'
    &&& forall|i: int| 0 < i < s.len() ==> !(s[i - 1] == '/' && #[trigger] s[i] == '/')
    &&& forall|i: int|
        #[trigger] comp_start(s, i) ==> !dot_component_at(s, i) && !parent_component_at(s, i)
}

/// The path is absolute.
pub open spec fn is_absolute_path(s: Seq<char>) -> bool {
    s.len() > 0 && s[0] == '/'
}

/// The path's normalized form escapes whatever directory it is joined onto:
/// it is absolute, or it contains a `..` component.
pub open spec fn path_escapes(s: Seq<char>) -> bool {
    is_absolute_path(s) || exists|i: int| #[trigger] comp_start(s, i) && parent_component_at(s, i)
}

/// Decides `valid_rel_path` by one scan over the characters.
pub fn check_rel_path(s: &str) -> (r: bool)
    ensures
        r == valid_rel_path(s@),
{
    let n = s.unicode_len();
    if n == 0 {
        return false;
    }
    if s.get_char(0) == '/' {
        return false;
    }
    if s.get_char(n - 1) == '/' {
        return false;
    }
    let mut i: usize = 0;
    while i < n
        invariant
            n == s@.len(),
            0 < n,
            s@[0] != '/',
            s@[n - 1] != '/',
            i <= n,
            forall|j: int| 0 < j < i ==> !(s@[j - 1] == '/' && #[trigger] s@[j] == '/'),
            forall|j: int|
                #[trigger] comp_start(s@, j) && j < i ==> !dot_component_at(s@, j)
                    && !parent_component_at(s@, j),
        decreases n - i,
    {
        let c = s.get_char(i);
        if i > 0 && c == '/' && s.get_char(i - 1) == '/' {
            assert(!valid_rel_path(s@));
            return false;
        }
        if i == 0 || s.get_char(i - 1) == '/' {
            assert(comp_start(s@, i as int));
            if c == '.' {
                if i + 1 == n {
                    assert(dot_component_at(s@, i as int));
                    return false;
                }
                let c1 = s.get_char(i + 1);
                if c1 == '/' {
                    assert(dot_component_at(s@, i as int));
                    return false;
                }
                if c1 == '.' {
                    if i + 2 == n {
                        assert(parent_component_at(s@, i as int));
                        return false;
                    }
                    if s.get_char(i + 2) == '/' {
                        assert(parent_component_at(s@, i as int));
                        return false;
                    }
                }
            }
        }
        i = i + 1;
    }
    true
}

/// A path of one artifact, relative to a store root.
#[derive(Clone, Debug)]
pub struct ArtifactPath {
    path: String,
}

/// The reason a path was rejected.
#[derive(Clone, Copy, PartialEq, Eq, Structural, Debug)]
pub enum PathError {
    /// The path is not a normalized relative path: it is empty or absolute,
    /// or has an empty, `.` or `..` component.
    NotRelative,
}

impl View for ArtifactPath {
    type V = Seq<char>;

    closed spec fn view(&self) -> Seq<char> {
        self.path@
    }
}

impl ArtifactPath {
    /// The paths this type can hold.
    pub open spec fn wf(&self) -> bool {
        valid_rel_path(self@)
    }

    /// Accepts exactly the normalized relative paths.
    pub fn new(path: String) -> (r: Result<ArtifactPath, PathError>)
        ensures
            r is Ok <==> valid_rel_path(path@),
            r matches Ok(p) ==> p@ == path@ && p.wf(),
    {
        if check_rel_path(path.as_str()) {
            Ok(ArtifactPath { path })
        } else {
            Err(PathError::NotRelative)
        }
    }

    pub fn as_str(&self) -> (r: &str)
        ensures
            r@ == self@,
    {
        self.path.as_str()
    }

    /// An equal path value with fresh ownership.
    pub fn duplicate(&self) -> (r: ArtifactPath)
        ensures
            r@ == self@,
    {
        ArtifactPath { path: self.path.clone() }
    }
}

/// The absolute directory a store lives under.
#[derive(Clone, Debug)]
pub struct StoreRoot {
    path: String,
}

/// A root is an absolute path whose remainder, after the leading `/`, is a
/// normalized relative path.
pub open spec fn valid_store_root(s: Seq<char>) -> bool {
    s.len() > 1 && s[0] == '/' && valid_rel_path(s.skip(1))
}

impl View for StoreRoot {
    type V = Seq<char>;

    closed spec fn view(&self) -> Seq<char> {
        self.path@
    }
}

/// An artifact path joined onto a store root: an absolute path to one
/// artifact file.
#[derive(Clone, Debug)]
pub struct FullArtifactPath {
    path: String,
}

impl View for FullArtifactPath {
    type V = Seq<char>;

    closed spec fn view(&self) -> Seq<char> {
        self.path@
    }
}

impl FullArtifactPath {
    pub fn as_str(&self) -> (r: &str)
        ensures
            r@ == self@,
    {
        self.path.as_str()
    }
}

impl StoreRoot {
    pub open spec fn wf(&self) -> bool {
        valid_store_root(self@)
    }

    /// Accepts exactly the absolute, normalized directory paths.
    pub fn new(path: String) -> (r: Result<StoreRoot, PathError>)
        ensures
            r is Ok <==> valid_store_root(path@),
            r matches Ok(p) ==> p@ == path@ && p.wf(),
    {
        let n = path.as_str().unicode_len();
        if n < 2 {
            return Err(PathError::NotRelative);
        }
        if path.as_str().get_char(0) != '/' {
            return Err(PathError::NotRelative);
        }
        let rest = path.as_str().substring_char(1, n);
        assert(rest@ =~= path@.skip(1));
        if check_rel_path(rest) {
            Ok(StoreRoot { path })
        } else {
            Err(PathError::NotRelative)
        }
    }

    /// The joined path: root, separator, relative artifact path.
    pub fn join(&self, art: &ArtifactPath) -> (r: FullArtifactPath)
        requires
            self.wf(),
            art.wf(),
        ensures
            r@ == self@ + seq!['/'] + art@,
    {
        let sep: &str = "/";
        proof {
            reveal_strlit("/");
        }
        let joined = self.path.clone().concat(sep).concat(art.path.as_str());
        assert(joined@ =~= self@ + seq!['/'] + art@);
        FullArtifactPath { path: joined }
    }

    /// Validates a candidate relative path and joins it onto the root;
    /// rejects every candidate whose normalized form would escape the root.
    pub fn join_checked(&self, candidate: String) -> (r: Result<FullArtifactPath, PathError>)
        requires
            self.wf(),
        ensures
            r is Ok <==> valid_rel_path(candidate@),
            r matches Ok(p) ==> p@ == self@ + seq!['/'] + candidate@,
            path_escapes(candidate@) ==> r is Err,
    {
        proof {
            if path_escapes(candidate@) {
                lemma_escaping_path_is_not_valid(candidate@);
            }
        }
        let art = ArtifactPath::new(candidate)?;
        Ok(self.join(&art))
    }

    pub fn as_str(&self) -> (r: &str)
        ensures
            r@ == self@,
    {
        self.path.as_str()
    }
}

/// Store safety: a path whose normalized form escapes the root — an absolute
/// path, or one with a `..` component — is never a valid relative path, so
/// `ArtifactPath::new` and `StoreRoot::join_checked` reject it.
pub proof fn lemma_escaping_path_is_not_valid(s: Seq<char>)
    requires
        path_escapes(s),
    ensures
        !valid_rel_path(s),
{
    if is_absolute_path(s) {
    } else {
        let i = choose|i: int| #[trigger] comp_start(s, i) && parent_component_at(s, i);
        assert(comp_start(s, i));
    }
}

} // verus!

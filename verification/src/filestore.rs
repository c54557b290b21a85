use vstd::prelude::*;

use crate::path::valid_rel_path;
use crate::path::ArtifactPath;
use crate::path::FullArtifactPath;
use crate::path::PathError;
use crate::path::StoreRoot;

verus! {

/// Stores of artifact files.
///
/// A store is a directory tree whose regular files are indexed by their
/// path relative to the root.  Walking the directory happens outside the
/// library; the observed relative paths are handed in as plain strings and
/// validated here.  The staging store of a submit grows as jobs finish;
/// release stores are read-only to the build core.

/// The shared store implementation: a root and the indexed relative paths.
pub struct FileStore {
    root: StoreRoot,
    entries: Vec<ArtifactPath>,
}

/// The store holds an entry with exactly these characters.
pub open spec fn store_contains(entries: Seq<Seq<char>>, p: Seq<char>) -> bool {
    exists|i: int| 0 <= i < entries.len() && entries[i] == p
}

impl FileStore {
    pub closed spec fn root_spec(&self) -> Seq<char> {
        self.root@
    }

    pub closed spec fn entries_spec(&self) -> Seq<Seq<char>> {
        self.entries@.map_values(|p: ArtifactPath| p@)
    }

    pub closed spec fn wf(&self) -> bool {
        self.root.wf()
    }

    /// Indexes a store from the walked file listing.  Every listed path
    /// must be a normalized relative path.
    pub fn load(root: StoreRoot, files: Vec<String>) -> (r: Result<FileStore, PathError>)
        requires
            root.wf(),
        ensures
            r is Ok <==> forall|i: int|
                0 <= i < files@.len() ==> valid_rel_path((#[trigger] files@[i])@),
            r matches Ok(st) ==> {
                &&& st.wf()
                &&& st.root_spec() == root@
                &&& st.entries_spec() == files@.map_values(|s: String| s@)
            },
    {
        let mut entries: Vec<ArtifactPath> = Vec::new();
        let n = files.len();
        let mut i: usize = 0;
        while i < n
            invariant
                n == files@.len(),
                i <= n,
                entries@.len() == i,
                forall|j: int| 0 <= j < i ==> valid_rel_path((#[trigger] files@[j])@),
                forall|j: int| 0 <= j < i ==> (#[trigger] entries@[j])@ == files@[j]@,
            decreases n - i,
        {
            let p = files[i].clone();
            match ArtifactPath::new(p) {
                Ok(ap) => {
                    entries.push(ap);
                },
                Err(e) => {
                    return Err(e);
                },
            }
            i = i + 1;
        }
        let st = FileStore { root, entries };
        proof {
            assert(st.entries_spec() =~= files@.map_values(|s: String| s@));
        }
        Ok(st)
    }

    pub fn root_path(&self) -> (r: &StoreRoot)
        ensures
            r@ == self.root_spec(),
            r.wf() == self.wf(),
    {
        &self.root
    }

    /// Answers whether the artifact is indexed in this store; the returned
    /// entry has the same characters as the query.
    pub fn get(&self, p: &ArtifactPath) -> (r: Option<&ArtifactPath>)
        ensures
            r is Some <==> store_contains(self.entries_spec(), p@),
            r matches Some(q) ==> q@ == p@,
    {
        let n = self.entries.len();
        let mut i: usize = 0;
        while i < n
            invariant
                n == self.entries@.len(),
                i <= n,
                forall|j: int| 0 <= j < i ==> (#[trigger] self.entries@[j])@ != p@,
            decreases n - i,
        {
            if crate::package::str_chars_equal(self.entries[i].as_str(), p.as_str()) {
                proof {
                    assert(self.entries_spec()[i as int] == p@);
                }
                return Some(&self.entries[i]);
            }
            i = i + 1;
        }
        proof {
            assert forall|j: int| 0 <= j < self.entries_spec().len() implies self.entries_spec()[j]
                != p@ by {
                assert(self.entries@[j]@ != p@);
            }
        }
        None
    }

    /// The absolute path of an indexed artifact.
    pub fn full_path(&self, p: &ArtifactPath) -> (r: FullArtifactPath)
        requires
            self.wf(),
            p.wf(),
        ensures
            r@ == self.root_spec() + seq!['/'] + p@,
    {
        self.root.join(p)
    }

    /// Appends a freshly produced artifact to the index.
    pub fn add(&mut self, p: ArtifactPath)
        ensures
            final(self).root_spec() == old(self).root_spec(),
            final(self).wf() == old(self).wf(),
            final(self).entries_spec() == old(self).entries_spec().push(p@),
    {
        let ghost prev = self.entries@;
        self.entries.push(p);
        proof {
            prev.lemma_push_map_commute(
                |q: ArtifactPath| q@,
                self.entries@[prev.len() as int],
            );
        }
    }
}

/// A read-only store of promoted artifacts.
pub struct ReleaseStore(pub FileStore);

impl ReleaseStore {
    /// Indexes a release store from the walked file listing.
    pub fn load(root: StoreRoot, files: Vec<String>) -> (r: Result<ReleaseStore, PathError>)
        requires
            root.wf(),
        ensures
            r is Ok <==> forall|i: int|
                0 <= i < files@.len() ==> valid_rel_path((#[trigger] files@[i])@),
            r matches Ok(st) ==> {
                &&& st.0.wf()
                &&& st.0.root_spec() == root@
                &&& st.0.entries_spec() == files@.map_values(|s: String| s@)
            },
    {
        match FileStore::load(root, files) {
            Ok(st) => Ok(ReleaseStore(st)),
            Err(e) => Err(e),
        }
    }
}

/// The writable store of one submit's freshly built artifacts.
pub struct StagingStore(pub FileStore);

impl StagingStore {
    /// Indexes the staging store from the walked file listing.
    pub fn load(root: StoreRoot, files: Vec<String>) -> (r: Result<StagingStore, PathError>)
        requires
            root.wf(),
        ensures
            r is Ok <==> forall|i: int|
                0 <= i < files@.len() ==> valid_rel_path((#[trigger] files@[i])@),
            r matches Ok(st) ==> {
                &&& st.0.wf()
                &&& st.0.root_spec() == root@
                &&& st.0.entries_spec() == files@.map_values(|s: String| s@)
            },
    {
        match FileStore::load(root, files) {
            Ok(st) => Ok(StagingStore(st)),
            Err(e) => Err(e),
        }
    }
}

} // verus!

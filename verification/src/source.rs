use vstd::prelude::*;

use crate::package::PackageName;
use crate::package::PackageVersion;
use crate::package::Source;
use crate::repository::Package;

verus! {

/// The source cache: one file per package at
/// `<root>/<name>-<version>.source`.
///
/// The cache never fetches; whether the file is present, and what digest
/// its bytes hash to, is observed outside the library and handed in as
/// plain values.

pub struct SourceCache {
    root: String,
}

/// The cache path of a package's source file.
pub open spec fn source_path_of(root: Seq<char>, name: Seq<char>, version: Seq<char>) -> Seq<
    char,
> {
    root + seq!['/'] + name + seq!['-'] + version + ".source"@
}

impl SourceCache {
    pub closed spec fn root_spec(&self) -> Seq<char> {
        self.root@
    }

    pub fn new(root: String) -> (r: SourceCache)
        ensures
            r.root_spec() == root@,
    {
        SourceCache { root }
    }

    /// The cache entry of one package.
    pub fn source_for(&self, p: &Package) -> (r: SourceEntry)
        ensures
            r.wf(),
            r.cache_root_spec() == self.root_spec(),
            r.name_spec() == p@.name,
            r.version_spec() == p@.version,
            r.source_hash_spec() == p@.source_hash,
            r.path_spec() == source_path_of(self.root_spec(), p@.name, p@.version),
    {
        SourceEntry::for_package(self.root.clone(), p)
    }
}

/// One package's slot in the source cache.
pub struct SourceEntry {
    cache_root: String,
    package_name: PackageName,
    package_version: PackageVersion,
    package_source: Source,
    package_source_path: String,
}

impl SourceEntry {
    pub closed spec fn cache_root_spec(&self) -> Seq<char> {
        self.cache_root@
    }

    pub closed spec fn name_spec(&self) -> Seq<char> {
        self.package_name@
    }

    pub closed spec fn version_spec(&self) -> Seq<char> {
        self.package_version@
    }

    pub closed spec fn source_hash_spec(&self) -> Seq<char> {
        self.package_source.hash_spec()
    }

    pub closed spec fn path_spec(&self) -> Seq<char> {
        self.package_source_path@
    }

    /// The entry's path names the package's slot under the cache root.
    pub open spec fn wf(&self) -> bool {
        self.path_spec() == source_path_of(
            self.cache_root_spec(),
            self.name_spec(),
            self.version_spec(),
        )
    }

    /// Builds the entry for one package: its name, version, source hash
    /// and cache path.
    pub fn for_package(cache_root: String, package: &Package) -> (r: SourceEntry)
        ensures
            r.wf(),
            r.cache_root_spec() == cache_root@,
            r.name_spec() == package@.name,
            r.version_spec() == package@.version,
            r.source_hash_spec() == package@.source_hash,
            r.path_spec() == source_path_of(cache_root@, package@.name, package@.version),
    {
        let sep: &str = "/";
        let dash: &str = "-";
        let suffix: &str = ".source";
        proof {
            reveal_strlit("/");
            reveal_strlit("-");
        }
        let path = cache_root
            .clone()
            .concat(sep)
            .concat(package.name().as_str())
            .concat(dash)
            .concat(package.version().as_str())
            .concat(suffix);
        proof {
            assert(path@ =~= source_path_of(cache_root@, package@.name, package@.version));
        }
        SourceEntry {
            cache_root,
            package_name: package.name().duplicate(),
            package_version: package.version().duplicate(),
            package_source: package.source().duplicate(),
            package_source_path: path,
        }
    }

    /// Whether the entry's file appears in the observed listing of the
    /// cache directory tree.
    pub fn is_present(&self, present_files: &Vec<String>) -> (r: bool)
        ensures
            r == present_files@.map_values(|s: String| s@).contains(self.path_spec()),
    {
        let n = present_files.len();
        let mut i: usize = 0;
        while i < n
            invariant
                n == present_files@.len(),
                i <= n,
                forall|j: int| 0 <= j < i ==> (#[trigger] present_files@[j])@ != self.path_spec(),
            decreases n - i,
        {
            if crate::package::str_chars_equal(
                present_files[i].as_str(),
                self.package_source_path.as_str(),
            ) {
                proof {
                    assert(present_files@.map_values(|s: String| s@)[i as int]
                        == self.path_spec());
                }
                return true;
            }
            i = i + 1;
        }
        proof {
            let ghost ms = present_files@.map_values(|s: String| s@);
            if ms.contains(self.path_spec()) {
                let j = choose|j: int| 0 <= j < ms.len() && ms[j] == self.path_spec();
                assert(present_files@[j]@ == self.path_spec());
            }
        }
        false
    }

    pub fn path(&self) -> (r: &String)
        ensures
            r@ == self.path_spec(),
    {
        &self.package_source_path
    }

    /// Whether the digest computed over the file's bytes matches the
    /// package's declared source hash.  A mismatch is fatal to the submit
    /// before any job starts.
    pub fn verify_hash(&self, computed_digest: &String) -> (r: bool)
        ensures
            r == (self.source_hash_spec() == computed_digest@),
    {
        self.package_source.hash().matches_digest(computed_digest)
    }
}

} // verus!

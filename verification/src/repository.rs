use vstd::prelude::*;

use crate::dependency::BuildDependency;
use crate::dependency::Dependency;
use crate::package::EnvVar;
use crate::package::ImageName;
use crate::package::PackageName;
use crate::package::PackageVersion;
use crate::package::PackageVersionConstraint;
use crate::package::Phase;
use crate::package::PhaseName;
use crate::package::Source;

verus! {

/// The package record and the repository it is loaded from.
///
/// The repository loader walks the on-disk package tree outside the
/// library; here a repository is the loaded list of package records, and
/// the find functions answer resolution queries over it.

/// The dependencies a package declares.
#[derive(Clone, Debug)]
pub struct Dependencies {
    pub build: Vec<BuildDependency>,
    pub runtime: Vec<Dependency>,
}

impl Dependencies {
    pub fn new(build: Vec<BuildDependency>, runtime: Vec<Dependency>) -> (r: Dependencies)
        ensures
            r.build == build,
            r.runtime == runtime,
    {
        Dependencies { build, runtime }
    }

    pub fn build(&self) -> (r: &Vec<BuildDependency>)
        ensures
            r == &self.build,
    {
        &self.build
    }

    pub fn runtime(&self) -> (r: &Vec<Dependency>)
        ensures
            r == &self.runtime,
    {
        &self.runtime
    }
}

/// The spec-level value of a `Phase`.
pub enum PhaseView {
    Path(Seq<char>),
    Text(Seq<char>),
}

impl View for Phase {
    type V = PhaseView;

    open spec fn view(&self) -> PhaseView {
        match self {
            Phase::Path(p) => PhaseView::Path(p@),
            Phase::Text(t) => PhaseView::Text(t@),
        }
    }
}

/// The spec-level value of a `Package`.
pub struct PackageView {
    pub name: Seq<char>,
    pub version: Seq<char>,
    pub source_url: Seq<char>,
    pub source_hash: Seq<char>,
    pub environment: Option<Seq<(Seq<char>, Seq<char>)>>,
    pub allowed_images: Option<Seq<Seq<char>>>,
    pub denied_images: Option<Seq<Seq<char>>>,
    pub build_deps: Seq<Seq<char>>,
    pub runtime_deps: Seq<Seq<char>>,
    pub phases: Seq<(Seq<char>, PhaseView)>,
}

/// One package of the repository: what one job builds.
#[derive(Clone, Debug)]
pub struct Package {
    pub name: PackageName,
    pub version: PackageVersion,
    pub source: Source,
    pub environment: Option<Vec<EnvVar>>,
    pub allowed_images: Option<Vec<ImageName>>,
    pub denied_images: Option<Vec<ImageName>>,
    pub dependencies: Dependencies,
    pub phases: Vec<(PhaseName, Phase)>,
}

impl View for Package {
    type V = PackageView;

    open spec fn view(&self) -> PackageView {
        PackageView {
            name: self.name@,
            version: self.version@,
            source_url: self.source.url_spec(),
            source_hash: self.source.hash_spec(),
            environment: match self.environment {
                Option::Some(env) => Option::Some(env@.map_values(|e: EnvVar| e@)),
                Option::None => Option::None,
            },
            allowed_images: match self.allowed_images {
                Option::Some(imgs) => Option::Some(imgs@.map_values(|i: ImageName| i@)),
                Option::None => Option::None,
            },
            denied_images: match self.denied_images {
                Option::Some(imgs) => Option::Some(imgs@.map_values(|i: ImageName| i@)),
                Option::None => Option::None,
            },
            build_deps: self.dependencies.build@.map_values(|d: BuildDependency| d@),
            runtime_deps: self.dependencies.runtime@.map_values(|d: Dependency| d@),
            phases: self.phases@.map_values(|p: (PhaseName, Phase)| (p.0@, p.1@)),
        }
    }
}

impl Package {
    pub fn name(&self) -> (r: &PackageName)
        ensures
            r@ == self@.name,
    {
        &self.name
    }

    pub fn version(&self) -> (r: &PackageVersion)
        ensures
            r@ == self@.version,
    {
        &self.version
    }

    pub fn source(&self) -> (r: &Source)
        ensures
            r.url_spec() == self@.source_url,
            r.hash_spec() == self@.source_hash,
    {
        &self.source
    }

    pub fn environment(&self) -> (r: &Option<Vec<EnvVar>>)
        ensures
            r == &self.environment,
    {
        &self.environment
    }

    pub fn allowed_images(&self) -> (r: &Option<Vec<ImageName>>)
        ensures
            r == &self.allowed_images,
    {
        &self.allowed_images
    }

    pub fn denied_images(&self) -> (r: &Option<Vec<ImageName>>)
        ensures
            r == &self.denied_images,
    {
        &self.denied_images
    }

    pub fn dependencies(&self) -> (r: &Dependencies)
        ensures
            r == &self.dependencies,
    {
        &self.dependencies
    }

    pub fn phases(&self) -> (r: &Vec<(PhaseName, Phase)>)
        ensures
            r == &self.phases,
    {
        &self.phases
    }

    /// An equal package record: same spec-level value, fresh ownership.
    pub fn duplicate(&self) -> (r: Package)
        ensures
            r@ == self@,
    {
        let environment = match &self.environment {
            Option::Some(env) => {
                let d = dup_env_vec(env);
                proof {
                    assert(d@.map_values(|e: EnvVar| e@) =~= env@.map_values(|e: EnvVar| e@));
                }
                Option::Some(d)
            },
            Option::None => Option::None,
        };
        let allowed_images = match &self.allowed_images {
            Option::Some(imgs) => {
                let d = dup_image_vec(imgs);
                proof {
                    assert(d@.map_values(|i: ImageName| i@) =~= imgs@.map_values(|i: ImageName| i@));
                }
                Option::Some(d)
            },
            Option::None => Option::None,
        };
        let denied_images = match &self.denied_images {
            Option::Some(imgs) => {
                let d = dup_image_vec(imgs);
                proof {
                    assert(d@.map_values(|i: ImageName| i@) =~= imgs@.map_values(|i: ImageName| i@));
                }
                Option::Some(d)
            },
            Option::None => Option::None,
        };
        let r = Package {
            name: self.name.duplicate(),
            version: self.version.duplicate(),
            source: self.source.duplicate(),
            environment,
            allowed_images,
            denied_images,
            dependencies: Dependencies {
                build: dup_build_deps(&self.dependencies.build),
                runtime: dup_runtime_deps(&self.dependencies.runtime),
            },
            phases: dup_phases(&self.phases),
        };
        proof {
            assert(r.dependencies.build@.map_values(|d: BuildDependency| d@)
                =~= self.dependencies.build@.map_values(|d: BuildDependency| d@));
            assert(r.dependencies.runtime@.map_values(|d: Dependency| d@)
                =~= self.dependencies.runtime@.map_values(|d: Dependency| d@));
            assert(r.phases@.map_values(|p: (PhaseName, Phase)| (p.0@, p.1@))
                =~= self.phases@.map_values(|p: (PhaseName, Phase)| (p.0@, p.1@)));
        }
        r
    }
}

fn dup_env_vec(v: &Vec<EnvVar>) -> (r: Vec<EnvVar>)
    ensures
        r@.len() == v@.len(),
        forall|i: int| 0 <= i < v@.len() ==> (#[trigger] r@[i])@ == v@[i]@,
{
    let mut r: Vec<EnvVar> = Vec::new();
    let mut i: usize = 0;
    while i < v.len()
        invariant
            i <= v@.len(),
            r@.len() == i,
            forall|j: int| 0 <= j < i ==> (#[trigger] r@[j])@ == v@[j]@,
        decreases v@.len() - i,
    {
        r.push(v[i].duplicate());
        i = i + 1;
    }
    r
}

fn dup_image_vec(v: &Vec<ImageName>) -> (r: Vec<ImageName>)
    ensures
        r@.len() == v@.len(),
        forall|i: int| 0 <= i < v@.len() ==> (#[trigger] r@[i])@ == v@[i]@,
{
    let mut r: Vec<ImageName> = Vec::new();
    let mut i: usize = 0;
    while i < v.len()
        invariant
            i <= v@.len(),
            r@.len() == i,
            forall|j: int| 0 <= j < i ==> (#[trigger] r@[j])@ == v@[j]@,
        decreases v@.len() - i,
    {
        r.push(v[i].duplicate());
        i = i + 1;
    }
    r
}

fn dup_build_deps(v: &Vec<BuildDependency>) -> (r: Vec<BuildDependency>)
    ensures
        r@.len() == v@.len(),
        forall|i: int| 0 <= i < v@.len() ==> (#[trigger] r@[i])@ == v@[i]@,
{
    let mut r: Vec<BuildDependency> = Vec::new();
    let mut i: usize = 0;
    while i < v.len()
        invariant
            i <= v@.len(),
            r@.len() == i,
            forall|j: int| 0 <= j < i ==> (#[trigger] r@[j])@ == v@[j]@,
        decreases v@.len() - i,
    {
        let d = BuildDependency { dep: v[i].dep.clone() };
        r.push(d);
        i = i + 1;
    }
    r
}

fn dup_runtime_deps(v: &Vec<Dependency>) -> (r: Vec<Dependency>)
    ensures
        r@.len() == v@.len(),
        forall|i: int| 0 <= i < v@.len() ==> (#[trigger] r@[i])@ == v@[i]@,
{
    let mut r: Vec<Dependency> = Vec::new();
    let mut i: usize = 0;
    while i < v.len()
        invariant
            i <= v@.len(),
            r@.len() == i,
            forall|j: int| 0 <= j < i ==> (#[trigger] r@[j])@ == v@[j]@,
        decreases v@.len() - i,
    {
        let d = Dependency { dep: v[i].dep.clone() };
        r.push(d);
        i = i + 1;
    }
    r
}

fn dup_phases(v: &Vec<(PhaseName, Phase)>) -> (r: Vec<(PhaseName, Phase)>)
    ensures
        r@.len() == v@.len(),
        forall|i: int|
            0 <= i < v@.len() ==> (#[trigger] r@[i]).0@ == v@[i].0@ && r@[i].1@ == v@[i].1@,
{
    let mut r: Vec<(PhaseName, Phase)> = Vec::new();
    let mut i: usize = 0;
    while i < v.len()
        invariant
            i <= v@.len(),
            r@.len() == i,
            forall|j: int|
                0 <= j < i ==> (#[trigger] r@[j]).0@ == v@[j].0@ && r@[j].1@ == v@[j].1@,
        decreases v@.len() - i,
    {
        let name = v[i].0.duplicate();
        let phase = match &v[i].1 {
            Phase::Path(p) => Phase::Path(p.clone()),
            Phase::Text(t) => Phase::Text(t.clone()),
        };
        r.push((name, phase));
        i = i + 1;
    }
    r
}

/// Whether the package satisfies the query of `find_with_version`.
pub open spec fn package_satisfies(
    p: Package,
    name: Seq<char>,
    constraint: PackageVersionConstraint,
) -> bool {
    p@.name == name && constraint.matches_spec(p@.version)
}

/// The loaded package repository.
pub struct Repository {
    packages: Vec<Package>,
}

impl Repository {
    pub fn new(packages: Vec<Package>) -> (r: Repository)
        ensures
            r.packages() == packages,
    {
        Repository { packages }
    }

    pub closed spec fn packages(&self) -> Vec<Package> {
        self.packages
    }

    pub fn all_packages(&self) -> (r: &Vec<Package>)
        ensures
            r == &self.packages(),
    {
        &self.packages
    }

    /// The indices of all packages with this exact name and version.
    pub fn find(&self, name: &PackageName, version: &PackageVersion) -> (r: Vec<usize>)
        ensures
            forall|t: int|
                0 <= t < r@.len() ==> #[trigger] r@[t] < self.packages()@.len()
                    && self.packages()@[r@[t] as int]@.name == name@
                    && self.packages()@[r@[t] as int]@.version == version@,
            forall|j: int|
                0 <= j < self.packages()@.len() && (#[trigger] self.packages()@[j])@.name == name@
                    && self.packages()@[j]@.version == version@ ==> r@.contains(j as usize),
    {
        let mut r: Vec<usize> = Vec::new();
        let mut i: usize = 0;
        while i < self.packages.len()
            invariant
                i <= self.packages()@.len(),
                forall|t: int|
                    0 <= t < r@.len() ==> #[trigger] r@[t] < self.packages()@.len()
                        && self.packages()@[r@[t] as int]@.name == name@
                        && self.packages()@[r@[t] as int]@.version == version@,
                forall|j: int|
                    0 <= j < i && (#[trigger] self.packages()@[j])@.name == name@
                        && self.packages()@[j]@.version == version@ ==> r@.contains(j as usize),
            decreases self.packages()@.len() - i,
        {
            let p = &self.packages[i];
            if p.name == *name && p.version == *version {
                let ghost prev = r@;
                r.push(i);
                proof {
                    assert(r@[prev.len() as int] == i);
                    assert forall|x: usize| prev.contains(x) implies r@.contains(x) by {
                        let k = choose|k: int| 0 <= k < prev.len() && prev[k] == x;
                        assert(r@[k] == x);
                    }
                }
            }
            i = i + 1;
        }
        r
    }

    /// The indices of all packages with this name.
    pub fn find_by_name(&self, name: &PackageName) -> (r: Vec<usize>)
        ensures
            forall|t: int|
                0 <= t < r@.len() ==> #[trigger] r@[t] < self.packages()@.len()
                    && self.packages()@[r@[t] as int]@.name == name@,
            forall|j: int|
                0 <= j < self.packages()@.len() && (#[trigger] self.packages()@[j])@.name == name@
                    ==> r@.contains(j as usize),
    {
        let mut r: Vec<usize> = Vec::new();
        let mut i: usize = 0;
        while i < self.packages.len()
            invariant
                i <= self.packages()@.len(),
                forall|t: int|
                    0 <= t < r@.len() ==> #[trigger] r@[t] < self.packages()@.len()
                        && self.packages()@[r@[t] as int]@.name == name@,
                forall|j: int|
                    0 <= j < i && (#[trigger] self.packages()@[j])@.name == name@ ==> r@.contains(
                        j as usize,
                    ),
            decreases self.packages()@.len() - i,
        {
            let p = &self.packages[i];
            if p.name == *name {
                let ghost prev = r@;
                r.push(i);
                proof {
                    assert(r@[prev.len() as int] == i);
                    assert forall|x: usize| prev.contains(x) implies r@.contains(x) by {
                        let k = choose|k: int| 0 <= k < prev.len() && prev[k] == x;
                        assert(r@[k] == x);
                    }
                }
            }
            i = i + 1;
        }
        r
    }

    /// The indices of all packages whose name equals `name` and whose
    /// version satisfies `constraint`.  A well-formed dependency resolves to
    /// exactly one: callers treat zero or several as fatal.
    pub fn find_with_version(
        &self,
        name: &PackageName,
        constraint: &PackageVersionConstraint,
    ) -> (r: Vec<usize>)
        ensures
            forall|t: int|
                0 <= t < r@.len() ==> #[trigger] r@[t] < self.packages()@.len()
                    && package_satisfies(self.packages()@[r@[t] as int], name@, *constraint),
            forall|j: int|
                0 <= j < self.packages()@.len() && package_satisfies(
                    #[trigger] self.packages()@[j],
                    name@,
                    *constraint,
                ) ==> r@.contains(j as usize),
            forall|t1: int, t2: int| 0 <= t1 < t2 < r@.len() ==> r@[t1] < r@[t2],
    {
        let mut r: Vec<usize> = Vec::new();
        let mut i: usize = 0;
        while i < self.packages.len()
            invariant
                i <= self.packages()@.len(),
                forall|t: int|
                    0 <= t < r@.len() ==> #[trigger] r@[t] < self.packages()@.len()
                        && package_satisfies(self.packages()@[r@[t] as int], name@, *constraint),
                forall|j: int|
                    0 <= j < i && package_satisfies(
                        #[trigger] self.packages()@[j],
                        name@,
                        *constraint,
                    ) ==> r@.contains(j as usize),
                forall|t: int| 0 <= t < r@.len() ==> #[trigger] r@[t] < i,
                forall|t1: int, t2: int| 0 <= t1 < t2 < r@.len() ==> r@[t1] < r@[t2],
            decreases self.packages()@.len() - i,
        {
            let p = &self.packages[i];
            if p.name == *name && constraint.matches(&p.version) {
                let ghost prev = r@;
                r.push(i);
                proof {
                    assert(r@[prev.len() as int] == i);
                    assert forall|x: usize| prev.contains(x) implies r@.contains(x) by {
                        let k = choose|k: int| 0 <= k < prev.len() && prev[k] == x;
                        assert(r@[k] == x);
                    }
                }
            }
            i = i + 1;
        }
        r
    }
}

} // verus!

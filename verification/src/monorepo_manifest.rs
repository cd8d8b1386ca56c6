//! The monorepo index and the dependency graph over it.
//!
//! Discovery (reading the root manifest, walking the globs, parsing each
//! package manifest) happens at the crate's boundary; what arrives here is the
//! list of packages found. The index checks them — every name unique, every
//! manifest well formed — and then answers the graph queries: a package's
//! direct internal dependencies, and the transitive closure of those, computed
//! by a breadth-first walk that a dependency cycle cannot trip up.

use vstd::prelude::*;

use crate::io::FromFileError;
use crate::package_manifest::entries_contain;
use crate::package_manifest::file_declares_dependency;
use crate::package_manifest::manifest_wf;
use crate::package_manifest::PackageManifest;
use crate::package_manifest::PackageManifestFile;
use crate::text::contains_str;
use crate::text::contains_string;
use crate::text::distinct_views;
use crate::text::path_view;
use crate::text::sort_strings;
use crate::text::str_eq;
use crate::text::strings_sorted;

verus! {

/// Where the monorepo's packages live: the root path, and the glob patterns
/// that its root manifest declares for package directories.
#[derive(Debug)]
pub struct MonorepoManifest {
    pub root: String,
    pub globs: Vec<String>,
}

/// A glob pattern could not be handled.
#[derive(Debug)]
pub struct GlobError {
    pub kind: GlobErrorKind,
}

/// What went wrong with the globs.
#[derive(Debug)]
pub enum GlobErrorKind {
    GlobNotValidUtf8(String),
    GlobWalkBuilderError(String),
}

/// Walking the directory tree for package manifests failed.
#[derive(Debug)]
pub struct WalkError {
    pub kind: WalkErrorKind,
}

/// What went wrong during the walk.
#[derive(Debug)]
pub enum WalkErrorKind {
    GlobWalkError(String),
    FromFile(FromFileError),
    PackageInMonorepoRoot(String),
}

/// Why the set of package manifests could not be established.
#[derive(Debug)]
pub enum EnumeratePackageManifestsError {
    GlobError(GlobError),
    WalkError(WalkError),
    ManifestInvalid(String),
    DuplicatePackageName(String),
    DuplicatePackageDirectory(String),
}

impl MonorepoManifest {
    /// A monorepo declared by a dedicated workspace-list file at its root.
    pub fn from_lerna_manifest(root: String, packages: Vec<String>) -> (r: MonorepoManifest)
        ensures
            r.root@ == root@,
            r.globs == packages,
    {
        MonorepoManifest { root, globs: packages }
    }

    /// A monorepo declared by the workspace-glob field of a generic root
    /// manifest.
    pub fn from_package_manifest(root: String, workspaces: Vec<String>) -> (r: MonorepoManifest)
        ensures
            r.root@ == root@,
            r.globs == workspaces,
    {
        MonorepoManifest { root, globs: workspaces }
    }

    /// Reads the monorepo declaration from whichever root file parsed: the
    /// dedicated workspace list wins over the generic manifest's workspace
    /// field; with neither there is no monorepo here.
    pub fn from_directory(
        root: String,
        lerna_packages: Option<Vec<String>>,
        manifest_workspaces: Option<Vec<String>>,
    ) -> (r: Option<MonorepoManifest>)
        ensures
            match r {
                Some(m) => {
                    &&& m.root@ == root@
                    &&& match lerna_packages {
                        Some(p) => m.globs == p,
                        None => (manifest_workspaces matches Some(w) && m.globs == w),
                    }
                },
                None => lerna_packages is None && manifest_workspaces is None,
            },
    {
        match lerna_packages {
            Some(packages) => Some(MonorepoManifest::from_lerna_manifest(root, packages)),
            None => match manifest_workspaces {
                Some(workspaces) => Some(
                    MonorepoManifest::from_package_manifest(root, workspaces),
                ),
                None => None,
            },
        }
    }
}

/// Whether some package in `pkgs` is named `n`.
pub open spec fn name_in(pkgs: Seq<PackageManifest>, n: Seq<char>) -> bool {
    exists|i: int| 0 <= i < pkgs.len() && pkgs[i].contents.name@ == n
}

/// Whether the packages' names are pairwise distinct.
pub open spec fn names_distinct(pkgs: Seq<PackageManifest>) -> bool {
    forall|i: int, j: int|
        0 <= i < j < pkgs.len() ==> pkgs[i].contents.name@ != pkgs[j].contents.name@
}

/// Whether the packages' directories are pairwise distinct (each directory
/// holds at most one manifest file, so two packages cannot share one).
pub open spec fn dirs_distinct(pkgs: Seq<PackageManifest>) -> bool {
    forall|i: int, j: int|
        0 <= i < j < pkgs.len() ==> (#[trigger] pkgs[i]).dir_view() != (#[trigger] pkgs[j]).dir_view()
}

/// The index invariant: unique names, unique directories, and every manifest
/// well formed.
pub open spec fn index_wf(pkgs: Seq<PackageManifest>) -> bool {
    names_distinct(pkgs) && dirs_distinct(pkgs) && (forall|i: int|
        0 <= i < pkgs.len() ==> manifest_wf(#[trigger] pkgs[i]))
}

/// Every discovered package, keyed by its (unique) name. Built once per
/// invocation; the graph queries below read it and never change it.
#[derive(Debug)]
pub struct MonorepoIndex {
    pub packages: Vec<PackageManifest>,
}

/// There is an edge from the package named `a` to the package named `b` when
/// some package named `a` declares a dependency named `b` and `b` names a
/// package of the monorepo.
pub open spec fn edge(pkgs: Seq<PackageManifest>, a: Seq<char>, b: Seq<char>) -> bool {
    exists|i: int|
        0 <= i < pkgs.len() && (#[trigger] pkgs[i]).contents.name@ == a
            && file_declares_dependency(pkgs[i].contents, b) && name_in(pkgs, b)
}

/// Whether `dst` is reachable from `src` in at most `k` edges.
pub open spec fn reaches(pkgs: Seq<PackageManifest>, src: Seq<char>, dst: Seq<char>, k: nat) -> bool
    decreases k,
{
    if src == dst {
        true
    } else if k == 0 {
        false
    } else {
        exists|mid: Seq<char>| reaches(pkgs, src, mid, (k - 1) as nat) && edge(pkgs, mid, dst)
    }
}

/// Whether `dst` is reachable from `src` along declared internal dependencies
/// (in zero or more steps, so every name reaches itself).
pub open spec fn reachable(pkgs: Seq<PackageManifest>, src: Seq<char>, dst: Seq<char>) -> bool {
    exists|k: nat| reaches(pkgs, src, dst, k)
}

/// One more edge keeps a target reachable.
pub proof fn lemma_reachable_step(
    pkgs: Seq<PackageManifest>,
    src: Seq<char>,
    mid: Seq<char>,
    dst: Seq<char>,
)
    requires
        reachable(pkgs, src, mid),
        edge(pkgs, mid, dst),
    ensures
        reachable(pkgs, src, dst),
{
    let k = choose|k: nat| reaches(pkgs, src, mid, k);
    assert(reaches(pkgs, src, mid, k) && edge(pkgs, mid, dst));
    assert(reaches(pkgs, src, dst, k + 1));
}

/// A set of names that holds `src` and is closed under edges holds everything
/// reachable from `src`.
pub proof fn lemma_closed_contains(
    pkgs: Seq<PackageManifest>,
    visited: Seq<String>,
    src: Seq<char>,
    dst: Seq<char>,
    k: nat,
)
    requires
        contains_str(visited, src),
        forall|a: Seq<char>, b: Seq<char>|
            contains_str(visited, a) && #[trigger] edge(pkgs, a, b) ==> contains_str(visited, b),
        reaches(pkgs, src, dst, k),
    ensures
        contains_str(visited, dst),
    decreases k,
{
    if src == dst {
    } else {
        let mid = choose|mid: Seq<char>|
            reaches(pkgs, src, mid, (k - 1) as nat) && edge(pkgs, mid, dst);
        lemma_closed_contains(pkgs, visited, src, mid, (k - 1) as nat);
    }
}

/// Distinct names all drawn from the index cannot outnumber its packages.
proof fn lemma_visited_bounded(pkgs: Seq<PackageManifest>, v: Seq<String>)
    requires
        names_distinct(pkgs),
        distinct_views(v),
        forall|i: int| 0 <= i < v.len() ==> name_in(pkgs, #[trigger] v[i]@),
    ensures
        v.len() <= pkgs.len(),
{
    broadcast use vstd::seq_lib::seq_to_set_is_finite;
    broadcast use vstd::set::group_set_axioms;

    let vnames = path_view(v);
    let pnames = pkgs.map_values(|p: PackageManifest| p.contents.name@);
    assert(forall|i: int| 0 <= i < v.len() ==> #[trigger] vnames[i] == v[i]@);
    assert(forall|i: int|
        0 <= i < pkgs.len() ==> #[trigger] pnames[i] == pkgs[i].contents.name@);
    assert(vnames.no_duplicates());
    vnames.unique_seq_to_set();
    pnames.lemma_cardinality_of_set();
    assert forall|x: Seq<char>| vnames.to_set().contains(x) implies pnames.to_set().contains(
        x,
    ) by {
        let i = choose|i: int| 0 <= i < vnames.len() && vnames[i] == x;
        assert(name_in(pkgs, v[i]@));
        let j = choose|j: int| 0 <= j < pkgs.len() && pkgs[j].contents.name@ == x;
        assert(pnames[j] == x);
        assert(pnames.contains(x));
    }
    assert(vnames.to_set().subset_of(pnames.to_set()));
    vstd::set_lib::lemma_len_subset(vnames.to_set(), pnames.to_set());
}

/// Whether `m` declares a dependency named `n` somewhere before group `g`,
/// entry `e`, in search order.
pub open spec fn declares_before(m: PackageManifestFile, g: int, e: int, n: Seq<char>) -> bool {
    ||| exists|gi: int|
        0 <= gi < g && entries_contain((#[trigger] m.dependency_groups[gi]).entries@, n)
    ||| (0 <= g < m.dependency_groups.len() && exists|j: int|
        0 <= j < e && (#[trigger] m.dependency_groups[g].entries@[j]).name@ == n)
}

impl MonorepoIndex {
    /// Builds the index from the discovered packages, rejecting a malformed
    /// manifest and — the choice this crate makes for an otherwise open
    /// question — a package name that two directories both claim.
    pub fn new(packages: Vec<PackageManifest>) -> (r: Result<
        MonorepoIndex,
        EnumeratePackageManifestsError,
    >)
        ensures
            r matches Ok(ix) ==> ix.packages == packages && index_wf(ix.packages@),
            r is Ok <==> (forall|i: int|
                0 <= i < packages@.len() ==> manifest_wf(#[trigger] packages@[i]))
                && names_distinct(packages@) && dirs_distinct(packages@),
            r matches Err(EnumeratePackageManifestsError::ManifestInvalid(p)) ==> exists|i: int|
                0 <= i < packages@.len() && !manifest_wf(#[trigger] packages@[i]) && p@
                    == packages@[i].spec_path(),
            r matches Err(EnumeratePackageManifestsError::DuplicatePackageName(n)) ==> exists|
                i: int,
                j: int,
            |
                0 <= i < j < packages@.len() && packages@[i].contents.name@ == n@
                    && packages@[j].contents.name@ == n@,
            r matches Err(EnumeratePackageManifestsError::DuplicatePackageDirectory(d)) ==> exists|
                i: int,
                j: int,
            |
                0 <= i < j < packages@.len() && packages@[i].dir_view() == packages@[j].dir_view(),
            r is Err ==> (r matches Err(EnumeratePackageManifestsError::ManifestInvalid(_)) || r
                matches Err(EnumeratePackageManifestsError::DuplicatePackageName(_)) || r matches Err(
                EnumeratePackageManifestsError::DuplicatePackageDirectory(_),
            )),
    {
        let mut i: usize = 0;
        while i < packages.len()
            invariant
                0 <= i <= packages@.len(),
                forall|k: int| 0 <= k < i ==> manifest_wf(#[trigger] packages@[k]),
            decreases packages@.len() - i,
        {
            if !crate::package_manifest::check_manifest_wf(&packages[i]) {
                let path = packages[i].path();
                return Err(EnumeratePackageManifestsError::ManifestInvalid(path));
            }
            i = i + 1;
        }
        let mut i: usize = 0;
        while i < packages.len()
            invariant
                0 <= i <= packages@.len(),
                forall|a: int, b: int|
                    0 <= a < b < packages@.len() && a < i ==> packages@[a].contents.name@
                        != packages@[b].contents.name@,
            decreases packages@.len() - i,
        {
            let mut j: usize = i + 1;
            while j < packages.len()
                invariant
                    0 <= i < j <= packages@.len(),
                    forall|b: int|
                        i < b < j ==> packages@[i as int].contents.name@
                            != packages@[b].contents.name@,
                decreases packages@.len() - j,
            {
                if str_eq(packages[i].contents.name.as_str(), packages[j].contents.name.as_str()) {
                    let name = packages[i].contents.name.clone();
                    return Err(EnumeratePackageManifestsError::DuplicatePackageName(name));
                }
                j = j + 1;
            }
            i = i + 1;
        }
        let mut i: usize = 0;
        while i < packages.len()
            invariant
                0 <= i <= packages@.len(),
                forall|a: int, b: int|
                    0 <= a < b < packages@.len() && a < i ==> (#[trigger] packages@[a]).dir_view()
                        != (#[trigger] packages@[b]).dir_view(),
            decreases packages@.len() - i,
        {
            let mut j: usize = i + 1;
            while j < packages.len()
                invariant
                    0 <= i < j <= packages@.len(),
                    forall|b: int|
                        i < b < j ==> packages@[i as int].dir_view() != (#[trigger] packages@[b]).dir_view(),
                decreases packages@.len() - j,
            {
                if crate::text::path_eq(packages[i].directory(), packages[j].directory()) {
                    let d = crate::text::join_path(packages[i].directory());
                    return Err(EnumeratePackageManifestsError::DuplicatePackageDirectory(d));
                }
                j = j + 1;
            }
            i = i + 1;
        }
        Ok(MonorepoIndex { packages })
    }

    /// Where the package living at `directory` sits in the package list.
    pub fn position_of_directory(&self, directory: &Vec<String>) -> (r: Option<usize>)
        ensures
            match r {
                Some(i) => i < self.packages@.len() && self.packages@[i as int].dir_view()
                    == path_view(directory@),
                None => forall|i: int|
                    0 <= i < self.packages@.len() ==> (#[trigger] self.packages@[i]).dir_view()
                        != path_view(directory@),
            },
    {
        let mut i: usize = 0;
        while i < self.packages.len()
            invariant
                0 <= i <= self.packages@.len(),
                forall|k: int|
                    0 <= k < i ==> (#[trigger] self.packages@[k]).dir_view() != path_view(
                        directory@,
                    ),
            decreases self.packages@.len() - i,
        {
            if crate::text::path_eq(self.packages[i].directory(), directory) {
                return Some(i);
            }
            i = i + 1;
        }
        None
    }

    /// Where the package named `name` sits in the package list.
    pub fn position_of(&self, name: &str) -> (r: Option<usize>)
        ensures
            match r {
                Some(i) => i < self.packages@.len() && self.packages@[i as int].contents.name@
                    == name@,
                None => !name_in(self.packages@, name@),
            },
    {
        let mut i: usize = 0;
        while i < self.packages.len()
            invariant
                0 <= i <= self.packages@.len(),
                forall|k: int| 0 <= k < i ==> self.packages@[k].contents.name@ != name@,
            decreases self.packages@.len() - i,
        {
            if str_eq(self.packages[i].contents.name.as_str(), name) {
                return Some(i);
            }
            i = i + 1;
        }
        None
    }

    /// The package named `name`, if the monorepo has one.
    pub fn get(&self, name: &str) -> (r: Option<&PackageManifest>)
        ensures
            match r {
                Some(p) => name_in(self.packages@, name@) && p.contents.name@ == name@ && exists|
                    i: int,
                |
                    0 <= i < self.packages@.len() && *p == self.packages@[i],
                None => !name_in(self.packages@, name@),
            },
    {
        match self.position_of(name) {
            Some(i) => {
                let p = &self.packages[i];
                proof {
                    assert(*p == self.packages@[i as int]);
                }
                Some(p)
            },
            None => None,
        }
    }

    /// Whether the monorepo holds a package named `name`; dependencies whose
    /// names pass this test are the internal ones.
    pub fn contains_name(&self, name: &str) -> (r: bool)
        ensures
            r == name_in(self.packages@, name@),
    {
        match self.position_of(name) {
            Some(_) => true,
            None => false,
        }
    }

    /// The names of `pkg`'s direct internal dependencies: every name that some
    /// dependency group of `pkg` declares and that names a package of the
    /// monorepo, each once.
    #[verifier::loop_isolation(false)]
    pub fn direct_internal_dependency_names(&self, pkg: &PackageManifest) -> (r: Vec<String>)
        ensures
            distinct_views(r@),
            forall|n: Seq<char>|
                contains_str(r@, n) == (file_declares_dependency(pkg.contents, n) && name_in(
                    self.packages@,
                    n,
                )),
    {
        let mut out: Vec<String> = Vec::new();
        let groups = &pkg.contents.dependency_groups;
        let mut g: usize = 0;
        while g < groups.len()
            invariant
                0 <= g <= groups@.len(),
                distinct_views(out@),
                forall|n: Seq<char>|
                    contains_str(out@, n) == (declares_before(pkg.contents, g as int, 0, n)
                        && name_in(self.packages@, n)),
            decreases groups@.len() - g,
        {
            let entries = &groups[g].entries;
            let mut e: usize = 0;
            while e < entries.len()
                invariant
                    0 <= g < groups@.len(),
                    0 <= e <= entries@.len(),
                    entries@ == groups@[g as int].entries@,
                    distinct_views(out@),
                    forall|n: Seq<char>|
                        contains_str(out@, n) == (declares_before(pkg.contents, g as int, e as int, n)
                            && name_in(self.packages@, n)),
                decreases entries@.len() - e,
            {
                let name = &entries[e].name;
                let ghost old_out = out@;
                if self.contains_name(name.as_str()) && !contains_string(&out, name.as_str()) {
                    out.push(name.clone());
                }
                proof {
                    assert forall|n: Seq<char>|
                        contains_str(out@, n) == (declares_before(
                            pkg.contents,
                            g as int,
                            e as int + 1,
                            n,
                        ) && name_in(self.packages@, n)) by {
                        if contains_str(out@, n) {
                            let w = choose|i: int| 0 <= i < out@.len() && out@[i]@ == n;
                            if w < old_out.len() {
                                assert(contains_str(old_out, n));
                                assert(declares_before(pkg.contents, g as int, e as int, n));
                            } else {
                                assert(out@[w]@ == name@);
                                assert(entries@[e as int].name@ == n);
                            }
                            assert(declares_before(pkg.contents, g as int, e as int + 1, n));
                        }
                        if declares_before(pkg.contents, g as int, e as int + 1, n) && name_in(
                            self.packages@,
                            n,
                        ) {
                            if declares_before(pkg.contents, g as int, e as int, n) {
                                assert(contains_str(old_out, n));
                                let w = choose|i: int| 0 <= i < old_out.len() && old_out[i]@ == n;
                                assert(out@[w]@ == n);
                            } else {
                                assert(entries@[e as int].name@ == n);
                                assert(n == name@);
                                if !contains_str(old_out, n) {
                                    assert(out@[out@.len() - 1]@ == n);
                                } else {
                                    let w = choose|i: int|
                                        0 <= i < old_out.len() && old_out[i]@ == n;
                                    assert(out@[w]@ == n);
                                }
                            }
                        }
                    }
                }
                e = e + 1;
            }
            proof {
                assert forall|n: Seq<char>|
                    declares_before(pkg.contents, g as int + 1, 0, n) == declares_before(
                        pkg.contents,
                        g as int,
                        entries@.len() as int,
                        n,
                    ) by {
                    if declares_before(pkg.contents, g as int + 1, 0, n) {
                        let gi = choose|gi: int|
                            0 <= gi < g as int + 1 && entries_contain(
                                (#[trigger] pkg.contents.dependency_groups[gi]).entries@,
                                n,
                            );
                        if gi == g as int {
                            let j = choose|j: int|
                                0 <= j < entries@.len() && entries@[j].name@ == n;
                            assert(declares_before(
                                pkg.contents,
                                g as int,
                                entries@.len() as int,
                                n,
                            ));
                        }
                    }
                    if declares_before(pkg.contents, g as int, entries@.len() as int, n) {
                        if exists|j: int| 0 <= j < entries@.len() && entries@[j].name@ == n {
                            assert(entries_contain(pkg.contents.dependency_groups[g as int].entries@, n));
                        }
                    }
                }
            }
            g = g + 1;
        }
        proof {
            assert forall|n: Seq<char>|
                declares_before(pkg.contents, groups@.len() as int, 0, n) == file_declares_dependency(
                    pkg.contents,
                    n,
                ) by {}
        }
        out
    }

    /// The names of every package reachable from the one named
    /// `package_name` along internal dependency declarations, in strictly
    /// increasing name order. `inclusive` controls whether `package_name`
    /// itself appears. The walk marks each name before following it, so a
    /// dependency cycle terminates and simply contributes its members.
    #[verifier::loop_isolation(false)]
    pub fn transitive_internal_dependencies(&self, package_name: &str, inclusive: bool) -> (r: Vec<
        String,
    >)
        requires
            index_wf(self.packages@),
            name_in(self.packages@, package_name@),
        ensures
            strings_sorted(r@),
            distinct_views(r@),
            forall|n: Seq<char>|
                contains_str(r@, n) == (reachable(self.packages@, package_name@, n) && name_in(
                    self.packages@,
                    n,
                ) && (inclusive || n != package_name@)),
    {
        let ghost pkgs = self.packages@;
        let mut visited: Vec<String> = Vec::new();
        visited.push(package_name.to_owned());
        proof {
            assert(reaches(pkgs, package_name@, package_name@, 0nat));
            assert(reachable(pkgs, package_name@, visited@[0]@));
        }
        let mut head: usize = 0;
        while head < visited.len()
            invariant
                1 <= visited@.len(),
                0 <= head <= visited@.len(),
                visited@[0]@ == package_name@,
                distinct_views(visited@),
                forall|i: int| 0 <= i < visited@.len() ==> name_in(pkgs, #[trigger] visited@[i]@),
                forall|i: int|
                    0 <= i < visited@.len() ==> reachable(pkgs, package_name@, #[trigger] visited@[i]@),
                forall|i: int, b: Seq<char>|
                    0 <= i < head && #[trigger] edge(pkgs, visited@[i]@, b) ==> contains_str(
                        visited@,
                        b,
                    ),
            decreases pkgs.len() - head,
        {
            let current = visited[head].clone();
            let pos = match self.position_of(current.as_str()) {
                Some(p) => p,
                None => {
                    proof {
                        assert(false);
                    }
                    0
                },
            };
            let deps = self.direct_internal_dependency_names(&self.packages[pos]);
            let ghost head_name = current@;
            proof {
                assert forall|n: Seq<char>| contains_str(deps@, n) implies edge(
                    pkgs,
                    head_name,
                    n,
                ) by {
                    assert(file_declares_dependency(pkgs[pos as int].contents, n));
                    assert(pkgs[pos as int].contents.name@ == head_name);
                }
            }
            let mut d: usize = 0;
            while d < deps.len()
                invariant
                    0 <= d <= deps@.len(),
                    1 <= visited@.len(),
                    head < visited@.len(),
                    visited@[head as int]@ == head_name,
                    visited@[0]@ == package_name@,
                    distinct_views(visited@),
                    forall|i: int|
                        0 <= i < visited@.len() ==> name_in(pkgs, #[trigger] visited@[i]@),
                    forall|i: int|
                        0 <= i < visited@.len() ==> reachable(
                            pkgs,
                            package_name@,
                            #[trigger] visited@[i]@,
                        ),
                    forall|i: int, b: Seq<char>|
                        0 <= i < head && #[trigger] edge(pkgs, visited@[i]@, b) ==> contains_str(
                            visited@,
                            b,
                        ),
                    forall|k: int| 0 <= k < d ==> contains_str(visited@, #[trigger] deps@[k]@),
                decreases deps@.len() - d,
            {
                let ghost old_visited = visited@;
                if !contains_string(&visited, deps[d].as_str()) {
                    proof {
                        assert(contains_str(deps@, deps@[d as int]@));
                        assert(edge(pkgs, head_name, deps@[d as int]@));
                        assert(reachable(pkgs, package_name@, visited@[head as int]@));
                        lemma_reachable_step(
                            pkgs,
                            package_name@,
                            head_name,
                            deps@[d as int]@,
                        );
                    }
                    let dep = deps[d].clone();
                    visited.push(dep);
                }
                proof {
                    assert forall|k: int| 0 <= k < d + 1 implies contains_str(
                        visited@,
                        #[trigger] deps@[k]@,
                    ) by {
                        if k < d {
                            let w = choose|i: int|
                                0 <= i < old_visited.len() && old_visited[i]@ == deps@[k]@;
                            assert(visited@[w]@ == deps@[k]@);
                        } else {
                            if contains_str(old_visited, deps@[d as int]@) {
                                let w = choose|i: int|
                                    0 <= i < old_visited.len() && old_visited[i]@ == deps@[
                                        d as int
                                    ]@;
                                assert(visited@[w]@ == deps@[d as int]@);
                            } else {
                                assert(visited@[visited@.len() - 1]@ == deps@[d as int]@);
                            }
                        }
                    }
                    assert forall|i: int, b: Seq<char>|
                        0 <= i < head && #[trigger] edge(pkgs, visited@[i]@, b) implies contains_str(
                        visited@,
                        b,
                    ) by {
                        assert(visited@[i]@ == old_visited[i]@);
                        assert(edge(pkgs, old_visited[i]@, b));
                        assert(contains_str(old_visited, b));
                        let w = choose|x: int| 0 <= x < old_visited.len() && old_visited[x]@ == b;
                        assert(visited@[w]@ == b);
                    }
                }
                d = d + 1;
            }
            proof {
                // every edge out of the newly processed name is now recorded
                assert forall|b: Seq<char>| #[trigger]
                    edge(pkgs, visited@[head as int]@, b) implies contains_str(visited@, b) by {
                    assert(visited@[head as int]@ == head_name);
                    let i = choose|i: int|
                        0 <= i < pkgs.len() && (#[trigger] pkgs[i]).contents.name@ == head_name
                            && file_declares_dependency(pkgs[i].contents, b) && name_in(pkgs, b);
                    if i < pos as int {
                        assert(pkgs[i].contents.name@ != pkgs[pos as int].contents.name@);
                        assert(false);
                    }
                    if (pos as int) < i {
                        assert(pkgs[pos as int].contents.name@ != pkgs[i].contents.name@);
                        assert(false);
                    }
                    assert(file_declares_dependency(pkgs[pos as int].contents, b));
                    assert(contains_str(deps@, b));
                    let k = choose|k: int| 0 <= k < deps@.len() && deps@[k]@ == b;
                    assert(contains_str(visited@, deps@[k]@));
                }
                lemma_visited_bounded(pkgs, visited@);
            }
            head = head + 1;
        }
        // The visited list is now closed under edges: whatever is reachable is
        // in it, and everything in it is reachable.
        let ghost all_visited = visited@;
        proof {
            assert forall|a: Seq<char>, b: Seq<char>|
                contains_str(all_visited, a) && #[trigger] edge(pkgs, a, b) implies contains_str(
                all_visited,
                b,
            ) by {
                let i = choose|i: int| 0 <= i < all_visited.len() && all_visited[i]@ == a;
                assert(edge(pkgs, all_visited[i]@, b));
            }
        }
        let names: Vec<String> = if inclusive {
            visited
        } else {
            let mut rest: Vec<String> = Vec::new();
            proof {
                assert(rest@ =~= all_visited.skip(1).take(0));
            }
            let mut i: usize = 1;
            while i < visited.len()
                invariant
                    visited@ == all_visited,
                    1 <= i <= all_visited.len(),
                    rest@ == all_visited.skip(1).take(i - 1),
                decreases all_visited.len() - i,
            {
                rest.push(visited[i].clone());
                proof {
                    assert(rest@ =~= all_visited.skip(1).take(i as int));
                }
                i = i + 1;
            }
            proof {
                assert(rest@ =~= all_visited.skip(1));
            }
            rest
        };
        proof {
            assert(names@ == if inclusive {
                all_visited
            } else {
                all_visited.skip(1)
            });
            if !inclusive {
                assert forall|i: int, j: int|
                    0 <= i < j < names@.len() implies names@[i]@ != names@[j]@ by {
                    assert(names@[i] == all_visited[i + 1]);
                    assert(names@[j] == all_visited[j + 1]);
                }
            }
            assert(distinct_views(names@));
            // membership in `names`: the visited set, less the seed when the
            // query is exclusive
            assert forall|n: Seq<char>|
                contains_str(names@, n) == (contains_str(all_visited, n) && (inclusive || n
                    != package_name@)) by {
                if inclusive {
                } else {
                    if contains_str(names@, n) {
                        let w = choose|i: int| 0 <= i < names@.len() && names@[i]@ == n;
                        assert(names@[w] == all_visited[w + 1]);
                        assert(all_visited[w + 1]@ == n);
                        assert(contains_str(all_visited, n));
                        assert(all_visited[0]@ != all_visited[w + 1]@);
                    }
                    if contains_str(all_visited, n) && n != package_name@ {
                        let w = choose|i: int| 0 <= i < all_visited.len() && all_visited[i]@ == n;
                        assert(w != 0);
                        assert(names@[w - 1]@ == n);
                    }
                }
            }
        }
        let r = sort_strings(names);
        proof {
            assert forall|n: Seq<char>|
                contains_str(r@, n) == (reachable(pkgs, package_name@, n) && name_in(pkgs, n) && (
                inclusive || n != package_name@)) by {
                if contains_str(r@, n) {
                    let w = choose|i: int| 0 <= i < all_visited.len() && all_visited[i]@ == n;
                    assert(reachable(pkgs, package_name@, all_visited[w]@));
                    assert(name_in(pkgs, all_visited[w]@));
                }
                if reachable(pkgs, package_name@, n) && name_in(pkgs, n) && (inclusive || n
                    != package_name@) {
                    let k = choose|k: nat| reaches(pkgs, package_name@, n, k);
                    assert(contains_str(all_visited, all_visited[0]@));
                    lemma_closed_contains(pkgs, all_visited, package_name@, n, k);
                }
            }
            assert forall|i: int, j: int|
                0 <= i < j < r@.len() implies r@[i]@ != r@[j]@ by {
                assert(crate::text::lex_lt(r@[i]@, r@[j]@));
                crate::text::lemma_lex_lt_irreflexive(r@[i]@);
            }
        }
        r
    }
}

impl PackageManifest {
    /// The names of every package this one transitively depends on, itself
    /// excluded, in strictly increasing name order.
    pub fn transitive_internal_dependency_package_names_exclusive(
        &self,
        index: &MonorepoIndex,
    ) -> (r: Vec<String>)
        requires
            index_wf(index.packages@),
            name_in(index.packages@, self.contents.name@),
        ensures
            strings_sorted(r@),
            distinct_views(r@),
            forall|n: Seq<char>|
                contains_str(r@, n) == (reachable(index.packages@, self.contents.name@, n)
                    && name_in(index.packages@, n) && n != self.contents.name@),
    {
        index.transitive_internal_dependencies(self.contents.name.as_str(), false)
    }
}

} // verus!

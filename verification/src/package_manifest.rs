//! The typed view over one package's manifest.
//!
//! A manifest declares the package's `name`, its exact `version`, and up to
//! four dependency groups, each an ordered mapping from dependency name to a
//! declared version string. Whatever else the manifest file holds is carried
//! opaquely in `extra_fields` so a rewritten manifest keeps it untouched.

use vstd::prelude::*;

use crate::text::join_view;
use crate::text::path_view;
use crate::text::str_eq;
use crate::text::valid_path_component;

verus! {

/// The four dependency groups a manifest may declare, in the fixed order in
/// which they are searched.
#[derive(Clone, Copy, Debug, PartialEq, Eq, Structural)]
pub enum DependencyGroupKind {
    Dependencies,
    DevDependencies,
    OptionalDependencies,
    PeerDependencies,
}

/// The position of a group kind in the fixed search order.
pub open spec fn group_rank(kind: DependencyGroupKind) -> int {
    match kind {
        DependencyGroupKind::Dependencies => 0,
        DependencyGroupKind::DevDependencies => 1,
        DependencyGroupKind::OptionalDependencies => 2,
        DependencyGroupKind::PeerDependencies => 3,
    }
}

/// The manifest key under which a group kind is declared.
pub open spec fn group_key_view(kind: DependencyGroupKind) -> Seq<char> {
    match kind {
        DependencyGroupKind::Dependencies => "dependencies"@,
        DependencyGroupKind::DevDependencies => "devDependencies"@,
        DependencyGroupKind::OptionalDependencies => "optionalDependencies"@,
        DependencyGroupKind::PeerDependencies => "peerDependencies"@,
    }
}

/// The manifest key under which a group kind is declared.
pub fn group_key(kind: DependencyGroupKind) -> (r: &'static str)
    ensures
        r@ == group_key_view(kind),
{
    match kind {
        DependencyGroupKind::Dependencies => "dependencies",
        DependencyGroupKind::DevDependencies => "devDependencies",
        DependencyGroupKind::OptionalDependencies => "optionalDependencies",
        DependencyGroupKind::PeerDependencies => "peerDependencies",
    }
}

/// The value a dependency-group entry declares: a plain version string, or
/// anything else, which the version synchronizers treat as an error or skip.
#[derive(Debug)]
pub enum DependencyValue {
    Version(String),
    Other,
}

/// The version string a dependency value declares, if it is one.
pub open spec fn value_view(v: DependencyValue) -> Option<Seq<char>> {
    match v {
        DependencyValue::Version(s) => Some(s@),
        DependencyValue::Other => None,
    }
}

/// One entry of a dependency group: a dependency name and its declared value.
#[derive(Debug)]
pub struct DependencyEntry {
    pub name: String,
    pub value: DependencyValue,
}

/// One dependency group of a manifest, with its entries in document order.
#[derive(Debug)]
pub struct DependencyGroup {
    pub kind: DependencyGroupKind,
    pub entries: Vec<DependencyEntry>,
}

/// The typed contents of a package manifest file. `dependency_groups` holds
/// the groups that are present, in search order; `extra_fields` carries every
/// other field of the document, preserved but never inspected.
#[derive(Debug)]
pub struct PackageManifestFile {
    pub name: String,
    pub version: String,
    pub dependency_groups: Vec<DependencyGroup>,
    pub extra_fields: serde_json::Map<String, serde_json::Value>,
}

/// A package manifest together with the package's directory, as components of
/// a path relative to the monorepo root.
#[derive(Debug)]
pub struct PackageManifest {
    pub directory: Vec<String>,
    pub contents: PackageManifestFile,
}

/// Entry names within one group are pairwise distinct, as JSON object keys
/// are.
pub open spec fn entries_wf(entries: Seq<DependencyEntry>) -> bool {
    forall|i: int, j: int| 0 <= i < j < entries.len() ==> entries[i].name@ != entries[j].name@
}

/// The groups present are in strictly increasing search order (hence
/// distinct), and each is well formed.
pub open spec fn file_wf(m: PackageManifestFile) -> bool {
    &&& forall|i: int, j: int|
        0 <= i < j < m.dependency_groups.len() ==> group_rank(m.dependency_groups[i].kind)
            < group_rank(m.dependency_groups[j].kind)
    &&& forall|i: int|
        0 <= i < m.dependency_groups.len() ==> entries_wf(
            #[trigger] m.dependency_groups[i].entries@,
        )
}

/// The directory is below the monorepo root and every component is an
/// ordinary name.
pub open spec fn manifest_wf(m: PackageManifest) -> bool {
    &&& m.directory@.len() >= 1
    &&& forall|i: int| 0 <= i < m.directory@.len() ==> valid_path_component(m.directory@[i]@)
    &&& file_wf(m.contents)
}

/// Structural equality of two dependency values.
pub open spec fn same_value(a: DependencyValue, b: DependencyValue) -> bool {
    value_view(a) == value_view(b)
}

/// Structural equality of two entry lists.
pub open spec fn same_entries(a: Seq<DependencyEntry>, b: Seq<DependencyEntry>) -> bool {
    &&& a.len() == b.len()
    &&& forall|i: int|
        0 <= i < a.len() ==> (#[trigger] a[i]).name@ == (#[trigger] b[i]).name@ && same_value(
            a[i].value,
            b[i].value,
        )
}

/// Structural equality of two group lists.
pub open spec fn same_groups(a: Seq<DependencyGroup>, b: Seq<DependencyGroup>) -> bool {
    &&& a.len() == b.len()
    &&& forall|i: int|
        0 <= i < a.len() ==> (#[trigger] a[i]).kind == (#[trigger] b[i]).kind && same_entries(
            a[i].entries@,
            b[i].entries@,
        )
}

/// Structural equality of two manifest files, the opaque fields included.
pub open spec fn same_file(a: PackageManifestFile, b: PackageManifestFile) -> bool {
    &&& a.name@ == b.name@
    &&& a.version@ == b.version@
    &&& a.extra_fields == b.extra_fields
    &&& same_groups(a.dependency_groups@, b.dependency_groups@)
}

impl DependencyValue {
    /// A copy with the same contents.
    pub fn duplicate(&self) -> (r: DependencyValue)
        ensures
            same_value(*self, r),
    {
        match self {
            DependencyValue::Version(s) => DependencyValue::Version(s.clone()),
            DependencyValue::Other => DependencyValue::Other,
        }
    }
}

impl DependencyEntry {
    /// A copy with the same contents.
    pub fn duplicate(&self) -> (r: DependencyEntry)
        ensures
            r.name@ == self.name@,
            same_value(self.value, r.value),
    {
        DependencyEntry { name: self.name.clone(), value: self.value.duplicate() }
    }
}

impl DependencyGroup {
    /// A copy with the same contents.
    pub fn duplicate(&self) -> (r: DependencyGroup)
        ensures
            r.kind == self.kind,
            same_entries(self.entries@, r.entries@),
    {
        let mut entries: Vec<DependencyEntry> = Vec::new();
        let mut i: usize = 0;
        while i < self.entries.len()
            invariant
                0 <= i <= self.entries@.len(),
                entries@.len() == i,
                forall|k: int|
                    0 <= k < i ==> (#[trigger] entries@[k]).name@ == self.entries@[k].name@
                        && same_value(self.entries@[k].value, entries@[k].value),
            decreases self.entries@.len() - i,
        {
            entries.push(self.entries[i].duplicate());
            i = i + 1;
        }
        DependencyGroup { kind: self.kind, entries }
    }
}

impl PackageManifestFile {
    /// A copy with the same contents.
    pub fn duplicate(&self) -> (r: PackageManifestFile)
        ensures
            same_file(*self, r),
    {
        let mut groups: Vec<DependencyGroup> = Vec::new();
        let mut i: usize = 0;
        while i < self.dependency_groups.len()
            invariant
                0 <= i <= self.dependency_groups@.len(),
                groups@.len() == i,
                forall|k: int|
                    0 <= k < i ==> (#[trigger] groups@[k]).kind == self.dependency_groups@[k].kind
                        && same_entries(self.dependency_groups@[k].entries@, groups@[k].entries@),
            decreases self.dependency_groups@.len() - i,
        {
            groups.push(self.dependency_groups[i].duplicate());
            i = i + 1;
        }
        PackageManifestFile {
            name: self.name.clone(),
            version: self.version.clone(),
            dependency_groups: groups,
            extra_fields: crate::raw_json::json_map_clone(&self.extra_fields),
        }
    }
}

/// The declared version of `dep` among `entries`: the version string of the
/// entry named `dep`, if that entry declares one.
pub open spec fn spec_entries_version(entries: Seq<DependencyEntry>, dep: Seq<char>) -> Option<
    Seq<char>,
>
    decreases entries.len(),
{
    if entries.len() == 0 {
        None
    } else if entries[0].name@ == dep {
        value_view(entries[0].value)
    } else {
        spec_entries_version(entries.skip(1), dep)
    }
}

/// The declared version of `dep` in `groups`: the first group, in search
/// order, declaring `dep` with a plain version string wins; a group declaring
/// `dep` with any other value is passed over.
pub open spec fn spec_dependency_version(groups: Seq<DependencyGroup>, dep: Seq<char>) -> Option<
    Seq<char>,
>
    decreases groups.len(),
{
    if groups.len() == 0 {
        None
    } else if spec_entries_version(groups[0].entries@, dep) is Some {
        spec_entries_version(groups[0].entries@, dep)
    } else {
        spec_dependency_version(groups.skip(1), dep)
    }
}

impl PackageManifest {
    /// Binds a manifest to the directory it was found in.
    pub fn new(directory: Vec<String>, contents: PackageManifestFile) -> (r: PackageManifest)
        ensures
            r.directory@ == directory@,
            r.contents == contents,
    {
        PackageManifest { directory, contents }
    }

    /// Relative path, from the monorepo root, of the directory holding this
    /// package.
    pub fn directory(&self) -> (r: &Vec<String>)
        ensures
            r@ == self.directory@,
    {
        &self.directory
    }

    /// The directory's components, seen as a sequence of character sequences.
    pub open spec fn dir_view(&self) -> Seq<Seq<char>> {
        path_view(self.directory@)
    }

    /// Relative path to this package's manifest file from the monorepo root.
    pub fn path(&self) -> (r: String)
        ensures
            r@ == self.spec_path(),
    {
        let mut components = crate::text::clone_strings(&self.directory);
        components.push("package.json".to_owned());
        let r = crate::text::join_path(&components);
        proof {
            assert(path_view(components@) =~= self.dir_view().push("package.json"@));
        }
        r
    }

    /// The path of this package's manifest file.
    pub open spec fn spec_path(&self) -> Seq<char> {
        join_view(self.dir_view().push("package.json"@))
    }

    /// The declared version of `dependency` in this manifest: the first group
    /// in search order that declares it as a plain string wins; groups that
    /// declare it with any other value are passed over.
    #[verifier::loop_isolation(false)]
    pub fn get_dependency_version(&self, dependency: &str) -> (r: Option<String>)
        ensures
            match r {
                Some(v) => spec_dependency_version(
                    self.contents.dependency_groups@,
                    dependency@,
                ) == Some(v@),
                None => spec_dependency_version(self.contents.dependency_groups@, dependency@)
                    is None,
            },
    {
        let groups = &self.contents.dependency_groups;
        let ghost all = groups@;
        proof {
            assert(all.skip(0) =~= all);
        }
        let mut g: usize = 0;
        while g < groups.len()
            invariant
                0 <= g <= groups@.len(),
                groups@ == all,
                spec_dependency_version(all, dependency@) == spec_dependency_version(
                    all.skip(g as int),
                    dependency@,
                ),
            decreases groups@.len() - g,
        {
            let entries = &groups[g].entries;
            let ghost egs = entries@;
            proof {
                assert(egs.skip(0) =~= egs);
            }
            let mut e: usize = 0;
            let mut skip_group = false;
            while e < entries.len() && !skip_group
                invariant
                    0 <= e <= entries@.len(),
                    entries@ == egs,
                    skip_group ==> spec_entries_version(egs, dependency@) is None,
                    !skip_group ==> spec_entries_version(egs, dependency@) == spec_entries_version(
                        egs.skip(e as int),
                        dependency@,
                    ),
                decreases entries@.len() - e, 1int - if skip_group { 1int } else { 0int },
            {
                proof {
                    assert(egs.skip(e as int)[0] == egs[e as int]);
                    assert(egs.skip(e as int).skip(1) =~= egs.skip(e as int + 1));
                }
                if str_eq(entries[e].name.as_str(), dependency) {
                    match &entries[e].value {
                        DependencyValue::Version(v) => {
                            proof {
                                assert(spec_entries_version(egs, dependency@) == Some(v@));
                                assert(all.skip(g as int)[0] == all[g as int]);
                                assert(spec_dependency_version(all.skip(g as int), dependency@)
                                    == Some(v@));
                            }
                            return Some(v.clone());
                        },
                        DependencyValue::Other => {
                            // this group declares the dependency with no plain
                            // version string: move on to the next group
                            skip_group = true;
                        },
                    }
                } else {
                    e = e + 1;
                }
            }
            proof {
                if !skip_group {
                    assert(egs.skip(egs.len() as int) =~= Seq::<DependencyEntry>::empty());
                    assert(spec_entries_version(egs, dependency@) is None);
                }
                assert(spec_entries_version(egs, dependency@) is None);
                assert(all.skip(g as int)[0] == all[g as int]);
                assert(all.skip(g as int).skip(1) =~= all.skip(g as int + 1));
            }
            g = g + 1;
        }
        None
    }

    /// Basename of the archive `npm pack` creates for this package: the name
    /// with its leading `@` dropped and `/` turned into `-`, then `-`, the
    /// version, and `.tgz`.
    #[verifier::loop_isolation(false)]
    pub fn npm_pack_file_basename(&self) -> (r: String)
        ensures
            r@ == npm_pack_basename_view(self.contents.name@, self.contents.version@),
    {
        let name = &self.contents.name;
        let n: usize = name.as_str().unicode_len();
        let mut out = String::new();
        let mut i: usize = if n > 0 && name.as_str().get_char(0) == '@' {
            1
        } else {
            0
        };
        let ghost start: int = i as int;
        let ghost base = dashed_view(name@.skip(start));
        proof {
            reveal_strlit("-");
            assert(name@.skip(start).take(0) =~= Seq::<char>::empty());
            assert(out@ =~= dashed_view(name@.skip(start).take(0)));
        }
        while i < n
            invariant
                n == name@.len(),
                start <= i as int <= n,
                0 <= start <= 1,
                "-"@ =~= seq!['-'],
                out@ == dashed_view(name@.skip(start).take(i - start)),
            decreases n - i,
        {
            let c = name.as_str().get_char(i);
            let ghost prev = name@.skip(start).take(i - start);
            if c == '/' {
                out.append("-");
            } else {
                let piece = name.as_str().substring_char(i, i + 1);
                out.append(piece);
                proof {
                    assert(piece@ =~= seq![name@[i as int]]);
                }
            }
            proof {
                let cur = name@.skip(start).take(i + 1 - start);
                assert(cur.drop_last() =~= prev);
                assert(cur.last() == name@[i as int]);
                assert(out@ =~= dashed_view(cur));
            }
            i = i + 1;
        }
        out.append("-");
        out.append(self.contents.version.as_str());
        out.append(".tgz");
        proof {
            assert(name@.skip(start).take(n - start) =~= name@.skip(start));
            if n > 0 && name@[0] == '@' {
                assert(name@.skip(1) == strip_scope_marker(name@));
            } else {
                assert(name@.skip(0) =~= name@);
                assert(name@ == strip_scope_marker(name@));
            }
            assert(out@ =~= npm_pack_basename_view(self.contents.name@, self.contents.version@));
        }
        out
    }

    /// The package name with any scope dropped: the part after the last `/`,
    /// or the whole name when it has none.
    #[verifier::loop_isolation(false)]
    pub fn unscoped_package_name(&self) -> (r: &str)
        ensures
            r@ == unscoped_view(self.contents.name@),
    {
        let name = self.contents.name.as_str();
        let n: usize = name.unicode_len();
        let mut i: usize = n;
        while i > 0
            invariant
                n == name@.len(),
                0 <= i <= n,
                forall|k: int| i <= k < n ==> name@[k] != '/',
            decreases i,
        {
            if name.get_char(i - 1) == '/' {
                let r = name.substring_char(i, n);
                proof {
                    lemma_last_slash(name@, i as int - 1);
                    assert(last_slash_index(name@) == i as int - 1);
                    assert(name@.subrange(i as int, n as int) =~= name@.skip(i as int));
                    assert(unscoped_view(name@) == name@.skip(i as int));
                    assert(r@ == name@.skip(i as int));
                }
                return r;
            }
            i = i - 1;
        }
        proof {
            lemma_no_slash(name@);
            assert(name@.skip(0) =~= name@);
        }
        name
    }
}

/// `s` with each `/` replaced by `-`.
pub open spec fn dashed_view(s: Seq<char>) -> Seq<char> {
    s.map_values(
        |c: char|
            if c == '/' {
                '-'
            } else {
                c
            },
    )
}

/// `s` without its leading `@`, if it has one.
pub open spec fn strip_scope_marker(s: Seq<char>) -> Seq<char> {
    if s.len() > 0 && s[0] == '@' {
        s.skip(1)
    } else {
        s
    }
}

/// The basename of the `npm pack` archive for a package `name@version`.
pub open spec fn npm_pack_basename_view(name: Seq<char>, version: Seq<char>) -> Seq<char> {
    dashed_view(strip_scope_marker(name)) + seq!['-'] + version + ".tgz"@
}

/// The index of the last `/` in `s`, or `-1` when there is none.
pub open spec fn last_slash_index(s: Seq<char>) -> int
    decreases s.len(),
{
    if s.len() == 0 {
        -1
    } else if s.last() == '/' {
        s.len() - 1
    } else {
        last_slash_index(s.drop_last())
    }
}

/// The part of `s` after its last `/`.
pub open spec fn unscoped_view(s: Seq<char>) -> Seq<char> {
    s.skip(last_slash_index(s) + 1)
}

/// When `s[j]` is the rightmost `/`, it is what `last_slash_index` finds.
pub proof fn lemma_last_slash(s: Seq<char>, j: int)
    requires
        0 <= j < s.len(),
        s[j] == '/',
        forall|k: int| j < k < s.len() ==> s[k] != '/',
    ensures
        last_slash_index(s) == j,
    decreases s.len(),
{
    if j == s.len() - 1 {
    } else {
        lemma_last_slash(s.drop_last(), j);
    }
}

/// Without any `/`, `last_slash_index` finds nothing.
pub proof fn lemma_no_slash(s: Seq<char>)
    requires
        forall|k: int| 0 <= k < s.len() ==> s[k] != '/',
    ensures
        last_slash_index(s) == -1,
    decreases s.len(),
{
    if s.len() > 0 {
        lemma_no_slash(s.drop_last());
    }
}

/// The position of a group kind in the fixed search order.
pub fn group_rank_of(kind: DependencyGroupKind) -> (r: usize)
    ensures
        r as int == group_rank(kind),
{
    match kind {
        DependencyGroupKind::Dependencies => 0,
        DependencyGroupKind::DevDependencies => 1,
        DependencyGroupKind::OptionalDependencies => 2,
        DependencyGroupKind::PeerDependencies => 3,
    }
}

/// Checks that the entry names of one group are pairwise distinct.
pub fn check_entries_wf(entries: &Vec<DependencyEntry>) -> (r: bool)
    ensures
        r == entries_wf(entries@),
{
    let mut i: usize = 0;
    while i < entries.len()
        invariant
            0 <= i <= entries@.len(),
            forall|a: int, b: int|
                0 <= a < b < entries@.len() && a < i ==> entries@[a].name@ != entries@[b].name@,
        decreases entries@.len() - i,
    {
        let mut j: usize = i + 1;
        while j < entries.len()
            invariant
                0 <= i < j <= entries@.len(),
                forall|b: int| i < b < j ==> entries@[i as int].name@ != entries@[b].name@,
            decreases entries@.len() - j,
        {
            if str_eq(entries[i].name.as_str(), entries[j].name.as_str()) {
                return false;
            }
            j = j + 1;
        }
        i = i + 1;
    }
    true
}

/// Checks that a manifest file is well formed: groups in strictly increasing
/// search order, each with pairwise-distinct entry names.
#[verifier::loop_isolation(false)]
pub fn check_file_wf(m: &PackageManifestFile) -> (r: bool)
    ensures
        r == file_wf(*m),
{
    let groups = &m.dependency_groups;
    let mut i: usize = 0;
    while i < groups.len()
        invariant
            0 <= i <= groups@.len(),
            forall|a: int, b: int|
                0 <= a < b < i ==> group_rank(groups@[a].kind) < group_rank(groups@[b].kind),
            forall|a: int| 0 <= a < i ==> entries_wf(#[trigger] groups@[a].entries@),
        decreases groups@.len() - i,
    {
        if i > 0 && group_rank_of(groups[i - 1].kind) >= group_rank_of(groups[i].kind) {
            return false;
        }
        if !check_entries_wf(&groups[i].entries) {
            return false;
        }
        proof {
            assert forall|a: int, b: int|
                0 <= a < b < i + 1 implies group_rank(groups@[a].kind) < group_rank(
                groups@[b].kind,
            ) by {
                if b == i as int && i > 0 {
                    assert(group_rank(groups@[i - 1].kind) < group_rank(groups@[i as int].kind));
                    if a < i - 1 {
                        assert(group_rank(groups@[a].kind) < group_rank(groups@[i - 1].kind));
                    }
                }
            }
        }
        i = i + 1;
    }
    true
}

/// Checks that a package is well formed: its directory is below the root with
/// every component an ordinary name, and its manifest file is well formed.
pub fn check_manifest_wf(m: &PackageManifest) -> (r: bool)
    ensures
        r == manifest_wf(*m),
{
    if m.directory.len() == 0 {
        return false;
    }
    let mut i: usize = 0;
    while i < m.directory.len()
        invariant
            0 <= i <= m.directory@.len(),
            forall|k: int| 0 <= k < i ==> valid_path_component(#[trigger] m.directory@[k]@),
        decreases m.directory@.len() - i,
    {
        if !crate::text::is_valid_path_component(m.directory[i].as_str()) {
            return false;
        }
        i = i + 1;
    }
    check_file_wf(&m.contents)
}

/// Whether some entry of `entries` is named `dep`.
pub open spec fn entries_contain(entries: Seq<DependencyEntry>, dep: Seq<char>) -> bool {
    exists|i: int| 0 <= i < entries.len() && entries[i].name@ == dep
}

/// Whether any group of `m` declares a dependency named `dep`.
pub open spec fn file_declares_dependency(m: PackageManifestFile, dep: Seq<char>) -> bool {
    exists|g: int|
        0 <= g < m.dependency_groups.len() && entries_contain(
            (#[trigger] m.dependency_groups[g]).entries@,
            dep,
        )
}

} // verus!

//! The dependency-closure resolver: given the destination's current
//! package map, a base set of source packages and an allow-list of
//! dependency-source projects, it computes the set of submit actions
//! that brings the destination in sync, pulling transitive build
//! dependencies from the allow-listed projects.
//!
//! All remote metadata the resolver reads is handed to it in a
//! [`Snapshots`] value; the caller fills it, one fetch per project,
//! before or while the run drains its work queue.

use vstd::prelude::*;

use crate::binarylist::BinEntryView;
use crate::binarylist::BinaryList;
use crate::codes::BuildArch;
use crate::codes::arch_camel_name;
use crate::codes::snake_of;
use crate::model::Package;
use crate::model::PackageInfo;
use crate::model::PackageInfoView;
use crate::model::PackageView;
use crate::model::Project;
use crate::model::ProjectView;
use crate::model::Repository;
use crate::model::RepositoryView;
use crate::request::Action;
use crate::request::ActionView;
use crate::strutil::str_eq;

verus! {

/// One build dependency, as the build service declares it: the binary
/// package name with its version, release and architecture, and the
/// repository the binary comes from.
#[derive(Debug)]
pub struct BinPackage {
    pub name: String,
    pub version: String,
    pub release: String,
    pub arch: BuildArch,
    pub repository: Repository,
}

/// Mathematical content of a [`BinPackage`].
pub struct BinPackageView {
    pub name: Seq<char>,
    pub version: Seq<char>,
    pub release: Seq<char>,
    pub arch: BuildArch,
    pub repository: RepositoryView,
}

impl View for BinPackage {
    type V = BinPackageView;

    open spec fn view(&self) -> BinPackageView {
        (BinPackageView {
            name: self.name@,
            version: self.version@,
            release: self.release@,
            arch: self.arch,
            repository: self.repository@,
        })
    }
}

impl DeepView for BinPackage {
    type V = BinPackageView;

    open spec fn deep_view(&self) -> BinPackageView {
        self.view()
    }
}

/// The declared build dependencies of one package in one
/// (repository, architecture).
#[derive(Debug)]
pub struct DepsEntry {
    pub package: Package,
    pub repository: Repository,
    pub arch: BuildArch,
    pub deps: Vec<BinPackage>,
}

/// Mathematical content of a [`DepsEntry`].
pub struct DepsEntryView {
    pub package: PackageView,
    pub repository: RepositoryView,
    pub arch: BuildArch,
    pub deps: Seq<BinPackageView>,
}

impl View for DepsEntry {
    type V = DepsEntryView;

    open spec fn view(&self) -> DepsEntryView {
        (DepsEntryView {
            package: self.package@,
            repository: self.repository@,
            arch: self.arch,
            deps: self.deps.deep_view(),
        })
    }
}

impl DeepView for DepsEntry {
    type V = DepsEntryView;

    open spec fn deep_view(&self) -> DepsEntryView {
        self.view()
    }
}

/// The binary list of one project.
#[derive(Debug)]
pub struct ProjectBins {
    pub project: Project,
    pub bins: BinaryList,
}

/// The package-info list of one project.
#[derive(Debug)]
pub struct ProjectPackages {
    pub project: Project,
    pub packages: Vec<PackageInfo>,
}

/// The remote metadata one run works from: binary lists and package
/// lists per project, and build dependencies per
/// (package, repository, architecture).  Each lookup scans front to
/// back, so one snapshot per key is the rule; the caller fills the
/// store with exactly one fetch per missed key and reuses it for the
/// rest of the run.
#[derive(Debug)]
pub struct Snapshots {
    pub binary_lists: Vec<ProjectBins>,
    pub package_lists: Vec<ProjectPackages>,
    pub build_deps: Vec<DepsEntry>,
}

impl Snapshots {
    /// An empty store.
    pub fn new() -> (r: Self)
        ensures
            r.binary_lists@.len() == 0,
            r.package_lists@.len() == 0,
            r.build_deps@.len() == 0,
    {
        Snapshots { binary_lists: Vec::new(), package_lists: Vec::new(), build_deps: Vec::new() }
    }

    /// The stored binary list of the project, if there is one; with
    /// one snapshot per project, the match is unambiguous.
    pub fn binary_list(&self, project: &Project) -> (r: Option<&BinaryList>)
        ensures
            match r {
                Some(bl) => exists|i: int|
                    0 <= i < self.binary_lists@.len()
                        && (#[trigger] self.binary_lists@[i]).project@ == project@ && bl
                        == &self.binary_lists@[i].bins && (forall|j: int|
                        0 <= j < i ==> (#[trigger] self.binary_lists@[j]).project@ != project@),
                None => forall|i: int|
                    0 <= i < self.binary_lists@.len()
                        ==> (#[trigger] self.binary_lists@[i]).project@ != project@,
            },
    {
        let mut i: usize = 0;
        while i < self.binary_lists.len()
            invariant
                0 <= i <= self.binary_lists@.len(),
                forall|j: int|
                    0 <= j < i ==> (#[trigger] self.binary_lists@[j]).project@ != project@,
            decreases self.binary_lists@.len() - i,
        {
            let entry = &self.binary_lists[i];
            if &entry.project == project {
                proof {
                    assert((#[trigger] self.binary_lists@[i as int]).project@ == project@);
                }
                return Some(&entry.bins);
            }
            i = i + 1;
        }
        None
    }

    /// The stored package list of the project, if there is one.
    pub fn package_list(&self, project: &Project) -> (r: Option<&Vec<PackageInfo>>)
        ensures
            match r {
                Some(pl) => exists|i: int|
                    0 <= i < self.package_lists@.len()
                        && (#[trigger] self.package_lists@[i]).project@ == project@ && pl
                        == &self.package_lists@[i].packages && (forall|j: int|
                        0 <= j < i ==> (#[trigger] self.package_lists@[j]).project@ != project@),
                None => forall|i: int|
                    0 <= i < self.package_lists@.len()
                        ==> (#[trigger] self.package_lists@[i]).project@ != project@,
            },
    {
        let mut i: usize = 0;
        while i < self.package_lists.len()
            invariant
                0 <= i <= self.package_lists@.len(),
                forall|j: int|
                    0 <= j < i ==> (#[trigger] self.package_lists@[j]).project@ != project@,
            decreases self.package_lists@.len() - i,
        {
            let entry = &self.package_lists[i];
            if &entry.project == project {
                proof {
                    assert((#[trigger] self.package_lists@[i as int]).project@ == project@);
                }
                return Some(&entry.packages);
            }
            i = i + 1;
        }
        None
    }

    /// The stored build dependencies of one
    /// (package, repository, architecture), if there are any.
    pub fn deps_of(&self, package: &Package, repository: &Repository, arch: BuildArch) -> (r:
        Option<&Vec<BinPackage>>)
        ensures
            match r {
                Some(deps) => exists|i: int|
                    0 <= i < self.build_deps.deep_view().len()
                        && (#[trigger] self.build_deps.deep_view()[i]).package == package@
                        && self.build_deps.deep_view()[i].repository == repository@
                        && self.build_deps.deep_view()[i].arch == arch && deps.deep_view()
                        == self.build_deps.deep_view()[i].deps,
                None => forall|i: int|
                    0 <= i < self.build_deps.deep_view().len()
                        ==> !((#[trigger] self.build_deps.deep_view()[i]).package == package@
                        && self.build_deps.deep_view()[i].repository == repository@
                        && self.build_deps.deep_view()[i].arch == arch),
            },
    {
        let mut i: usize = 0;
        while i < self.build_deps.len()
            invariant
                0 <= i <= self.build_deps@.len(),
                forall|j: int|
                    0 <= j < i ==> !((#[trigger] self.build_deps.deep_view()[j]).package
                        == package@ && self.build_deps.deep_view()[j].repository == repository@
                        && self.build_deps.deep_view()[j].arch == arch),
            decreases self.build_deps@.len() - i,
        {
            let entry = &self.build_deps[i];
            proof {
                assert(self.build_deps.deep_view()[i as int] == self.build_deps@[i as int]@);
            }
            if entry.package == *package && entry.repository == *repository && entry.arch == arch {
                return Some(&entry.deps);
            }
            i = i + 1;
        }
        None
    }

    /// Stores the binary list of a project.
    pub fn insert_binary_list(&mut self, project: Project, bins: BinaryList)
        ensures
            final(self).binary_lists@ == old(self).binary_lists@.push(
                (ProjectBins { project, bins }),
            ),
            final(self).package_lists@ == old(self).package_lists@,
            final(self).build_deps@ == old(self).build_deps@,
    {
        self.binary_lists.push(ProjectBins { project, bins });
    }

    /// Stores the package list of a project.
    pub fn insert_package_list(&mut self, project: Project, packages: Vec<PackageInfo>)
        ensures
            final(self).package_lists@ == old(self).package_lists@.push(
                (ProjectPackages { project, packages }),
            ),
            final(self).binary_lists@ == old(self).binary_lists@,
            final(self).build_deps@ == old(self).build_deps@,
    {
        self.package_lists.push(ProjectPackages { project, packages });
    }

    /// Stores the build dependencies of one
    /// (package, repository, architecture).
    pub fn insert_deps(&mut self, entry: DepsEntry)
        ensures
            final(self).build_deps@ == old(self).build_deps@.push(entry),
            final(self).binary_lists@ == old(self).binary_lists@,
            final(self).package_lists@ == old(self).package_lists@,
    {
        self.build_deps.push(entry);
    }
}


/// The filename convention that names a dependency's binary: its name,
/// version and release, its architecture, and the plain package suffix.
pub open spec fn rpm_name_of(d: BinPackageView) -> Seq<char> {
    d.name + "-"@ + d.version + "-"@ + d.release + "."@ + snake_of(arch_camel_name(d.arch))
        + ".rpm"@
}

/// Builds the binary filename a dependency declaration points at.
pub fn dep_rpm_name(dep: &BinPackage) -> (r: String)
    ensures
        r@ == rpm_name_of(dep@),
{
    let mut name = dep.name.clone();
    name.append("-");
    name.append(dep.version.as_str());
    name.append("-");
    name.append(dep.release.as_str());
    name.append(".");
    let label = dep.arch.label();
    name.append(label.as_str());
    name.append(".rpm");
    name
}

/// Whether one binary-list entry serves the repository and holds a
/// binary with the given filename.
pub open spec fn entry_has_binary(e: BinEntryView, repo: RepositoryView, name: Seq<char>) -> bool {
    e.repository == repo && exists|k: int| 0 <= k < e.binaries.len() && (#[trigger] e.binaries[k]).name == name
}

/// Finds the package whose binary list for the given repository holds
/// a binary with the given filename: the upstream source package of a
/// dependency.  The scan is front to back, so the answer is
/// deterministic for a given snapshot.
pub fn find_dep_source<'a>(bl: &'a BinaryList, repository: &Repository, filename: &String) -> (r:
    Option<&'a Package>)
    ensures
        match r {
            Some(p) => exists|i: int|
                0 <= i < bl@.len() && entry_has_binary(#[trigger] bl@[i], repository@, filename@)
                    && p@ == bl@[i].package,
            None => forall|i: int|
                0 <= i < bl@.len() ==> !entry_has_binary(#[trigger] bl@[i], repository@, filename@),
        },
{
    let mut i: usize = 0;
    while i < bl.entries.len()
        invariant
            0 <= i <= bl.entries@.len(),
            forall|j: int| 0 <= j < i ==> !entry_has_binary(#[trigger] bl@[j], repository@, filename@),
        decreases bl.entries@.len() - i,
    {
        let entry = &bl.entries[i];
        proof {
            assert(bl@[i as int] == bl.entries@[i as int]@);
        }
        if entry.repository == *repository {
            let mut k: usize = 0;
            while k < entry.binaries.len()
                invariant
                    0 <= k <= entry.binaries@.len(),
                    0 <= i < bl.entries@.len(),
                    entry == bl.entries@[i as int],
                    bl@[i as int] == entry@,
                    entry.repository@ == repository@,
                    forall|m: int|
                        0 <= m < k ==> (#[trigger] entry.binaries.deep_view()[m]).name
                            != filename@,
                decreases entry.binaries@.len() - k,
            {
                proof {
                    assert(entry.binaries.deep_view()[k as int] == entry.binaries@[k as int]@);
                }
                if str_eq(entry.binaries[k].name.as_str(), filename.as_str()) {
                    proof {
                        assert(bl@[i as int].binaries[k as int].name == filename@);
                        assert(entry_has_binary(bl@[i as int], repository@, filename@));
                    }
                    return Some(&entry.package);
                }
                k = k + 1;
            }
            proof {
                assert(!entry_has_binary(bl@[i as int], repository@, filename@));
            }
        } else {
            proof {
                assert(!entry_has_binary(bl@[i as int], repository@, filename@));
            }
        }
        i = i + 1;
    }
    None
}

/// The (repository, architecture) pairs of the first `n` entries that
/// belong to the package.
pub open spec fn pairs_prefix(entries: Seq<BinEntryView>, p: PackageView, n: int) -> Seq<
    (RepositoryView, BuildArch),
>
    decreases n,
{
    if n <= 0 {
        Seq::empty()
    } else {
        let prev = pairs_prefix(entries, p, n - 1);
        if entries[n - 1].package == p {
            prev.push((entries[n - 1].repository, entries[n - 1].arch))
        } else {
            prev
        }
    }
}

/// Every (repository, architecture) the package has binaries for, in
/// snapshot order.
pub open spec fn pairs_of(entries: Seq<BinEntryView>, p: PackageView) -> Seq<
    (RepositoryView, BuildArch),
> {
    pairs_prefix(entries, p, entries.len() as int)
}

/// Collects the (repository, architecture) pairs the package has
/// binaries for.
pub fn package_pairs(bl: &BinaryList, package: &Package) -> (r: Vec<(Repository, BuildArch)>)
    ensures
        r@.len() == pairs_of(bl@, package@).len(),
        forall|i: int|
            0 <= i < r@.len() ==> ((#[trigger] r@[i]).0@, r@[i].1) == pairs_of(bl@, package@)[i],
{
    let mut result: Vec<(Repository, BuildArch)> = Vec::new();
    let mut i: usize = 0;
    while i < bl.entries.len()
        invariant
            0 <= i <= bl.entries@.len(),
            result@.len() == pairs_prefix(bl@, package@, i as int).len(),
            forall|j: int|
                0 <= j < result@.len() ==> ((#[trigger] result@[j]).0@, result@[j].1)
                    == pairs_prefix(bl@, package@, i as int)[j],
        decreases bl.entries@.len() - i,
    {
        let entry = &bl.entries[i];
        proof {
            assert(bl@[i as int] == bl.entries@[i as int]@);
        }
        if entry.package == *package {
            result.push((entry.repository.clone(), entry.arch));
        }
        i = i + 1;
    }
    result
}

/// The (name, verification hash) pairs of a package-info list, in
/// list order.
pub open spec fn existing_pairs(infos: Seq<PackageInfoView>) -> Seq<(Seq<char>, Seq<char>)> {
    infos.map_values(|p: PackageInfoView| (p.package.name, p.verifymd5))
}

/// The view of an executable (name, hash) map.
pub open spec fn map_view(pairs: Seq<(String, String)>) -> Seq<(Seq<char>, Seq<char>)> {
    pairs.map_values(|pr: (String, String)| (pr.0@, pr.1@))
}

/// The verification hash the map holds for a name; with repeated
/// names, the last entry wins, as filling a keyed map entry by entry
/// would have it.
pub open spec fn lookup_md5(pairs: Seq<(Seq<char>, Seq<char>)>, name: Seq<char>) -> Option<
    Seq<char>,
>
    decreases pairs.len(),
{
    if pairs.len() == 0 {
        None
    } else if pairs.last().0 == name {
        Some(pairs.last().1)
    } else {
        lookup_md5(pairs.drop_last(), name)
    }
}

/// Builds the destination's (name, verification hash) map from its
/// package list.
pub fn build_existing_map(infos: &Vec<PackageInfo>) -> (r: Vec<(String, String)>)
    ensures
        map_view(r@) == existing_pairs(infos.deep_view()),
{
    let mut result: Vec<(String, String)> = Vec::new();
    let mut i: usize = 0;
    while i < infos.len()
        invariant
            0 <= i <= infos@.len(),
            result@.len() == i,
            forall|j: int|
                0 <= j < i ==> (#[trigger] result@[j]).0@ == infos@[j].package.name@
                    && result@[j].1@ == infos@[j].verifymd5@,
        decreases infos@.len() - i,
    {
        let info = &infos[i];
        result.push((String::from_str(info.package.name()), info.verifymd5.clone()));
        i = i + 1;
    }
    proof {
        assert(map_view(result@) =~= existing_pairs(infos.deep_view()));
    }
    result
}

/// Looks the name up in the map, last entry first.
pub fn existing_md5<'a>(map: &'a Vec<(String, String)>, name: &str) -> (r: Option<&'a String>)
    ensures
        match r {
            Some(v) => lookup_md5(map_view(map@), name@) == Some(v@),
            None => lookup_md5(map_view(map@), name@) is None,
        },
{
    let mut i: usize = map.len();
    proof {
        assert(map_view(map@).take(map@.len() as int) =~= map_view(map@));
    }
    while i > 0
        invariant
            0 <= i <= map@.len(),
            lookup_md5(map_view(map@), name@) == lookup_md5(
                map_view(map@).take(i as int),
                name@,
            ),
        decreases i,
    {
        proof {
            assert(map_view(map@).take(i as int).last() == (map@[i - 1].0@, map@[i - 1].1@));
            assert(map_view(map@).take(i as int).drop_last() =~= map_view(map@).take(i - 1));
        }
        if str_eq(map[i - 1].0.as_str(), name) {
            return Some(&map[i - 1].1);
        }
        i = i - 1;
    }
    proof {
        assert(map_view(map@).take(0) =~= Seq::<(Seq<char>, Seq<char>)>::empty());
    }
    None
}

/// What the resolver decides for one package snapshot: nothing when
/// the destination already has the name with an equal verification
/// hash, otherwise a submission of the source package, carrying its
/// revision, to the same name in the destination.
pub open spec fn decision_of(
    existing: Seq<(Seq<char>, Seq<char>)>,
    p: PackageInfoView,
    dst: ProjectView,
) -> Option<ActionView> {
    if lookup_md5(existing, p.package.name) == Some(p.verifymd5) {
        None
    } else {
        Some(
            ActionView::Submit {
                source: p.package,
                source_rev: Some(p.rev),
                target: (PackageView { name: p.package.name, project: dst }),
            },
        )
    }
}


/// The names of the queued package snapshots, in queue order.
pub open spec fn queue_names(q: Seq<PackageInfoView>) -> Seq<Seq<char>> {
    q.map_values(|p: PackageInfoView| p.package.name)
}

/// Whether any snapshot in the sequence carries the name.
pub open spec fn names_contain(q: Seq<PackageInfoView>, n: Seq<char>) -> bool {
    exists|j: int| 0 <= j < q.len() && (#[trigger] q[j]).package.name == n
}

/// Keeps the first snapshot of each package name, in order: what
/// seeding the work queue from the base set leaves in it.
pub open spec fn seed_of(base: Seq<PackageInfoView>) -> Seq<PackageInfoView>
    decreases base.len(),
{
    if base.len() == 0 {
        Seq::empty()
    } else {
        let prev = seed_of(base.drop_last());
        if names_contain(base.drop_last(), base.last().package.name) {
            prev
        } else {
            prev.push(base.last())
        }
    }
}

/// The names in the seed are exactly the names in the base set, and
/// each occurs once.
pub proof fn lemma_seed_names(base: Seq<PackageInfoView>)
    ensures
        forall|n: Seq<char>| names_contain(seed_of(base), n) <==> names_contain(base, n),
        queue_names(seed_of(base)).no_duplicates(),
    decreases base.len(),
{
    if base.len() > 0 {
        lemma_seed_names(base.drop_last());
        let prev = seed_of(base.drop_last());
        let last = base.last();
        let s = seed_of(base);
        let dup = names_contain(base.drop_last(), last.package.name);
        assert forall|n: Seq<char>| names_contain(s, n) implies names_contain(base, n) by {
            let j = choose|j: int| 0 <= j < s.len() && (#[trigger] s[j]).package.name == n;
            if !dup && j == s.len() - 1 {
                assert(base[base.len() - 1].package.name == n);
            } else {
                assert(s[j] == prev[j]);
                assert(names_contain(prev, n));
                assert(names_contain(base.drop_last(), n));
                let k = choose|k: int|
                    0 <= k < base.drop_last().len() && (#[trigger] base.drop_last()[k]).package.name
                        == n;
                assert(base.drop_last()[k] == base[k]);
                assert(base[k].package.name == n);
            }
        }
        assert forall|n: Seq<char>| names_contain(base, n) implies names_contain(s, n) by {
            let j = choose|j: int| 0 <= j < base.len() && (#[trigger] base[j]).package.name == n;
            if j < base.len() - 1 {
                assert(base.drop_last()[j] == base[j]);
                assert(names_contain(base.drop_last(), n));
                assert(names_contain(prev, n));
                let k = choose|k: int|
                    0 <= k < prev.len() && (#[trigger] prev[k]).package.name == n;
                assert(s[k] == prev[k]);
                assert(s[k].package.name == n);
            } else {
                if dup {
                    assert(names_contain(base.drop_last(), n));
                    assert(names_contain(prev, n));
                    let k = choose|k: int|
                        0 <= k < prev.len() && (#[trigger] prev[k]).package.name == n;
                    assert(s[k] == prev[k]);
                    assert(s[k].package.name == n);
                } else {
                    assert(s[s.len() - 1].package.name == n);
                }
            }
        }
        if !dup {
            let new_names = queue_names(s);
            assert forall|i: int, j: int| 0 <= i < j < new_names.len() implies new_names[i]
                != new_names[j] by {
                if j < new_names.len() - 1 {
                    assert(queue_names(prev)[i] == new_names[i]);
                    assert(queue_names(prev)[j] == new_names[j]);
                } else {
                    assert(new_names[j] == last.package.name);
                    assert(prev[i].package.name == new_names[i]);
                    assert(names_contain(prev, new_names[i]));
                    if new_names[i] == last.package.name {
                        assert(names_contain(base.drop_last(), last.package.name));
                    }
                }
            }
        } else {
            assert(queue_names(s) == queue_names(prev));
        }
    }
}

/// The first snapshot in the sequence that carries the name: the one
/// whose decision stands for that name.
pub open spec fn first_with_name(s: Seq<PackageInfoView>, n: Seq<char>) -> PackageInfoView
    decreases s.len(),
{
    if s.len() == 0 {
        vstd::pervasive::arbitrary()
    } else if names_contain(s.drop_last(), n) {
        first_with_name(s.drop_last(), n)
    } else {
        s.last()
    }
}

/// Every seeded snapshot is the first base snapshot of its name.
pub proof fn lemma_seed_first(base: Seq<PackageInfoView>)
    ensures
        forall|i: int|
            0 <= i < seed_of(base).len() ==> #[trigger] seed_of(base)[i] == first_with_name(
                base,
                seed_of(base)[i].package.name,
            ),
    decreases base.len(),
{
    if base.len() > 0 {
        lemma_seed_first(base.drop_last());
        let prev = seed_of(base.drop_last());
        let s = seed_of(base);
        assert forall|i: int| 0 <= i < s.len() implies #[trigger] s[i] == first_with_name(
            base,
            s[i].package.name,
        ) by {
            if names_contain(base.drop_last(), base.last().package.name) {
                assert(s[i] == prev[i]);
                assert(prev[i] == first_with_name(base.drop_last(), prev[i].package.name));
                lemma_seed_names(base.drop_last());
                assert(names_contain(prev, prev[i].package.name));
                assert(names_contain(base.drop_last(), prev[i].package.name));
            } else {
                if i < s.len() - 1 {
                    assert(s[i] == prev[i]);
                    assert(prev[i] == first_with_name(base.drop_last(), prev[i].package.name));
                    lemma_seed_names(base.drop_last());
                    assert(names_contain(prev, prev[i].package.name));
                    assert(names_contain(base.drop_last(), prev[i].package.name));
                } else {
                    assert(s[i] == base.last());
                }
            }
        }
    }
}

/// The name an action concerns (forward declaration of the helper the
/// run invariants use).
pub open spec fn base_actions_pinned(
    actions: Seq<ActionView>,
    existing: Seq<(Seq<char>, Seq<char>)>,
    base: Seq<PackageInfoView>,
    dst: ProjectView,
    visited: Seq<Seq<char>>,
) -> bool {
    forall|n: Seq<char>|
        #[trigger] names_contain(base, n) ==> {
            let d = decision_of(existing, first_with_name(base, n), dst);
            &&& forall|m: int|
                0 <= m < actions.len() && action_name(#[trigger] actions[m]) == n ==> Some(
                    actions[m],
                ) == d
            &&& (visited.contains(n) && d is Some ==> actions.contains(d->0))
        }
}

/// Whether some allow-listed project's stored binary list mentions a
/// package of the name: how a name can enter the traversal beyond the
/// base set.
pub open spec fn named_in_allowed_lists(
    lists: Seq<ProjectBins>,
    allowed: Seq<Seq<char>>,
    n: Seq<char>,
) -> bool {
    exists|i: int, k: int|
        0 <= i < lists.len() && crate::strutil::seq_contains_string(
            allowed,
            (#[trigger] lists[i]).project@.name,
        ) && 0 <= k < lists[i].bins@.len() && (#[trigger] lists[i].bins@[k]).package.name == n
}

/// Whether no package of an allow-listed project's stored binary list
/// serves the named binary for its repository: the condition under
/// which a dependency is warned about and skipped.
/// No entry of the binary list serves the named binary for the
/// repository.
pub open spec fn no_source_in_list(
    bins: Seq<BinEntryView>,
    repov: RepositoryView,
    name: Seq<char>,
) -> bool {
    forall|k: int| 0 <= k < bins.len() ==> !entry_has_binary(#[trigger] bins[k], repov, name)
}

pub open spec fn unlocatable_in_lists(
    lists: Seq<ProjectBins>,
    allowed: Seq<Seq<char>>,
    name: Seq<char>,
) -> bool {
    exists|i: int, repov: RepositoryView|
        #![trigger no_source_in_list(lists[i].bins@, repov, name)]
        0 <= i < lists.len() && lists[i].project@ == repov.project
            && crate::strutil::seq_contains_string(allowed, repov.project.name)
            && no_source_in_list(lists[i].bins@, repov, name)
}

/// Appends the decision for one package, collapsing structural
/// duplicates as a set of actions would.
pub open spec fn apply_decision(actions: Seq<ActionView>, d: Option<ActionView>) -> Seq<
    ActionView,
> {
    match d {
        None => actions,
        Some(a) => if actions.contains(a) {
            actions
        } else {
            actions.push(a)
        },
    }
}

/// The deduplicated decisions for a whole queue of package snapshots,
/// in queue order.
pub open spec fn queue_decisions(
    existing: Seq<(Seq<char>, Seq<char>)>,
    q: Seq<PackageInfoView>,
    dst: ProjectView,
) -> Seq<ActionView>
    decreases q.len(),
{
    if q.len() == 0 {
        Seq::empty()
    } else {
        apply_decision(
            queue_decisions(existing, q.drop_last(), dst),
            decision_of(existing, q.last(), dst),
        )
    }
}

/// The actions the base set alone gives rise to: for the first
/// occurrence of each package name, no action when the destination
/// already has the name with an equal verification hash, and one
/// submission otherwise.
pub open spec fn base_decisions(
    existing: Seq<(Seq<char>, Seq<char>)>,
    base: Seq<PackageInfoView>,
    dst: ProjectView,
) -> Seq<ActionView> {
    queue_decisions(existing, seed_of(base), dst)
}

/// Whether an action vector holds the given action.
fn actions_contains(v: &Vec<Action>, a: &Action) -> (r: bool)
    ensures
        r == v.deep_view().contains(a@),
{
    let mut i: usize = 0;
    while i < v.len()
        invariant
            0 <= i <= v@.len(),
            forall|j: int| 0 <= j < i ==> v.deep_view()[j] != a@,
        decreases v@.len() - i,
    {
        assert(v.deep_view()[i as int] == v@[i as int]@);
        if &v[i] == a {
            assert(v.deep_view().contains(a@));
            return true;
        }
        i = i + 1;
    }
    assert(forall|j: int| 0 <= j < v.deep_view().len() ==> v.deep_view()[j] != a@);
    false
}

/// Whether any queued snapshot carries the name.
fn queue_contains_name(queue: &Vec<PackageInfo>, name: &str) -> (r: bool)
    ensures
        r == names_contain(queue.deep_view(), name@),
{
    let mut i: usize = 0;
    while i < queue.len()
        invariant
            0 <= i <= queue@.len(),
            forall|j: int|
                0 <= j < i ==> (#[trigger] queue.deep_view()[j]).package.name != name@,
        decreases queue@.len() - i,
    {
        assert(queue.deep_view()[i as int] == queue@[i as int]@);
        if str_eq(queue[i].package.name(), name) {
            assert(names_contain(queue.deep_view(), name@));
            return true;
        }
        i = i + 1;
    }
    false
}

/// The resolver's run state: the destination's (name, hash) map, the
/// FIFO work queue, the visited-name set and the accumulated actions.
#[derive(Debug)]
pub struct Resolver {
    pub existing: Vec<(String, String)>,
    pub destination: Project,
    pub allowed_projects: Vec<String>,
    pub queue: Vec<PackageInfo>,
    pub visited: Vec<String>,
    pub actions: Vec<Action>,
}

impl Resolver {
    /// The run-state invariant: no name is visited twice, the queue
    /// holds each name at most once, and nothing queued was visited.
    pub open spec fn wf(self) -> bool {
        &&& self.visited.deep_view().no_duplicates()
        &&& queue_names(self.queue.deep_view()).no_duplicates()
        &&& forall|i: int|
            0 <= i < self.queue.deep_view().len() ==> !self.visited.deep_view().contains(
                (#[trigger] self.queue.deep_view()[i]).package.name,
            )
    }

    /// Starts a run: builds the destination's (name, hash) map and
    /// seeds the work queue with the base set, first occurrence of
    /// each name.
    pub fn new(
        existing_packages: &Vec<PackageInfo>,
        base_packages: &Vec<PackageInfo>,
        destination: Project,
        fetch_deps_projects: Vec<String>,
    ) -> (r: Self)
        ensures
            r.wf(),
            map_view(r.existing@) == existing_pairs(existing_packages.deep_view()),
            r.destination == destination,
            r.allowed_projects == fetch_deps_projects,
            r.queue.deep_view() == seed_of(base_packages.deep_view()),
            r.visited@.len() == 0,
            r.actions@.len() == 0,
    {
        let existing = build_existing_map(existing_packages);
        let mut queue: Vec<PackageInfo> = Vec::new();
        let mut i: usize = 0;
        while i < base_packages.len()
            invariant
                0 <= i <= base_packages@.len(),
                queue.deep_view() == seed_of(base_packages.deep_view().take(i as int)),
            decreases base_packages@.len() - i,
        {
            let ghost prefix = base_packages.deep_view().take(i as int);
            let ghost next_prefix = base_packages.deep_view().take(i + 1);
            proof {
                assert(next_prefix.drop_last() =~= prefix);
                assert(next_prefix.last() == base_packages.deep_view()[i as int]);
                lemma_seed_names(prefix);
                assert(base_packages.deep_view()[i as int] == base_packages@[i as int]@);
            }
            let p = &base_packages[i];
            if !queue_contains_name(&queue, p.package.name()) {
                let ghost deep_before = queue.deep_view();
                queue.push(p.clone());
                proof {
                    assert(queue.deep_view() =~= deep_before.push(
                        base_packages.deep_view()[i as int],
                    ));
                }
            }
            i = i + 1;
        }
        proof {
            assert(base_packages.deep_view().take(base_packages@.len() as int)
                =~= base_packages.deep_view());
            lemma_seed_names(base_packages.deep_view());
        }
        let r = Resolver {
            existing,
            destination,
            allowed_projects: fetch_deps_projects,
            queue,
            visited: Vec::new(),
            actions: Vec::new(),
        };
        proof {
            assert(r.visited.deep_view() =~= Seq::<Seq<char>>::empty());
            assert(r.visited.deep_view().no_duplicates());
        }
        r
    }

    /// Whether dependency solving is on: the allow-list is non-empty.
    pub fn solve_deps(&self) -> (r: bool)
        ensures
            r == (self.allowed_projects@.len() > 0),
    {
        self.allowed_projects.len() > 0
    }

    /// Pops the next package off the queue, marks its name visited,
    /// and records the decision for it: nothing when the destination
    /// is in sync for the name, a deduplicated submit action
    /// otherwise.
    pub fn take_next(&mut self) -> (r: Option<PackageInfo>)
        requires
            old(self).wf(),
        ensures
            final(self).wf(),
            final(self).existing == old(self).existing,
            final(self).destination == old(self).destination,
            final(self).allowed_projects == old(self).allowed_projects,
            old(self).queue@.len() == 0 ==> r is None && final(self).queue == old(self).queue
                && final(self).visited == old(self).visited && final(self).actions == old(
                self,
            ).actions,
            old(self).queue@.len() > 0 ==> (match r {
                Some(p) => p@ == old(self).queue.deep_view()[0] && final(self).queue.deep_view()
                    == old(self).queue.deep_view().drop_first() && final(self).visited.deep_view()
                    == old(self).visited.deep_view().push(old(self).queue.deep_view()[0].package.name)
                    && final(self).actions.deep_view() == apply_decision(
                    old(self).actions.deep_view(),
                    decision_of(
                        map_view(old(self).existing@),
                        old(self).queue.deep_view()[0],
                        old(self).destination@,
                    ),
                ),
                None => false,
            }),
    {
        if self.queue.len() == 0 {
            return None;
        }
        let ghost queue_before = self.queue.deep_view();
        let ghost visited_before = self.visited.deep_view();
        let p = self.queue.remove(0);
        proof {
            assert forall|m: int| 0 <= m < self.queue.deep_view().len() implies
                self.queue.deep_view()[m] == queue_before.drop_first()[m] by {
                assert(self.queue@[m] == old(self).queue@.remove(0)[m]);
            }
            assert(self.queue.deep_view() =~= queue_before.drop_first());
            assert(p@ == queue_before[0]);
        }
        self.visited.push(String::from_str(p.package.name()));
        proof {
            assert forall|m: int| 0 <= m < self.visited.deep_view().len() implies
                self.visited.deep_view()[m] == visited_before.push(p@.package.name)[m] by {
                if m < visited_before.len() {
                    assert(self.visited@[m] == old(self).visited@[m]);
                }
            }
            assert(self.visited.deep_view() =~= visited_before.push(p@.package.name));
            assert forall|i: int, j: int|
                0 <= i < j < self.visited.deep_view().len() implies self.visited.deep_view()[i]
                != self.visited.deep_view()[j] by {
                if j == self.visited.deep_view().len() - 1 {
                    assert(!visited_before.contains(queue_before[0].package.name));
                    assert(visited_before[i] != queue_before[0].package.name);
                }
            }
            assert forall|i: int|
                0 <= i < self.queue.deep_view().len() implies !self.visited.deep_view().contains(
                (#[trigger] self.queue.deep_view()[i]).package.name,
            ) by {
                let n = self.queue.deep_view()[i].package.name;
                assert(queue_before[i + 1].package.name == n);
                assert(queue_names(queue_before)[i + 1] == n);
                assert(queue_names(queue_before)[0] == queue_before[0].package.name);
                assert(n != queue_before[0].package.name);
                assert(!visited_before.contains(n));
                if self.visited.deep_view().contains(n) {
                    let k = choose|k: int|
                        0 <= k < self.visited.deep_view().len()
                            && self.visited.deep_view()[k] == n;
                    if k < visited_before.len() {
                        assert(visited_before[k] == n);
                    }
                    assert(false);
                }
            }
            assert forall|i: int, j: int|
                0 <= i < j < queue_names(self.queue.deep_view()).len() implies queue_names(
                self.queue.deep_view(),
            )[i] != queue_names(self.queue.deep_view())[j] by {
                assert(queue_names(queue_before)[i + 1] == queue_names(self.queue.deep_view())[i]);
                assert(queue_names(queue_before)[j + 1] == queue_names(self.queue.deep_view())[j]);
            }
        }
        let synced = match existing_md5(&self.existing, p.package.name()) {
            Some(v) => str_eq(v.as_str(), p.verifymd5.as_str()),
            None => false,
        };
        if !synced {
            let action = Action::Submit {
                source: p.package.clone(),
                source_rev: Some(p.rev),
                target: Package::from_name(
                    String::from_str(p.package.name()),
                    self.destination.clone(),
                ),
            };
            proof {
                assert(decision_of(map_view(self.existing@), p@, self.destination@) == Some(
                    action@,
                ));
            }
            let ghost actions_before = self.actions.deep_view();
            if !actions_contains(&self.actions, &action) {
                self.actions.push(action);
                proof {
                    assert forall|m: int| 0 <= m < self.actions.deep_view().len() implies
                        self.actions.deep_view()[m] == actions_before.push(
                        decision_of(
                            map_view(self.existing@),
                            queue_before[0],
                            self.destination@,
                        )->0,
                    )[m] by {
                        if m < actions_before.len() {
                            assert(self.actions@[m] == old(self).actions@[m]);
                        }
                    }
                    assert(self.actions.deep_view() =~= apply_decision(
                        actions_before,
                        decision_of(map_view(self.existing@), queue_before[0], self.destination@),
                    ));
                }
            }
        } else {
            proof {
                assert(decision_of(map_view(self.existing@), p@, self.destination@) is None);
            }
        }
        Some(p)
    }

    /// Queues a dependency's package snapshot, unless its name was
    /// already visited or is already queued.
    pub fn enqueue(&mut self, dep: PackageInfo)
        requires
            old(self).wf(),
        ensures
            final(self).wf(),
            final(self).existing == old(self).existing,
            final(self).destination == old(self).destination,
            final(self).allowed_projects == old(self).allowed_projects,
            final(self).visited == old(self).visited,
            final(self).actions == old(self).actions,
            final(self).queue.deep_view() == (if old(self).visited.deep_view().contains(
                dep@.package.name,
            ) || names_contain(old(self).queue.deep_view(), dep@.package.name) {
                old(self).queue.deep_view()
            } else {
                old(self).queue.deep_view().push(dep@)
            }),
    {
        let ghost queue_before = self.queue.deep_view();
        let in_visited = crate::strutil::vec_contains_string(&self.visited, dep.package.name());
        proof {
            assert(crate::strutil::seq_contains_string(
                self.visited.deep_view(),
                dep@.package.name,
            ) == self.visited.deep_view().contains(dep@.package.name));
        }
        if in_visited {
            return ;
        }
        if queue_contains_name(&self.queue, dep.package.name()) {
            return ;
        }
        self.queue.push(dep);
        proof {
            assert forall|m: int| 0 <= m < self.queue.deep_view().len() implies
                self.queue.deep_view()[m] == queue_before.push(
                self.queue@[self.queue@.len() - 1]@,
            )[m] by {
                if m < queue_before.len() {
                    assert(self.queue@[m] == old(self).queue@[m]);
                }
            }
            assert(self.queue.deep_view() =~= queue_before.push(
                self.queue@[self.queue@.len() - 1]@,
            ));
            let names = queue_names(self.queue.deep_view());
            assert forall|i: int, j: int| 0 <= i < j < names.len() implies names[i] != names[j] by {
                if j == names.len() - 1 {
                    assert(queue_names(queue_before)[i] == names[i]);
                    assert(!names_contain(queue_before, names[j]));
                    if names[i] == names[j] {
                        assert(queue_before[i].package.name == names[j]);
                    }
                } else {
                    assert(queue_names(queue_before)[i] == names[i]);
                    assert(queue_names(queue_before)[j] == names[j]);
                }
            }
        }
    }
}


impl Clone for BinPackage {
    fn clone(&self) -> (r: Self)
        ensures
            r@ == self@,
    {
        BinPackage {
            name: self.name.clone(),
            version: self.version.clone(),
            release: self.release.clone(),
            arch: self.arch,
            repository: self.repository.clone(),
        }
    }
}

/// The package names a binary list mentions.
pub open spec fn entry_names(entries: Seq<BinEntryView>) -> Set<Seq<char>>
    decreases entries.len(),
{
    if entries.len() == 0 {
        Set::empty()
    } else {
        entry_names(entries.drop_last()).insert(entries.last().package.name)
    }
}

proof fn lemma_entry_names(entries: Seq<BinEntryView>)
    ensures
        entry_names(entries).finite(),
        forall|i: int|
            0 <= i < entries.len() ==> entry_names(entries).contains(
                (#[trigger] entries[i]).package.name,
            ),
    decreases entries.len(),
{
    if entries.len() > 0 {
        lemma_entry_names(entries.drop_last());
        assert forall|i: int| 0 <= i < entries.len() implies entry_names(entries).contains(
            (#[trigger] entries[i]).package.name,
        ) by {
            if i < entries.len() - 1 {
                assert(entries.drop_last()[i] == entries[i]);
                assert(entry_names(entries.drop_last()).contains(entries[i].package.name));
            }
        }
    }
}

/// The package names any stored binary list mentions.
pub open spec fn world_names(lists: Seq<ProjectBins>) -> Set<Seq<char>>
    decreases lists.len(),
{
    if lists.len() == 0 {
        Set::empty()
    } else {
        world_names(lists.drop_last()).union(entry_names(lists.last().bins@))
    }
}

proof fn lemma_world_names(lists: Seq<ProjectBins>)
    ensures
        world_names(lists).finite(),
        forall|i: int|
            0 <= i < lists.len() ==> entry_names((#[trigger] lists[i]).bins@).subset_of(
                world_names(lists),
            ),
    decreases lists.len(),
{
    if lists.len() == 0 {
    } else {
        lemma_world_names(lists.drop_last());
        lemma_entry_names(lists.last().bins@);
        assert forall|i: int| 0 <= i < lists.len() implies entry_names(
            (#[trigger] lists[i]).bins@,
        ).subset_of(world_names(lists)) by {
            if i < lists.len() - 1 {
                assert(lists.drop_last()[i] == lists[i]);
                assert(entry_names(lists[i].bins@).subset_of(world_names(lists.drop_last())));
            }
        }
    }
}

/// The package names the base set mentions.
pub open spec fn base_names(base: Seq<PackageInfoView>) -> Set<Seq<char>>
    decreases base.len(),
{
    if base.len() == 0 {
        Set::empty()
    } else {
        base_names(base.drop_last()).insert(base.last().package.name)
    }
}

proof fn lemma_base_names(base: Seq<PackageInfoView>)
    ensures
        base_names(base).finite(),
        forall|i: int|
            0 <= i < base.len() ==> base_names(base).contains(
                (#[trigger] base[i]).package.name,
            ),
    decreases base.len(),
{
    if base.len() > 0 {
        lemma_base_names(base.drop_last());
        assert forall|i: int| 0 <= i < base.len() implies base_names(base).contains(
            (#[trigger] base[i]).package.name,
        ) by {
            if i < base.len() - 1 {
                assert(base.drop_last()[i] == base[i]);
            }
        }
    }
}

/// Finds the snapshot of the given package in a package list.
fn find_package_info<'a>(infos: &'a Vec<PackageInfo>, package: &Package) -> (r: Option<
    &'a PackageInfo,
>)
    ensures
        match r {
            Some(info) => info@.package == package@ && exists|i: int|
                0 <= i < infos.deep_view().len() && #[trigger] infos.deep_view()[i] == info@
                    && (forall|j: int|
                    0 <= j < i ==> (#[trigger] infos.deep_view()[j]).package != package@),
            None => forall|i: int|
                0 <= i < infos.deep_view().len() ==> (#[trigger] infos.deep_view()[i]).package
                    != package@,
        },
{
    let mut i: usize = 0;
    while i < infos.len()
        invariant
            0 <= i <= infos@.len(),
            forall|j: int|
                0 <= j < i ==> (#[trigger] infos.deep_view()[j]).package != package@,
        decreases infos@.len() - i,
    {
        proof {
            assert(infos.deep_view()[i as int] == infos@[i as int]@);
        }
        if &infos[i].package == package {
            proof {
                assert(#[trigger] infos.deep_view()[i as int] == infos@[i as int]@);
            }
            return Some(&infos[i]);
        }
        i = i + 1;
    }
    None
}

/// What a finished run hands back: the deduplicated actions, the
/// visited names in visit order, and the binary filenames of
/// dependencies whose source package could not be found (warned about
/// and skipped, never fatal).
#[derive(Debug)]
pub struct Resolution {
    pub actions: Vec<Action>,
    pub visited: Vec<String>,
    pub missing_deps: Vec<String>,
}

/// A fatal fault of a resolution run: a snapshot the run needed was
/// not in the store, or a snapshot did not hold the package it must.
/// Any of these aborts the run; there is no partial result.  Each
/// variant carries the identity whose data was absent.
#[derive(Debug)]
pub enum ResolveError {
    MissingBinaryList(Project),
    PackageNotInBinaryList(Package),
    MissingBuildDeps(Package, Repository, BuildArch),
    MissingPackageList(Project),
    MissingPackageInfo(Package),
}

/// No stored dependency entry serves the key.
pub open spec fn no_deps_entry(
    snapshots: Snapshots,
    pkgv: PackageView,
    repov: RepositoryView,
    arch: BuildArch,
) -> bool {
    forall|j: int|
        0 <= j < snapshots.build_deps.deep_view().len() ==> !((
        #[trigger] snapshots.build_deps.deep_view()[j]).package == pkgv
            && snapshots.build_deps.deep_view()[j].repository == repov
            && snapshots.build_deps.deep_view()[j].arch == arch)
}

/// What each fatal fault attests about the snapshot store: the named
/// thing is genuinely absent from it.
pub open spec fn error_witnessed(snapshots: Snapshots, e: ResolveError) -> bool {
    match e {
        ResolveError::MissingBinaryList(p) => forall|i: int|
            0 <= i < snapshots.binary_lists@.len()
                ==> (#[trigger] snapshots.binary_lists@[i]).project@ != p@,
        ResolveError::PackageNotInBinaryList(pkg) => exists|i: int|
            0 <= i < snapshots.binary_lists@.len()
                && (#[trigger] snapshots.binary_lists@[i]).project@ == pkg@.project && pairs_of(
                snapshots.binary_lists@[i].bins@,
                pkg@,
            ).len() == 0,
        ResolveError::MissingBuildDeps(pkg, repo, arch) => no_deps_entry(
            snapshots,
            pkg@,
            repo@,
            arch,
        ),
        ResolveError::MissingPackageList(p) => forall|i: int|
            0 <= i < snapshots.package_lists@.len()
                ==> (#[trigger] snapshots.package_lists@[i]).project@ != p@,
        ResolveError::MissingPackageInfo(pkg) => exists|i: int|
            0 <= i < snapshots.package_lists@.len()
                && (#[trigger] snapshots.package_lists@[i]).project@ == pkg@.project && forall|
                m: int,
            |
                0 <= m < snapshots.package_lists@[i].packages.deep_view().len()
                    ==> (#[trigger] snapshots.package_lists@[i].packages.deep_view()[m]).package
                    != pkg@,
    }
}

/// Computes the actions that synchronize the destination project with
/// the base set, pulling transitive build dependencies from the
/// allow-listed projects.
///
/// Each distinct package name is visited at most once, however often
/// it is discovered, so cyclic or diamond-shaped dependency graphs
/// terminate without duplicate work.  With an empty allow-list the
/// output is exactly the base-set decisions: no dependency is pulled
/// in, and no snapshot is read, so the run cannot fail.
///
/// Whatever the allow-list, every base name is visited, the action
/// recorded under a base name is exactly the decision for the first
/// base snapshot of that name, every other visited name was located
/// through an allow-listed project's stored binary list, each skipped
/// dependency is reported by a binary filename no such list can serve,
/// and a fatal fault names something genuinely absent from the store.
#[verifier::loop_isolation(false)]
#[verifier::rlimit(100)]
pub fn get_actions(
    snapshots: &Snapshots,
    existing_packages: &Vec<PackageInfo>,
    base_packages: &Vec<PackageInfo>,
    destination_project: &Project,
    fetch_deps_projects: Vec<String>,
) -> (r: Result<Resolution, ResolveError>)
    ensures
        match r {
            Ok(res) => {
                &&& res.visited.deep_view().no_duplicates()
                &&& res.actions.deep_view().no_duplicates()
                &&& forall|m: int|
                    0 <= m < res.actions.deep_view().len() ==> exists|pv: PackageInfoView|
                        decision_of(
                            existing_pairs(existing_packages.deep_view()),
                            pv,
                            destination_project@,
                        ) == Some(#[trigger] res.actions.deep_view()[m])
                &&& fetch_deps_projects@.len() == 0 ==> res.actions.deep_view()
                    == base_decisions(
                    existing_pairs(existing_packages.deep_view()),
                    base_packages.deep_view(),
                    destination_project@,
                ) && res.missing_deps@.len() == 0
                &&& forall|n: Seq<char>|
                    #[trigger] names_contain(base_packages.deep_view(), n)
                        ==> res.visited.deep_view().contains(n)
                &&& base_actions_pinned(
                    res.actions.deep_view(),
                    existing_pairs(existing_packages.deep_view()),
                    base_packages.deep_view(),
                    destination_project@,
                    res.visited.deep_view(),
                )
                &&& forall|i: int|
                    0 <= i < res.visited.deep_view().len() ==> names_contain(
                        base_packages.deep_view(),
                        #[trigger] res.visited.deep_view()[i],
                    ) || named_in_allowed_lists(
                        snapshots.binary_lists@,
                        fetch_deps_projects.deep_view(),
                        res.visited.deep_view()[i],
                    )
                &&& forall|m: int|
                    0 <= m < res.missing_deps.deep_view().len() ==> unlocatable_in_lists(
                        snapshots.binary_lists@,
                        fetch_deps_projects.deep_view(),
                        #[trigger] res.missing_deps.deep_view()[m],
                    )
            },
            Err(e) => fetch_deps_projects@.len() > 0 && error_witnessed(*snapshots, e),
        },
{
    let ghost allowed0 = fetch_deps_projects@.len() as int;
    let ghost basev = base_packages.deep_view();
    let ghost allowedv = fetch_deps_projects.deep_view();
    let ghost existing_view = existing_pairs(existing_packages.deep_view());
    let ghost dstv = destination_project@;
    let ghost seedv = seed_of(base_packages.deep_view());
    let ghost nset = world_names(snapshots.binary_lists@).union(
        base_names(base_packages.deep_view()),
    );
    proof {
        lemma_world_names(snapshots.binary_lists@);
        lemma_base_names(base_packages.deep_view());
        lemma_seed_names(base_packages.deep_view());
        broadcast use vstd::set_lib::group_set_lib_default;
        broadcast use vstd::set::group_set_axioms;
    }
    let mut resolver = Resolver::new(
        existing_packages,
        base_packages,
        destination_project.clone(),
        fetch_deps_projects,
    );
    let mut missing: Vec<String> = Vec::new();
    proof {
        assert(seedv.skip(0) =~= seedv);
        assert(seedv.take(0) =~= Seq::<PackageInfoView>::empty());
        assert forall|i: int| 0 <= i < resolver.queue.deep_view().len() implies nset.contains(
            (#[trigger] resolver.queue.deep_view()[i]).package.name,
        ) by {
            let n = resolver.queue.deep_view()[i].package.name;
            assert(names_contain(seed_of(base_packages.deep_view()), n));
            assert(names_contain(base_packages.deep_view(), n));
            let j = choose|j: int|
                0 <= j < base_packages.deep_view().len() && (#[trigger] base_packages.deep_view()[j]).package.name
                    == n;
            assert(base_names(base_packages.deep_view()).contains(n));
        }
        assert(resolver.visited.deep_view() =~= Seq::<Seq<char>>::empty());
        lemma_seed_first(basev);
        assert forall|n: Seq<char>| #[trigger] names_contain(basev, n) implies
            resolver.visited.deep_view().contains(n) || names_contain(
            resolver.queue.deep_view(),
            n,
        ) by {
            assert(names_contain(seed_of(basev), n));
        }
        assert forall|i: int|
            0 <= i < resolver.queue.deep_view().len() && names_contain(
                basev,
                (#[trigger] resolver.queue.deep_view()[i]).package.name,
            ) implies resolver.queue.deep_view()[i] == first_with_name(
            basev,
            resolver.queue.deep_view()[i].package.name,
        ) by {
            assert(resolver.queue.deep_view()[i] == seed_of(basev)[i]);
        }
    }
    while resolver.queue.len() > 0
        invariant
            resolver.wf(),
            nset == world_names(snapshots.binary_lists@).union(
                base_names(base_packages.deep_view()),
            ),
            nset.finite(),
            map_view(resolver.existing@) == existing_view,
            resolver.destination@ == dstv,
            resolver.allowed_projects@.len() == allowed0,
            forall|i: int|
                0 <= i < resolver.queue.deep_view().len() ==> nset.contains(
                    (#[trigger] resolver.queue.deep_view()[i]).package.name,
                ),
            forall|i: int|
                0 <= i < resolver.visited.deep_view().len() ==> nset.contains(
                    #[trigger] resolver.visited.deep_view()[i],
                ),
            resolver.actions.deep_view().no_duplicates(),
            forall|m: int|
                0 <= m < resolver.actions.deep_view().len() ==> exists|pv: PackageInfoView|
                    decision_of(existing_view, pv, dstv) == Some(
                        #[trigger] resolver.actions.deep_view()[m],
                    ),
            resolver.allowed_projects == fetch_deps_projects,
            forall|n: Seq<char>|
                #[trigger] names_contain(basev, n) ==> resolver.visited.deep_view().contains(n)
                    || names_contain(resolver.queue.deep_view(), n),
            forall|i: int|
                0 <= i < resolver.queue.deep_view().len() && names_contain(
                    basev,
                    (#[trigger] resolver.queue.deep_view()[i]).package.name,
                ) ==> resolver.queue.deep_view()[i] == first_with_name(
                    basev,
                    resolver.queue.deep_view()[i].package.name,
                ),
            base_actions_pinned(
                resolver.actions.deep_view(),
                existing_view,
                basev,
                dstv,
                resolver.visited.deep_view(),
            ),
            forall|m: int|
                0 <= m < resolver.actions.deep_view().len()
                    ==> resolver.visited.deep_view().contains(
                    action_name(#[trigger] resolver.actions.deep_view()[m]),
                ),
            forall|i: int|
                0 <= i < resolver.visited.deep_view().len() ==> names_contain(
                    basev,
                    #[trigger] resolver.visited.deep_view()[i],
                ) || named_in_allowed_lists(
                    snapshots.binary_lists@,
                    allowedv,
                    resolver.visited.deep_view()[i],
                ),
            forall|i: int|
                0 <= i < resolver.queue.deep_view().len() ==> names_contain(
                    basev,
                    (#[trigger] resolver.queue.deep_view()[i]).package.name,
                ) || named_in_allowed_lists(
                    snapshots.binary_lists@,
                    allowedv,
                    resolver.queue.deep_view()[i].package.name,
                ),
            forall|m: int|
                0 <= m < missing.deep_view().len() ==> unlocatable_in_lists(
                    snapshots.binary_lists@,
                    allowedv,
                    #[trigger] missing.deep_view()[m],
                ),
            allowed0 == 0 ==> {
                let k = resolver.visited.deep_view().len() as int;
                &&& resolver.queue.deep_view() == seedv.skip(k)
                &&& resolver.actions.deep_view() == queue_decisions(
                    existing_view,
                    seedv.take(k),
                    dstv,
                )
                &&& missing@.len() == 0
                &&& k <= seedv.len()
            },
        decreases nset.len() - resolver.visited.deep_view().len(),
    {
        let ghost k0 = resolver.visited.deep_view().len() as int;
        let ghost actions0 = resolver.actions.deep_view();
        let ghost queue0 = resolver.queue.deep_view();
        let ghost visited0 = resolver.visited.deep_view();
        let p = match resolver.take_next() {
            Some(p) => p,
            None => {
                proof {
                    assert(false);
                }
                return Err(
                    ResolveError::MissingBinaryList(Project::from_name(String::new(), "")),
                );
            },
        };
        proof {
            // The freshly visited name is in the universe, so the
            // visited set stays inside it and the measure shrinks.
            assert forall|i: int|
                0 <= i < resolver.visited.deep_view().len() implies nset.contains(
                #[trigger] resolver.visited.deep_view()[i],
            ) by {
                if i < k0 {
                } else {
                    assert(resolver.visited.deep_view()[i] == queue0[0].package.name);
                }
            }
            resolver.visited.deep_view().unique_seq_to_set();
            vstd::set_lib::lemma_len_subset(
                resolver.visited.deep_view().to_set(),
                nset,
            );
            if allowed0 == 0 {
                assert(queue0[0] == seedv[k0]);
                assert(queue0.drop_first() =~= seedv.skip(k0 + 1));
                assert(seedv.take(k0 + 1).drop_last() =~= seedv.take(k0));
                assert(seedv.take(k0 + 1).last() == seedv[k0]);
                assert(resolver.actions.deep_view() == queue_decisions(
                    existing_view,
                    seedv.take(k0 + 1),
                    dstv,
                ));
            }
            match decision_of(existing_view, queue0[0], dstv) {
                Some(a) => {
                    if !actions0.contains(a) {
                        assert forall|i: int, j: int|
                            0 <= i < j < resolver.actions.deep_view().len() implies
                            resolver.actions.deep_view()[i] != resolver.actions.deep_view()[j] by {
                            if j == resolver.actions.deep_view().len() - 1 {
                                assert(resolver.actions.deep_view()[j] == a);
                                assert(actions0[i] == resolver.actions.deep_view()[i]);
                                if resolver.actions.deep_view()[i] == a {
                                    assert(actions0.contains(a));
                                }
                            }
                        }
                    }
                },
                None => {},
            }
            // bookkeeping for the base-name clauses
            let pname = queue0[0].package.name;
            let d0 = decision_of(existing_view, queue0[0], dstv);
            let actions1 = resolver.actions.deep_view();
            let visited1 = resolver.visited.deep_view();
            let queue1 = resolver.queue.deep_view();
            assert(forall|m: int| 0 <= m < actions0.len() ==> actions1[m] == #[trigger] actions0[m]);
            assert(actions1.len() == actions0.len() || (actions1.len() == actions0.len() + 1
                && d0 is Some && actions1[actions0.len() as int] == d0->0));
            assert forall|x: ActionView| actions0.contains(x) implies actions1.contains(x) by {
                let ix = choose|ix: int| 0 <= ix < actions0.len() && #[trigger] actions0[ix] == x;
                assert(actions1[ix] == x);
            }
            assert forall|x: Seq<char>| visited0.contains(x) implies visited1.contains(x) by {
                let ix = choose|ix: int| 0 <= ix < visited0.len() && #[trigger] visited0[ix] == x;
                assert(visited1[ix] == x);
            }
            assert(visited1[visited1.len() - 1] == pname);
            // base names stay covered by the queue or the visited set
            assert forall|n: Seq<char>| #[trigger] names_contain(basev, n) implies
                visited1.contains(n) || names_contain(queue1, n) by {
                if visited0.contains(n) {
                } else {
                    let j = choose|j: int|
                        0 <= j < queue0.len() && (#[trigger] queue0[j]).package.name == n;
                    if j == 0 {
                        assert(visited1.contains(n));
                    } else {
                        assert(queue1[j - 1] == queue0[j]);
                    }
                }
            }
            // remaining base-named queue items are still the first snapshots
            assert forall|i: int|
                0 <= i < queue1.len() && names_contain(
                    basev,
                    (#[trigger] queue1[i]).package.name,
                ) implies queue1[i] == first_with_name(basev, queue1[i].package.name) by {
                assert(queue1[i] == queue0[i + 1]);
            }
            // every action's name is visited
            assert forall|m: int| 0 <= m < actions1.len() implies visited1.contains(
                action_name(#[trigger] actions1[m]),
            ) by {
                if m < actions0.len() {
                    assert(visited0.contains(action_name(actions0[m])));
                } else {
                    assert(action_name(actions1[m]) == pname);
                }
            }
            // the decisions recorded for base names stay pinned
            assert forall|n: Seq<char>| #[trigger] names_contain(basev, n) implies ({
                let d = decision_of(existing_view, first_with_name(basev, n), dstv);
                &&& forall|m: int|
                    0 <= m < actions1.len() && action_name(#[trigger] actions1[m]) == n ==> Some(
                        actions1[m],
                    ) == d
                &&& (visited1.contains(n) && d is Some ==> actions1.contains(d->0))
            }) by {
                let d = decision_of(existing_view, first_with_name(basev, n), dstv);
                assert forall|m: int|
                    0 <= m < actions1.len() && action_name(#[trigger] actions1[m]) == n implies
                    Some(actions1[m]) == d by {
                    if m < actions0.len() {
                        assert(action_name(actions0[m]) == n);
                    } else {
                        assert(actions1[m] == d0->0);
                        assert(action_name(d0->0) == pname);
                        assert(n == pname);
                        assert(queue0[0] == first_with_name(basev, pname));
                    }
                }
                if visited1.contains(n) && d is Some {
                    if visited0.contains(n) {
                        assert(actions0.contains(d->0));
                        assert(actions1.contains(d->0));
                    } else {
                        let ix = choose|ix: int|
                            0 <= ix < visited1.len() && #[trigger] visited1[ix] == n;
                        if ix < visited0.len() {
                            assert(visited0[ix] == n);
                            assert(false);
                        }
                        assert(n == pname);
                        assert(queue0[0] == first_with_name(basev, pname));
                        assert(d0 == d);
                        match d0 {
                            Some(a) => {
                                if actions0.contains(a) {
                                    assert(actions1.contains(a));
                                } else {
                                    assert(actions1[actions1.len() - 1] == a);
                                }
                            },
                            None => {
                                assert(false);
                            },
                        }
                    }
                }
            }
            // where the visited names come from
            assert forall|i: int| 0 <= i < visited1.len() implies names_contain(
                basev,
                #[trigger] visited1[i],
            ) || named_in_allowed_lists(snapshots.binary_lists@, allowedv, visited1[i]) by {
                if i < visited0.len() {
                } else {
                    assert(visited1[i] == queue0[0].package.name);
                }
            }
            assert forall|i: int| 0 <= i < queue1.len() implies names_contain(
                basev,
                (#[trigger] queue1[i]).package.name,
            ) || named_in_allowed_lists(
                snapshots.binary_lists@,
                allowedv,
                queue1[i].package.name,
            ) by {
                assert(queue1[i] == queue0[i + 1]);
            }
        }
        if resolver.solve_deps() {
            let binlist = match snapshots.binary_list(&p.package.project) {
                Some(bl) => bl,
                None => {
                    return Err(ResolveError::MissingBinaryList(p.package.project.clone()));
                },
            };
            let pairs = package_pairs(binlist, &p.package);
            if pairs.len() == 0 {
                proof {
                    let i = choose|i: int|
                        0 <= i < snapshots.binary_lists@.len()
                            && (#[trigger] snapshots.binary_lists@[i]).project@
                            == p.package.project@ && binlist == &snapshots.binary_lists@[i].bins;
                    assert(pairs_of(snapshots.binary_lists@[i].bins@, p.package@).len() == 0);
                }
                return Err(ResolveError::PackageNotInBinaryList(p.package.clone()));
            }
            let mut deps: Vec<BinPackage> = Vec::new();
            let mut pi: usize = 0;
            while pi < pairs.len()
                invariant
                    0 <= pi <= pairs@.len(),
                    forall|m: int|
                        0 <= m < deps.deep_view().len() ==> crate::strutil::seq_contains_string(
                            allowedv,
                            (#[trigger] deps.deep_view()[m]).repository.project.name,
                        ),
                decreases pairs@.len() - pi,
            {
                let pair = &pairs[pi];
                match snapshots.deps_of(&p.package, &pair.0, pair.1) {
                    None => {
                        return Err(
                            ResolveError::MissingBuildDeps(
                                p.package.clone(),
                                pair.0.clone(),
                                pair.1,
                            ),
                        );
                    },
                    Some(list) => {
                        let mut di: usize = 0;
                        while di < list.len()
                            invariant
                                0 <= di <= list@.len(),
                                forall|m: int|
                                    0 <= m < deps.deep_view().len()
                                        ==> crate::strutil::seq_contains_string(
                                        allowedv,
                                        (#[trigger] deps.deep_view()[m]).repository.project.name,
                                    ),
                            decreases list@.len() - di,
                        {
                            let d = &list[di];
                            let dep_project_name = d.repository.project().name();
                            if crate::strutil::vec_contains_string(
                                &resolver.allowed_projects,
                                dep_project_name.as_str(),
                            ) {
                                let ghost deps_vec_before = deps@;
                                let ghost deps_deep_before = deps.deep_view();
                                deps.push(d.clone());
                                proof {
                                    assert forall|m: int|
                                        0 <= m < deps.deep_view().len() implies
                                        crate::strutil::seq_contains_string(
                                        allowedv,
                                        (#[trigger] deps.deep_view()[m]).repository.project.name,
                                    ) by {
                                        assert(deps.deep_view()[m] == deps@[m].deep_view());
                                        if m < deps_vec_before.len() {
                                            assert(deps@[m] == deps_vec_before[m]);
                                            assert(deps_deep_before[m]
                                                == deps_vec_before[m].deep_view());
                                        } else {
                                            assert(deps@[m]@ == d@);
                                        }
                                    }
                                }
                            }
                            di = di + 1;
                        }
                    },
                }
                pi = pi + 1;
            }
            let mut qi: usize = 0;
            while qi < deps.len()
                invariant
                    0 <= qi <= deps@.len(),
                    resolver.wf(),
                    nset == world_names(snapshots.binary_lists@).union(
                        base_names(base_packages.deep_view()),
                    ),
                    nset.finite(),
                    map_view(resolver.existing@) == existing_view,
                    resolver.destination@ == dstv,
                    resolver.allowed_projects@.len() == allowed0,
                    allowed0 > 0,
                    forall|i: int|
                        0 <= i < resolver.queue.deep_view().len() ==> nset.contains(
                            (#[trigger] resolver.queue.deep_view()[i]).package.name,
                        ),
                    forall|i: int|
                        0 <= i < resolver.visited.deep_view().len() ==> nset.contains(
                            #[trigger] resolver.visited.deep_view()[i],
                        ),
                    resolver.visited.deep_view().len() == k0 + 1,
                    resolver.actions.deep_view().no_duplicates(),
                    forall|m: int|
                        0 <= m < resolver.actions.deep_view().len() ==> exists|
                            pv: PackageInfoView,
                        |
                            decision_of(existing_view, pv, dstv) == Some(
                                #[trigger] resolver.actions.deep_view()[m],
                            ),
                    resolver.allowed_projects == fetch_deps_projects,
                    forall|m: int|
                        0 <= m < deps.deep_view().len() ==> crate::strutil::seq_contains_string(
                            allowedv,
                            (#[trigger] deps.deep_view()[m]).repository.project.name,
                        ),
                    forall|n: Seq<char>|
                        #[trigger] names_contain(basev, n)
                            ==> resolver.visited.deep_view().contains(n) || names_contain(
                            resolver.queue.deep_view(),
                            n,
                        ),
                    forall|i: int|
                        0 <= i < resolver.queue.deep_view().len() && names_contain(
                            basev,
                            (#[trigger] resolver.queue.deep_view()[i]).package.name,
                        ) ==> resolver.queue.deep_view()[i] == first_with_name(
                            basev,
                            resolver.queue.deep_view()[i].package.name,
                        ),
                    base_actions_pinned(
                        resolver.actions.deep_view(),
                        existing_view,
                        basev,
                        dstv,
                        resolver.visited.deep_view(),
                    ),
                    forall|m: int|
                        0 <= m < resolver.actions.deep_view().len()
                            ==> resolver.visited.deep_view().contains(
                            action_name(#[trigger] resolver.actions.deep_view()[m]),
                        ),
                    forall|i: int|
                        0 <= i < resolver.visited.deep_view().len() ==> names_contain(
                            basev,
                            #[trigger] resolver.visited.deep_view()[i],
                        ) || named_in_allowed_lists(
                            snapshots.binary_lists@,
                            allowedv,
                            resolver.visited.deep_view()[i],
                        ),
                    forall|i: int|
                        0 <= i < resolver.queue.deep_view().len() ==> names_contain(
                            basev,
                            (#[trigger] resolver.queue.deep_view()[i]).package.name,
                        ) || named_in_allowed_lists(
                            snapshots.binary_lists@,
                            allowedv,
                            resolver.queue.deep_view()[i].package.name,
                        ),
                    forall|m: int|
                        0 <= m < missing.deep_view().len() ==> unlocatable_in_lists(
                            snapshots.binary_lists@,
                            allowedv,
                            #[trigger] missing.deep_view()[m],
                        ),
                decreases deps@.len() - qi,
            {
                let dep = &deps[qi];
                let bl2 = match snapshots.binary_list(dep.repository.project()) {
                    Some(bl) => bl,
                    None => {
                        return Err(
                            ResolveError::MissingBinaryList(dep.repository.project().clone()),
                        );
                    },
                };
                let fname = dep_rpm_name(dep);
                match find_dep_source(bl2, &dep.repository, &fname) {
                    None => {
                        let ghost missing_vec_before = missing@;
                        let ghost missing_deep_before = missing.deep_view();
                        let ghost fnamev = fname@;
                        proof {
                            let j = choose|j: int|
                                0 <= j < snapshots.binary_lists@.len()
                                    && (#[trigger] snapshots.binary_lists@[j]).project@
                                    == dep.repository.project@ && bl2
                                    == &snapshots.binary_lists@[j].bins;
                            assert(deps.deep_view()[qi as int] == deps@[qi as int]@);
                            assert(crate::strutil::seq_contains_string(
                                allowedv,
                                dep.repository@.project.name,
                            ));
                            assert(no_source_in_list(
                                snapshots.binary_lists@[j].bins@,
                                dep.repository@,
                                fnamev,
                            )) by {
                                assert forall|k: int|
                                    0 <= k < snapshots.binary_lists@[j].bins@.len() implies
                                    !entry_has_binary(
                                    #[trigger] snapshots.binary_lists@[j].bins@[k],
                                    dep.repository@,
                                    fnamev,
                                ) by {}
                            }
                            assert(unlocatable_in_lists(
                                snapshots.binary_lists@,
                                allowedv,
                                fnamev,
                            )) by {
                                assert(snapshots.binary_lists@[j].project@
                                    == dep.repository@.project);
                                assert(no_source_in_list(
                                    snapshots.binary_lists@[j].bins@,
                                    dep.repository@,
                                    fnamev,
                                ));
                            }
                        }
                        missing.push(fname);
                        proof {
                            assert forall|m: int|
                                0 <= m < missing.deep_view().len() implies unlocatable_in_lists(
                                snapshots.binary_lists@,
                                allowedv,
                                #[trigger] missing.deep_view()[m],
                            ) by {
                                assert(missing.deep_view()[m] == missing@[m]@);
                                if m < missing_vec_before.len() {
                                    assert(missing@[m] == missing_vec_before[m]);
                                    assert(missing_deep_before[m] == missing_vec_before[m]@);
                                } else {
                                    assert(missing@[m]@ == fnamev);
                                }
                            }
                        }
                    },
                    Some(src_pkg) => {
                        let pl = match snapshots.package_list(&src_pkg.project) {
                            Some(pl) => pl,
                            None => {
                                return Err(
                                    ResolveError::MissingPackageList(src_pkg.project.clone()),
                                );
                            },
                        };
                        let info = match find_package_info(pl, src_pkg) {
                            Some(info) => info,
                            None => {
                                proof {
                                    let i = choose|i: int|
                                        0 <= i < snapshots.package_lists@.len()
                                            && (#[trigger] snapshots.package_lists@[i]).project@
                                            == src_pkg.project@ && pl
                                            == &snapshots.package_lists@[i].packages;
                                    assert(forall|m: int|
                                        0 <= m < snapshots.package_lists@[i].packages.deep_view().len()
                                            ==> (
                                        #[trigger] snapshots.package_lists@[i].packages.deep_view()[m]).package
                                            != src_pkg@);
                                }
                                return Err(ResolveError::MissingPackageInfo(src_pkg.clone()));
                            },
                        };
                        let owned = info.clone();
                        proof {
                            // The enqueued name appears in a stored
                            // binary list, so it lies in the universe.
                            let blv = bl2@;
                            let i = choose|i: int|
                                0 <= i < blv.len() && entry_has_binary(
                                    #[trigger] blv[i],
                                    dep.repository@,
                                    fname@,
                                ) && src_pkg@ == blv[i].package;
                            let j = choose|j: int|
                                0 <= j < snapshots.binary_lists@.len()
                                    && (#[trigger] snapshots.binary_lists@[j]).project@
                                    == dep.repository.project@ && bl2
                                    == &snapshots.binary_lists@[j].bins;
                            lemma_entry_names(snapshots.binary_lists@[j].bins@);
                            lemma_world_names(snapshots.binary_lists@);
                            assert(entry_names(snapshots.binary_lists@[j].bins@).contains(
                                src_pkg@.name,
                            ));
                            assert(nset.contains(owned@.package.name));
                            assert(deps.deep_view()[qi as int] == deps@[qi as int]@);
                            assert(crate::strutil::seq_contains_string(
                                allowedv,
                                dep.repository@.project.name,
                            ));
                            assert(snapshots.binary_lists@[j].project@ == dep.repository@.project);
                            assert(snapshots.binary_lists@[j].bins@[i].package.name
                                == owned@.package.name);
                            assert(named_in_allowed_lists(
                                snapshots.binary_lists@,
                                allowedv,
                                owned@.package.name,
                            ));
                        }
                        let ghost ownedv = owned@;
                        let ghost queue_b = resolver.queue.deep_view();
                        let ghost visited_b = resolver.visited.deep_view();
                        resolver.enqueue(owned);
                        proof {
                            let queue_a = resolver.queue.deep_view();
                            if queue_a.len() == queue_b.len() + 1 {
                                assert(queue_a == queue_b.push(ownedv));
                                assert(queue_a[queue_b.len() as int] == ownedv);
                                assert(forall|i2: int|
                                    0 <= i2 < queue_b.len() ==> queue_a[i2]
                                        == #[trigger] queue_b[i2]);
                                assert(!visited_b.contains(ownedv.package.name)
                                    && !names_contain(queue_b, ownedv.package.name));
                                assert(!names_contain(basev, ownedv.package.name));
                                assert forall|n: Seq<char>| #[trigger] names_contain(
                                    basev,
                                    n,
                                ) implies resolver.visited.deep_view().contains(n)
                                    || names_contain(queue_a, n) by {
                                    if names_contain(queue_b, n) {
                                        let w = choose|w: int|
                                            0 <= w < queue_b.len()
                                                && (#[trigger] queue_b[w]).package.name == n;
                                        assert(queue_a[w].package.name == n);
                                    }
                                }
                                assert forall|i2: int|
                                    0 <= i2 < queue_a.len() && names_contain(
                                        basev,
                                        (#[trigger] queue_a[i2]).package.name,
                                    ) implies queue_a[i2] == first_with_name(
                                    basev,
                                    queue_a[i2].package.name,
                                ) by {
                                    if i2 == queue_b.len() {
                                        assert(false);
                                    }
                                }
                                assert forall|i2: int| 0 <= i2 < queue_a.len() implies
                                    names_contain(
                                    basev,
                                    (#[trigger] queue_a[i2]).package.name,
                                ) || named_in_allowed_lists(
                                    snapshots.binary_lists@,
                                    allowedv,
                                    queue_a[i2].package.name,
                                ) by {
                                    if i2 == queue_b.len() {
                                        assert(queue_a[i2] == ownedv);
                                    }
                                }
                            } else {
                                assert(queue_a == queue_b);
                            }
                        }
                    },
                }
                qi = qi + 1;
            }
        }
    }
    proof {
        if allowed0 == 0 {
            let k = resolver.visited.deep_view().len() as int;
            assert(seedv.skip(k).len() == 0);
            assert(k == seedv.len());
            assert(seedv.take(k) =~= seedv);
        }
    }
    Ok(Resolution { actions: resolver.actions, visited: resolver.visited, missing_deps: missing })
}


/// The package name an action concerns.
pub open spec fn action_name(a: ActionView) -> Seq<char> {
    match a {
        ActionView::Submit { source, source_rev, target } => source.name,
        ActionView::Delete(p) => p.name,
    }
}

proof fn lemma_push_contains<A>(s: Seq<A>, x: A, y: A)
    requires
        s.contains(y),
    ensures
        s.push(x).contains(y),
{
    let i = choose|i: int| 0 <= i < s.len() && s[i] == y;
    assert(s.push(x)[i] == y);
}

/// The decisions of a queue hold no structural duplicate: they form a
/// set of actions.
pub proof fn lemma_queue_decisions_no_dup(
    existing: Seq<(Seq<char>, Seq<char>)>,
    q: Seq<PackageInfoView>,
    dst: ProjectView,
)
    ensures
        queue_decisions(existing, q, dst).no_duplicates(),
    decreases q.len(),
{
    if q.len() > 0 {
        lemma_queue_decisions_no_dup(existing, q.drop_last(), dst);
        let prev = queue_decisions(existing, q.drop_last(), dst);
        let qd = queue_decisions(existing, q, dst);
        match decision_of(existing, q.last(), dst) {
            None => {},
            Some(a) => {
                if !prev.contains(a) {
                    assert forall|i: int, j: int| 0 <= i < j < qd.len() implies qd[i] != qd[j] by {
                        if j == qd.len() - 1 {
                            assert(qd[i] == prev[i]);
                            if qd[i] == a {
                                assert(prev.contains(a));
                            }
                        } else {
                            assert(qd[i] == prev[i]);
                            assert(qd[j] == prev[j]);
                        }
                    }
                }
            },
        }
    }
}

/// Every decision in the output is the decision of some queued
/// snapshot.
pub proof fn lemma_queue_decisions_elements(
    existing: Seq<(Seq<char>, Seq<char>)>,
    q: Seq<PackageInfoView>,
    dst: ProjectView,
)
    ensures
        forall|m: int|
            0 <= m < queue_decisions(existing, q, dst).len() ==> exists|j: int|
                0 <= j < q.len() && Some(#[trigger] queue_decisions(existing, q, dst)[m])
                    == decision_of(existing, q[j], dst),
    decreases q.len(),
{
    if q.len() > 0 {
        lemma_queue_decisions_elements(existing, q.drop_last(), dst);
        let prev = queue_decisions(existing, q.drop_last(), dst);
        let qd = queue_decisions(existing, q, dst);
        assert forall|m: int| 0 <= m < qd.len() implies exists|j: int|
            0 <= j < q.len() && Some(#[trigger] qd[m]) == decision_of(existing, q[j], dst) by {
            if m < prev.len() {
                assert(qd[m] == prev[m]);
                let j = choose|j: int|
                    0 <= j < q.drop_last().len() && Some(prev[m]) == decision_of(
                        existing,
                        q.drop_last()[j],
                        dst,
                    );
                assert(q.drop_last()[j] == q[j]);
                assert(Some(qd[m]) == decision_of(existing, q[j], dst));
            } else {
                assert(Some(qd[m]) == decision_of(existing, q[q.len() - 1], dst));
            }
        }
    }
}

/// If a queued snapshot's decision is a submission, that submission
/// stands in the output.
pub proof fn lemma_queue_decisions_contains(
    existing: Seq<(Seq<char>, Seq<char>)>,
    q: Seq<PackageInfoView>,
    dst: ProjectView,
    j: int,
)
    requires
        0 <= j < q.len(),
        decision_of(existing, q[j], dst) is Some,
    ensures
        queue_decisions(existing, q, dst).contains(decision_of(existing, q[j], dst)->0),
    decreases q.len(),
{
    let a = decision_of(existing, q[j], dst)->0;
    let prev = queue_decisions(existing, q.drop_last(), dst);
    let qd = queue_decisions(existing, q, dst);
    if j == q.len() - 1 {
        match decision_of(existing, q.last(), dst) {
            Some(b) => {
                if prev.contains(b) {
                } else {
                    assert(qd[qd.len() - 1] == b);
                }
            },
            None => {
                assert(false);
            },
        }
    } else {
        assert(q.drop_last()[j] == q[j]);
        lemma_queue_decisions_contains(existing, q.drop_last(), dst, j);
        match decision_of(existing, q.last(), dst) {
            Some(b) => {
                if prev.contains(a) {
                    if !prev.contains(b) {
                        lemma_push_contains(prev, b, a);
                    }
                }
            },
            None => {},
        }
    }
}

/// With no repeated package name, seeding the queue keeps the whole
/// base set.
pub proof fn lemma_seed_distinct(base: Seq<PackageInfoView>)
    requires
        queue_names(base).no_duplicates(),
    ensures
        seed_of(base) == base,
    decreases base.len(),
{
    if base.len() > 0 {
        assert forall|i: int, j: int| 0 <= i < j < base.drop_last().len() implies queue_names(
            base.drop_last(),
        )[i] != queue_names(base.drop_last())[j] by {
            assert(queue_names(base)[i] == queue_names(base.drop_last())[i]);
            assert(queue_names(base)[j] == queue_names(base.drop_last())[j]);
        }
        lemma_seed_distinct(base.drop_last());
        if names_contain(base.drop_last(), base.last().package.name) {
            let j = choose|j: int|
                0 <= j < base.drop_last().len() && (#[trigger] base.drop_last()[j]).package.name
                    == base.last().package.name;
            assert(queue_names(base)[j] == base[j].package.name);
            assert(queue_names(base)[base.len() - 1] == base.last().package.name);
            assert(false);
        }
        assert(seed_of(base) =~= base);
    }
}

/// A base-set snapshot whose name the destination already has with an
/// equal verification hash gives rise to no action at all: no element
/// of the base decisions concerns its name.
pub proof fn lemma_synced_base_no_submit(
    existing: Seq<(Seq<char>, Seq<char>)>,
    base: Seq<PackageInfoView>,
    dst: ProjectView,
    k: int,
)
    requires
        queue_names(base).no_duplicates(),
        0 <= k < base.len(),
        lookup_md5(existing, base[k].package.name) == Some(base[k].verifymd5),
    ensures
        forall|m: int|
            0 <= m < base_decisions(existing, base, dst).len() ==> action_name(
                #[trigger] base_decisions(existing, base, dst)[m],
            ) != base[k].package.name,
{
    lemma_seed_distinct(base);
    lemma_queue_decisions_elements(existing, base, dst);
    let bd = base_decisions(existing, base, dst);
    assert forall|m: int| 0 <= m < bd.len() implies action_name(#[trigger] bd[m])
        != base[k].package.name by {
        let j = choose|j: int|
            0 <= j < base.len() && Some(bd[m]) == decision_of(existing, base[j], dst);
        if action_name(bd[m]) == base[k].package.name {
            assert(action_name(bd[m]) == base[j].package.name);
            assert(queue_names(base)[j] == base[j].package.name);
            assert(queue_names(base)[k] == base[k].package.name);
            if j != k {
                assert(queue_names(base)[j] != queue_names(base)[k]);
            }
            assert(j == k);
            assert(decision_of(existing, base[k], dst) is None);
            assert(false);
        }
    }
}

/// A base-set snapshot whose name the destination lacks, or has with a
/// differing verification hash, gives rise to exactly one submission,
/// and it carries the snapshot's revision.
pub proof fn lemma_unsynced_base_one_submit(
    existing: Seq<(Seq<char>, Seq<char>)>,
    base: Seq<PackageInfoView>,
    dst: ProjectView,
    k: int,
)
    requires
        queue_names(base).no_duplicates(),
        0 <= k < base.len(),
        lookup_md5(existing, base[k].package.name) != Some(base[k].verifymd5),
    ensures
        base_decisions(existing, base, dst).contains(
            ActionView::Submit {
                source: base[k].package,
                source_rev: Some(base[k].rev),
                target: (PackageView { name: base[k].package.name, project: dst }),
            },
        ),
        base_decisions(existing, base, dst).no_duplicates(),
{
    lemma_seed_distinct(base);
    lemma_queue_decisions_contains(existing, base, dst, k);
    lemma_queue_decisions_no_dup(existing, base, dst);
}

} // verus!

//! The release action selector: given the source project's binaries,
//! the configured release targets and, for each incremental
//! destination, its own binary list, it computes which
//! (package, source repository, destination repository) tuples must be
//! promoted, suppressing duplicates of already-released content and
//! flagging tag collisions.

use vstd::prelude::*;

use crate::binarylist::BinEntryView;
use crate::binarylist::Binary;
use crate::binarylist::BinaryList;
use crate::fingerprint::BinInfo;
use crate::fingerprint::BinInfoView;
use crate::fingerprint::SidecarStore;
use crate::fingerprint::SidecarEntryView;
use crate::fingerprint::fingerprints;
use crate::fingerprint::fp_set_equal;
use crate::fingerprint::fps_of;
use crate::model::Package;
use crate::model::PackageView;
use crate::model::Project;
use crate::model::ProjectView;
use crate::model::Repository;
use crate::model::RepositoryView;
use crate::strutil::rsplit_at;
use crate::strutil::rsplit_once_at;
use crate::strutil::str_eq;
use crate::strutil::vec_contains_string;

verus! {

/// A configured promotion path: binaries built in the source
/// repository are released into the destination repository.
#[derive(Debug)]
pub struct ReleaseTarget {
    pub src_repository: Repository,
    pub dest_repository: Repository,
}

/// Mathematical content of a [`ReleaseTarget`].
pub struct ReleaseTargetView {
    pub src_repository: RepositoryView,
    pub dest_repository: RepositoryView,
}

impl View for ReleaseTarget {
    type V = ReleaseTargetView;

    open spec fn view(&self) -> ReleaseTargetView {
        (ReleaseTargetView {
            src_repository: self.src_repository@,
            dest_repository: self.dest_repository@,
        })
    }
}

impl DeepView for ReleaseTarget {
    type V = ReleaseTargetView;

    open spec fn deep_view(&self) -> ReleaseTargetView {
        self.view()
    }
}

/// One selected promotion: release the package's binaries from the
/// source repository into the destination repository.
#[derive(Debug)]
pub struct ReleaseTuple {
    pub package: Package,
    pub source: Repository,
    pub destination: Repository,
}

/// Mathematical content of a [`ReleaseTuple`].
pub struct ReleaseTupleView {
    pub package: PackageView,
    pub source: RepositoryView,
    pub destination: RepositoryView,
}

impl View for ReleaseTuple {
    type V = ReleaseTupleView;

    open spec fn view(&self) -> ReleaseTupleView {
        (ReleaseTupleView {
            package: self.package@,
            source: self.source@,
            destination: self.destination@,
        })
    }
}

impl DeepView for ReleaseTuple {
    type V = ReleaseTupleView;

    open spec fn deep_view(&self) -> ReleaseTupleView {
        self.view()
    }
}

impl PartialEq for ReleaseTuple {
    fn eq(&self, other: &Self) -> (r: bool) {
        self.package == other.package && self.source == other.source && self.destination
            == other.destination
    }
}

impl vstd::std_specs::cmp::PartialEqSpecImpl for ReleaseTuple {
    open spec fn obeys_eq_spec() -> bool {
        true
    }

    open spec fn eq_spec(&self, other: &Self) -> bool {
        self@ == other@
    }
}

/// A released tag is about to be taken over: the releasing package
/// publishes a tag that an already-released destination package also
/// publishes, so the release will silently repoint it.
#[derive(Debug)]
pub struct TagWarning {
    pub package: String,
    pub tag: String,
    pub existing_package: String,
    pub project: String,
}

/// Mathematical content of a [`TagWarning`].
pub struct TagWarningView {
    pub package: Seq<char>,
    pub tag: Seq<char>,
    pub existing_package: Seq<char>,
    pub project: Seq<char>,
}

impl View for TagWarning {
    type V = TagWarningView;

    open spec fn view(&self) -> TagWarningView {
        (TagWarningView {
            package: self.package@,
            tag: self.tag@,
            existing_package: self.existing_package@,
            project: self.project@,
        })
    }
}

impl DeepView for TagWarning {
    type V = TagWarningView;

    open spec fn deep_view(&self) -> TagWarningView {
        self.view()
    }
}

/// The binary list of one incremental destination project.
#[derive(Debug)]
pub struct DestSnapshot {
    pub project: Project,
    pub bins: BinaryList,
}

/// What a selection run hands back: the deduplicated promotion tuples
/// and the tag-collision warnings.
#[derive(Debug)]
pub struct Selection {
    pub tuples: Vec<ReleaseTuple>,
    pub warnings: Vec<TagWarning>,
}

/// A fatal fault of a selection run: sidecar metadata missing for a
/// binary that needs it, or a scanned destination package without
/// binaries in the destination repository.
#[derive(Debug)]
pub enum SelectError {
    SidecarMissing(String),
    DestRepositoryMissing(String),
}

/// The part of a package name before its last dot; a name without a
/// dot has an empty base name.  A destination package belongs to a
/// released source package when its base name equals that package's
/// name.
pub open spec fn base_name_of(name: Seq<char>) -> Seq<char> {
    match rsplit_at(name, '.') {
        Some(parts) => parts.0,
        None => Seq::empty(),
    }
}

/// Computes the base name of a package name.
pub fn base_name(name: &str) -> (r: String)
    ensures
        r@ == base_name_of(name@),
{
    match rsplit_once_at(name, '.') {
        Some((before, _)) => before,
        None => String::new(),
    }
}

/// The distinct destination packages whose base name matches, in order
/// of first appearance in the destination's binary list.
pub open spec fn matching_packages(dest: Seq<BinEntryView>, pkg_name: Seq<char>) -> Seq<
    PackageView,
>
    decreases dest.len(),
{
    if dest.len() == 0 {
        Seq::empty()
    } else {
        let prev = matching_packages(dest.drop_last(), pkg_name);
        let q = dest.last().package;
        if base_name_of(q.name) == pkg_name && !prev.contains(q) {
            prev.push(q)
        } else {
            prev
        }
    }
}

/// Whether the destination holds an entry of the package for the
/// repository.
pub open spec fn dest_has_repo(
    dest: Seq<BinEntryView>,
    q: PackageView,
    repo: RepositoryView,
) -> bool {
    exists|i: int|
        0 <= i < dest.len() && (#[trigger] dest[i]).package == q && dest[i].repository == repo
}

/// All binaries the package has in the repository, across
/// architectures, in snapshot order.
pub open spec fn bins_for(
    dest: Seq<BinEntryView>,
    q: PackageView,
    repo: RepositoryView,
) -> Seq<crate::binarylist::BinaryView>
    decreases dest.len(),
{
    if dest.len() == 0 {
        Seq::empty()
    } else {
        let prev = bins_for(dest.drop_last(), q, repo);
        if dest.last().package == q && dest.last().repository == repo {
            prev + dest.last().binaries
        } else {
            prev
        }
    }
}

/// An entry of the package for the repository with binaries makes the
/// collected binary group non-empty.
pub proof fn lemma_bins_for_nonempty(
    dest: Seq<BinEntryView>,
    q: PackageView,
    repo: RepositoryView,
    i: int,
)
    requires
        0 <= i < dest.len(),
        dest[i].package == q,
        dest[i].repository == repo,
    ensures
        bins_for(dest, q, repo).len() >= dest[i].binaries.len(),
    decreases dest.len(),
{
    if i < dest.len() - 1 {
        assert(dest.drop_last()[i] == dest[i]);
        lemma_bins_for_nonempty(dest.drop_last(), q, repo, i);
    }
}

/// Collects the binaries the package has in the repository.
pub fn collect_bins(dest: &BinaryList, q: &Package, repo: &Repository) -> (r: Vec<Binary>)
    ensures
        r.deep_view() == bins_for(dest@, q@, repo@),
{
    let mut result: Vec<Binary> = Vec::new();
    let mut i: usize = 0;
    proof {
        assert(dest@.take(0) =~= Seq::<BinEntryView>::empty());
        assert(result.deep_view() =~= bins_for(dest@.take(0), q@, repo@));
    }
    while i < dest.entries.len()
        invariant
            0 <= i <= dest.entries@.len(),
            result.deep_view() == bins_for(dest@.take(i as int), q@, repo@),
        decreases dest.entries@.len() - i,
    {
        let entry = &dest.entries[i];
        proof {
            assert(dest@[i as int] == dest.entries@[i as int]@);
            assert(dest@.take(i + 1).drop_last() =~= dest@.take(i as int));
            assert(dest@.take(i + 1).last() == dest@[i as int]);
        }
        if entry.package == *q && entry.repository == *repo {
            let ghost deep_before = result.deep_view();
            let mut k: usize = 0;
            while k < entry.binaries.len()
                invariant
                    0 <= k <= entry.binaries@.len(),
                    entry == dest.entries@[i as int],
                    result.deep_view() == deep_before + entry.binaries.deep_view().take(k as int),
                decreases entry.binaries@.len() - k,
            {
                let ghost before_push = result.deep_view();
                let ghost vec_before = result@;
                result.push(entry.binaries[k].clone());
                proof {
                    assert(entry.binaries.deep_view()[k as int] == entry.binaries@[k as int]@);
                    assert forall|m: int| 0 <= m < result.deep_view().len() implies
                        result.deep_view()[m] == before_push.push(
                        entry.binaries.deep_view()[k as int],
                    )[m] by {
                        assert(result.deep_view()[m] == result@[m].deep_view());
                        if m < before_push.len() {
                            assert(result@[m] == vec_before[m]);
                            assert(before_push[m] == vec_before[m].deep_view());
                        }
                    }
                    assert(result.deep_view() =~= before_push.push(
                        entry.binaries.deep_view()[k as int],
                    ));
                    assert(before_push.push(entry.binaries.deep_view()[k as int]) =~= deep_before
                        + entry.binaries.deep_view().take(k + 1));
                }
                k = k + 1;
            }
            proof {
                assert(entry.binaries.deep_view().take(entry.binaries@.len() as int)
                    =~= entry.binaries.deep_view());
                assert(entry@.binaries == entry.binaries.deep_view());
                assert(result.deep_view() =~= bins_for(dest@.take(i + 1), q@, repo@));
            }
        } else {
            proof {
                assert(bins_for(dest@.take(i + 1), q@, repo@) == bins_for(
                    dest@.take(i as int),
                    q@,
                    repo@,
                ));
            }
        }
        i = i + 1;
    }
    proof {
        assert(dest@.take(dest.entries@.len() as int) =~= dest@);
    }
    result
}


/// The tags a fingerprint set publishes.
pub open spec fn tags_of(fps: Seq<BinInfoView>) -> Set<Seq<char>>
    decreases fps.len(),
{
    if fps.len() == 0 {
        Set::empty()
    } else {
        tags_of(fps.drop_last()).union(fps.last().tags.to_set())
    }
}

/// Collects the tags a fingerprint list publishes, without repetition.
pub fn collect_tags(fps: &Vec<BinInfo>) -> (r: Vec<String>)
    ensures
        forall|t: Seq<char>| r.deep_view().contains(t) <==> tags_of(fps.deep_view()).contains(t),
{
    broadcast use vstd::seq_lib::group_seq_lib_default;

    let mut result: Vec<String> = Vec::new();
    let mut i: usize = 0;
    proof {
        assert(fps.deep_view().take(0) =~= Seq::<BinInfoView>::empty());
    }
    while i < fps.len()
        invariant
            0 <= i <= fps@.len(),
            forall|t: Seq<char>|
                result.deep_view().contains(t) <==> tags_of(
                    fps.deep_view().take(i as int),
                ).contains(t),
        decreases fps@.len() - i,
    {
        broadcast use vstd::seq_lib::group_seq_lib_default;

        let fp = &fps[i];
        proof {
            assert(fps.deep_view()[i as int] == fps@[i as int]@);
            assert(fps.deep_view().take(i + 1).drop_last() =~= fps.deep_view().take(i as int));
            assert(fps.deep_view().take(i + 1).last() == fps.deep_view()[i as int]);
        }
        let mut k: usize = 0;
        while k < fp.tags.len()
            invariant
                0 <= k <= fp.tags@.len(),
                fp == fps@[i as int],
                0 <= i < fps@.len(),
                forall|t: Seq<char>|
                    result.deep_view().contains(t) <==> (tags_of(
                        fps.deep_view().take(i as int),
                    ).contains(t) || fp.tags.deep_view().take(k as int).contains(t)),
            decreases fp.tags@.len() - k,
        {
            broadcast use vstd::seq_lib::group_seq_lib_default;

            proof {
                assert(fp.tags.deep_view()[k as int] == fp.tags@[k as int]@);
                assert(fp.tags.deep_view().take(k + 1).drop_last() =~= fp.tags.deep_view().take(
                    k as int,
                ));
            }
            let tag = &fp.tags[k];
            let ghost deep_before = result.deep_view();
            let present = vec_contains_string(&result, tag.as_str());
            proof {
                if present {
                    let j = choose|j: int|
                        0 <= j < result.deep_view().len() && #[trigger] result.deep_view()[j]
                            == tag@;
                    assert(result.deep_view().contains(tag@));
                }
            }
            if !present {
                let ghost vec_before = result@;
                result.push(tag.clone());
                proof {
                    assert forall|m: int| 0 <= m < result.deep_view().len() implies
                        result.deep_view()[m] == deep_before.push(tag@)[m] by {
                        if m < deep_before.len() {
                            assert(result@[m] == vec_before[m]);
                            assert(deep_before[m] == vec_before[m].deep_view());
                        }
                    }
                    assert(result.deep_view() =~= deep_before.push(tag@));
                }
            }
            proof {
                assert(result.deep_view().contains(tag@)) by {
                    if !present {
                        assert(result.deep_view()[result.deep_view().len() - 1] == tag@);
                    }
                }
                assert forall|t: Seq<char>| result.deep_view().contains(t) implies (tags_of(
                    fps.deep_view().take(i as int),
                ).contains(t) || fp.tags.deep_view().take(k + 1).contains(t)) by {
                    let m = choose|m: int|
                        0 <= m < result.deep_view().len() && #[trigger] result.deep_view()[m] == t;
                    if m < deep_before.len() {
                        assert(deep_before[m] == t);
                        assert(deep_before.contains(t));
                        if fp.tags.deep_view().take(k as int).contains(t) {
                            let j = choose|j: int|
                                0 <= j < k && #[trigger] fp.tags.deep_view().take(k as int)[j]
                                    == t;
                            assert(fp.tags.deep_view().take(k + 1)[j] == t);
                        }
                    } else {
                        assert(t == tag@);
                        assert(fp.tags.deep_view().take(k + 1)[k as int] == tag@);
                    }
                }
                assert forall|t: Seq<char>| (tags_of(fps.deep_view().take(i as int)).contains(t)
                    || fp.tags.deep_view().take(k + 1).contains(t)) implies
                    result.deep_view().contains(t) by {
                    if tags_of(fps.deep_view().take(i as int)).contains(t) {
                        assert(deep_before.contains(t));
                        let j = choose|j: int|
                            0 <= j < deep_before.len() && #[trigger] deep_before[j] == t;
                        assert(result.deep_view()[j] == t);
                    } else {
                        let j = choose|j: int|
                            0 <= j < k + 1 && #[trigger] fp.tags.deep_view().take(k + 1)[j] == t;
                        if j < k {
                            assert(fp.tags.deep_view().take(k as int)[j] == t);
                            assert(deep_before.contains(t));
                            let m = choose|m: int|
                                0 <= m < deep_before.len() && #[trigger] deep_before[m] == t;
                            assert(result.deep_view()[m] == t);
                        } else {
                            assert(t == tag@);
                        }
                    }
                }
            }
            k = k + 1;
        }
        proof {
            assert(fp.tags.deep_view().take(fp.tags@.len() as int) =~= fp.tags.deep_view());
            assert(fp@.tags == fp.tags.deep_view());
            assert(fps.deep_view().take(i + 1).last().tags == fp.tags.deep_view());
            assert forall|t: Seq<char>| tags_of(fps.deep_view().take(i + 1)).contains(t) implies
                (tags_of(fps.deep_view().take(i as int)).contains(t)
                || fp.tags.deep_view().contains(t)) by {
                if fps.deep_view().take(i + 1).last().tags.to_set().contains(t) {
                    assert(fp.tags.deep_view().to_set().contains(t));
                }
            }
            assert forall|t: Seq<char>| (tags_of(fps.deep_view().take(i as int)).contains(t)
                || fp.tags.deep_view().contains(t)) implies tags_of(
                fps.deep_view().take(i + 1),
            ).contains(t) by {
                if fp.tags.deep_view().contains(t) {
                    assert(fps.deep_view().take(i + 1).last().tags.to_set().contains(t));
                }
            }
        }
        i = i + 1;
    }
    proof {
        assert(fps.deep_view().take(fps@.len() as int) =~= fps.deep_view());
    }
    result
}

/// The flattened tag list of a fingerprint set, in order.
pub open spec fn flat_tags(fps: Seq<BinInfoView>) -> Seq<Seq<char>>
    decreases fps.len(),
{
    if fps.len() == 0 {
        Seq::empty()
    } else {
        flat_tags(fps.drop_last()) + fps.last().tags
    }
}

/// The tags of the candidate that also stand in the source tag set, in
/// order of first appearance and without repetition: one warning is
/// owed per such tag.
pub open spec fn overlap_prefix(flat: Seq<Seq<char>>, src_tags: Set<Seq<char>>, n: int) -> Seq<
    Seq<char>,
>
    decreases n,
{
    if n <= 0 {
        Seq::empty()
    } else {
        let prev = overlap_prefix(flat, src_tags, n - 1);
        let t = flat[n - 1];
        if src_tags.contains(t) && !prev.contains(t) {
            prev.push(t)
        } else {
            prev
        }
    }
}

pub open spec fn overlap_tags(dst_fps: Seq<BinInfoView>, src_tags: Set<Seq<char>>) -> Seq<
    Seq<char>,
> {
    overlap_prefix(flat_tags(dst_fps), src_tags, flat_tags(dst_fps).len() as int)
}

/// Exactly one entry per overlapping tag: the overlap list holds no
/// repetition, every entry is an overlapping tag, and every
/// overlapping tag stands in it.
pub proof fn lemma_overlap_exact(flat: Seq<Seq<char>>, src_tags: Set<Seq<char>>, n: int)
    requires
        0 <= n <= flat.len(),
    ensures
        overlap_prefix(flat, src_tags, n).no_duplicates(),
        forall|t: Seq<char>| #[trigger]
            overlap_prefix(flat, src_tags, n).contains(t) ==> src_tags.contains(t) && exists|
                j: int,
            | 0 <= j < n && flat[j] == t,
        forall|j: int|
            0 <= j < n && src_tags.contains(#[trigger] flat[j]) ==> overlap_prefix(
                flat,
                src_tags,
                n,
            ).contains(flat[j]),
    decreases n,
{
    if n > 0 {
        lemma_overlap_exact(flat, src_tags, n - 1);
        let prev = overlap_prefix(flat, src_tags, n - 1);
        let cur = overlap_prefix(flat, src_tags, n);
        let t0 = flat[n - 1];
        if src_tags.contains(t0) && !prev.contains(t0) {
            assert forall|i: int, j: int| 0 <= i < j < cur.len() implies cur[i] != cur[j] by {
                if j == cur.len() - 1 {
                    assert(cur[i] == prev[i]);
                    if cur[i] == t0 {
                        assert(prev.contains(t0));
                    }
                } else {
                    assert(cur[i] == prev[i]);
                    assert(cur[j] == prev[j]);
                }
            }
        }
        assert forall|t: Seq<char>| #[trigger] cur.contains(t) implies src_tags.contains(t)
            && exists|j: int| 0 <= j < n && flat[j] == t by {
            let m = choose|m: int| 0 <= m < cur.len() && #[trigger] cur[m] == t;
            if m < prev.len() {
                assert(prev[m] == t);
                assert(prev.contains(t));
                let j0 = choose|j0: int| 0 <= j0 < n - 1 && #[trigger] flat[j0] == t;
                assert(0 <= j0 < n && flat[j0] == t);
            } else {
                assert(t == t0);
                assert(flat[n - 1] == t);
            }
        }
        assert forall|j: int| 0 <= j < n && src_tags.contains(#[trigger] flat[j]) implies
            cur.contains(flat[j]) by {
            if j < n - 1 {
                assert(prev.contains(flat[j]));
                let m = choose|m: int| 0 <= m < prev.len() && #[trigger] prev[m] == flat[j];
                assert(cur[m] == flat[j]);
            } else {
                if prev.contains(t0) {
                    let m = choose|m: int| 0 <= m < prev.len() && #[trigger] prev[m] == t0;
                    assert(cur[m] == t0);
                } else {
                    assert(cur[cur.len() - 1] == t0);
                }
            }
        }
    }
}

/// The warnings owed for one non-matching destination package: one per
/// tag that both the source fingerprints and the candidate's
/// fingerprints publish, naming the releasing package, the tag, the
/// already-released package and the destination project.
pub fn candidate_warnings(
    releasing: &Package,
    candidate_name: &String,
    candidate_fps: &Vec<BinInfo>,
    src_tags: &Vec<String>,
    dest_project: &Project,
) -> (r: Vec<TagWarning>)
    ensures
        r.deep_view().len() == overlap_tags(
            candidate_fps.deep_view(),
            src_tags.deep_view().to_set(),
        ).len(),
        forall|m: int|
            0 <= m < r.deep_view().len() ==> (#[trigger] r.deep_view()[m]) == (TagWarningView {
                package: releasing@.name,
                tag: overlap_tags(candidate_fps.deep_view(), src_tags.deep_view().to_set())[m],
                existing_package: candidate_name@,
                project: dest_project@.name,
            }),
{
    broadcast use vstd::seq_lib::group_seq_lib_default;
    broadcast use vstd::set::group_set_axioms;

    let ghost src_set = src_tags.deep_view().to_set();
    let mut flat: Vec<String> = Vec::new();
    let mut i: usize = 0;
    proof {
        assert(flat.deep_view() =~= flat_tags(candidate_fps.deep_view().take(0)));
        assert(candidate_fps.deep_view().take(0) =~= Seq::<BinInfoView>::empty());
    }
    while i < candidate_fps.len()
        invariant
            0 <= i <= candidate_fps@.len(),
            flat.deep_view() == flat_tags(candidate_fps.deep_view().take(i as int)),
        decreases candidate_fps@.len() - i,
    {
        let fp = &candidate_fps[i];
        proof {
            assert(candidate_fps.deep_view()[i as int] == candidate_fps@[i as int]@);
            assert(candidate_fps.deep_view().take(i + 1).drop_last()
                =~= candidate_fps.deep_view().take(i as int));
            assert(candidate_fps.deep_view().take(i + 1).last()
                == candidate_fps.deep_view()[i as int]);
        }
        let ghost seg_before = flat.deep_view();
        let mut k: usize = 0;
        while k < fp.tags.len()
            invariant
                0 <= k <= fp.tags@.len(),
                fp == candidate_fps@[i as int],
                flat.deep_view() == seg_before + fp.tags.deep_view().take(k as int),
            decreases fp.tags@.len() - k,
        {
            let ghost before_push = flat.deep_view();
            let ghost vec_before = flat@;
            proof {
                assert(fp.tags.deep_view()[k as int] == fp.tags@[k as int]@);
            }
            flat.push(fp.tags[k].clone());
            proof {
                assert forall|m: int| 0 <= m < flat.deep_view().len() implies flat.deep_view()[m]
                    == before_push.push(fp.tags.deep_view()[k as int])[m] by {
                    if m < before_push.len() {
                        assert(flat@[m] == vec_before[m]);
                        assert(before_push[m] == vec_before[m].deep_view());
                    }
                }
                assert(flat.deep_view() =~= before_push.push(fp.tags.deep_view()[k as int]));
                assert(flat.deep_view() =~= seg_before + fp.tags.deep_view().take(k + 1));
            }
            k = k + 1;
        }
        proof {
            assert(fp.tags.deep_view().take(fp.tags@.len() as int) =~= fp.tags.deep_view());
            assert(fp@.tags == fp.tags.deep_view());
            assert(flat.deep_view() =~= flat_tags(candidate_fps.deep_view().take(i + 1)));
        }
        i = i + 1;
    }
    proof {
        assert(candidate_fps.deep_view().take(candidate_fps@.len() as int)
            =~= candidate_fps.deep_view());
    }
    let ghost flatv = flat.deep_view();
    let mut taken: Vec<String> = Vec::new();
    let mut result: Vec<TagWarning> = Vec::new();
    let mut k: usize = 0;
    while k < flat.len()
        invariant
            0 <= k <= flat@.len(),
            flatv == flat.deep_view(),
            flat@.len() == flatv.len(),
            src_set == src_tags.deep_view().to_set(),
            taken.deep_view() == overlap_prefix(flatv, src_set, k as int),
            result.deep_view().len() == taken.deep_view().len(),
            forall|m: int|
                0 <= m < result.deep_view().len() ==> (#[trigger] result.deep_view()[m])
                    == (TagWarningView {
                    package: releasing@.name,
                    tag: overlap_prefix(flatv, src_set, k as int)[m],
                    existing_package: candidate_name@,
                    project: dest_project@.name,
                }),
        decreases flat@.len() - k,
    {
        let tag = &flat[k];
        proof {
            assert(flat.deep_view()[k as int] == flat@[k as int]@);
        }
        let in_src = vec_contains_string(src_tags, tag.as_str());
        proof {
            assert(crate::strutil::seq_contains_string(src_tags.deep_view(), tag@)
                == src_tags.deep_view().contains(tag@));
            assert(src_tags.deep_view().contains(tag@) == src_set.contains(tag@));
        }
        let already = vec_contains_string(&taken, tag.as_str());
        proof {
            assert(crate::strutil::seq_contains_string(taken.deep_view(), tag@)
                == taken.deep_view().contains(tag@));
        }
        if in_src && !already {
            let ghost taken_before = taken.deep_view();
            let ghost taken_vec_before = taken@;
            taken.push(tag.clone());
            proof {
                assert forall|m: int| 0 <= m < taken.deep_view().len() implies
                    taken.deep_view()[m] == taken_before.push(tag@)[m] by {
                    if m < taken_before.len() {
                        assert(taken@[m] == taken_vec_before[m]);
                        assert(taken_before[m] == taken_vec_before[m].deep_view());
                    }
                }
                assert(taken.deep_view() =~= taken_before.push(tag@));
            }
            let ghost res_before = result.deep_view();
            let ghost res_vec_before = result@;
            result.push(
                TagWarning {
                    package: releasing.name().to_owned(),
                    tag: tag.clone(),
                    existing_package: candidate_name.clone(),
                    project: dest_project.name(),
                },
            );
            proof {
                assert forall|m: int| 0 <= m < result.deep_view().len() implies
                    (#[trigger] result.deep_view()[m]) == (TagWarningView {
                    package: releasing@.name,
                    tag: overlap_prefix(flatv, src_set, k + 1)[m],
                    existing_package: candidate_name@,
                    project: dest_project@.name,
                }) by {
                    if m < res_before.len() {
                        assert(result@[m] == res_vec_before[m]);
                        assert(res_before[m] == res_vec_before[m].deep_view());
                        assert(overlap_prefix(flatv, src_set, k + 1)[m] == overlap_prefix(
                            flatv,
                            src_set,
                            k as int,
                        )[m]);
                    } else {
                        assert(result@[m].deep_view() == (TagWarningView {
                            package: releasing@.name,
                            tag: tag@,
                            existing_package: candidate_name@,
                            project: dest_project@.name,
                        }));
                        assert(overlap_prefix(flatv, src_set, k + 1)[m] == tag@);
                    }
                }
            }
        }
        k = k + 1;
    }
    proof {
        assert(overlap_prefix(flatv, src_set, flatv.len() as int) == overlap_tags(
            candidate_fps.deep_view(),
            src_set,
        ));
    }
    result
}


/// One scanned destination package that did not match exactly: its
/// package and its fingerprint set.
#[derive(Debug)]
pub struct Candidate {
    pub package: Package,
    pub fps: Vec<BinInfo>,
}

impl View for Candidate {
    type V = (PackageView, Seq<BinInfoView>);

    open spec fn view(&self) -> (PackageView, Seq<BinInfoView>) {
        (self.package@, self.fps.deep_view())
    }
}

impl DeepView for Candidate {
    type V = (PackageView, Seq<BinInfoView>);

    open spec fn deep_view(&self) -> (PackageView, Seq<BinInfoView>) {
        self.view()
    }
}

/// What scanning a destination for one (package, repository) found.
#[derive(Debug)]
pub enum ScanOutcome {
    /// Some already-released package carries exactly the source
    /// fingerprint set: nothing is to be released, and every candidate
    /// found in the same scan is discarded.
    Released,
    /// The packages that share the base name but differ in content, in
    /// scan order.
    Candidates(Vec<Candidate>),
}

/// The outcome of a destination scan, at the specification level.
pub enum ScanSpec {
    Failed,
    Released,
    Candidates(Seq<(PackageView, Seq<BinInfoView>)>),
}

/// The scan over the matching destination packages, front to back: it
/// fails on the first package whose data is incomplete, stops at the
/// first package whose fingerprint set equals the source set exactly,
/// and otherwise collects every scanned package with its fingerprints.
pub open spec fn scan_spec(
    qs: Seq<PackageView>,
    dest: Seq<BinEntryView>,
    repo: RepositoryView,
    store: Seq<SidecarEntryView>,
    src_set: Set<BinInfoView>,
) -> ScanSpec
    decreases qs.len(),
{
    if qs.len() == 0 {
        ScanSpec::Candidates(Seq::empty())
    } else {
        let q = qs[0];
        if !dest_has_repo(dest, q, repo) {
            ScanSpec::Failed
        } else {
            match fps_of(bins_for(dest, q, repo), store) {
                None => ScanSpec::Failed,
                Some(fps) => if fps.to_set() == src_set {
                    ScanSpec::Released
                } else {
                    match scan_spec(qs.drop_first(), dest, repo, store, src_set) {
                        ScanSpec::Failed => ScanSpec::Failed,
                        ScanSpec::Released => ScanSpec::Released,
                        ScanSpec::Candidates(v) => ScanSpec::Candidates(
                            seq![(q, fps)] + v,
                        ),
                    }
                },
            }
        }
    }
}

/// Prepends already-collected candidates to the rest of a scan.
pub open spec fn scan_compose(
    prefix: Seq<(PackageView, Seq<BinInfoView>)>,
    rest: ScanSpec,
) -> ScanSpec {
    match rest {
        ScanSpec::Failed => ScanSpec::Failed,
        ScanSpec::Released => ScanSpec::Released,
        ScanSpec::Candidates(v) => ScanSpec::Candidates(prefix + v),
    }
}

/// An exact content match takes priority: if every matching package up
/// to some exactly-matching one has complete data, the whole scan
/// reports the content as already released, whatever was collected
/// before or would come after.
pub proof fn lemma_exact_match_released(
    qs: Seq<PackageView>,
    dest: Seq<BinEntryView>,
    repo: RepositoryView,
    store: Seq<SidecarEntryView>,
    src_set: Set<BinInfoView>,
    k: int,
)
    requires
        0 <= k < qs.len(),
        forall|j: int|
            0 <= j <= k ==> dest_has_repo(dest, #[trigger] qs[j], repo) && fps_of(
                bins_for(dest, qs[j], repo),
                store,
            ) is Some,
        fps_of(bins_for(dest, qs[k], repo), store)->0.to_set() == src_set,
    ensures
        scan_spec(qs, dest, repo, store, src_set) == ScanSpec::Released,
    decreases k,
{
    let q = qs[0];
    let fps = fps_of(bins_for(dest, q, repo), store)->0;
    if k == 0 {
        assert(fps.to_set() == src_set);
    } else {
        if fps.to_set() == src_set {
        } else {
            assert forall|j: int| 0 <= j <= k - 1 implies dest_has_repo(
                dest,
                #[trigger] qs.drop_first()[j],
                repo,
            ) && fps_of(bins_for(dest, qs.drop_first()[j], repo), store) is Some by {
                assert(qs.drop_first()[j] == qs[j + 1]);
            }
            assert(qs.drop_first()[k - 1] == qs[k]);
            lemma_exact_match_released(qs.drop_first(), dest, repo, store, src_set, k - 1);
        }
    }
}

/// Whether the destination holds any entry of the package for the
/// repository.
fn has_repo_entry(dest: &BinaryList, q: &Package, repo: &Repository) -> (r: bool)
    ensures
        r == dest_has_repo(dest@, q@, repo@),
{
    let mut i: usize = 0;
    while i < dest.entries.len()
        invariant
            0 <= i <= dest.entries@.len(),
            forall|j: int|
                0 <= j < i ==> !((#[trigger] dest@[j]).package == q@ && dest@[j].repository
                    == repo@),
        decreases dest.entries@.len() - i,
    {
        let entry = &dest.entries[i];
        proof {
            assert(dest@[i as int] == dest.entries@[i as int]@);
        }
        if entry.package == *q && entry.repository == *repo {
            return true;
        }
        i = i + 1;
    }
    false
}

/// Whether a package vector holds the given package.
fn package_vec_contains(v: &Vec<Package>, q: &Package) -> (r: bool)
    ensures
        r == v.deep_view().contains(q@),
{
    let mut i: usize = 0;
    while i < v.len()
        invariant
            0 <= i <= v@.len(),
            forall|j: int| 0 <= j < i ==> v.deep_view()[j] != q@,
        decreases v@.len() - i,
    {
        assert(v.deep_view()[i as int] == v@[i as int]@);
        if &v[i] == q {
            assert(v.deep_view().contains(q@));
            return true;
        }
        i = i + 1;
    }
    assert(forall|j: int| 0 <= j < v.deep_view().len() ==> v.deep_view()[j] != q@);
    false
}

/// Collects the distinct destination packages whose base name matches,
/// in order of first appearance.
fn matching_packages_exec(dest: &BinaryList, pkg_name: &str) -> (r: Vec<Package>)
    ensures
        r.deep_view() == matching_packages(dest@, pkg_name@),
{
    let mut result: Vec<Package> = Vec::new();
    let mut i: usize = 0;
    proof {
        assert(dest@.take(0) =~= Seq::<BinEntryView>::empty());
        assert(result.deep_view() =~= matching_packages(dest@.take(0), pkg_name@));
    }
    while i < dest.entries.len()
        invariant
            0 <= i <= dest.entries@.len(),
            result.deep_view() == matching_packages(dest@.take(i as int), pkg_name@),
        decreases dest.entries@.len() - i,
    {
        let entry = &dest.entries[i];
        proof {
            assert(dest@[i as int] == dest.entries@[i as int]@);
            assert(dest@.take(i + 1).drop_last() =~= dest@.take(i as int));
            assert(dest@.take(i + 1).last() == dest@[i as int]);
        }
        let bn = base_name(entry.package.name());
        if str_eq(bn.as_str(), pkg_name) && !package_vec_contains(&result, &entry.package) {
            let ghost deep_before = result.deep_view();
            let ghost vec_before = result@;
            result.push(entry.package.clone());
            proof {
                assert forall|m: int| 0 <= m < result.deep_view().len() implies
                    result.deep_view()[m] == deep_before.push(entry.package@)[m] by {
                    if m < deep_before.len() {
                        assert(result@[m] == vec_before[m]);
                        assert(deep_before[m] == vec_before[m].deep_view());
                    }
                }
                assert(result.deep_view() =~= deep_before.push(entry.package@));
            }
        }
        i = i + 1;
    }
    proof {
        assert(dest@.take(dest.entries@.len() as int) =~= dest@);
    }
    result
}

/// Scans a destination project for the given released package: fails
/// on incomplete data, reports an exact content match, or collects
/// every differing package that shares the base name.
#[verifier::loop_isolation(false)]
pub fn scan_destination(
    package: &Package,
    src_fps: &Vec<BinInfo>,
    dest: &BinaryList,
    dest_repo: &Repository,
    store: &SidecarStore,
) -> (r: Result<ScanOutcome, SelectError>)
    ensures
        ({
            let spec_r = scan_spec(
                matching_packages(dest@, package@.name),
                dest@,
                dest_repo@,
                store@,
                src_fps.deep_view().to_set(),
            );
            match r {
                Ok(ScanOutcome::Released) => spec_r == ScanSpec::Released,
                Ok(ScanOutcome::Candidates(v)) => spec_r == ScanSpec::Candidates(v.deep_view()),
                Err(_) => spec_r == ScanSpec::Failed,
            }
        }),
{
    let ghost src_set = src_fps.deep_view().to_set();
    let qs = matching_packages_exec(dest, package.name());
    let ghost qsv = matching_packages(dest@, package@.name);
    let ghost full_spec = scan_spec(qsv, dest@, dest_repo@, store@, src_set);
    let mut collected: Vec<Candidate> = Vec::new();
    let mut i: usize = 0;
    proof {
        assert(qsv.skip(0) =~= qsv);
        assert(collected.deep_view() =~= Seq::<(PackageView, Seq<BinInfoView>)>::empty());
        assert(scan_compose(
            collected.deep_view(),
            scan_spec(qsv.skip(0), dest@, dest_repo@, store@, src_set),
        ) == full_spec);
    }
    while i < qs.len()
        invariant
            0 <= i <= qs@.len(),
            qs.deep_view() == qsv,
            qs@.len() == qsv.len(),
            full_spec == scan_compose(
                collected.deep_view(),
                scan_spec(qsv.skip(i as int), dest@, dest_repo@, store@, src_set),
            ),
        decreases qs@.len() - i,
    {
        let q = &qs[i];
        proof {
            assert(qs.deep_view()[i as int] == qs@[i as int]@);
            assert(qsv.skip(i as int)[0] == qsv[i as int]);
            assert(qsv.skip(i as int).drop_first() =~= qsv.skip(i + 1));
        }
        if !has_repo_entry(dest, q, dest_repo) {
            proof {
                assert(scan_spec(qsv.skip(i as int), dest@, dest_repo@, store@, src_set)
                    == ScanSpec::Failed);
            }
            return Err(SelectError::DestRepositoryMissing(String::from_str(q.name())));
        }
        let bins = collect_bins(dest, q, dest_repo);
        let fps = match fingerprints(&bins, store) {
            Ok(f) => f,
            Err(e) => {
                proof {
                    assert(scan_spec(qsv.skip(i as int), dest@, dest_repo@, store@, src_set)
                        == ScanSpec::Failed);
                }
                return Err(SelectError::SidecarMissing(e.binary_name));
            },
        };
        if fp_set_equal(&fps, src_fps) {
            proof {
                assert(scan_spec(qsv.skip(i as int), dest@, dest_repo@, store@, src_set)
                    == ScanSpec::Released);
            }
            return Ok(ScanOutcome::Released);
        }
        let ghost deep_before = collected.deep_view();
        let ghost vec_before = collected@;
        let ghost fpsv = fps.deep_view();
        collected.push(Candidate { package: q.clone(), fps });
        proof {
            assert forall|m: int| 0 <= m < collected.deep_view().len() implies
                collected.deep_view()[m] == deep_before.push((q@, fpsv))[m] by {
                if m < deep_before.len() {
                    assert(collected@[m] == vec_before[m]);
                    assert(deep_before[m] == vec_before[m].deep_view());
                }
            }
            assert(collected.deep_view() =~= deep_before.push((q@, fpsv)));
            match scan_spec(qsv.skip(i + 1), dest@, dest_repo@, store@, src_set) {
                ScanSpec::Failed => {},
                ScanSpec::Released => {},
                ScanSpec::Candidates(v) => {
                    assert(deep_before + (seq![(qsv[i as int], fpsv)] + v) =~= deep_before.push(
                        (q@, fpsv),
                    ) + v);
                },
            }
        }
        i = i + 1;
    }
    proof {
        assert(qsv.skip(qsv.len() as int) =~= Seq::<PackageView>::empty());
        assert(scan_spec(qsv.skip(qsv.len() as int), dest@, dest_repo@, store@, src_set)
            == ScanSpec::Candidates(Seq::empty()));
        assert(collected.deep_view() + Seq::<(PackageView, Seq<BinInfoView>)>::empty()
            =~= collected.deep_view());
    }
    Ok(ScanOutcome::Candidates(collected))
}


/// Whether the project stands in the list.
pub open spec fn project_in(list: Seq<Project>, p: ProjectView) -> bool {
    exists|i: int| 0 <= i < list.len() && (#[trigger] list[i])@ == p
}

/// Whether the incremental snapshots hold one for the project.
pub open spec fn snapshot_in(list: Seq<DestSnapshot>, p: ProjectView) -> bool {
    exists|i: int| 0 <= i < list.len() && (#[trigger] list[i]).project@ == p
}

fn project_list_contains(v: &Vec<Project>, p: &Project) -> (r: bool)
    ensures
        r == project_in(v@, p@),
{
    let mut i: usize = 0;
    while i < v.len()
        invariant
            0 <= i <= v@.len(),
            forall|j: int| 0 <= j < i ==> (#[trigger] v@[j])@ != p@,
        decreases v@.len() - i,
    {
        if &v[i] == p {
            return true;
        }
        i = i + 1;
    }
    false
}

fn find_snapshot<'a>(v: &'a Vec<DestSnapshot>, p: &Project) -> (r: Option<&'a DestSnapshot>)
    ensures
        match r {
            Some(s) => exists|i: int|
                0 <= i < v@.len() && (#[trigger] v@[i]).project@ == p@ && s == &v@[i] && forall|
                    j: int,
                | 0 <= j < i ==> (#[trigger] v@[j]).project@ != p@,
            None => !snapshot_in(v@, p@),
        },
{
    let mut i: usize = 0;
    while i < v.len()
        invariant
            0 <= i <= v@.len(),
            forall|j: int| 0 <= j < i ==> (#[trigger] v@[j]).project@ != p@,
        decreases v@.len() - i,
    {
        if &v[i].project == p {
            proof {
                assert((#[trigger] v@[i as int]).project@ == p@);
            }
            return Some(&v[i]);
        }
        i = i + 1;
    }
    None
}

/// The binary list of the first stored snapshot of the project.
pub open spec fn snapshot_bins(list: Seq<DestSnapshot>, p: ProjectView) -> Seq<BinEntryView>
    decreases list.len(),
{
    if list.len() == 0 {
        Seq::empty()
    } else if list[0].project@ == p {
        list[0].bins@
    } else {
        snapshot_bins(list.drop_first(), p)
    }
}

proof fn lemma_snapshot_bins(list: Seq<DestSnapshot>, p: ProjectView, i: int)
    requires
        0 <= i < list.len(),
        list[i].project@ == p,
        forall|j: int| 0 <= j < i ==> (#[trigger] list[j]).project@ != p,
    ensures
        snapshot_bins(list, p) == list[i].bins@,
    decreases i,
{
    if i > 0 {
        assert forall|j: int| 0 <= j < i - 1 implies (#[trigger] list.drop_first()[j]).project@
            != p by {
            assert(list.drop_first()[j] == list[j + 1]);
        }
        assert(list.drop_first()[i - 1] == list[i]);
        lemma_snapshot_bins(list.drop_first(), p, i - 1);
    }
}

/// Whether a tuple vector holds the given tuple.
fn tuple_vec_contains(v: &Vec<ReleaseTuple>, t: &ReleaseTuple) -> (r: bool)
    ensures
        r == v.deep_view().contains(t@),
{
    let mut i: usize = 0;
    while i < v.len()
        invariant
            0 <= i <= v@.len(),
            forall|j: int| 0 <= j < i ==> v.deep_view()[j] != t@,
        decreases v@.len() - i,
    {
        assert(v.deep_view()[i as int] == v@[i as int]@);
        if &v[i] == t {
            assert(v.deep_view().contains(t@));
            return true;
        }
        i = i + 1;
    }
    assert(forall|j: int| 0 <= j < v.deep_view().len() ==> v.deep_view()[j] != t@);
    false
}

/// Whether an earlier entry covers the same (package, repository)
/// pair.
fn pair_seen(entries: &Vec<crate::binarylist::BinEntry>, upto: usize) -> (r: bool)
    requires
        upto < entries@.len(),
    ensures
        r == exists|j: int|
            0 <= j < upto && (#[trigger] entries.deep_view()[j]).package
                == entries.deep_view()[upto as int].package && entries.deep_view()[j].repository
                == entries.deep_view()[upto as int].repository,
{
    let mut j: usize = 0;
    while j < upto
        invariant
            0 <= j <= upto < entries@.len(),
            forall|m: int|
                0 <= m < j ==> !((#[trigger] entries.deep_view()[m]).package
                    == entries.deep_view()[upto as int].package && entries.deep_view()[m].repository
                    == entries.deep_view()[upto as int].repository),
        decreases upto - j,
    {
        proof {
            assert(entries.deep_view()[j as int] == entries@[j as int]@);
            assert(entries.deep_view()[upto as int] == entries@[upto as int]@);
        }
        if entries[j].package == entries[upto].package && entries[j].repository
            == entries[upto].repository {
            return true;
        }
        j = j + 1;
    }
    false
}

/// A selected tuple traces back to the inputs: its package and source
/// repository group binaries in the source list, and a configured
/// target maps that source repository to its destination repository.
pub open spec fn tuple_from_inputs(
    tv: ReleaseTupleView,
    src: Seq<BinEntryView>,
    targets: Seq<ReleaseTargetView>,
) -> bool {
    &&& exists|j: int|
        0 <= j < src.len() && (#[trigger] src[j]).package == tv.package && src[j].repository
            == tv.source
    &&& exists|t: int|
        0 <= t < targets.len() && (#[trigger] targets[t]).src_repository == tv.source
            && targets[t].dest_repository == tv.destination
}

/// The tuple owed when a full-release target matches a source group.
pub open spec fn full_tuple_owed(
    tuples: Seq<ReleaseTupleView>,
    src: Seq<BinEntryView>,
    targets: Seq<ReleaseTargetView>,
    full: Seq<Project>,
    j: int,
    t: int,
) -> bool {
    (0 <= j < src.len() && 0 <= t < targets.len() && bins_for(
        src,
        src[j].package,
        src[j].repository,
    ).len() > 0 && targets[t].src_repository == src[j].repository && project_in(
        full,
        targets[t].dest_repository.project,
    )) ==> tuples.contains(
        (ReleaseTupleView {
            package: src[j].package,
            source: src[j].repository,
            destination: targets[t].dest_repository,
        }),
    )
}

/// An exact content match suppresses the group for that target: when
/// the scan of an incremental destination reports the content as
/// already released, the group's tuple stands nowhere in the output.
pub open spec fn released_not_tupled(
    tuples: Seq<ReleaseTupleView>,
    src: Seq<BinEntryView>,
    targets: Seq<ReleaseTargetView>,
    full: Seq<Project>,
    incremental: Seq<DestSnapshot>,
    store: Seq<SidecarEntryView>,
    j: int,
    t: int,
) -> bool {
    (0 <= j < src.len() && 0 <= t < targets.len() && targets[t].src_repository
        == src[j].repository && !project_in(full, targets[t].dest_repository.project) && fps_of(
        bins_for(src, src[j].package, src[j].repository),
        store,
    ) is Some && scan_spec(
        matching_packages(
            snapshot_bins(incremental, targets[t].dest_repository.project),
            src[j].package.name,
        ),
        snapshot_bins(incremental, targets[t].dest_repository.project),
        targets[t].dest_repository,
        store,
        fps_of(bins_for(src, src[j].package, src[j].repository), store)->0.to_set(),
    ) == ScanSpec::Released) ==> !tuples.contains(
        (ReleaseTupleView {
            package: src[j].package,
            source: src[j].repository,
            destination: targets[t].dest_repository,
        }),
    )
}

/// What an incremental target owes for one source group, given the
/// scan over its destination snapshot: nothing when the scan found an
/// exact content match, and the group's tuple when it collected at
/// least one differing package.
pub open spec fn incremental_tuple_owed(
    tuples: Seq<ReleaseTupleView>,
    src: Seq<BinEntryView>,
    targets: Seq<ReleaseTargetView>,
    full: Seq<Project>,
    incremental: Seq<DestSnapshot>,
    store: Seq<SidecarEntryView>,
    j: int,
    t: int,
) -> bool {
    (0 <= j < src.len() && 0 <= t < targets.len() && bins_for(
        src,
        src[j].package,
        src[j].repository,
    ).len() > 0 && targets[t].src_repository == src[j].repository && !project_in(
        full,
        targets[t].dest_repository.project,
    )) ==> {
        let dest = snapshot_bins(incremental, targets[t].dest_repository.project);
        let fps = fps_of(bins_for(src, src[j].package, src[j].repository), store);
        &&& fps is Some
        &&& (match scan_spec(
            matching_packages(dest, src[j].package.name),
            dest,
            targets[t].dest_repository,
            store,
            fps->0.to_set(),
        ) {
            ScanSpec::Failed => false,
            ScanSpec::Released => true,
            ScanSpec::Candidates(v) => v.len() > 0 ==> tuples.contains(
                (ReleaseTupleView {
                    package: src[j].package,
                    source: src[j].repository,
                    destination: targets[t].dest_repository,
                }),
            ),
        })
    }
}

/// Whether no earlier entry covers the same (package, repository)
/// pair: the group is handled where its pair first appears.
pub open spec fn first_pair_occurrence(src: Seq<BinEntryView>, j: int) -> bool {
    forall|j2: int|
        0 <= j2 < j ==> !((#[trigger] src[j2]).package == src[j].package && src[j2].repository
            == src[j].repository)
}

/// The warnings one scanned candidate owes: one per overlapping tag,
/// in overlap order, naming the releasing package, the tag, the
/// already-released package and the destination project.
pub open spec fn candidate_warning_seq(
    releasing: Seq<char>,
    cand: (PackageView, Seq<BinInfoView>),
    src_tags: Set<Seq<char>>,
    project_name: Seq<char>,
) -> Seq<TagWarningView> {
    Seq::new(
        overlap_tags(cand.1, src_tags).len(),
        |m: int|
            (TagWarningView {
                package: releasing,
                tag: overlap_tags(cand.1, src_tags)[m],
                existing_package: cand.0.name,
                project: project_name,
            }),
    )
}

/// The warnings the first `n` scanned candidates owe, in scan order.
pub open spec fn candidates_warnings(
    releasing: Seq<char>,
    cands: Seq<(PackageView, Seq<BinInfoView>)>,
    src_tags: Set<Seq<char>>,
    project_name: Seq<char>,
    n: int,
) -> Seq<TagWarningView>
    decreases n,
{
    if n <= 0 {
        Seq::empty()
    } else {
        candidates_warnings(releasing, cands, src_tags, project_name, n - 1)
            + candidate_warning_seq(releasing, cands[n - 1], src_tags, project_name)
    }
}

/// The warnings one source group owes one target: none unless the
/// target matches an incremental destination and the scan collected
/// candidates, and then one warning per candidate and overlapping tag.
pub open spec fn pair_target_warnings(
    src: Seq<BinEntryView>,
    targets: Seq<ReleaseTargetView>,
    full: Seq<Project>,
    incremental: Seq<DestSnapshot>,
    store: Seq<SidecarEntryView>,
    j: int,
    t: int,
) -> Seq<TagWarningView> {
    let dest = snapshot_bins(incremental, targets[t].dest_repository.project);
    if targets[t].src_repository == src[j].repository && !project_in(
        full,
        targets[t].dest_repository.project,
    ) {
        match fps_of(bins_for(src, src[j].package, src[j].repository), store) {
            None => Seq::empty(),
            Some(fps) => match scan_spec(
                matching_packages(dest, src[j].package.name),
                dest,
                targets[t].dest_repository,
                store,
                fps.to_set(),
            ) {
                ScanSpec::Candidates(v) => candidates_warnings(
                    src[j].package.name,
                    v,
                    tags_of(fps),
                    targets[t].dest_repository.project.name,
                    v.len() as int,
                ),
                _ => Seq::empty(),
            },
        }
    } else {
        Seq::empty()
    }
}

/// The warnings one source group owes its first `n` targets.
pub open spec fn entry_warnings_prefix(
    src: Seq<BinEntryView>,
    targets: Seq<ReleaseTargetView>,
    full: Seq<Project>,
    incremental: Seq<DestSnapshot>,
    store: Seq<SidecarEntryView>,
    j: int,
    n: int,
) -> Seq<TagWarningView>
    decreases n,
{
    if n <= 0 {
        Seq::empty()
    } else {
        entry_warnings_prefix(src, targets, full, incremental, store, j, n - 1)
            + pair_target_warnings(src, targets, full, incremental, store, j, n - 1)
    }
}

/// The warnings the first `n` entries of the source list owe: each
/// (package, repository) group contributes where its pair first
/// appears with binaries.
pub open spec fn selection_warnings_prefix(
    src: Seq<BinEntryView>,
    targets: Seq<ReleaseTargetView>,
    full: Seq<Project>,
    incremental: Seq<DestSnapshot>,
    store: Seq<SidecarEntryView>,
    n: int,
) -> Seq<TagWarningView>
    decreases n,
{
    if n <= 0 {
        Seq::empty()
    } else {
        let prev = selection_warnings_prefix(src, targets, full, incremental, store, n - 1);
        if first_pair_occurrence(src, n - 1) && bins_for(
            src,
            src[n - 1].package,
            src[n - 1].repository,
        ).len() > 0 {
            prev + entry_warnings_prefix(src, targets, full, incremental, store, n - 1, targets.len() as int)
        } else {
            prev
        }
    }
}

/// Computes the promotions owed for the source project's binaries.
///
/// Each (package, repository) group with binaries is matched against
/// every release target configured for that repository.  A target
/// whose destination project is of the plain, full-release kind gets
/// its tuple unconditionally.  A target whose destination is an
/// incremental project is checked against that project's own binary
/// list: an exact fingerprint match means the content is already
/// released and suppresses the whole group for that target (no tuple
/// stands in the output for it), while every differing package sharing
/// the base name yields the tuple and a warning for each tag the
/// release would take over.  The warnings are exactly those owed, and
/// the run fails precisely when a needed fingerprint set cannot be
/// derived or a scanned package lacks binaries for the destination
/// repository.
#[verifier::loop_isolation(false)]
#[verifier::rlimit(60)]
pub fn select_releases(
    src_binlist: &BinaryList,
    release_targets: &Vec<ReleaseTarget>,
    full_release_projects: &Vec<Project>,
    incremental: &Vec<DestSnapshot>,
    store: &SidecarStore,
) -> (r: Result<Selection, SelectError>)
    requires
        forall|t: int|
            0 <= t < release_targets@.len() ==> project_in(
                full_release_projects@,
                (#[trigger] release_targets@[t])@.dest_repository.project,
            ) || snapshot_in(incremental@, release_targets@[t]@.dest_repository.project),
    ensures
        match r {
            Ok(sel) => {
                &&& sel.tuples.deep_view().no_duplicates()
                &&& forall|m: int|
                    0 <= m < sel.tuples.deep_view().len() ==> tuple_from_inputs(
                        #[trigger] sel.tuples.deep_view()[m],
                        src_binlist@,
                        release_targets.deep_view(),
                    )
                &&& forall|j: int, t: int|
                    0 <= j < src_binlist@.len() && 0 <= t < release_targets@.len()
                        && (#[trigger] src_binlist@[j]).binaries.len() > 0
                        && (#[trigger] release_targets@[t])@.src_repository
                        == src_binlist@[j].repository && project_in(
                        full_release_projects@,
                        release_targets@[t]@.dest_repository.project,
                    ) ==> sel.tuples.deep_view().contains(
                        (ReleaseTupleView {
                            package: src_binlist@[j].package,
                            source: src_binlist@[j].repository,
                            destination: release_targets@[t]@.dest_repository,
                        }),
                    )
                &&& forall|j: int, t: int|
                    0 <= j < src_binlist@.len() && 0 <= t < release_targets@.len()
                        ==> incremental_tuple_owed(
                        sel.tuples.deep_view(),
                        src_binlist@,
                        release_targets.deep_view(),
                        full_release_projects@,
                        incremental@,
                        store@,
                        j,
                        t,
                    )
                &&& forall|j: int, t: int|
                    released_not_tupled(
                        sel.tuples.deep_view(),
                        src_binlist@,
                        release_targets.deep_view(),
                        full_release_projects@,
                        incremental@,
                        store@,
                        j,
                        t,
                    )
                &&& sel.warnings.deep_view() == selection_warnings_prefix(
                    src_binlist@,
                    release_targets.deep_view(),
                    full_release_projects@,
                    incremental@,
                    store@,
                    src_binlist@.len() as int,
                )
            },
            Err(_) => exists|j: int, t: int|
                0 <= j < src_binlist@.len() && 0 <= t < release_targets@.len() && bins_for(
                    src_binlist@,
                    (#[trigger] src_binlist@[j]).package,
                    src_binlist@[j].repository,
                ).len() > 0 && (#[trigger] release_targets@[t])@.src_repository
                == src_binlist@[j].repository && !project_in(
                full_release_projects@,
                release_targets@[t]@.dest_repository.project,
            ) && (fps_of(
                bins_for(src_binlist@, src_binlist@[j].package, src_binlist@[j].repository),
                store@,
            ) is None || scan_spec(
                matching_packages(
                    snapshot_bins(incremental@, release_targets@[t]@.dest_repository.project),
                    src_binlist@[j].package.name,
                ),
                snapshot_bins(incremental@, release_targets@[t]@.dest_repository.project),
                release_targets@[t]@.dest_repository,
                store@,
                fps_of(
                    bins_for(src_binlist@, src_binlist@[j].package, src_binlist@[j].repository),
                    store@,
                )->0.to_set(),
            ) == ScanSpec::Failed),
        },
{
    let ghost srcv = src_binlist@;
    let ghost targetsv = release_targets.deep_view();
    let mut tuples: Vec<ReleaseTuple> = Vec::new();
    let mut warnings: Vec<TagWarning> = Vec::new();
    let mut ei: usize = 0;
    proof {
        broadcast use vstd::seq_lib::group_seq_lib_default;
        broadcast use vstd::set::group_set_axioms;

        assert(warnings.deep_view() =~= selection_warnings_prefix(
            srcv,
            targetsv,
            full_release_projects@,
            incremental@,
            store@,
            0,
        ));
    }
    while ei < src_binlist.entries.len()
        invariant
            0 <= ei <= src_binlist.entries@.len(),
            tuples.deep_view().no_duplicates(),
            forall|m: int|
                0 <= m < tuples.deep_view().len() ==> tuple_from_inputs(
                    #[trigger] tuples.deep_view()[m],
                    srcv,
                    targetsv,
                ),
            forall|j: int, t: int|
                0 <= j < ei && 0 <= t < release_targets@.len() ==> full_tuple_owed(
                    tuples.deep_view(),
                    srcv,
                    targetsv,
                    full_release_projects@,
                    j,
                    t,
                ),
            forall|j: int, t: int|
                0 <= j < ei && 0 <= t < release_targets@.len() ==> incremental_tuple_owed(
                    tuples.deep_view(),
                    srcv,
                    targetsv,
                    full_release_projects@,
                    incremental@,
                    store@,
                    j,
                    t,
                ),
            warnings.deep_view() == selection_warnings_prefix(
                srcv,
                targetsv,
                full_release_projects@,
                incremental@,
                store@,
                ei as int,
            ),
            forall|j2: int, t2: int|
                released_not_tupled(
                    tuples.deep_view(),
                    srcv,
                    targetsv,
                    full_release_projects@,
                    incremental@,
                    store@,
                    j2,
                    t2,
                ),
        decreases src_binlist.entries@.len() - ei,
    {
        proof {
            assert(srcv[ei as int] == src_binlist.entries@[ei as int]@);
        }
        if !pair_seen(&src_binlist.entries, ei) {
            let entry_pkg = src_binlist.entries[ei].package.clone();
            let entry_repo = src_binlist.entries[ei].repository.clone();
            let bins = collect_bins(src_binlist, &entry_pkg, &entry_repo);
            if bins.len() > 0 {
                let mut t: usize = 0;
                proof {
                    assert(selection_warnings_prefix(
                        srcv,
                        targetsv,
                        full_release_projects@,
                        incremental@,
                        store@,
                        ei as int,
                    ) + entry_warnings_prefix(
                        srcv,
                        targetsv,
                        full_release_projects@,
                        incremental@,
                        store@,
                        ei as int,
                        0,
                    ) =~= selection_warnings_prefix(
                        srcv,
                        targetsv,
                        full_release_projects@,
                        incremental@,
                        store@,
                        ei as int,
                    ));
                }
                while t < release_targets.len()
                    invariant
                        0 <= t <= release_targets@.len(),
                        tuples.deep_view().no_duplicates(),
                        forall|m: int|
                            0 <= m < tuples.deep_view().len() ==> tuple_from_inputs(
                                #[trigger] tuples.deep_view()[m],
                                srcv,
                                targetsv,
                            ),
                        forall|j2: int, t2: int|
                            0 <= j2 < ei && 0 <= t2 < release_targets@.len() ==> full_tuple_owed(
                                tuples.deep_view(),
                                srcv,
                                targetsv,
                                full_release_projects@,
                                j2,
                                t2,
                            ),
                        forall|t2: int|
                            0 <= t2 < t && (#[trigger] targetsv[t2]).src_repository == entry_repo@
                                && project_in(
                                full_release_projects@,
                                targetsv[t2].dest_repository.project,
                            ) ==> tuples.deep_view().contains(
                                (ReleaseTupleView {
                                    package: entry_pkg@,
                                    source: entry_repo@,
                                    destination: targetsv[t2].dest_repository,
                                }),
                            ),
                        forall|j2: int, t2: int|
                            0 <= j2 < ei && 0 <= t2 < release_targets@.len()
                                ==> incremental_tuple_owed(
                                tuples.deep_view(),
                                srcv,
                                targetsv,
                                full_release_projects@,
                                incremental@,
                                store@,
                                j2,
                                t2,
                            ),
                        forall|t2: int|
                            0 <= t2 < t ==> incremental_tuple_owed(
                                tuples.deep_view(),
                                srcv,
                                targetsv,
                                full_release_projects@,
                                incremental@,
                                store@,
                                ei as int,
                                t2,
                            ),
                        warnings.deep_view() == selection_warnings_prefix(
                            srcv,
                            targetsv,
                            full_release_projects@,
                            incremental@,
                            store@,
                            ei as int,
                        ) + entry_warnings_prefix(
                            srcv,
                            targetsv,
                            full_release_projects@,
                            incremental@,
                            store@,
                            ei as int,
                            t as int,
                        ),
                        forall|j2: int, t2: int|
                            released_not_tupled(
                                tuples.deep_view(),
                                srcv,
                                targetsv,
                                full_release_projects@,
                                incremental@,
                                store@,
                                j2,
                                t2,
                            ),
                    decreases release_targets@.len() - t,
                {
                    let target = &release_targets[t];
                    proof {
                        assert(targetsv[t as int] == release_targets@[t as int]@);
                    }
                    if target.src_repository == entry_repo {
                        let dest_project = target.dest_repository.project();
                        if project_list_contains(full_release_projects, dest_project) {
                            let tuple = ReleaseTuple {
                                package: entry_pkg.clone(),
                                source: entry_repo.clone(),
                                destination: target.dest_repository.clone(),
                            };
                            let ghost tv = tuple@;
                            proof {
                                assert(tuple_from_inputs(tv, srcv, targetsv)) by {
                                    assert(srcv[ei as int].package == tv.package
                                        && srcv[ei as int].repository == tv.source);
                                    assert(targetsv[t as int].src_repository == tv.source
                                        && targetsv[t as int].dest_repository == tv.destination);
                                }
                            }
                            if !tuple_vec_contains(&tuples, &tuple) {
                                let ghost deep_before = tuples.deep_view();
                                let ghost vec_before = tuples@;
                                tuples.push(tuple);
                                proof {
                                    assert forall|m: int|
                                        0 <= m < tuples.deep_view().len() implies
                                        tuples.deep_view()[m] == deep_before.push(tv)[m] by {
                                        if m < deep_before.len() {
                                            assert(tuples@[m] == vec_before[m]);
                                            assert(deep_before[m] == vec_before[m].deep_view());
                                        }
                                    }
                                    assert(tuples.deep_view() =~= deep_before.push(tv));
                                    assert(tuples.deep_view()[tuples.deep_view().len() - 1] == tv);
                                    assert forall|x: ReleaseTupleView|
                                        deep_before.contains(x) implies
                                        tuples.deep_view().contains(x) by {
                                        let ix = choose|ix: int|
                                            0 <= ix < deep_before.len() && #[trigger] deep_before[ix] == x;
                                        assert(tuples.deep_view()[ix] == x);
                                    }
                                    assert forall|i2: int, j2: int|
                                        0 <= i2 < j2 < tuples.deep_view().len() implies
                                        tuples.deep_view()[i2] != tuples.deep_view()[j2] by {
                                        if j2 == tuples.deep_view().len() - 1 {
                                            if tuples.deep_view()[i2] == tv {
                                                assert(deep_before.contains(tv));
                                            }
                                        }
                                    }
                                                                    assert forall|j2: int, t2: int|
                                        0 <= j2 < ei && 0 <= t2 < release_targets@.len() implies full_tuple_owed(
                                        tuples.deep_view(),
                                        srcv,
                                        targetsv,
                                        full_release_projects@,
                                        j2,
                                        t2,
                                    ) by {
                                        assert(full_tuple_owed(
                                            deep_before,
                                            srcv,
                                            targetsv,
                                            full_release_projects@,
                                            j2,
                                            t2,
                                        ));
                                    }
                                    assert forall|j2: int, t2: int|
                                        0 <= j2 < ei && 0 <= t2 < release_targets@.len() implies incremental_tuple_owed(
                                        tuples.deep_view(),
                                        srcv,
                                        targetsv,
                                        full_release_projects@,
                                        incremental@,
                                        store@,
                                        j2,
                                        t2,
                                    ) by {
                                        assert(incremental_tuple_owed(
                                            deep_before,
                                            srcv,
                                            targetsv,
                                            full_release_projects@,
                                            incremental@,
                                            store@,
                                            j2,
                                            t2,
                                        ));
                                    }
                                    assert forall|t2: int|
                                        0 <= t2 < t implies incremental_tuple_owed(
                                        tuples.deep_view(),
                                        srcv,
                                        targetsv,
                                        full_release_projects@,
                                        incremental@,
                                        store@,
                                        ei as int,
                                        t2,
                                    ) by {
                                        assert(incremental_tuple_owed(
                                            deep_before,
                                            srcv,
                                            targetsv,
                                            full_release_projects@,
                                            incremental@,
                                            store@,
                                            ei as int,
                                            t2,
                                        ));
                                    }
                                    assert forall|j2: int, t2: int|
                                        released_not_tupled(
                                        tuples.deep_view(),
                                        srcv,
                                        targetsv,
                                        full_release_projects@,
                                        incremental@,
                                        store@,
                                        j2,
                                        t2,
                                    ) by {
                                        assert(released_not_tupled(
                                            deep_before,
                                            srcv,
                                            targetsv,
                                            full_release_projects@,
                                            incremental@,
                                            store@,
                                            j2,
                                            t2,
                                        ));
                                        if 0 <= j2 < srcv.len() && 0 <= t2 < targetsv.len() {
                                            let x = (ReleaseTupleView {
                                                package: srcv[j2].package,
                                                source: srcv[j2].repository,
                                                destination: targetsv[t2].dest_repository,
                                            });
                                            if tuples.deep_view().contains(x) {
                                                let ix = choose|ix: int|
                                                    0 <= ix < tuples.deep_view().len()
                                                        && #[trigger] tuples.deep_view()[ix] == x;
                                                if ix < deep_before.len() {
                                                    assert(deep_before[ix] == x);
                                                    assert(deep_before.contains(x));
                                                } else {
                                                    assert(x == tv);
                                                    assert(targetsv[t2].dest_repository
                                                        == targetsv[t as int].dest_repository);
                                                    assert(project_in(
                                                        full_release_projects@,
                                                        targetsv[t2].dest_repository.project,
                                                    ));
                                                }
                                            }
                                        }
                                    }
                                }
                            }
                            proof {
                                assert(tuples.deep_view().contains(tv));
                                assert(project_in(
                                    full_release_projects@,
                                    targetsv[t as int].dest_repository.project,
                                ));
                                assert(incremental_tuple_owed(
                                    tuples.deep_view(),
                                    srcv,
                                    targetsv,
                                    full_release_projects@,
                                    incremental@,
                                    store@,
                                    ei as int,
                                    t as int,
                                ));
                            }
                            proof {
                                assert(pair_target_warnings(
                                    srcv,
                                    targetsv,
                                    full_release_projects@,
                                    incremental@,
                                    store@,
                                    ei as int,
                                    t as int,
                                ) =~= Seq::<TagWarningView>::empty());
                                assert(entry_warnings_prefix(
                                    srcv,
                                    targetsv,
                                    full_release_projects@,
                                    incremental@,
                                    store@,
                                    ei as int,
                                    t + 1,
                                ) =~= entry_warnings_prefix(
                                    srcv,
                                    targetsv,
                                    full_release_projects@,
                                    incremental@,
                                    store@,
                                    ei as int,
                                    t as int,
                                ));
                            }
                        } else {
                            let snap = match find_snapshot(incremental, dest_project) {
                                Some(s) => s,
                                None => {
                                    proof {
                                        assert(false);
                                    }
                                    return Err(
                                        SelectError::DestRepositoryMissing(dest_project.name()),
                                    );
                                },
                            };
                            proof {
                                let destp = targetsv[t as int].dest_repository.project;
                                let i0 = choose|i0: int|
                                    0 <= i0 < incremental@.len()
                                        && (#[trigger] incremental@[i0]).project@ == destp
                                        && snap == &incremental@[i0] && forall|j0: int|
                                        0 <= j0 < i0 ==> (#[trigger] incremental@[j0]).project@
                                            != destp;
                                lemma_snapshot_bins(incremental@, destp, i0);
                                assert(snapshot_bins(incremental@, destp) == snap.bins@);
                            }
                            let src_fps = match fingerprints(&bins, store) {
                                Ok(f) => f,
                                Err(e) => {
                                    proof {
                                        assert(srcv[ei as int].package == entry_pkg@
                                            && srcv[ei as int].repository == entry_repo@);
                                        assert(fps_of(
                                            bins_for(srcv, entry_pkg@, entry_repo@),
                                            store@,
                                        ) is None);
                                    }
                                    return Err(SelectError::SidecarMissing(e.binary_name));
                                },
                            };
                            proof {
                                assert(fps_of(bins_for(srcv, entry_pkg@, entry_repo@), store@)
                                    == Some(src_fps.deep_view()));
                            }
                            let src_tags = collect_tags(&src_fps);
                            proof {
                                assert(src_tags.deep_view().to_set() =~= tags_of(
                                    src_fps.deep_view(),
                                ));
                            }
                            match scan_destination(
                                &entry_pkg,
                                &src_fps,
                                &snap.bins,
                                &target.dest_repository,
                                store,
                            ) {
                                Err(e) => {
                                    proof {
                                        assert(srcv[ei as int].package == entry_pkg@
                                            && srcv[ei as int].repository == entry_repo@);
                                        assert(scan_spec(
                                            matching_packages(
                                                snapshot_bins(
                                                    incremental@,
                                                    targetsv[t as int].dest_repository.project,
                                                ),
                                                entry_pkg@.name,
                                            ),
                                            snapshot_bins(
                                                incremental@,
                                                targetsv[t as int].dest_repository.project,
                                            ),
                                            targetsv[t as int].dest_repository,
                                            store@,
                                            src_fps.deep_view().to_set(),
                                        ) == ScanSpec::Failed);
                                    }
                                    return Err(e);
                                },
                                Ok(ScanOutcome::Released) => {
                                    proof {
                                        let destp = targetsv[t as int].dest_repository.project;
                                        let i0 = choose|i0: int|
                                            0 <= i0 < incremental@.len()
                                                && (#[trigger] incremental@[i0]).project@ == destp
                                                && snap == &incremental@[i0] && forall|j0: int|
                                                0 <= j0 < i0 ==> (#[trigger] incremental@[j0]).project@
                                                    != destp;
                                        lemma_snapshot_bins(incremental@, destp, i0);
                                        assert(snapshot_bins(incremental@, destp) == snap.bins@);
                                        assert(fps_of(
                                            bins_for(srcv, entry_pkg@, entry_repo@),
                                            store@,
                                        ) == Some(src_fps.deep_view()));
                                        assert(incremental_tuple_owed(
                                            tuples.deep_view(),
                                            srcv,
                                            targetsv,
                                            full_release_projects@,
                                            incremental@,
                                            store@,
                                            ei as int,
                                            t as int,
                                        ));
                                    }
                                    proof {
                                        assert(pair_target_warnings(
                                            srcv,
                                            targetsv,
                                            full_release_projects@,
                                            incremental@,
                                            store@,
                                            ei as int,
                                            t as int,
                                        ) =~= Seq::<TagWarningView>::empty());
                                        assert(entry_warnings_prefix(
                                            srcv,
                                            targetsv,
                                            full_release_projects@,
                                            incremental@,
                                            store@,
                                            ei as int,
                                            t + 1,
                                        ) =~= entry_warnings_prefix(
                                            srcv,
                                            targetsv,
                                            full_release_projects@,
                                            incremental@,
                                            store@,
                                            ei as int,
                                            t as int,
                                        ));
                                    }
                                },
                                Ok(ScanOutcome::Candidates(cands)) => {
                                    let mut ci: usize = 0;
                                    proof {
                                        assert(warnings.deep_view()
                                            =~= selection_warnings_prefix(
                                            srcv,
                                            targetsv,
                                            full_release_projects@,
                                            incremental@,
                                            store@,
                                            ei as int,
                                        ) + entry_warnings_prefix(
                                            srcv,
                                            targetsv,
                                            full_release_projects@,
                                            incremental@,
                                            store@,
                                            ei as int,
                                            t as int,
                                        ) + candidates_warnings(
                                            entry_pkg@.name,
                                            cands.deep_view(),
                                            src_tags.deep_view().to_set(),
                                            targetsv[t as int].dest_repository.project.name,
                                            0,
                                        ));
                                    }
                                    while ci < cands.len()
                                        invariant
                                            0 <= ci <= cands@.len(),
                                            tuples.deep_view().no_duplicates(),
                                            forall|m: int|
                                                0 <= m < tuples.deep_view().len()
                                                    ==> tuple_from_inputs(
                                                    #[trigger] tuples.deep_view()[m],
                                                    srcv,
                                                    targetsv,
                                                ),
                                            forall|j2: int, t2: int|
                                                0 <= j2 < ei && 0 <= t2 < release_targets@.len()
                                                    ==> full_tuple_owed(
                                                    tuples.deep_view(),
                                                    srcv,
                                                    targetsv,
                                                    full_release_projects@,
                                                    j2,
                                                    t2,
                                                ),
                                            forall|t2: int|
                                                0 <= t2 < t && (
                                                #[trigger] targetsv[t2]).src_repository
                                                    == entry_repo@ && project_in(
                                                    full_release_projects@,
                                                    targetsv[t2].dest_repository.project,
                                                ) ==> tuples.deep_view().contains(
                                                    (ReleaseTupleView {
                                                        package: entry_pkg@,
                                                        source: entry_repo@,
                                                        destination: targetsv[t2].dest_repository,
                                                    }),
                                                ),
                                            forall|j2: int, t2: int|
                                                0 <= j2 < ei && 0 <= t2 < release_targets@.len()
                                                    ==> incremental_tuple_owed(
                                                    tuples.deep_view(),
                                                    srcv,
                                                    targetsv,
                                                    full_release_projects@,
                                                    incremental@,
                                                    store@,
                                                    j2,
                                                    t2,
                                                ),
                                            forall|t2: int|
                                                0 <= t2 < t ==> incremental_tuple_owed(
                                                    tuples.deep_view(),
                                                    srcv,
                                                    targetsv,
                                                    full_release_projects@,
                                                    incremental@,
                                                    store@,
                                                    ei as int,
                                                    t2,
                                                ),
                                            warnings.deep_view()
                                                == selection_warnings_prefix(
                                                srcv,
                                                targetsv,
                                                full_release_projects@,
                                                incremental@,
                                                store@,
                                                ei as int,
                                            ) + entry_warnings_prefix(
                                                srcv,
                                                targetsv,
                                                full_release_projects@,
                                                incremental@,
                                                store@,
                                                ei as int,
                                                t as int,
                                            ) + candidates_warnings(
                                                entry_pkg@.name,
                                                cands.deep_view(),
                                                src_tags.deep_view().to_set(),
                                                targetsv[t as int].dest_repository.project.name,
                                                ci as int,
                                            ),
                                            forall|j2: int, t2: int|
                                                released_not_tupled(
                                                    tuples.deep_view(),
                                                    srcv,
                                                    targetsv,
                                                    full_release_projects@,
                                                    incremental@,
                                                    store@,
                                                    j2,
                                                    t2,
                                                ),
                                            ci > 0 ==> tuples.deep_view().contains(
                                                (ReleaseTupleView {
                                                    package: entry_pkg@,
                                                    source: entry_repo@,
                                                    destination: targetsv[t as int].dest_repository,
                                                }),
                                            ),
                                        decreases cands@.len() - ci,
                                    {
                                        let cand = &cands[ci];
                                        let tuple = ReleaseTuple {
                                            package: entry_pkg.clone(),
                                            source: entry_repo.clone(),
                                            destination: target.dest_repository.clone(),
                                        };
                                        let ghost tv = tuple@;
                                        proof {
                                            assert(tuple_from_inputs(tv, srcv, targetsv)) by {
                                                assert(srcv[ei as int].package == tv.package
                                                    && srcv[ei as int].repository == tv.source);
                                                assert(targetsv[t as int].src_repository
                                                    == tv.source && targetsv[
                                                t as int].dest_repository == tv.destination);
                                            }
                                        }
                                        if !tuple_vec_contains(&tuples, &tuple) {
                                            let ghost deep_before = tuples.deep_view();
                                            let ghost vec_before = tuples@;
                                            tuples.push(tuple);
                                            proof {
                                                assert forall|m: int|
                                                    0 <= m < tuples.deep_view().len() implies
                                                    tuples.deep_view()[m] == deep_before.push(
                                                    tv,
                                                )[m] by {
                                                    if m < deep_before.len() {
                                                        assert(tuples@[m] == vec_before[m]);
                                                        assert(deep_before[m]
                                                            == vec_before[m].deep_view());
                                                    }
                                                }
                                                assert(tuples.deep_view() =~= deep_before.push(
                                                    tv,
                                                ));
                                                assert(tuples.deep_view()[tuples.deep_view().len()
                                                    - 1] == tv);
                                                assert forall|x: ReleaseTupleView|
                                                    deep_before.contains(x) implies
                                                    tuples.deep_view().contains(x) by {
                                                    let ix = choose|ix: int|
                                                        0 <= ix < deep_before.len()
                                                            && #[trigger] deep_before[ix] == x;
                                                    assert(tuples.deep_view()[ix] == x);
                                                }
                                                assert forall|i2: int, j2: int|
                                                    0 <= i2 < j2 < tuples.deep_view().len()
                                                        implies tuples.deep_view()[i2]
                                                    != tuples.deep_view()[j2] by {
                                                    if j2 == tuples.deep_view().len() - 1 {
                                                        if tuples.deep_view()[i2] == tv {
                                                            assert(deep_before.contains(tv));
                                                        }
                                                    }
                                                }
                                                                                            assert forall|j2: int, t2: int|
                                                    0 <= j2 < ei && 0 <= t2 < release_targets@.len() implies full_tuple_owed(
                                                    tuples.deep_view(),
                                                    srcv,
                                                    targetsv,
                                                    full_release_projects@,
                                                    j2,
                                                    t2,
                                                ) by {
                                                    assert(full_tuple_owed(
                                                        deep_before,
                                                        srcv,
                                                        targetsv,
                                                        full_release_projects@,
                                                        j2,
                                                        t2,
                                                    ));
                                                }
                                                assert forall|j2: int, t2: int|
                                                    0 <= j2 < ei && 0 <= t2 < release_targets@.len() implies incremental_tuple_owed(
                                                    tuples.deep_view(),
                                                    srcv,
                                                    targetsv,
                                                    full_release_projects@,
                                                    incremental@,
                                                    store@,
                                                    j2,
                                                    t2,
                                                ) by {
                                                    assert(incremental_tuple_owed(
                                                        deep_before,
                                                        srcv,
                                                        targetsv,
                                                        full_release_projects@,
                                                        incremental@,
                                                        store@,
                                                        j2,
                                                        t2,
                                                    ));
                                                }
                                                assert forall|t2: int|
                                                    0 <= t2 < t implies incremental_tuple_owed(
                                                    tuples.deep_view(),
                                                    srcv,
                                                    targetsv,
                                                    full_release_projects@,
                                                    incremental@,
                                                    store@,
                                                    ei as int,
                                                    t2,
                                                ) by {
                                                    assert(incremental_tuple_owed(
                                                        deep_before,
                                                        srcv,
                                                        targetsv,
                                                        full_release_projects@,
                                                        incremental@,
                                                        store@,
                                                        ei as int,
                                                        t2,
                                                    ));
                                                }
                                                assert forall|j2: int, t2: int|
                                                    released_not_tupled(
                                                    tuples.deep_view(),
                                                    srcv,
                                                    targetsv,
                                                    full_release_projects@,
                                                    incremental@,
                                                    store@,
                                                    j2,
                                                    t2,
                                                ) by {
                                                    assert(released_not_tupled(
                                                        deep_before,
                                                        srcv,
                                                        targetsv,
                                                        full_release_projects@,
                                                        incremental@,
                                                        store@,
                                                        j2,
                                                        t2,
                                                    ));
                                                    if 0 <= j2 < srcv.len() && 0 <= t2 < targetsv.len() {
                                                        let x = (ReleaseTupleView {
                                                            package: srcv[j2].package,
                                                            source: srcv[j2].repository,
                                                            destination: targetsv[t2].dest_repository,
                                                        });
                                                        if tuples.deep_view().contains(x) {
                                                            let ix = choose|ix: int|
                                                                0 <= ix < tuples.deep_view().len()
                                                                    && #[trigger] tuples.deep_view()[ix] == x;
                                                            if ix < deep_before.len() {
                                                                assert(deep_before[ix] == x);
                                                                assert(deep_before.contains(x));
                                                            } else {
                                                                assert(x == tv);
                                                                assert(targetsv[t2].dest_repository
                                                                    == targetsv[t as int].dest_repository);
                                                                assert(srcv[j2].package == entry_pkg@);
                                                                assert(srcv[j2].repository == entry_repo@);
                                                                assert(scan_spec(
                                                                    matching_packages(
                                                                        snapshot_bins(
                                                                            incremental@,
                                                                            targetsv[t2].dest_repository.project,
                                                                        ),
                                                                        srcv[j2].package.name,
                                                                    ),
                                                                    snapshot_bins(
                                                                        incremental@,
                                                                        targetsv[t2].dest_repository.project,
                                                                    ),
                                                                    targetsv[t2].dest_repository,
                                                                    store@,
                                                                    fps_of(
                                                                        bins_for(srcv, srcv[j2].package, srcv[j2].repository),
                                                                        store@,
                                                                    )->0.to_set(),
                                                                ) == ScanSpec::Candidates(cands.deep_view()));
                                                            }
                                                        }
                                                    }
                                                }
                                            }
                                        }
                                        proof {
                                            assert(tuples.deep_view().contains(tv));
                                        }
                                        let name_owned = String::from_str(cand.package.name());
                                        let mut warns = candidate_warnings(
                                            &entry_pkg,
                                            &name_owned,
                                            &cand.fps,
                                            &src_tags,
                                            dest_project,
                                        );
                                        let ghost w_deep_before = warnings.deep_view();
                                        let ghost w_vec_before = warnings@;
                                        let ghost warns_vec = warns@;
                                        let ghost warns_deep = warns.deep_view();
                                        proof {
                                            assert(cands.deep_view()[ci as int] == (
                                                cand.package@,
                                                cand.fps.deep_view(),
                                            ));
                                            assert(dest_project@
                                                == targetsv[t as int].dest_repository.project);
                                            assert forall|m: int|
                                                0 <= m < warns_deep.len() implies warns_deep[m]
                                                == candidate_warning_seq(
                                                entry_pkg@.name,
                                                cands.deep_view()[ci as int],
                                                src_tags.deep_view().to_set(),
                                                targetsv[t as int].dest_repository.project.name,
                                            )[m] by {
                                                assert(warns_deep[m] == warns@[m].deep_view());
                                            }
                                            assert(warns_deep =~= candidate_warning_seq(
                                                entry_pkg@.name,
                                                cands.deep_view()[ci as int],
                                                src_tags.deep_view().to_set(),
                                                targetsv[t as int].dest_repository.project.name,
                                            ));
                                        }
                                        warnings.append(&mut warns);
                                        proof {
                                            assert forall|m: int|
                                                0 <= m < warnings.deep_view().len() implies
                                                warnings.deep_view()[m] == (w_deep_before
                                                + warns_deep)[m] by {
                                                assert(warnings.deep_view()[m]
                                                    == warnings@[m].deep_view());
                                                if m < w_vec_before.len() {
                                                    assert(warnings@[m] == w_vec_before[m]);
                                                    assert(w_deep_before[m]
                                                        == w_vec_before[m].deep_view());
                                                } else {
                                                    assert(warnings@[m] == warns_vec[m
                                                        - w_vec_before.len()]);
                                                    assert(warns_deep[m - w_vec_before.len()]
                                                        == warns_vec[m
                                                        - w_vec_before.len()].deep_view());
                                                }
                                            }
                                            assert(warnings.deep_view() =~= w_deep_before
                                                + warns_deep);
                                            assert(warnings.deep_view()
                                                =~= selection_warnings_prefix(
                                                srcv,
                                                targetsv,
                                                full_release_projects@,
                                                incremental@,
                                                store@,
                                                ei as int,
                                            ) + entry_warnings_prefix(
                                                srcv,
                                                targetsv,
                                                full_release_projects@,
                                                incremental@,
                                                store@,
                                                ei as int,
                                                t as int,
                                            ) + candidates_warnings(
                                                entry_pkg@.name,
                                                cands.deep_view(),
                                                src_tags.deep_view().to_set(),
                                                targetsv[t as int].dest_repository.project.name,
                                                ci + 1,
                                            ));
                                        }
                                        ci = ci + 1;
                                    }
                                    proof {
                                        let destp = targetsv[t as int].dest_repository.project;
                                        let i0 = choose|i0: int|
                                            0 <= i0 < incremental@.len()
                                                && (#[trigger] incremental@[i0]).project@ == destp
                                                && snap == &incremental@[i0] && forall|j0: int|
                                                0 <= j0 < i0 ==> (#[trigger] incremental@[j0]).project@
                                                    != destp;
                                        lemma_snapshot_bins(incremental@, destp, i0);
                                        assert(snapshot_bins(incremental@, destp) == snap.bins@);
                                        assert(fps_of(
                                            bins_for(srcv, entry_pkg@, entry_repo@),
                                            store@,
                                        ) == Some(src_fps.deep_view()));
                                        assert(cands.deep_view().len() == cands@.len());
                                        assert(incremental_tuple_owed(
                                            tuples.deep_view(),
                                            srcv,
                                            targetsv,
                                            full_release_projects@,
                                            incremental@,
                                            store@,
                                            ei as int,
                                            t as int,
                                        ));
                                        assert(src_tags.deep_view().to_set() == tags_of(
                                            src_fps.deep_view(),
                                        ));
                                        assert(pair_target_warnings(
                                            srcv,
                                            targetsv,
                                            full_release_projects@,
                                            incremental@,
                                            store@,
                                            ei as int,
                                            t as int,
                                        ) == candidates_warnings(
                                            entry_pkg@.name,
                                            cands.deep_view(),
                                            src_tags.deep_view().to_set(),
                                            targetsv[t as int].dest_repository.project.name,
                                            cands.deep_view().len() as int,
                                        ));
                                        assert(warnings.deep_view()
                                            =~= selection_warnings_prefix(
                                            srcv,
                                            targetsv,
                                            full_release_projects@,
                                            incremental@,
                                            store@,
                                            ei as int,
                                        ) + entry_warnings_prefix(
                                            srcv,
                                            targetsv,
                                            full_release_projects@,
                                            incremental@,
                                            store@,
                                            ei as int,
                                            t + 1,
                                        ));
                                    }
                                },
                            }
                        }
                    } else {
                        proof {
                            assert(pair_target_warnings(
                                srcv,
                                targetsv,
                                full_release_projects@,
                                incremental@,
                                store@,
                                ei as int,
                                t as int,
                            ) =~= Seq::<TagWarningView>::empty());
                            assert(entry_warnings_prefix(
                                srcv,
                                targetsv,
                                full_release_projects@,
                                incremental@,
                                store@,
                                ei as int,
                                t + 1,
                            ) =~= entry_warnings_prefix(
                                srcv,
                                targetsv,
                                full_release_projects@,
                                incremental@,
                                store@,
                                ei as int,
                                t as int,
                            ));
                        }
                    }
                    t = t + 1;
                }
                proof {
                    assert forall|j2: int, t2: int|
                        0 <= j2 < ei + 1 && 0 <= t2 < release_targets@.len() implies
                        full_tuple_owed(
                        tuples.deep_view(),
                        srcv,
                        targetsv,
                        full_release_projects@,
                        j2,
                        t2,
                    ) by {
                        if j2 == ei as int {
                            assert(srcv[j2].package == entry_pkg@);
                            assert(srcv[j2].repository == entry_repo@);
                            assert(targetsv[t2] == release_targets@[t2]@);
                        }
                    }
                    assert forall|j2: int, t2: int|
                        0 <= j2 < ei + 1 && 0 <= t2 < release_targets@.len() implies
                        incremental_tuple_owed(
                        tuples.deep_view(),
                        srcv,
                        targetsv,
                        full_release_projects@,
                        incremental@,
                        store@,
                        j2,
                        t2,
                    ) by {
                        if j2 == ei as int {
                            assert(srcv[j2].package == entry_pkg@);
                            assert(srcv[j2].repository == entry_repo@);
                            assert(incremental_tuple_owed(
                                tuples.deep_view(),
                                srcv,
                                targetsv,
                                full_release_projects@,
                                incremental@,
                                store@,
                                ei as int,
                                t2,
                            ));
                        }
                    }
                }
            } else {
                proof {
                    assert forall|j2: int, t2: int|
                        0 <= j2 < ei + 1 && 0 <= t2 < release_targets@.len() implies
                        full_tuple_owed(
                        tuples.deep_view(),
                        srcv,
                        targetsv,
                        full_release_projects@,
                        j2,
                        t2,
                    ) by {
                        if j2 == ei as int {
                            assert(bins.deep_view().len() == 0);
                        }
                    }
                    assert forall|j2: int, t2: int|
                        0 <= j2 < ei + 1 && 0 <= t2 < release_targets@.len() implies
                        incremental_tuple_owed(
                        tuples.deep_view(),
                        srcv,
                        targetsv,
                        full_release_projects@,
                        incremental@,
                        store@,
                        j2,
                        t2,
                    ) by {
                        if j2 == ei as int {
                            assert(bins.deep_view().len() == 0);
                            assert(bins_for(srcv, srcv[j2].package, srcv[j2].repository).len()
                                == 0);
                        }
                    }
                }
            }
        } else {
            proof {
                let j0 = choose|j0: int|
                    0 <= j0 < ei && (#[trigger] src_binlist.entries.deep_view()[j0]).package
                        == src_binlist.entries.deep_view()[ei as int].package
                        && src_binlist.entries.deep_view()[j0].repository
                        == src_binlist.entries.deep_view()[ei as int].repository;
                assert forall|j2: int, t2: int|
                    0 <= j2 < ei + 1 && 0 <= t2 < release_targets@.len() implies full_tuple_owed(
                    tuples.deep_view(),
                    srcv,
                    targetsv,
                    full_release_projects@,
                    j2,
                    t2,
                ) by {
                    if j2 == ei as int {
                        assert(srcv[j0] == src_binlist.entries.deep_view()[j0]);
                        assert(srcv[j0].package == srcv[j2].package);
                        assert(srcv[j0].repository == srcv[j2].repository);
                        assert(full_tuple_owed(
                            tuples.deep_view(),
                            srcv,
                            targetsv,
                            full_release_projects@,
                            j0,
                            t2,
                        ));
                    }
                }
                assert forall|j2: int, t2: int|
                    0 <= j2 < ei + 1 && 0 <= t2 < release_targets@.len() implies
                    incremental_tuple_owed(
                    tuples.deep_view(),
                    srcv,
                    targetsv,
                    full_release_projects@,
                    incremental@,
                    store@,
                    j2,
                    t2,
                ) by {
                    if j2 == ei as int {
                        assert(srcv[j0] == src_binlist.entries.deep_view()[j0]);
                        assert(srcv[j0].package == srcv[j2].package);
                        assert(srcv[j0].repository == srcv[j2].repository);
                        assert(incremental_tuple_owed(
                            tuples.deep_view(),
                            srcv,
                            targetsv,
                            full_release_projects@,
                            incremental@,
                            store@,
                            j0,
                            t2,
                        ));
                    }
                }
            }
        }
        ei = ei + 1;
    }
    proof {
        assert forall|j: int, t: int|
            0 <= j < srcv.len() && 0 <= t < release_targets@.len() && (
        #[trigger] srcv[j]).binaries.len() > 0 && (#[trigger] release_targets@[t])@.src_repository
            == srcv[j].repository && project_in(
            full_release_projects@,
            release_targets@[t]@.dest_repository.project,
        ) implies tuples.deep_view().contains(
            (ReleaseTupleView {
                package: srcv[j].package,
                source: srcv[j].repository,
                destination: release_targets@[t]@.dest_repository,
            }),
        ) by {
            lemma_bins_for_nonempty(srcv, srcv[j].package, srcv[j].repository, j);
            assert(targetsv[t] == release_targets@[t]@);
            assert(full_tuple_owed(
                tuples.deep_view(),
                srcv,
                targetsv,
                full_release_projects@,
                j,
                t,
            ));
        }
    }
    Ok(Selection { tuples, warnings })
}

} // verus!

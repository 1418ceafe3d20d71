//! Content fingerprints of built artifacts.
//!
//! A fingerprint identifies an artifact by content rather than by
//! location: a plain package artifact by its file stem, a container or
//! chart artifact by the image or chart digest of its fetched sidecar
//! metadata, together with the tag set it publishes.

use vstd::prelude::*;

use crate::binarylist::Binary;
use crate::binarylist::BinaryView;
use crate::codes::BuildArch;
use crate::model::Package;
use crate::model::PackageView;
use crate::model::Repository;
use crate::model::RepositoryView;
use crate::strutil::rsplit_at;
use crate::strutil::rsplit_once_at;
use crate::strutil::str_eq;
use crate::strutil::vec_string_eq;

verus! {

/// Sidecar metadata of a container artifact.
#[derive(Debug)]
pub struct ContainerInfo {
    pub buildtime: i64,
    pub disturl: String,
    pub file: String,
    pub imageid: String,
    pub release: String,
    pub tags: Vec<String>,
    pub tar_blobids: Vec<String>,
    pub tar_manifest: String,
    pub tar_md5sum: String,
    pub tar_mtime: i64,
    pub tar_sha256sum: String,
    pub tar_size: u64,
}

/// Mathematical content of a [`ContainerInfo`], reduced to what the
/// fingerprint reads.
pub struct ContainerInfoView {
    pub imageid: Seq<char>,
    pub tags: Seq<Seq<char>>,
}

impl View for ContainerInfo {
    type V = ContainerInfoView;

    open spec fn view(&self) -> ContainerInfoView {
        (ContainerInfoView { imageid: self.imageid@, tags: self.tags.deep_view() })
    }
}

/// Sidecar metadata of a chart artifact.
#[derive(Debug)]
pub struct HelmInfo {
    pub name: String,
    pub version: String,
    pub release: String,
    pub tags: Vec<String>,
    pub disturl: String,
    pub buildtime: i64,
    pub chart: String,
    pub config_json: String,
    pub chart_sha256: String,
    pub chart_size: u64,
}

/// Mathematical content of a [`HelmInfo`], reduced to what the
/// fingerprint reads.
pub struct HelmInfoView {
    pub chart_sha256: Seq<char>,
    pub tags: Seq<Seq<char>>,
}

impl View for HelmInfo {
    type V = HelmInfoView;

    open spec fn view(&self) -> HelmInfoView {
        (HelmInfoView { chart_sha256: self.chart_sha256@, tags: self.tags.deep_view() })
    }
}

/// Parsed sidecar metadata of one artifact.
#[derive(Debug)]
pub enum SidecarInfo {
    Container(ContainerInfo),
    Helm(HelmInfo),
}

/// Mathematical content of a [`SidecarInfo`].
pub enum SidecarInfoView {
    Container(ContainerInfoView),
    Helm(HelmInfoView),
}

impl View for SidecarInfo {
    type V = SidecarInfoView;

    open spec fn view(&self) -> SidecarInfoView {
        match self {
            SidecarInfo::Container(c) => SidecarInfoView::Container(c@),
            SidecarInfo::Helm(h) => SidecarInfoView::Helm(h@),
        }
    }
}

/// Fetched sidecar metadata for one listed binary, keyed by the
/// binary's full identity.
#[derive(Debug)]
pub struct SidecarEntry {
    pub package: Package,
    pub repository: Repository,
    pub arch: BuildArch,
    pub binary_name: String,
    pub info: SidecarInfo,
}

/// Mathematical content of a [`SidecarEntry`].
pub struct SidecarEntryView {
    pub package: PackageView,
    pub repository: RepositoryView,
    pub arch: BuildArch,
    pub binary_name: Seq<char>,
    pub info: SidecarInfoView,
}

impl View for SidecarEntry {
    type V = SidecarEntryView;

    open spec fn view(&self) -> SidecarEntryView {
        (SidecarEntryView {
            package: self.package@,
            repository: self.repository@,
            arch: self.arch,
            binary_name: self.binary_name@,
            info: self.info@,
        })
    }
}

impl DeepView for SidecarEntry {
    type V = SidecarEntryView;

    open spec fn deep_view(&self) -> SidecarEntryView {
        self.view()
    }
}

/// All sidecar metadata fetched for one run; lookups scan front to
/// back.
#[derive(Debug)]
pub struct SidecarStore {
    pub entries: Vec<SidecarEntry>,
}

impl View for SidecarStore {
    type V = Seq<SidecarEntryView>;

    open spec fn view(&self) -> Seq<SidecarEntryView> {
        self.entries.deep_view()
    }
}

/// The content identity of one artifact: a content id and the tags it
/// publishes.
#[derive(Debug)]
pub struct BinInfo {
    pub id: String,
    pub tags: Vec<String>,
}

/// Mathematical content of a [`BinInfo`].
pub struct BinInfoView {
    pub id: Seq<char>,
    pub tags: Seq<Seq<char>>,
}

impl View for BinInfo {
    type V = BinInfoView;

    open spec fn view(&self) -> BinInfoView {
        (BinInfoView { id: self.id@, tags: self.tags.deep_view() })
    }
}

impl DeepView for BinInfo {
    type V = BinInfoView;

    open spec fn deep_view(&self) -> BinInfoView {
        self.view()
    }
}

impl Clone for BinInfo {
    fn clone(&self) -> (r: Self)
        ensures
            r@ == self@,
    {
        let r = BinInfo { id: self.id.clone(), tags: self.tags.clone() };
        proof {
            assert(r.tags.deep_view() =~= self.tags.deep_view());
        }
        r
    }
}

impl PartialEq for BinInfo {
    fn eq(&self, other: &Self) -> (r: bool) {
        self.id == other.id && vec_string_eq(&self.tags, &other.tags)
    }
}

impl vstd::std_specs::cmp::PartialEqSpecImpl for BinInfo {
    open spec fn obeys_eq_spec() -> bool {
        true
    }

    open spec fn eq_spec(&self, other: &Self) -> bool {
        self@ == other@
    }
}

/// How one artifact contributes to the fingerprint set, judged from
/// its filename suffix.
pub enum FpKind {
    /// No fingerprint: unknown suffix, or no suffix at all.
    NotFingerprinted,
    /// A plain package artifact: the fingerprint id is the file stem.
    Stem(Seq<char>),
    /// A container or chart artifact: the fingerprint comes from
    /// fetched sidecar metadata.
    NeedsSidecar,
}

/// Classifies a filename by its suffix, the part after the last dot.
pub open spec fn fp_kind_of(name: Seq<char>) -> FpKind {
    match rsplit_at(name, '.') {
        None => FpKind::NotFingerprinted,
        Some(parts) => {
            if parts.1 == "rpm"@ {
                FpKind::Stem(parts.0)
            } else if parts.1 == "containerinfo"@ || parts.1 == "helminfo"@ {
                FpKind::NeedsSidecar
            } else {
                FpKind::NotFingerprinted
            }
        },
    }
}

/// The fingerprint that parsed sidecar metadata yields.
pub open spec fn sidecar_fp(info: SidecarInfoView) -> BinInfoView {
    match info {
        SidecarInfoView::Container(c) => BinInfoView { id: c.imageid, tags: c.tags },
        SidecarInfoView::Helm(h) => BinInfoView { id: h.chart_sha256, tags: h.tags },
    }
}

/// The sidecar metadata the store holds for one binary: the first
/// entry whose whole identity matches.
pub open spec fn store_lookup(store: Seq<SidecarEntryView>, b: BinaryView) -> Option<
    SidecarInfoView,
>
    decreases store.len(),
{
    if store.len() == 0 {
        None
    } else if store[0].package == b.package && store[0].repository == b.repository && store[0].arch
        == b.architecture && store[0].binary_name == b.name {
        Some(store[0].info)
    } else {
        store_lookup(store.drop_first(), b)
    }
}

/// What one binary contributes: `None` when needed sidecar metadata is
/// missing from the store, otherwise the optional fingerprint.
pub open spec fn bin_fp(b: BinaryView, store: Seq<SidecarEntryView>) -> Option<Option<BinInfoView>> {
    match fp_kind_of(b.name) {
        FpKind::NotFingerprinted => Some(None),
        FpKind::Stem(stem) => Some(
            Some(BinInfoView { id: stem, tags: Seq::empty() }),
        ),
        FpKind::NeedsSidecar => match store_lookup(store, b) {
            None => None,
            Some(info) => Some(Some(sidecar_fp(info))),
        },
    }
}

/// The fingerprint set of the first `n` binaries, in first-seen order
/// without repetition; `None` when sidecar metadata is missing.
pub open spec fn fps_prefix(
    bins: Seq<BinaryView>,
    store: Seq<SidecarEntryView>,
    n: int,
) -> Option<Seq<BinInfoView>>
    decreases n,
{
    if n <= 0 {
        Some(Seq::empty())
    } else {
        match fps_prefix(bins, store, n - 1) {
            None => None,
            Some(prev) => match bin_fp(bins[n - 1], store) {
                None => None,
                Some(None) => Some(prev),
                Some(Some(fp)) => if prev.contains(fp) {
                    Some(prev)
                } else {
                    Some(prev.push(fp))
                },
            },
        }
    }
}

/// The fingerprint set of a group of binaries.
pub open spec fn fps_of(bins: Seq<BinaryView>, store: Seq<SidecarEntryView>) -> Option<
    Seq<BinInfoView>,
> {
    fps_prefix(bins, store, bins.len() as int)
}

proof fn lemma_fps_prefix_none(
    bins: Seq<BinaryView>,
    store: Seq<SidecarEntryView>,
    n: int,
    m: int,
)
    requires
        fps_prefix(bins, store, n) is None,
        n <= m,
    ensures
        fps_prefix(bins, store, m) is None,
    decreases m - n,
{
    if n < m {
        lemma_fps_prefix_none(bins, store, n, m - 1);
    }
}

/// Needed sidecar metadata was not fetched for this binary.
#[derive(Debug)]
pub struct SidecarMissing {
    pub binary_name: String,
}

/// Whether a fingerprint list contains the given fingerprint.
pub fn contains_fp(v: &Vec<BinInfo>, x: &BinInfo) -> (r: bool)
    ensures
        r == v.deep_view().contains(x@),
{
    let mut i: usize = 0;
    while i < v.len()
        invariant
            0 <= i <= v@.len(),
            forall|j: int| 0 <= j < i ==> v.deep_view()[j] != x@,
        decreases v@.len() - i,
    {
        assert(v.deep_view()[i as int] == v@[i as int]@);
        if &v[i] == x {
            assert(v.deep_view().contains(x@));
            return true;
        }
        i = i + 1;
    }
    assert(forall|j: int| 0 <= j < v.deep_view().len() ==> v.deep_view()[j] != x@);
    false
}

fn lookup_sidecar<'a>(store: &'a SidecarStore, b: &Binary) -> (r: Option<&'a SidecarInfo>)
    ensures
        match r {
            Some(info) => store_lookup(store@, b@) == Some(info@),
            None => store_lookup(store@, b@) is None,
        },
{
    let mut i: usize = 0;
    proof {
        assert(store@.skip(0) =~= store@);
    }
    while i < store.entries.len()
        invariant
            0 <= i <= store.entries@.len(),
            store_lookup(store@, b@) == store_lookup(store@.skip(i as int), b@),
        decreases store.entries@.len() - i,
    {
        let e = &store.entries[i];
        proof {
            assert(store@.skip(i as int)[0] == store.entries@[i as int]@);
            assert(store@.skip(i as int).drop_first() =~= store@.skip(i + 1));
        }
        if e.package == b.package && e.repository == b.repository && e.arch == b.architecture
            && str_eq(e.binary_name.as_str(), b.name.as_str()) {
            return Some(&e.info);
        }
        i = i + 1;
    }
    proof {
        assert(store@.skip(store.entries@.len() as int) =~= Seq::empty());
    }
    None
}

/// Derives the fingerprint set of a group of binaries, taking parsed
/// sidecar metadata from the store where a suffix calls for it.
/// Fails when a needed sidecar entry is missing, naming the binary.
pub fn fingerprints(bins: &Vec<Binary>, store: &SidecarStore) -> (r: Result<
    Vec<BinInfo>,
    SidecarMissing,
>)
    ensures
        match r {
            Ok(v) => Some(v.deep_view()) == fps_of(bins.deep_view(), store@),
            Err(_) => fps_of(bins.deep_view(), store@) is None,
        },
{
    let mut result: Vec<BinInfo> = Vec::new();
    let mut i: usize = 0;
    while i < bins.len()
        invariant
            0 <= i <= bins@.len(),
            Some(result.deep_view()) == fps_prefix(bins.deep_view(), store@, i as int),
        decreases bins@.len() - i,
    {
        let b = &bins[i];
        proof {
            assert(bins.deep_view()[i as int] == bins@[i as int]@);
        }
        let fp: Option<BinInfo> = match rsplit_once_at(b.name.as_str(), '.') {
            None => None,
            Some((stem, ext)) => {
                if str_eq(ext.as_str(), "rpm") {
                    let fp_val = BinInfo { id: stem, tags: Vec::new() };
                    proof {
                        assert(fp_val.tags.deep_view() =~= Seq::<Seq<char>>::empty());
                    }
                    Some(fp_val)
                } else if str_eq(ext.as_str(), "containerinfo") || str_eq(
                    ext.as_str(),
                    "helminfo",
                ) {
                    match lookup_sidecar(store, b) {
                        None => {
                            proof {
                                assert(bin_fp(bins.deep_view()[i as int], store@) is None);
                                assert(fps_prefix(bins.deep_view(), store@, i + 1) is None);
                                lemma_fps_prefix_none(
                                    bins.deep_view(),
                                    store@,
                                    i + 1,
                                    bins.deep_view().len() as int,
                                );
                            }
                            return Err(SidecarMissing { binary_name: b.name.clone() });
                        },
                        Some(SidecarInfo::Container(c)) => {
                            let fp = BinInfo { id: c.imageid.clone(), tags: c.tags.clone() };
                            proof {
                                assert(fp.tags.deep_view() =~= c.tags.deep_view());
                            }
                            Some(fp)
                        },
                        Some(SidecarInfo::Helm(h)) => {
                            let fp = BinInfo { id: h.chart_sha256.clone(), tags: h.tags.clone() };
                            proof {
                                assert(fp.tags.deep_view() =~= h.tags.deep_view());
                            }
                            Some(fp)
                        },
                    }
                } else {
                    None
                }
            },
        };
        proof {
            match bin_fp(bins.deep_view()[i as int], store@) {
                None => {
                    assert(false);
                },
                Some(None) => {
                    assert(fp is None);
                },
                Some(Some(spec_fp)) => {
                    assert(fp is Some && fp->0@ == spec_fp);
                },
            }
        }
        match fp {
            None => {},
            Some(fp_val) => {
                if !contains_fp(&result, &fp_val) {
                    let ghost before = result@;
                    let ghost deep_before = result.deep_view();
                    result.push(fp_val);
                    proof {
                        assert forall|m: int| 0 <= m < result@.len() implies result.deep_view()[m]
                            == deep_before.push(result@[result@.len() - 1]@)[m] by {
                            assert(result.deep_view()[m] == result@[m].deep_view());
                            if m < before.len() {
                                assert(result@[m] == before[m]);
                                assert(deep_before[m] == before[m].deep_view());
                            }
                        }
                        assert(result.deep_view() =~= deep_before.push(
                            result@[result@.len() - 1]@,
                        ));
                    }
                }
            },
        }
        i = i + 1;
    }
    proof {
        assert(bins.deep_view().len() == bins@.len());
    }
    Ok(result)
}

/// Whether every fingerprint of `a` also stands in `b`.
pub fn fp_subset(a: &Vec<BinInfo>, b: &Vec<BinInfo>) -> (r: bool)
    ensures
        r == forall|i: int|
            0 <= i < a.deep_view().len() ==> b.deep_view().contains(#[trigger] a.deep_view()[i]),
{
    let mut i: usize = 0;
    while i < a.len()
        invariant
            0 <= i <= a@.len(),
            forall|j: int| 0 <= j < i ==> b.deep_view().contains(#[trigger] a.deep_view()[j]),
        decreases a@.len() - i,
    {
        assert(a.deep_view()[i as int] == a@[i as int]@);
        if !contains_fp(b, &a[i]) {
            return false;
        }
        i = i + 1;
    }
    true
}

/// Whether two fingerprint lists carry the same set of fingerprints.
/// This set equality is the sole criterion for "already released".
pub fn fp_set_equal(a: &Vec<BinInfo>, b: &Vec<BinInfo>) -> (r: bool)
    ensures
        r == (a.deep_view().to_set() == b.deep_view().to_set()),
{
    let r = fp_subset(a, b) && fp_subset(b, a);
    proof {
        broadcast use vstd::seq_lib::group_seq_lib_default;

        if r {
            assert(a.deep_view().to_set() =~= b.deep_view().to_set());
        } else {
            if exists|i: int|
                0 <= i < a.deep_view().len() && !b.deep_view().contains(
                    #[trigger] a.deep_view()[i],
                ) {
                let i = choose|i: int|
                    0 <= i < a.deep_view().len() && !b.deep_view().contains(
                        #[trigger] a.deep_view()[i],
                    );
                assert(a.deep_view().to_set().contains(a.deep_view()[i]));
                assert(!b.deep_view().to_set().contains(a.deep_view()[i]));
            } else {
                let i = choose|i: int|
                    0 <= i < b.deep_view().len() && !a.deep_view().contains(
                        #[trigger] b.deep_view()[i],
                    );
                assert(b.deep_view().to_set().contains(b.deep_view()[i]));
                assert(!a.deep_view().to_set().contains(b.deep_view()[i]));
            }
        }
    }
    r
}

} // verus!

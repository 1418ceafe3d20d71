//! Per-project build summaries and the readiness gate over them.

use vstd::prelude::*;

use crate::buildresult::ResultError;
use crate::buildresult::ResultList;
use crate::buildresult::Summary;
use crate::codes::BuildArch;
use crate::codes::PackageCode;
use crate::codes::RepositoryCode;
use crate::codes::package_code_ok;
use crate::strutil::str_eq;

verus! {

/// Status summary of one (repository, architecture) pair: its
/// publishing code and how many packages carry each status code.
#[derive(Debug)]
pub struct RepositorySummary {
    code: RepositoryCode,
    counts: Vec<(PackageCode, u32)>,
}

/// Mathematical content of a [`RepositorySummary`].
pub struct RepositorySummaryView {
    pub code: RepositoryCode,
    pub counts: Seq<(PackageCode, u32)>,
}

impl View for RepositorySummary {
    type V = RepositorySummaryView;

    closed spec fn view(&self) -> RepositorySummaryView {
        (RepositorySummaryView { code: self.code, counts: self.counts@ })
    }
}

impl DeepView for RepositorySummary {
    type V = RepositorySummaryView;

    open spec fn deep_view(&self) -> RepositorySummaryView {
        self.view()
    }
}

/// Every status code either counts zero packages or is one of the
/// acceptable codes.
pub open spec fn counts_ok(counts: Seq<(PackageCode, u32)>) -> bool {
    forall|i: int|
        0 <= i < counts.len() ==> (#[trigger] counts[i]).1 == 0 || package_code_ok(counts[i].0)
}

/// The count pairs a summary report carries.
pub open spec fn counts_of(summary: Summary) -> Seq<(PackageCode, u32)> {
    summary.statuscount@.map_values(|sc: crate::buildresult::StatusCount| (sc.code, sc.count))
}

impl RepositorySummary {
    pub fn is_published(&self) -> (r: bool)
        ensures
            r == (self@.code == RepositoryCode::Published),
    {
        self.code == RepositoryCode::Published
    }

    pub fn is_packages_ok(&self) -> (r: bool)
        ensures
            r == counts_ok(self@.counts),
    {
        let mut i: usize = 0;
        while i < self.counts.len()
            invariant
                0 <= i <= self.counts@.len(),
                forall|j: int|
                    0 <= j < i ==> (#[trigger] self.counts@[j]).1 == 0 || package_code_ok(
                        self.counts@[j].0,
                    ),
            decreases self.counts@.len() - i,
        {
            let (code, count) = self.counts[i];
            if count != 0 && !code.is_ok() {
                return false;
            }
            i = i + 1;
        }
        true
    }

    /// Builds the summary of one repository from its report.
    pub fn from_summary(code: RepositoryCode, summary: &Summary) -> (r: Self)
        ensures
            r@.code == code,
            r@.counts == counts_of(*summary),
    {
        let mut counts: Vec<(PackageCode, u32)> = Vec::new();
        let mut i: usize = 0;
        while i < summary.statuscount.len()
            invariant
                0 <= i <= summary.statuscount@.len(),
                counts@.len() == i,
                forall|j: int|
                    0 <= j < i ==> counts@[j] == (#[trigger] summary.statuscount@[j].code, summary.statuscount@[j].count),
            decreases summary.statuscount@.len() - i,
        {
            let sc = &summary.statuscount[i];
            counts.push((sc.code, sc.count));
            i = i + 1;
        }
        proof {
            assert(counts@ =~= counts_of(*summary));
        }
        RepositorySummary { code, counts }
    }
}

/// One line of a project summary: a (repository, architecture) pair
/// with its repository summary.
#[derive(Debug)]
pub struct SummaryEntry {
    pub repository: String,
    pub arch: BuildArch,
    pub summary: RepositorySummary,
}

/// Mathematical content of a [`SummaryEntry`].
pub struct SummaryEntryView {
    pub repository: Seq<char>,
    pub arch: BuildArch,
    pub summary: RepositorySummaryView,
}

impl View for SummaryEntry {
    type V = SummaryEntryView;

    open spec fn view(&self) -> SummaryEntryView {
        (SummaryEntryView {
            repository: self.repository@,
            arch: self.arch,
            summary: self.summary@,
        })
    }
}

impl DeepView for SummaryEntry {
    type V = SummaryEntryView;

    open spec fn deep_view(&self) -> SummaryEntryView {
        self.view()
    }
}

/// The build summary of one whole project, one entry per
/// (repository, architecture) pair of the report, in report order.
#[derive(Debug)]
pub struct ProjectSummary {
    repositories: Vec<SummaryEntry>,
}

impl View for ProjectSummary {
    type V = Seq<SummaryEntryView>;

    closed spec fn view(&self) -> Seq<SummaryEntryView> {
        self.repositories.deep_view()
    }
}

/// Every entry's repository is published.
pub open spec fn all_published(entries: Seq<SummaryEntryView>) -> bool {
    forall|i: int|
        0 <= i < entries.len() ==> (#[trigger] entries[i]).summary.code
            == RepositoryCode::Published
}

/// Every entry's package counts are acceptable.
pub open spec fn all_packages_ok(entries: Seq<SummaryEntryView>) -> bool {
    forall|i: int| 0 <= i < entries.len() ==> counts_ok((#[trigger] entries[i]).summary.counts)
}

impl ProjectSummary {
    /// True iff every (repository, architecture) entry is published.
    pub fn is_all_published(&self) -> (r: bool)
        ensures
            r == all_published(self@),
    {
        let mut i: usize = 0;
        while i < self.repositories.len()
            invariant
                0 <= i <= self.repositories@.len(),
                forall|j: int|
                    0 <= j < i ==> (#[trigger] self.repositories@[j]@).summary.code
                        == RepositoryCode::Published,
            decreases self.repositories@.len() - i,
        {
            if !self.repositories[i].summary.is_published() {
                assert(self@[i as int] == self.repositories@[i as int]@);
                assert(!all_published(self@));
                return false;
            }
            i = i + 1;
        }
        assert forall|j: int| 0 <= j < self@.len() implies (#[trigger] self@[j]).summary.code
            == RepositoryCode::Published by {
            assert(self@[j] == self.repositories@[j]@);
        }
        true
    }

    /// True iff, for every package-status code present, its count is
    /// zero or the code is acceptable.
    pub fn is_all_packages_ok(&self) -> (r: bool)
        ensures
            r == all_packages_ok(self@),
    {
        let mut i: usize = 0;
        while i < self.repositories.len()
            invariant
                0 <= i <= self.repositories@.len(),
                forall|j: int| 0 <= j < i ==> counts_ok((#[trigger] self.repositories@[j]@).summary.counts),
            decreases self.repositories@.len() - i,
        {
            if !self.repositories[i].summary.is_packages_ok() {
                assert(self@[i as int] == self.repositories@[i as int]@);
                assert(!all_packages_ok(self@));
                return false;
            }
            i = i + 1;
        }
        assert forall|j: int| 0 <= j < self@.len() implies counts_ok(
            (#[trigger] self@[j]).summary.counts,
        ) by {
            assert(self@[j] == self.repositories@[j]@);
        }
        true
    }

    /// The summary of the first entry with the given repository name
    /// and architecture, if any.
    pub fn get(&self, repository: String, arch: BuildArch) -> (r: Option<&RepositorySummary>)
        ensures
            match r {
                Some(s) => exists|i: int|
                    0 <= i < self@.len() && (#[trigger] self@[i]).repository == repository@
                        && self@[i].arch == arch && s@ == self@[i].summary,
                None => forall|i: int|
                    0 <= i < self@.len() ==> !((#[trigger] self@[i]).repository == repository@
                        && self@[i].arch == arch),
            },
    {
        let mut i: usize = 0;
        while i < self.repositories.len()
            invariant
                0 <= i <= self.repositories@.len(),
                forall|j: int|
                    0 <= j < i ==> !((#[trigger] self.repositories@[j]@).repository == repository@
                        && self.repositories@[j]@.arch == arch),
            decreases self.repositories@.len() - i,
        {
            let entry = &self.repositories[i];
            if str_eq(entry.repository.as_str(), repository.as_str()) && entry.arch == arch {
                assert(self@[i as int] == self.repositories@[i as int]@);
                return Some(&entry.summary);
            }
            i = i + 1;
        }
        assert forall|i: int| 0 <= i < self@.len() implies !((#[trigger] self@[i]).repository
            == repository@ && self@[i].arch == arch) by {
            assert(self@[i] == self.repositories@[i]@);
        }
        None
    }

    /// All entries, in report order.
    pub fn iter(&self) -> (r: &Vec<SummaryEntry>)
        ensures
            r.deep_view() == self@,
    {
        &self.repositories
    }

    /// Builds the project summary from a result report.  A repository
    /// report without a summary section means the report was not a
    /// summary report, and is refused.
    pub fn try_from(value: &ResultList) -> (r: Result<Self, ResultError>)
        ensures
            match r {
                Ok(ps) => ps@.len() == value.result@.len() && forall|i: int|
                    0 <= i < value.result@.len() ==> (#[trigger] value.result@[i]).summary is Some
                        && ps@[i].repository == value.result@[i].repository@
                        && ps@[i].arch == value.result@[i].arch
                        && ps@[i].summary.code == value.result@[i].code
                        && ps@[i].summary.counts == counts_of(value.result@[i].summary->0),
                Err(_) => exists|i: int|
                    0 <= i < value.result@.len() && (#[trigger] value.result@[i]).summary is None,
            },
    {
        let mut repositories: Vec<SummaryEntry> = Vec::new();
        let mut i: usize = 0;
        while i < value.result.len()
            invariant
                0 <= i <= value.result@.len(),
                repositories.deep_view().len() == i,
                forall|j: int|
                    0 <= j < i ==> (#[trigger] value.result@[j]).summary is Some
                        && repositories.deep_view()[j].repository == value.result@[j].repository@
                        && repositories.deep_view()[j].arch == value.result@[j].arch
                        && repositories.deep_view()[j].summary.code == value.result@[j].code
                        && repositories.deep_view()[j].summary.counts == counts_of(
                        value.result@[j].summary->0,
                    ),
            decreases value.result@.len() - i,
        {
            let rr = &value.result[i];
            let summary = match &rr.summary {
                Some(s) => RepositorySummary::from_summary(rr.code, s),
                None => {
                    return Err(ResultError {});
                },
            };
            let ghost before = repositories@;
            repositories.push(
                SummaryEntry { repository: rr.repository.clone(), arch: rr.arch, summary },
            );
            proof {
                assert(forall|m: int|
                    0 <= m < before.len() ==> repositories@[m] == #[trigger] before[m]);
            }
            i = i + 1;
        }
        Ok(ProjectSummary { repositories })
    }
}

} // verus!

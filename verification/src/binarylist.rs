//! The binaries one project snapshot holds, grouped per package,
//! repository and architecture.
//!
//! The listing is kept as an association list in report order, one
//! entry per (repository, architecture, package) group of the report;
//! lookups scan it front to back, which makes every walk over a
//! snapshot deterministic.

use vstd::prelude::*;

use crate::buildresult::PackageBinaryList;
use crate::buildresult::RepositoryResult;
use crate::buildresult::ResultList;
use crate::buildresult::ResultError;
use crate::codes::BuildArch;
use crate::model::Package;
use crate::model::PackageView;
use crate::model::Project;
use crate::model::ProjectView;
use crate::model::Repository;
use crate::model::RepositoryView;

verus! {

/// One built artifact, with the package, repository and architecture
/// it belongs to.
#[derive(Debug)]
pub struct Binary {
    pub name: String,
    pub size: u64,
    pub mtime: i64,
    pub package: Package,
    pub repository: Repository,
    pub architecture: BuildArch,
}

/// Mathematical content of a [`Binary`].
pub struct BinaryView {
    pub name: Seq<char>,
    pub size: u64,
    pub mtime: i64,
    pub package: PackageView,
    pub repository: RepositoryView,
    pub architecture: BuildArch,
}

impl View for Binary {
    type V = BinaryView;

    open spec fn view(&self) -> BinaryView {
        (BinaryView {
            name: self.name@,
            size: self.size,
            mtime: self.mtime,
            package: self.package@,
            repository: self.repository@,
            architecture: self.architecture,
        })
    }
}

impl DeepView for Binary {
    type V = BinaryView;

    open spec fn deep_view(&self) -> BinaryView {
        self.view()
    }
}


impl Clone for Binary {
    fn clone(&self) -> (r: Self)
        ensures
            r@ == self@,
    {
        Binary {
            name: self.name.clone(),
            size: self.size,
            mtime: self.mtime,
            package: self.package.clone(),
            repository: self.repository.clone(),
            architecture: self.architecture,
        }
    }
}

/// The binaries of one package in one (repository, architecture).
#[derive(Debug)]
pub struct BinEntry {
    pub package: Package,
    pub repository: Repository,
    pub arch: BuildArch,
    pub binaries: Vec<Binary>,
}

/// Mathematical content of a [`BinEntry`].
pub struct BinEntryView {
    pub package: PackageView,
    pub repository: RepositoryView,
    pub arch: BuildArch,
    pub binaries: Seq<BinaryView>,
}

impl View for BinEntry {
    type V = BinEntryView;

    open spec fn view(&self) -> BinEntryView {
        (BinEntryView {
            package: self.package@,
            repository: self.repository@,
            arch: self.arch,
            binaries: self.binaries.deep_view(),
        })
    }
}

impl DeepView for BinEntry {
    type V = BinEntryView;

    open spec fn deep_view(&self) -> BinEntryView {
        self.view()
    }
}

/// All binaries of one project snapshot.
#[derive(Debug)]
pub struct BinaryList {
    pub entries: Vec<BinEntry>,
}

impl View for BinaryList {
    type V = Seq<BinEntryView>;

    open spec fn view(&self) -> Seq<BinEntryView> {
        self.entries.deep_view()
    }
}

/// The model binary a listed artifact of the report turns into.
pub open spec fn binary_view_of(
    pkg: PackageView,
    repo: RepositoryView,
    arch: BuildArch,
    b: crate::buildresult::Binary,
) -> BinaryView {
    (BinaryView {
        name: b.filename@,
        size: b.size,
        mtime: b.mtime,
        package: pkg,
        repository: repo,
        architecture: arch,
    })
}

/// The entry one package group of one repository report turns into.
pub open spec fn entry_view_of(
    project: ProjectView,
    rr: RepositoryResult,
    pl: PackageBinaryList,
) -> BinEntryView {
    let repo = (RepositoryView { name: rr.repository@, project: project });
    let pkg = (PackageView { name: pl.package@, project: project });
    (BinEntryView {
        package: pkg,
        repository: repo,
        arch: rr.arch,
        binaries: pl.binary@.map_values(|b| binary_view_of(pkg, repo, rr.arch, b)),
    })
}

/// The entries contributed by the first `n` package groups of one
/// repository report; groups without binaries contribute nothing.
pub open spec fn repo_entries_prefix(
    project: ProjectView,
    rr: RepositoryResult,
    n: int,
) -> Seq<BinEntryView>
    decreases n,
{
    if n <= 0 {
        Seq::empty()
    } else {
        let prev = repo_entries_prefix(project, rr, n - 1);
        let pl = rr.binarylist@[n - 1];
        if pl.binary@.len() == 0 {
            prev
        } else {
            prev.push(entry_view_of(project, rr, pl))
        }
    }
}

/// The entries contributed by one whole repository report.
pub open spec fn repo_entries_of(project: ProjectView, rr: RepositoryResult) -> Seq<BinEntryView> {
    repo_entries_prefix(project, rr, rr.binarylist@.len() as int)
}

/// The entries contributed by the first `n` repository reports.
pub open spec fn entries_prefix(
    project: ProjectView,
    results: Seq<RepositoryResult>,
    n: int,
) -> Seq<BinEntryView>
    decreases n,
{
    if n <= 0 {
        Seq::empty()
    } else {
        entries_prefix(project, results, n - 1) + repo_entries_of(project, results[n - 1])
    }
}

/// The binary list a whole result report turns into.
pub open spec fn entries_of(project: ProjectView, results: Seq<RepositoryResult>) -> Seq<
    BinEntryView,
> {
    entries_prefix(project, results, results.len() as int)
}

impl BinaryList {
    /// Builds the binary list of one project snapshot from a result
    /// report.  A repository report without any binary listing means
    /// the report was not a binary-list report, and is refused.
    pub fn from_result_list(project: &Project, result_list: &ResultList) -> (r: Result<
        BinaryList,
        ResultError,
    >)
        ensures
            match r {
                Ok(bl) => bl@ == entries_of(project@, result_list.result@) && forall|i: int|
                    0 <= i < result_list.result@.len()
                        ==> #[trigger] result_list.result@[i].binarylist@.len() != 0,
                Err(_) => exists|i: int|
                    0 <= i < result_list.result@.len()
                        && #[trigger] result_list.result@[i].binarylist@.len() == 0,
            },
    {
        let mut entries: Vec<BinEntry> = Vec::new();
        let mut i: usize = 0;
        while i < result_list.result.len()
            invariant
                0 <= i <= result_list.result@.len(),
                entries.deep_view() == entries_prefix(project@, result_list.result@, i as int),
                forall|k: int|
                    0 <= k < i ==> #[trigger] result_list.result@[k].binarylist@.len() != 0,
            decreases result_list.result@.len() - i,
        {
            let rr = &result_list.result[i];
            if rr.binarylist.len() == 0 {
                return Err(ResultError {});
            }
            let repository = Repository::from_name_project(rr.repository.as_str(), project);
            let mut j: usize = 0;
            while j < rr.binarylist.len()
                invariant
                    0 <= j <= rr.binarylist@.len(),
                    rr == result_list.result@[i as int],
                    0 <= i < result_list.result@.len(),
                    repository@ == (RepositoryView { name: rr.repository@, project: project@ }),
                    entries.deep_view() == entries_prefix(project@, result_list.result@, i as int)
                        + repo_entries_prefix(project@, *rr, j as int),
                decreases rr.binarylist@.len() - j,
            {
                let pl = &rr.binarylist[j];
                if pl.binary.len() > 0 {
                    let pkg = Package::from_name(pl.package.clone(), project.clone());
                    let mut bins: Vec<Binary> = Vec::new();
                    let mut k: usize = 0;
                    while k < pl.binary.len()
                        invariant
                            0 <= k <= pl.binary@.len(),
                            pl == rr.binarylist@[j as int],
                            0 <= j < rr.binarylist@.len(),
                            rr == result_list.result@[i as int],
                            0 <= i < result_list.result@.len(),
                            repository@ == (RepositoryView {
                                name: rr.repository@,
                                project: project@,
                            }),
                            pkg@ == (PackageView { name: pl.package@, project: project@ }),
                            bins.deep_view().len() == k,
                            forall|m: int|
                                0 <= m < k ==> bins.deep_view()[m] == binary_view_of(
                                    pkg@,
                                    repository@,
                                    rr.arch,
                                    pl.binary@[m],
                                ),
                        decreases pl.binary@.len() - k,
                    {
                        let b = &pl.binary[k];
                        let ghost bins_before = bins@;
                        let ghost deep_before = bins.deep_view();
                        bins.push(
                            Binary {
                                name: b.filename.clone(),
                                size: b.size,
                                mtime: b.mtime,
                                package: pkg.clone(),
                                repository: repository.clone(),
                                architecture: rr.arch,
                            },
                        );
                        proof {
                            assert forall|m: int| 0 <= m < k + 1 implies bins.deep_view()[m]
                                == binary_view_of(
                                pkg@,
                                repository@,
                                rr.arch,
                                pl.binary@[m],
                            ) by {
                                assert(bins.deep_view()[m] == bins@[m].deep_view());
                                if m < k {
                                    assert(bins@[m] == bins_before[m]);
                                    assert(deep_before[m] == bins_before[m].deep_view());
                                    assert(deep_before[m] == binary_view_of(
                                        pkg@,
                                        repository@,
                                        rr.arch,
                                        pl.binary@[m],
                                    ));
                                } else {
                                    assert(bins@[m].deep_view() == binary_view_of(
                                        pkg@,
                                        repository@,
                                        rr.arch,
                                        pl.binary@[m],
                                    ));
                                }
                            }
                        }
                        k = k + 1;
                    }
                    let entry = BinEntry {
                        package: pkg,
                        repository: repository.clone(),
                        arch: rr.arch,
                        binaries: bins,
                    };
                    proof {
                        assert(entry@.binaries =~= entry_view_of(project@, *rr, *pl).binaries);
                        assert(entry@ == entry_view_of(project@, *rr, *pl));
                    }
                    let ghost entries_before = entries@;
                    let ghost deep_before = entries.deep_view();
                    entries.push(entry);
                    proof {
                        let goal = entries_prefix(project@, result_list.result@, i as int)
                            + repo_entries_prefix(project@, *rr, j + 1);
                        assert(repo_entries_prefix(project@, *rr, j + 1) == repo_entries_prefix(
                            project@,
                            *rr,
                            j as int,
                        ).push(entry_view_of(project@, *rr, *pl)));
                        assert(goal =~= deep_before.push(entry_view_of(project@, *rr, *pl)));
                        assert forall|m: int| 0 <= m < entries.deep_view().len() implies
                            entries.deep_view()[m] == goal[m] by {
                            assert(entries.deep_view()[m] == entries@[m].deep_view());
                            if m < entries_before.len() {
                                assert(entries@[m] == entries_before[m]);
                                assert(deep_before[m] == entries_before[m].deep_view());
                            } else {
                                assert(entries@[m].deep_view() == entry_view_of(
                                    project@,
                                    *rr,
                                    *pl,
                                ));
                            }
                        }
                        assert(entries.deep_view() =~= goal);
                    }
                } else {
                    proof {
                        assert(repo_entries_prefix(project@, *rr, j + 1) == repo_entries_prefix(
                            project@,
                            *rr,
                            j as int,
                        ));
                    }
                }
                j = j + 1;
            }
            proof {
                assert(entries.deep_view() =~= entries_prefix(
                    project@,
                    result_list.result@,
                    i + 1,
                ));
            }
            i = i + 1;
        }
        Ok(BinaryList { entries })
    }
}

} // verus!

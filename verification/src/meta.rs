//! Project and repository configuration metadata, as the build
//! service's project descriptions carry it.

use vstd::prelude::*;

use crate::codes::BuildArch;
use crate::model::Project as ModelProject;
use crate::model::Repository as ModelRepository;
use crate::selector::ReleaseTarget as SelectorTarget;
use crate::selector::ReleaseTargetView;

verus! {

/// The kind of a project; the plain kind releases as a whole, the
/// maintenance-release kind releases incrementally.
#[derive(Debug, Clone, Copy, PartialEq, Eq, Structural)]
pub enum ProjectKind {
    Standard,
    Maintenance,
    MaintenanceIncident,
    MaintenanceRelease,
}

impl Default for ProjectKind {
    fn default() -> (r: Self)
        ensures
            r == ProjectKind::Standard,
    {
        ProjectKind::Standard
    }
}

/// How a linked project's variant revision is derived.
#[derive(Debug, Clone, Copy, PartialEq, Eq, Structural)]
pub enum VrevMode {
    Standard,
    Extend,
    Unextend,
}

impl Default for VrevMode {
    fn default() -> (r: Self)
        ensures
            r == VrevMode::Standard,
    {
        VrevMode::Standard
    }
}

/// A maintained project reference.
#[derive(Debug)]
pub struct Maintains {
    pub project: String,
}

/// The projects a maintenance project maintains.
#[derive(Debug)]
pub struct Maintenance {
    pub maintains: Vec<Maintains>,
}

/// The development project of a package or project.
#[derive(Debug)]
pub struct DevelProject {
    pub project: String,
}

/// A link to another project.
#[derive(Debug)]
pub struct ProjectLink {
    pub project: String,
    pub vrevmode: VrevMode,
}

/// When a repository's release target fires.
#[derive(Debug, Clone, Copy, PartialEq, Eq, Structural)]
pub enum ReleaseTrigger {
    Never,
    Manual,
    Maintenance,
    Obsgendiff,
}

impl Default for ReleaseTrigger {
    fn default() -> (r: Self)
        ensures
            r == ReleaseTrigger::Never,
    {
        ReleaseTrigger::Never
    }
}

/// How a repository schedules rebuilds.
#[derive(Debug, Clone, Copy, PartialEq, Eq, Structural)]
pub enum RebuildMode {
    Transitive,
    Direct,
    Local,
}

impl Default for RebuildMode {
    fn default() -> (r: Self)
        ensures
            r == RebuildMode::Transitive,
    {
        RebuildMode::Transitive
    }
}

/// How a repository blocks builds on unfinished dependencies.
#[derive(Debug, Clone, Copy, PartialEq, Eq, Structural)]
pub enum BlockMode {
    All,
    Local,
    Never,
}

impl Default for BlockMode {
    fn default() -> (r: Self)
        ensures
            r == BlockMode::All,
    {
        BlockMode::All
    }
}

/// How builds follow linked projects.
#[derive(Debug, Clone, Copy, PartialEq, Eq, Structural)]
pub enum LinkedBuildMode {
    Off,
    Localdep,
    Alldirect,
    All,
}

impl Default for LinkedBuildMode {
    fn default() -> (r: Self)
        ensures
            r == LinkedBuildMode::Off,
    {
        LinkedBuildMode::Off
    }
}

/// The layout of a downloaded repository.
#[derive(Debug, Clone, Copy, PartialEq, Eq, Structural)]
pub enum RepoType {
    Rpmmd,
    Susetags,
    Deb,
    Arch,
    Mdk,
    Registry,
}

impl Default for RepoType {
    fn default() -> (r: Self)
        ensures
            r == RepoType::Rpmmd,
    {
        RepoType::Rpmmd
    }
}

/// The master mirror of a download entry.
#[derive(Debug)]
pub struct Master {
    pub url: String,
    pub sslfingerprint: Option<String>,
}

/// An external repository binaries are downloaded from.
#[derive(Debug)]
pub struct Download {
    pub arch: String,
    pub url: String,
    pub repotype: RepoType,
    pub archfilter: Option<String>,
    pub master: Option<Master>,
    pub pubkey: Option<String>,
}

/// A build path into another project's repository.
#[derive(Debug)]
pub struct Path {
    pub project: String,
    pub repository: String,
}

/// A configured release target of one repository: the destination
/// project and repository, and the trigger that fires it.
#[derive(Debug)]
pub struct ReleaseTarget {
    pub project: String,
    pub repository: String,
    pub trigger: ReleaseTrigger,
}

/// The configuration of one repository within a project description.
#[derive(Debug)]
pub struct Repository {
    pub name: String,
    pub rebuild: Option<RebuildMode>,
    pub block: Option<BlockMode>,
    pub linkedbuild: Option<LinkedBuildMode>,
    pub download: Vec<Download>,
    pub releasetarget: Vec<ReleaseTarget>,
    pub hostsystem: Vec<Path>,
    pub path: Vec<Path>,
    pub arch: Vec<BuildArch>,
}

/// A whole project description.
#[derive(Debug)]
pub struct Project {
    pub name: Option<String>,
    pub kind: Option<ProjectKind>,
    pub title: Option<String>,
    pub description: Option<String>,
    pub url: Option<String>,
    pub link: Vec<ProjectLink>,
    pub mount_project: Option<String>,
    pub remote_url: Option<String>,
    pub scmsync: Option<String>,
    pub devel: Option<DevelProject>,
    pub maintenance: Option<Maintenance>,
    pub repository: Vec<Repository>,
}

impl Project {
    /// Whether the description names a maintenance-release project:
    /// the kind whose releases are incremental and content-addressed.
    pub fn is_maintenance_release(&self) -> (r: bool)
        ensures
            r == (self.kind == Some(ProjectKind::MaintenanceRelease)),
    {
        match self.kind {
            Some(ProjectKind::MaintenanceRelease) => true,
            _ => false,
        }
    }
}

/// A link to another package.
#[derive(Debug)]
pub struct PackageLink {
    pub project: String,
    pub package: String,
}

/// One package's source state in a project source-info query.
#[derive(Debug)]
pub struct SourceInfo {
    pub package: String,
    pub rev: u32,
    pub vrev: u32,
    pub srcmd5: String,
    pub verifymd5: Option<String>,
    pub metamd5: Option<String>,
    pub filename: Option<String>,
    pub originproject: Option<String>,
    pub originpackage: Option<String>,
    pub linked: Vec<PackageLink>,
    pub name: Option<String>,
    pub version: Option<String>,
    pub release: Option<String>,
    pub revtime: Option<String>,
    pub error: Option<String>,
    pub subpacks: Vec<String>,
    pub deps: Vec<String>,
    pub prereqs: Vec<String>,
}

/// A whole source-info query result.
#[derive(Debug)]
pub struct SourceInfoList {
    pub sourceinfo: Vec<SourceInfo>,
}

/// Turns one source-info line into a package snapshot of the given
/// project; a missing verification hash becomes the empty hash.
pub open spec fn package_info_of(
    project: crate::model::ProjectView,
    s: SourceInfo,
) -> crate::model::PackageInfoView {
    (crate::model::PackageInfoView {
        package: (crate::model::PackageView { name: s.package@, project: project }),
        rev: s.rev,
        vrev: s.vrev,
        srcmd5: s.srcmd5@,
        verifymd5: match s.verifymd5 {
            Some(v) => v@,
            None => Seq::empty(),
        },
        version: s.version.deep_view(),
        subpackages: s.subpacks.deep_view(),
    })
}

/// Builds the package snapshots a source-info query yields for a
/// project, in query order.
pub fn package_infos_from_source_list(
    project: &ModelProject,
    list: &SourceInfoList,
) -> (r: Vec<crate::model::PackageInfo>)
    ensures
        r.deep_view().len() == list.sourceinfo@.len(),
        forall|i: int|
            0 <= i < r.deep_view().len() ==> #[trigger] r.deep_view()[i] == package_info_of(
                project@,
                list.sourceinfo@[i],
            ),
{
    let mut result: Vec<crate::model::PackageInfo> = Vec::new();
    let mut i: usize = 0;
    while i < list.sourceinfo.len()
        invariant
            0 <= i <= list.sourceinfo@.len(),
            result.deep_view().len() == i,
            forall|j: int|
                0 <= j < i ==> #[trigger] result.deep_view()[j] == package_info_of(
                    project@,
                    list.sourceinfo@[j],
                ),
        decreases list.sourceinfo@.len() - i,
    {
        let s = &list.sourceinfo[i];
        let verifymd5 = match &s.verifymd5 {
            Some(v) => v.clone(),
            None => String::new(),
        };
        let info = crate::model::PackageInfo {
            package: crate::model::Package::from_name(s.package.clone(), project.clone()),
            rev: s.rev,
            vrev: s.vrev,
            srcmd5: s.srcmd5.clone(),
            verifymd5,
            version: s.version.clone(),
            subpackages: s.subpacks.clone(),
        };
        let ghost vec_before = result@;
        let ghost deep_before = result.deep_view();
        proof {
            assert(info.version.deep_view() =~= s.version.deep_view());
            assert(info.subpackages.deep_view() =~= s.subpacks.deep_view());
            assert(info@ == package_info_of(project@, list.sourceinfo@[i as int]));
        }
        result.push(info);
        proof {
            assert forall|m: int| 0 <= m < i + 1 implies #[trigger] result.deep_view()[m]
                == package_info_of(project@, list.sourceinfo@[m]) by {
                assert(result.deep_view()[m] == result@[m].deep_view());
                if m < i {
                    assert(result@[m] == vec_before[m]);
                    assert(deep_before[m] == vec_before[m].deep_view());
                }
            }
        }
        i = i + 1;
    }
    result
}

/// The release targets of the first `n` repositories whose trigger is
/// manual, as promotion paths from this project.
pub open spec fn manual_targets_prefix(
    project: crate::model::ProjectView,
    api_url: Seq<char>,
    repos: Seq<Repository>,
    n: int,
) -> Seq<ReleaseTargetView>
    decreases n,
{
    if n <= 0 {
        Seq::empty()
    } else {
        manual_targets_prefix(project, api_url, repos, n - 1) + repo_manual_targets(
            project,
            api_url,
            repos[n - 1],
            repos[n - 1].releasetarget@.len() as int,
        )
    }
}

/// The manual release targets of one repository, among its first `n`
/// configured targets.
pub open spec fn repo_manual_targets(
    project: crate::model::ProjectView,
    api_url: Seq<char>,
    repo: Repository,
    n: int,
) -> Seq<ReleaseTargetView>
    decreases n,
{
    if n <= 0 {
        Seq::empty()
    } else {
        let prev = repo_manual_targets(project, api_url, repo, n - 1);
        let rt = repo.releasetarget@[n - 1];
        if rt.trigger == ReleaseTrigger::Manual {
            prev.push(
                (ReleaseTargetView {
                    src_repository: (crate::model::RepositoryView {
                        name: repo.name@,
                        project: project,
                    }),
                    dest_repository: (crate::model::RepositoryView {
                        name: rt.repository@,
                        project: (crate::model::ProjectView {
                            api_url: api_url,
                            name: rt.project@,
                        }),
                    }),
                }),
            )
        } else {
            prev
        }
    }
}

/// Derives the promotion paths of a project from its description: one
/// per configured release target with a manual trigger, from the
/// repository that carries it to the named destination project and
/// repository on the same service endpoint.
pub fn release_targets_from_meta(project: &ModelProject, meta: &Project) -> (r: Vec<SelectorTarget>)
    ensures
        r.deep_view() == manual_targets_prefix(
            project@,
            project@.api_url,
            meta.repository@,
            meta.repository@.len() as int,
        ),
{
    let mut result: Vec<SelectorTarget> = Vec::new();
    let mut i: usize = 0;
    while i < meta.repository.len()
        invariant
            0 <= i <= meta.repository@.len(),
            result.deep_view() == manual_targets_prefix(
                project@,
                project@.api_url,
                meta.repository@,
                i as int,
            ),
        decreases meta.repository@.len() - i,
    {
        let repo = &meta.repository[i];
        let src_repository = ModelRepository::from_name_project(repo.name.as_str(), project);
        let mut j: usize = 0;
        while j < repo.releasetarget.len()
            invariant
                0 <= j <= repo.releasetarget@.len(),
                repo == meta.repository@[i as int],
                0 <= i < meta.repository@.len(),
                src_repository@ == (crate::model::RepositoryView {
                    name: repo.name@,
                    project: project@,
                }),
                result.deep_view() == manual_targets_prefix(
                    project@,
                    project@.api_url,
                    meta.repository@,
                    i as int,
                ) + repo_manual_targets(project@, project@.api_url, *repo, j as int),
            decreases repo.releasetarget@.len() - j,
        {
            let rt = &repo.releasetarget[j];
            if rt.trigger == ReleaseTrigger::Manual {
                let api_url = String::from_str(project.api_url());
                let dest_project = ModelProject::from_name(api_url, rt.project.as_str());
                let dest_repository = ModelRepository::from_name_project(
                    rt.repository.as_str(),
                    &dest_project,
                );
                let target = SelectorTarget { src_repository: src_repository.clone(), dest_repository };
                let ghost deep_before = result.deep_view();
                let ghost vec_before = result@;
                let ghost tv = target@;
                result.push(target);
                proof {
                    assert forall|m: int| 0 <= m < result.deep_view().len() implies
                        result.deep_view()[m] == deep_before.push(tv)[m] by {
                        if m < deep_before.len() {
                            assert(result@[m] == vec_before[m]);
                            assert(deep_before[m] == vec_before[m].deep_view());
                        }
                    }
                    assert(result.deep_view() =~= deep_before.push(tv));
                }
            }
            j = j + 1;
        }
        proof {
            assert(result.deep_view() =~= manual_targets_prefix(
                project@,
                project@.api_url,
                meta.repository@,
                i + 1,
            ));
        }
        i = i + 1;
    }
    result
}

} // verus!

//! Reports, summaries and wire conversions on concrete values.

use obs_sync::buildinfo::{BDep, BuildDepInfo, BuildInfo, DepPackage, bin_packages_from_buildinfo, deps_tree_from_info};
use obs_sync::buildresult::{
    Binary as ReportBinary, PackageBinaryList, RepositoryResult, ResultList, StatusCount, Summary,
};
use obs_sync::binarylist::BinaryList;
use obs_sync::codes::{BuildArch, PackageCode, RepositoryCode, to_snake_case};
use obs_sync::meta::{
    self, ProjectKind, ReleaseTrigger, SourceInfo, SourceInfoList, package_infos_from_source_list,
    release_targets_from_meta,
};
use obs_sync::model::{Package, Project};
use obs_sync::request::{Action, Collection, Request, Target, XmlAction, XmlRequest, requests_from_collection};
use obs_sync::summary::{ProjectSummary, RepositorySummary};

const API: &str = "https://api.example.org/";

fn project(name: &str) -> Project {
    Project::from_name(API.to_string(), name)
}

fn repo_result(repo: &str, code: RepositoryCode, counts: Vec<(PackageCode, u32)>) -> RepositoryResult {
    RepositoryResult {
        repository: repo.to_string(),
        arch: BuildArch::X86_64,
        code,
        summary: Some(Summary {
            statuscount: counts.into_iter().map(|(code, count)| StatusCount { code, count }).collect(),
        }),
        status: Vec::new(),
        binarylist: Vec::new(),
    }
}

#[test]
fn snake_case_matches_the_arch_names() {
    assert_eq!(to_snake_case("Aarch64Ilp32"), "aarch64_ilp32");
    assert_eq!(to_snake_case("X86_64"), "x86_64");
    assert_eq!(to_snake_case("NoArch"), "no_arch");
    assert_eq!(BuildArch::X86_64.label(), "x86_64");
    assert_eq!(BuildArch::Aarch64.label(), "aarch64");
}

#[test]
fn repository_codes_parse_from_wire_names() {
    assert_eq!(RepositoryCode::from_name("published"), RepositoryCode::Published);
    assert_eq!(RepositoryCode::from_name("building"), RepositoryCode::Building);
    assert_eq!(RepositoryCode::from_name("anything"), RepositoryCode::Unknown);
}

#[test]
fn package_code_ok_set() {
    assert!(PackageCode::Succeeded.is_ok());
    assert!(PackageCode::Disabled.is_ok());
    assert!(PackageCode::Excluded.is_ok());
    assert!(!PackageCode::Failed.is_ok());
    assert!(!PackageCode::Building.is_ok());
}

#[test]
fn summary_gate_requires_all_published_and_ok() {
    let ready = ResultList {
        result: vec![repo_result(
            "standard",
            RepositoryCode::Published,
            vec![(PackageCode::Succeeded, 4), (PackageCode::Failed, 0)],
        )],
    };
    let summary = ProjectSummary::try_from(&ready).unwrap();
    assert!(summary.is_all_published());
    assert!(summary.is_all_packages_ok());

    let failing = ResultList {
        result: vec![repo_result(
            "standard",
            RepositoryCode::Building,
            vec![(PackageCode::Failed, 1)],
        )],
    };
    let summary = ProjectSummary::try_from(&failing).unwrap();
    assert!(!summary.is_all_published());
    assert!(!summary.is_all_packages_ok());
}

#[test]
fn zero_counts_of_bad_codes_are_acceptable() {
    let list = ResultList {
        result: vec![repo_result(
            "standard",
            RepositoryCode::Published,
            vec![(PackageCode::Failed, 0), (PackageCode::Broken, 0), (PackageCode::Succeeded, 2)],
        )],
    };
    let summary = ProjectSummary::try_from(&list).unwrap();
    assert!(summary.is_all_packages_ok());
}

#[test]
fn summary_lookup_by_repository_and_arch() {
    let list = ResultList {
        result: vec![repo_result("standard", RepositoryCode::Published, Vec::new())],
    };
    let summary = ProjectSummary::try_from(&list).unwrap();
    let hit: Option<&RepositorySummary> = summary.get("standard".to_string(), BuildArch::X86_64);
    assert!(hit.unwrap().is_published());
    assert!(summary.get("standard".to_string(), BuildArch::Aarch64).is_none());
    assert!(summary.get("other".to_string(), BuildArch::X86_64).is_none());
    assert_eq!(summary.iter().len(), 1);
}

#[test]
fn summary_report_without_summary_section_is_refused() {
    let mut rr = repo_result("standard", RepositoryCode::Published, Vec::new());
    rr.summary = None;
    let list = ResultList { result: vec![rr] };
    assert!(ProjectSummary::try_from(&list).is_err());
}

#[test]
fn binary_list_from_report() {
    let list = ResultList {
        result: vec![RepositoryResult {
            repository: "standard".to_string(),
            arch: BuildArch::X86_64,
            code: RepositoryCode::Published,
            summary: None,
            status: Vec::new(),
            binarylist: vec![
                PackageBinaryList {
                    package: "foo".to_string(),
                    binary: vec![ReportBinary {
                        filename: "foo-1-1.x86_64.rpm".to_string(),
                        size: 17,
                        mtime: 5,
                    }],
                },
                PackageBinaryList { package: "empty".to_string(), binary: Vec::new() },
            ],
        }],
    };
    let bl = BinaryList::from_result_list(&project("src"), &list).unwrap();
    assert_eq!(bl.entries.len(), 1);
    assert_eq!(bl.entries[0].package.name(), "foo");
    assert_eq!(bl.entries[0].repository.name(), "standard");
    assert_eq!(bl.entries[0].binaries.len(), 1);
    assert_eq!(bl.entries[0].binaries[0].name, "foo-1-1.x86_64.rpm");
    assert_eq!(bl.entries[0].binaries[0].size, 17);
}

#[test]
fn binary_list_report_without_listings_is_refused() {
    let list = ResultList {
        result: vec![RepositoryResult {
            repository: "standard".to_string(),
            arch: BuildArch::X86_64,
            code: RepositoryCode::Published,
            summary: None,
            status: Vec::new(),
            binarylist: Vec::new(),
        }],
    };
    assert!(BinaryList::from_result_list(&project("src"), &list).is_err());
}

#[test]
fn package_infos_from_source_info() {
    let list = SourceInfoList {
        sourceinfo: vec![SourceInfo {
            package: "foo".to_string(),
            rev: 5,
            vrev: 2,
            srcmd5: "s".to_string(),
            verifymd5: None,
            metamd5: None,
            filename: None,
            originproject: None,
            originpackage: None,
            linked: Vec::new(),
            name: None,
            version: Some("1.0".to_string()),
            release: None,
            revtime: None,
            error: None,
            subpacks: vec!["foo-devel".to_string()],
            deps: Vec::new(),
            prereqs: Vec::new(),
        }],
    };
    let infos = package_infos_from_source_list(&project("src"), &list);
    assert_eq!(infos.len(), 1);
    assert_eq!(infos[0].package.name(), "foo");
    assert_eq!(infos[0].rev, 5);
    // A missing verification hash becomes the empty hash.
    assert_eq!(infos[0].verifymd5, "");
    assert_eq!(infos[0].subpackages, vec!["foo-devel".to_string()]);
}

fn empty_meta() -> meta::Project {
    meta::Project {
        name: None,
        kind: None,
        title: None,
        description: None,
        url: None,
        link: Vec::new(),
        mount_project: None,
        remote_url: None,
        scmsync: None,
        devel: None,
        maintenance: None,
        repository: Vec::new(),
    }
}

#[test]
fn manual_release_targets_are_derived_from_meta() {
    let mut m = empty_meta();
    m.repository.push(meta::Repository {
        name: "standard".to_string(),
        rebuild: None,
        block: None,
        linkedbuild: None,
        download: Vec::new(),
        releasetarget: vec![
            meta::ReleaseTarget {
                project: "rel".to_string(),
                repository: "released".to_string(),
                trigger: ReleaseTrigger::Manual,
            },
            meta::ReleaseTarget {
                project: "other".to_string(),
                repository: "auto".to_string(),
                trigger: ReleaseTrigger::Maintenance,
            },
        ],
        hostsystem: Vec::new(),
        path: Vec::new(),
        arch: vec![BuildArch::X86_64],
    });
    let targets = release_targets_from_meta(&project("src"), &m);
    assert_eq!(targets.len(), 1);
    assert_eq!(targets[0].src_repository.name(), "standard");
    assert_eq!(targets[0].src_repository.project().name(), "src");
    assert_eq!(targets[0].dest_repository.name(), "released");
    assert_eq!(targets[0].dest_repository.project().name(), "rel");
}

#[test]
fn maintenance_release_kind_is_incremental() {
    let mut m = empty_meta();
    assert!(!m.is_maintenance_release());
    m.kind = Some(ProjectKind::MaintenanceRelease);
    assert!(m.is_maintenance_release());
    m.kind = Some(ProjectKind::Standard);
    assert!(!m.is_maintenance_release());
}

#[test]
fn build_dependencies_from_report() {
    let info = BuildInfo {
        bdep: vec![BDep {
            name: "bar".to_string(),
            version: "2".to_string(),
            release: "3".to_string(),
            arch: BuildArch::X86_64,
            project: "upstream".to_string(),
            repository: "standard".to_string(),
        }],
    };
    let deps = bin_packages_from_buildinfo(API, &info);
    assert_eq!(deps.len(), 1);
    assert_eq!(deps[0].name, "bar");
    assert_eq!(deps[0].repository.project().name(), "upstream");
    assert_eq!(obs_sync::resolver::dep_rpm_name(&deps[0]), "bar-2-3.x86_64.rpm");
}

#[test]
fn dependency_graph_resolves_against_listed_packages() {
    let info = BuildDepInfo {
        package: vec![
            DepPackage { name: "a".to_string(), pkgdep: vec!["b".to_string()] },
            DepPackage { name: "b".to_string(), pkgdep: Vec::new() },
        ],
    };
    let nodes = deps_tree_from_info(&project("src"), &info).unwrap();
    assert_eq!(nodes.len(), 2);
    assert_eq!(nodes[0].package.name(), "a");
    assert_eq!(nodes[0].deps.len(), 1);
    assert_eq!(nodes[0].deps[0].name(), "b");
    assert!(nodes[1].deps.is_empty());
}

#[test]
fn dependency_graph_with_unknown_name_is_refused() {
    let info = BuildDepInfo {
        package: vec![DepPackage { name: "a".to_string(), pkgdep: vec!["ghost".to_string()] }],
    };
    assert!(deps_tree_from_info(&project("src"), &info).is_err());
}

#[test]
fn actions_serialise_to_their_wire_form() {
    let submit = Action::Submit {
        source: Package::from_name("foo".to_string(), project("src")),
        source_rev: Some(5),
        target: Package::from_name("foo".to_string(), project("dst")),
    };
    let xml = XmlAction::from_action(&submit);
    assert_eq!(xml.kind, "submit");
    let src = xml.source.unwrap();
    assert_eq!(src.project, "src");
    assert_eq!(src.package, "foo");
    assert_eq!(src.rev, Some(5));
    assert_eq!(xml.target.project, "dst");
    assert_eq!(xml.target.rev, None);

    let delete = Action::Delete(Package::from_name("bar".to_string(), project("dst")));
    let xml = XmlAction::from_action(&delete);
    assert_eq!(xml.kind, "delete");
    assert!(xml.source.is_none());
    assert_eq!(xml.target.package, "bar");
}

#[test]
fn request_collection_decodes() {
    let collection = Collection {
        request: vec![XmlRequest {
            action: vec![
                XmlAction {
                    kind: "submit".to_string(),
                    source: Some(Target {
                        project: "src".to_string(),
                        package: "foo".to_string(),
                        rev: Some(3),
                    }),
                    target: Target {
                        project: "dst".to_string(),
                        package: "foo".to_string(),
                        rev: None,
                    },
                },
                XmlAction {
                    kind: "delete".to_string(),
                    source: None,
                    target: Target {
                        project: "dst".to_string(),
                        package: "old".to_string(),
                        rev: None,
                    },
                },
            ],
            description: "sync".to_string(),
            id: Some(42),
        }],
    };
    let reqs = requests_from_collection(API, &collection).unwrap();
    assert_eq!(reqs.len(), 1);
    assert_eq!(reqs[0].description, "sync");
    assert_eq!(reqs[0].id, Some(42));
    assert_eq!(reqs[0].actions.len(), 2);
    assert!(reqs[0].is_for_project(&project("dst")));
    assert!(!reqs[0].is_for_project(&project("elsewhere")));
}

#[test]
fn unknown_request_action_kind_is_refused() {
    let collection = Collection {
        request: vec![XmlRequest {
            action: vec![XmlAction {
                kind: "mystery".to_string(),
                source: None,
                target: Target {
                    project: "dst".to_string(),
                    package: "x".to_string(),
                    rev: None,
                },
            }],
            description: String::new(),
            id: None,
        }],
    };
    assert!(requests_from_collection(API, &collection).is_err());
}

#[test]
fn new_request_carries_its_actions() {
    let actions = vec![Action::Delete(Package::from_name("x".to_string(), project("dst")))];
    let req = Request::new_from_actions("cleanup".to_string(), actions);
    assert_eq!(req.description, "cleanup");
    assert!(req.id.is_none());
    assert_eq!(req.actions.len(), 1);
}

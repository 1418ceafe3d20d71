//! The resolver and selector on concrete snapshots.

use obs_sync::binarylist::{BinEntry, Binary, BinaryList};
use obs_sync::codes::BuildArch;
use obs_sync::fingerprint::{
    BinInfo, ContainerInfo, SidecarEntry, SidecarInfo, SidecarStore, fingerprints, fp_set_equal,
};
use obs_sync::model::{Package, PackageInfo, Project, Repository};
use obs_sync::request::Action;
use obs_sync::resolver::{BinPackage, DepsEntry, ProjectBins, ProjectPackages, Resolver, Snapshots, get_actions};
use obs_sync::selector::{DestSnapshot, ReleaseTarget, select_releases};

const API: &str = "https://api.example.org/";

fn project(name: &str) -> Project {
    Project::from_name(API.to_string(), name)
}

fn info(project_name: &str, package: &str, rev: u32, verifymd5: &str) -> PackageInfo {
    PackageInfo {
        package: Package::from_name(package.to_string(), project(project_name)),
        rev,
        vrev: 1,
        srcmd5: "src".to_string(),
        verifymd5: verifymd5.to_string(),
        version: None,
        subpackages: Vec::new(),
    }
}

fn rpm_entry(project_name: &str, package: &str, repo: &str, filename: &str) -> BinEntry {
    let proj = project(project_name);
    let pack = Package::from_name(package.to_string(), proj.clone());
    let repository = Repository::from_name_project(repo, &proj);
    BinEntry {
        package: pack.clone(),
        repository: repository.clone(),
        arch: BuildArch::X86_64,
        binaries: vec![Binary {
            name: filename.to_string(),
            size: 1,
            mtime: 0,
            package: pack,
            repository,
            architecture: BuildArch::X86_64,
        }],
    }
}

#[test]
fn base_package_in_sync_yields_no_action() {
    // base = [{name: "foo", rev: 5, verifymd5: "abc"}], destination has foo@"abc"
    let existing = vec![info("dst", "foo", 9, "abc")];
    let base = vec![info("src", "foo", 5, "abc")];
    let snapshots = Snapshots::new();
    let res = get_actions(&snapshots, &existing, &base, &project("dst"), Vec::new()).unwrap();
    assert!(res.actions.is_empty());
    assert_eq!(res.visited.len(), 1);
    assert!(res.missing_deps.is_empty());
}

#[test]
fn base_package_out_of_sync_yields_one_submit() {
    // base = [{name: "foo", rev: 5, verifymd5: "abc"}], destination has foo@"xyz"
    let existing = vec![info("dst", "foo", 9, "xyz")];
    let base = vec![info("src", "foo", 5, "abc")];
    let snapshots = Snapshots::new();
    let res = get_actions(&snapshots, &existing, &base, &project("dst"), Vec::new()).unwrap();
    assert_eq!(res.actions.len(), 1);
    match &res.actions[0] {
        Action::Submit { source, source_rev, target } => {
            assert_eq!(source.name(), "foo");
            assert_eq!(source.project.name(), "src");
            assert_eq!(*source_rev, Some(5));
            assert_eq!(target.name(), "foo");
            assert_eq!(target.project.name(), "dst");
        }
        Action::Delete(_) => panic!("expected a submission"),
    }
}

#[test]
fn absent_package_yields_one_submit() {
    let existing: Vec<PackageInfo> = Vec::new();
    let base = vec![info("src", "foo", 7, "abc")];
    let snapshots = Snapshots::new();
    let res = get_actions(&snapshots, &existing, &base, &project("dst"), Vec::new()).unwrap();
    assert_eq!(res.actions.len(), 1);
}

#[test]
fn duplicate_base_names_are_visited_once() {
    let existing: Vec<PackageInfo> = Vec::new();
    let base = vec![
        info("src", "foo", 1, "abc"),
        info("src", "foo", 2, "def"),
        info("src", "bar", 3, "ghi"),
    ];
    let snapshots = Snapshots::new();
    let res = get_actions(&snapshots, &existing, &base, &project("dst"), Vec::new()).unwrap();
    assert_eq!(res.visited, vec!["foo".to_string(), "bar".to_string()]);
    assert_eq!(res.actions.len(), 2);
}

fn dep_world() -> Snapshots {
    // "src" holds foo; its build dependency bar lives in "upstream".
    let mut snapshots = Snapshots::new();
    snapshots.insert_binary_list(
        project("src"),
        BinaryList { entries: vec![rpm_entry("src", "foo", "standard", "foo-1-1.x86_64.rpm")] },
    );
    snapshots.insert_binary_list(
        project("upstream"),
        BinaryList {
            entries: vec![rpm_entry("upstream", "bar-source", "standard", "bar-2-3.x86_64.rpm")],
        },
    );
    snapshots.insert_package_list(
        project("upstream"),
        vec![info("upstream", "bar-source", 4, "barmd5")],
    );
    let up = project("upstream");
    snapshots.insert_deps(DepsEntry {
        package: Package::from_name("bar-source".to_string(), project("upstream")),
        repository: Repository::from_name_project("standard", &project("upstream")),
        arch: BuildArch::X86_64,
        deps: Vec::new(),
    });
    snapshots.insert_deps(DepsEntry {
        package: Package::from_name("foo".to_string(), project("src")),
        repository: Repository::from_name_project("standard", &project("src")),
        arch: BuildArch::X86_64,
        deps: vec![BinPackage {
            name: "bar".to_string(),
            version: "2".to_string(),
            release: "3".to_string(),
            arch: BuildArch::X86_64,
            repository: Repository::from_name_project("standard", &up),
        }],
    });
    snapshots
}

#[test]
fn dependency_is_pulled_from_allow_listed_project() {
    let existing: Vec<PackageInfo> = Vec::new();
    let base = vec![info("src", "foo", 5, "abc")];
    let snapshots = dep_world();
    let res = get_actions(
        &snapshots,
        &existing,
        &base,
        &project("dst"),
        vec!["upstream".to_string()],
    )
    .unwrap();
    assert_eq!(res.visited, vec!["foo".to_string(), "bar-source".to_string()]);
    assert_eq!(res.actions.len(), 2);
    assert!(res.missing_deps.is_empty());
}

#[test]
fn empty_allow_list_pulls_no_dependencies() {
    let existing: Vec<PackageInfo> = Vec::new();
    let base = vec![info("src", "foo", 5, "abc")];
    let snapshots = dep_world();
    let res = get_actions(&snapshots, &existing, &base, &project("dst"), Vec::new()).unwrap();
    assert_eq!(res.visited, vec!["foo".to_string()]);
    assert_eq!(res.actions.len(), 1);
}

#[test]
fn dependency_outside_allow_list_is_ignored() {
    let existing: Vec<PackageInfo> = Vec::new();
    let base = vec![info("src", "foo", 5, "abc")];
    let snapshots = dep_world();
    let res = get_actions(
        &snapshots,
        &existing,
        &base,
        &project("dst"),
        vec!["elsewhere".to_string()],
    )
    .unwrap();
    assert_eq!(res.visited, vec!["foo".to_string()]);
}

#[test]
fn missing_dependency_source_is_warned_and_skipped() {
    let existing: Vec<PackageInfo> = Vec::new();
    let base = vec![info("src", "foo", 5, "abc")];
    let mut snapshots = dep_world();
    // Take the bar binary away: the dependency can no longer be located.
    snapshots.binary_lists[1].bins.entries[0].binaries.clear();
    let res = get_actions(
        &snapshots,
        &existing,
        &base,
        &project("dst"),
        vec!["upstream".to_string()],
    )
    .unwrap();
    assert_eq!(res.missing_deps, vec!["bar-2-3.x86_64.rpm".to_string()]);
    assert_eq!(res.visited, vec!["foo".to_string()]);
    assert_eq!(res.actions.len(), 1);
}

#[test]
fn rpm_fingerprints_compare_as_sets() {
    let store = SidecarStore { entries: Vec::new() };
    let entry = rpm_entry("src", "pkgA", "standard", "pkgA-1-1.x86_64.rpm");
    let fps = fingerprints(&entry.binaries, &store).unwrap();
    assert_eq!(fps.len(), 1);
    assert_eq!(fps[0].id, "pkgA-1-1.x86_64");
    assert!(fps[0].tags.is_empty());
    let a = vec![
        BinInfo { id: "x".to_string(), tags: vec!["t".to_string()] },
        BinInfo { id: "y".to_string(), tags: Vec::new() },
    ];
    let b = vec![
        BinInfo { id: "y".to_string(), tags: Vec::new() },
        BinInfo { id: "x".to_string(), tags: vec!["t".to_string()] },
    ];
    assert!(fp_set_equal(&a, &b));
    let c = vec![BinInfo { id: "x".to_string(), tags: vec!["t".to_string()] }];
    assert!(!fp_set_equal(&a, &c));
}

fn manual_target(src_repo: &str, dest_project: &str, dest_repo: &str) -> ReleaseTarget {
    ReleaseTarget {
        src_repository: Repository::from_name_project(src_repo, &project("src")),
        dest_repository: Repository::from_name_project(dest_repo, &project(dest_project)),
    }
}

#[test]
fn identical_fingerprints_suppress_the_release() {
    // Source binary fingerprint {id: "pkgA-1-1.x86_64", tags: []};
    // the destination already has it under package "pkgA.subpkg".
    let src = BinaryList { entries: vec![rpm_entry("src", "pkgA", "standard", "pkgA-1-1.x86_64.rpm")] };
    let dest =
        BinaryList { entries: vec![rpm_entry("rel", "pkgA.subpkg", "released", "pkgA-1-1.x86_64.rpm")] };
    let targets = vec![manual_target("standard", "rel", "released")];
    let incremental = vec![DestSnapshot { project: project("rel"), bins: dest }];
    let store = SidecarStore { entries: Vec::new() };
    let sel = select_releases(&src, &targets, &Vec::new(), &incremental, &store).unwrap();
    assert!(sel.tuples.is_empty());
    assert!(sel.warnings.is_empty());
}

#[test]
fn differing_fingerprints_release_and_warn_once_per_tag() {
    // Container content differs, but both publish the "latest" tag.
    let proj = project("src");
    let pack = Package::from_name("pkgA".to_string(), proj.clone());
    let repo = Repository::from_name_project("standard", &proj);
    let src_bin = Binary {
        name: "pkgA.containerinfo".to_string(),
        size: 1,
        mtime: 0,
        package: pack.clone(),
        repository: repo.clone(),
        architecture: BuildArch::X86_64,
    };
    let src = BinaryList {
        entries: vec![BinEntry {
            package: pack.clone(),
            repository: repo.clone(),
            arch: BuildArch::X86_64,
            binaries: vec![src_bin],
        }],
    };
    let rel = project("rel");
    let dest_pack = Package::from_name("pkgA.sub".to_string(), rel.clone());
    let dest_repo = Repository::from_name_project("released", &rel);
    let dest_bin = Binary {
        name: "old.containerinfo".to_string(),
        size: 1,
        mtime: 0,
        package: dest_pack.clone(),
        repository: dest_repo.clone(),
        architecture: BuildArch::X86_64,
    };
    let dest = BinaryList {
        entries: vec![BinEntry {
            package: dest_pack.clone(),
            repository: dest_repo.clone(),
            arch: BuildArch::X86_64,
            binaries: vec![dest_bin],
        }],
    };
    let container = |id: &str, tags: Vec<String>| ContainerInfo {
        buildtime: 0,
        disturl: String::new(),
        file: String::new(),
        imageid: id.to_string(),
        release: "1".to_string(),
        tags,
        tar_blobids: Vec::new(),
        tar_manifest: String::new(),
        tar_md5sum: String::new(),
        tar_mtime: 0,
        tar_sha256sum: String::new(),
        tar_size: 0,
    };
    let store = SidecarStore {
        entries: vec![
            SidecarEntry {
                package: pack.clone(),
                repository: repo.clone(),
                arch: BuildArch::X86_64,
                binary_name: "pkgA.containerinfo".to_string(),
                info: SidecarInfo::Container(container(
                    "sha256:new",
                    vec!["latest".to_string()],
                )),
            },
            SidecarEntry {
                package: dest_pack,
                repository: dest_repo,
                arch: BuildArch::X86_64,
                binary_name: "old.containerinfo".to_string(),
                info: SidecarInfo::Container(container(
                    "sha256:old",
                    vec!["latest".to_string(), "v1".to_string()],
                )),
            },
        ],
    };
    let targets = vec![manual_target("standard", "rel", "released")];
    let incremental = vec![DestSnapshot { project: project("rel"), bins: dest }];
    let sel = select_releases(&src, &targets, &Vec::new(), &incremental, &store).unwrap();
    assert_eq!(sel.tuples.len(), 1);
    assert_eq!(sel.tuples[0].package.name(), "pkgA");
    assert_eq!(sel.warnings.len(), 1);
    assert_eq!(sel.warnings[0].tag, "latest");
    assert_eq!(sel.warnings[0].package, "pkgA");
    assert_eq!(sel.warnings[0].existing_package, "pkgA.sub");
    assert_eq!(sel.warnings[0].project, "rel");
}

#[test]
fn full_release_destination_gets_the_tuple_unconditionally() {
    // Destination project of the plain kind: no content comparison.
    let src = BinaryList { entries: vec![rpm_entry("src", "pkgA", "standard", "pkgA-1-1.x86_64.rpm")] };
    let targets = vec![manual_target("standard", "full", "released")];
    let full = vec![project("full")];
    let store = SidecarStore { entries: Vec::new() };
    let sel = select_releases(&src, &targets, &full, &Vec::new(), &store).unwrap();
    assert_eq!(sel.tuples.len(), 1);
    assert_eq!(sel.tuples[0].package.name(), "pkgA");
    assert_eq!(sel.tuples[0].source.name(), "standard");
    assert_eq!(sel.tuples[0].destination.name(), "released");
    assert!(sel.warnings.is_empty());
}

#[test]
fn release_tuples_are_deduplicated() {
    // Two arch entries of one (package, repository) yield one tuple.
    let mut e1 = rpm_entry("src", "pkgA", "standard", "pkgA-1-1.x86_64.rpm");
    let e2 = rpm_entry("src", "pkgA", "standard", "pkgA-1-1.x86_64.rpm");
    e1.arch = BuildArch::Aarch64;
    let src = BinaryList { entries: vec![e1, e2] };
    let targets = vec![manual_target("standard", "full", "released")];
    let full = vec![project("full")];
    let store = SidecarStore { entries: Vec::new() };
    let sel = select_releases(&src, &targets, &full, &Vec::new(), &store).unwrap();
    assert_eq!(sel.tuples.len(), 1);
}

#[test]
fn missing_sidecar_fails_the_selection() {
    let proj = project("src");
    let pack = Package::from_name("pkgA".to_string(), proj.clone());
    let repo = Repository::from_name_project("standard", &proj);
    let src = BinaryList {
        entries: vec![BinEntry {
            package: pack.clone(),
            repository: repo.clone(),
            arch: BuildArch::X86_64,
            binaries: vec![Binary {
                name: "pkgA.helminfo".to_string(),
                size: 1,
                mtime: 0,
                package: pack,
                repository: repo,
                architecture: BuildArch::X86_64,
            }],
        }],
    };
    let targets = vec![manual_target("standard", "rel", "released")];
    let incremental = vec![DestSnapshot {
        project: project("rel"),
        bins: BinaryList { entries: Vec::new() },
    }];
    let store = SidecarStore { entries: Vec::new() };
    assert!(select_releases(&src, &targets, &Vec::new(), &incremental, &store).is_err());
}

#[test]
fn helm_fingerprints_come_from_chart_digests() {
    let proj = project("src");
    let pack = Package::from_name("chart".to_string(), proj.clone());
    let repo = Repository::from_name_project("standard", &proj);
    let bins = vec![Binary {
        name: "chart.helminfo".to_string(),
        size: 1,
        mtime: 0,
        package: pack.clone(),
        repository: repo.clone(),
        architecture: BuildArch::X86_64,
    }];
    let store = SidecarStore {
        entries: vec![SidecarEntry {
            package: pack,
            repository: repo,
            arch: BuildArch::X86_64,
            binary_name: "chart.helminfo".to_string(),
            info: SidecarInfo::Helm(obs_sync::fingerprint::HelmInfo {
                name: "chart".to_string(),
                version: "1".to_string(),
                release: "1".to_string(),
                tags: vec!["stable".to_string()],
                disturl: String::new(),
                buildtime: 0,
                chart: String::new(),
                config_json: String::new(),
                chart_sha256: "sha256:chart".to_string(),
                chart_size: 0,
            }),
        }],
    };
    let fps = fingerprints(&bins, &store).unwrap();
    assert_eq!(fps.len(), 1);
    assert_eq!(fps[0].id, "sha256:chart");
    assert_eq!(fps[0].tags, vec!["stable".to_string()]);
}

#[test]
fn unknown_suffixes_contribute_no_fingerprint() {
    let store = SidecarStore { entries: Vec::new() };
    let entry = rpm_entry("src", "pkgA", "standard", "pkgA.log");
    let fps = fingerprints(&entry.binaries, &store).unwrap();
    assert!(fps.is_empty());
}

#[test]
fn one_pair_can_serve_several_targets() {
    // A full-release and an incremental target share the source repository.
    let src = BinaryList { entries: vec![rpm_entry("src", "pkgA", "standard", "pkgA-1-1.x86_64.rpm")] };
    let targets = vec![
        manual_target("standard", "full", "released"),
        manual_target("standard", "rel", "released"),
    ];
    let full = vec![project("full")];
    let dest =
        BinaryList { entries: vec![rpm_entry("rel", "pkgA.sub", "released", "pkgA-0-9.x86_64.rpm")] };
    let incremental = vec![DestSnapshot { project: project("rel"), bins: dest }];
    let store = SidecarStore { entries: Vec::new() };
    let sel = select_releases(&src, &targets, &full, &incremental, &store).unwrap();
    // one tuple per destination repository, no warning (no overlapping tags)
    assert_eq!(sel.tuples.len(), 2);
    assert!(sel.warnings.is_empty());
}

#[test]
fn in_sync_base_package_stays_quiet_during_dependency_solving() {
    // The base package is already synchronized; the run still pulls
    // its dependency, and only the dependency is submitted.
    let existing = vec![info("dst", "foo", 9, "abc")];
    let base = vec![info("src", "foo", 5, "abc")];
    let snapshots = dep_world();
    let res = get_actions(
        &snapshots,
        &existing,
        &base,
        &project("dst"),
        vec!["upstream".to_string()],
    )
    .unwrap();
    assert_eq!(res.visited, vec!["foo".to_string(), "bar-source".to_string()]);
    assert_eq!(res.actions.len(), 1);
    match &res.actions[0] {
        Action::Submit { source, source_rev, target: _ } => {
            assert_eq!(source.name(), "bar-source");
            assert_eq!(*source_rev, Some(4));
        }
        Action::Delete(_) => panic!("expected a submission"),
    }
}

#[test]
fn resolver_state_machine_steps() {
    let existing = vec![info("dst", "foo", 1, "abc")];
    let base = vec![info("src", "foo", 5, "abc"), info("src", "bar", 6, "def")];
    let mut resolver = Resolver::new(&existing, &base, project("dst"), vec!["up".to_string()]);
    assert!(resolver.solve_deps());
    let first = resolver.take_next().unwrap();
    assert_eq!(first.package.name(), "foo");
    // Re-queuing a visited name changes nothing.
    resolver.enqueue(info("up", "foo", 9, "zzz"));
    assert_eq!(resolver.queue.len(), 1);
    let second = resolver.take_next().unwrap();
    assert_eq!(second.package.name(), "bar");
    assert!(resolver.take_next().is_none());
    // foo was in sync, bar was not.
    assert_eq!(resolver.actions.len(), 1);
}

#[test]
fn snapshots_store_and_lookup() {
    let mut snapshots = Snapshots::new();
    assert!(snapshots.binary_list(&project("src")).is_none());
    snapshots.insert_binary_list(project("src"), BinaryList { entries: Vec::new() });
    assert!(snapshots.binary_list(&project("src")).is_some());
    assert!(snapshots.package_list(&project("src")).is_none());
    snapshots.insert_package_list(project("src"), Vec::new());
    assert!(snapshots.package_list(&project("src")).is_some());
    let _ = ProjectBins { project: project("x"), bins: BinaryList { entries: Vec::new() } };
    let _ = ProjectPackages { project: project("x"), packages: Vec::new() };
}

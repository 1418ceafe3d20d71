//! Build-dependency reports: what a package needs to build, and the
//! dependency graph of a whole repository.

use vstd::prelude::*;

use crate::codes::BuildArch;
use crate::model::Package;
use crate::model::PackageView;
use crate::model::Project;
use crate::model::Repository;
use crate::resolver::BinPackage;
use crate::resolver::BinPackageView;
use crate::strutil::str_eq;

verus! {

/// One declared build dependency of a package.
#[derive(Debug)]
pub struct BDep {
    pub name: String,
    pub version: String,
    pub release: String,
    pub arch: BuildArch,
    pub project: String,
    pub repository: String,
}

/// The build-dependency report of one package in one
/// (repository, architecture).
#[derive(Debug)]
pub struct BuildInfo {
    pub bdep: Vec<BDep>,
}

/// One package of a repository dependency graph, with the packages it
/// depends on.
#[derive(Debug)]
pub struct DepPackage {
    pub name: String,
    pub pkgdep: Vec<String>,
}

/// The dependency graph report of a whole repository.
#[derive(Debug)]
pub struct BuildDepInfo {
    pub package: Vec<DepPackage>,
}

/// The dependency a report line declares, owned by the named project
/// and repository on the given service endpoint.
pub open spec fn bin_package_of(api_url: Seq<char>, b: BDep) -> BinPackageView {
    (BinPackageView {
        name: b.name@,
        version: b.version@,
        release: b.release@,
        arch: b.arch,
        repository: (crate::model::RepositoryView {
            name: b.repository@,
            project: (crate::model::ProjectView { api_url: api_url, name: b.project@ }),
        }),
    })
}

/// Turns a build-dependency report into the dependencies it declares,
/// in report order.
pub fn bin_packages_from_buildinfo(api_url: &str, info: &BuildInfo) -> (r: Vec<BinPackage>)
    ensures
        r.deep_view().len() == info.bdep@.len(),
        forall|i: int|
            0 <= i < r.deep_view().len() ==> #[trigger] r.deep_view()[i] == bin_package_of(
                api_url@,
                info.bdep@[i],
            ),
{
    let mut result: Vec<BinPackage> = Vec::new();
    let mut i: usize = 0;
    while i < info.bdep.len()
        invariant
            0 <= i <= info.bdep@.len(),
            result.deep_view().len() == i,
            forall|j: int|
                0 <= j < i ==> #[trigger] result.deep_view()[j] == bin_package_of(
                    api_url@,
                    info.bdep@[j],
                ),
        decreases info.bdep@.len() - i,
    {
        let b = &info.bdep[i];
        let project = Project::from_name(String::from_str(api_url), b.project.as_str());
        let repository = Repository::from_name_project(b.repository.as_str(), &project);
        let dep = BinPackage {
            name: b.name.clone(),
            version: b.version.clone(),
            release: b.release.clone(),
            arch: b.arch,
            repository,
        };
        let ghost vec_before = result@;
        let ghost deep_before = result.deep_view();
        proof {
            assert(dep@ == bin_package_of(api_url@, info.bdep@[i as int]));
        }
        result.push(dep);
        proof {
            assert forall|m: int| 0 <= m < i + 1 implies #[trigger] result.deep_view()[m]
                == bin_package_of(api_url@, info.bdep@[m]) by {
                assert(result.deep_view()[m] == result@[m].deep_view());
                if m < i {
                    assert(result@[m] == vec_before[m]);
                    assert(deep_before[m] == vec_before[m].deep_view());
                }
            }
        }
        i = i + 1;
    }
    result
}

/// A dependency graph line names a package the report does not list.
#[derive(Debug, PartialEq, Eq, Structural)]
pub struct UnknownDepPackage {}

/// One node of the resolved dependency graph: a package of the
/// repository's project and the packages it depends on.
#[derive(Debug)]
pub struct DepsNode {
    pub package: Package,
    pub deps: Vec<Package>,
}

/// Whether the report lists a package of the given name.
pub open spec fn report_has_package(packages: Seq<DepPackage>, name: Seq<char>) -> bool {
    exists|i: int| 0 <= i < packages.len() && (#[trigger] packages[i]).name@ == name
}

fn find_named_package<'a>(nodes: &'a Vec<Package>, name: &String) -> (r: Option<&'a Package>)
    ensures
        match r {
            Some(p) => p@.name == name@ && exists|i: int|
                0 <= i < nodes.deep_view().len() && #[trigger] nodes.deep_view()[i] == p@,
            None => forall|i: int|
                0 <= i < nodes.deep_view().len() ==> (#[trigger] nodes.deep_view()[i]).name
                    != name@,
        },
{
    let mut i: usize = 0;
    while i < nodes.len()
        invariant
            0 <= i <= nodes@.len(),
            forall|j: int|
                0 <= j < i ==> (#[trigger] nodes.deep_view()[j]).name != name@,
        decreases nodes@.len() - i,
    {
        proof {
            assert(nodes.deep_view()[i as int] == nodes@[i as int]@);
        }
        if str_eq(nodes[i].name(), name.as_str()) {
            return Some(&nodes[i]);
        }
        i = i + 1;
    }
    None
}

/// Resolves a repository dependency graph report against the
/// repository's own project: one node per reported package, in report
/// order, each dependency resolved to the listed package of that name.
/// A dependency whose name the report does not list is an
/// inconsistency and fails the whole resolution.
pub fn deps_tree_from_info(project: &Project, info: &BuildDepInfo) -> (r: Result<
    Vec<DepsNode>,
    UnknownDepPackage,
>)
    ensures
        match r {
            Ok(nodes) => {
                &&& nodes@.len() == info.package@.len()
                &&& forall|i: int|
                    0 <= i < nodes@.len() ==> (#[trigger] nodes@[i]).package@ == (PackageView {
                        name: info.package@[i].name@,
                        project: project@,
                    })
                &&& forall|i: int|
                    0 <= i < nodes@.len() ==> (#[trigger] nodes@[i]).deps@.len()
                        == info.package@[i].pkgdep@.len()
                &&& forall|i: int, j: int|
                    0 <= i < nodes@.len() && 0 <= j < nodes@[i].deps@.len()
                        ==> (#[trigger] nodes@[i].deps@[j])@.name == info.package@[i].pkgdep@[j]@
                        && nodes@[i].deps@[j]@.project == project@
            },
            Err(_) => exists|i: int, j: int|
                0 <= i < info.package@.len() && 0 <= j < info.package@[i].pkgdep@.len()
                    && !report_has_package(
                    info.package@,
                    (#[trigger] info.package@[i].pkgdep@[j])@,
                ),
        },
{
    let mut names: Vec<Package> = Vec::new();
    let mut i: usize = 0;
    while i < info.package.len()
        invariant
            0 <= i <= info.package@.len(),
            names.deep_view().len() == i,
            forall|j: int|
                0 <= j < i ==> #[trigger] names.deep_view()[j] == (PackageView {
                    name: info.package@[j].name@,
                    project: project@,
                }),
        decreases info.package@.len() - i,
    {
        let p = Package::from_name(info.package[i].name.clone(), project.clone());
        let ghost vec_before = names@;
        let ghost deep_before = names.deep_view();
        names.push(p);
        proof {
            assert forall|m: int| 0 <= m < i + 1 implies #[trigger] names.deep_view()[m]
                == (PackageView { name: info.package@[m].name@, project: project@ }) by {
                assert(names.deep_view()[m] == names@[m].deep_view());
                if m < i {
                    assert(names@[m] == vec_before[m]);
                    assert(deep_before[m] == vec_before[m].deep_view());
                }
            }
        }
        i = i + 1;
    }
    let mut nodes: Vec<DepsNode> = Vec::new();
    let mut i2: usize = 0;
    while i2 < info.package.len()
        invariant
            0 <= i2 <= info.package@.len(),
            names.deep_view().len() == info.package@.len(),
            forall|j: int|
                0 <= j < info.package@.len() ==> #[trigger] names.deep_view()[j] == (PackageView {
                    name: info.package@[j].name@,
                    project: project@,
                }),
            nodes@.len() == i2,
            forall|j: int|
                0 <= j < i2 ==> (#[trigger] nodes@[j]).package@ == (PackageView {
                    name: info.package@[j].name@,
                    project: project@,
                }),
            forall|j: int|
                0 <= j < i2 ==> (#[trigger] nodes@[j]).deps@.len()
                    == info.package@[j].pkgdep@.len(),
            forall|j: int, m: int|
                0 <= j < i2 && 0 <= m < nodes@[j].deps@.len()
                    ==> (#[trigger] nodes@[j].deps@[m])@.name == info.package@[j].pkgdep@[m]@
                    && nodes@[j].deps@[m]@.project == project@,
        decreases info.package@.len() - i2,
    {
        let dep_pkg = &info.package[i2];
        let mut deps: Vec<Package> = Vec::new();
        let mut k: usize = 0;
        while k < dep_pkg.pkgdep.len()
            invariant
                0 <= k <= dep_pkg.pkgdep@.len(),
                dep_pkg == info.package@[i2 as int],
                0 <= i2 < info.package@.len(),
                names.deep_view().len() == info.package@.len(),
                forall|j: int|
                    0 <= j < info.package@.len() ==> #[trigger] names.deep_view()[j]
                        == (PackageView { name: info.package@[j].name@, project: project@ }),
                deps@.len() == k,
                forall|m: int|
                    0 <= m < k ==> (#[trigger] deps@[m])@.name == dep_pkg.pkgdep@[m]@
                        && deps@[m]@.project == project@,
            decreases dep_pkg.pkgdep@.len() - k,
        {
            let dep_name = &dep_pkg.pkgdep[k];
            match find_named_package(&names, dep_name) {
                Some(p) => {
                    let ghost vec_before = deps@;
                    deps.push(p.clone());
                    proof {
                        assert(forall|m: int|
                            0 <= m < vec_before.len() ==> deps@[m] == #[trigger] vec_before[m]);
                    }
                },
                None => {
                    proof {
                        assert(!report_has_package(info.package@, dep_name@)) by {
                            if report_has_package(info.package@, dep_name@) {
                                let w = choose|w: int|
                                    0 <= w < info.package@.len()
                                        && (#[trigger] info.package@[w]).name@ == dep_name@;
                                assert(names.deep_view()[w].name == dep_name@);
                            }
                        }
                        assert(0 <= i2 < info.package@.len() && 0 <= k
                            < info.package@[i2 as int].pkgdep@.len());
                    }
                    return Err(UnknownDepPackage {});
                },
            }
            k = k + 1;
        }
        let node = DepsNode {
            package: Package::from_name(dep_pkg.name.clone(), project.clone()),
            deps,
        };
        let ghost vec_before = nodes@;
        nodes.push(node);
        proof {
            assert(forall|m: int|
                0 <= m < vec_before.len() ==> nodes@[m] == #[trigger] vec_before[m]);
        }
        i2 = i2 + 1;
    }
    Ok(nodes)
}

} // verus!

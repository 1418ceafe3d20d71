//! The identities the reconciliation logic works with: projects,
//! packages, repositories and package snapshots.

use vstd::prelude::*;

use crate::strutil::opt_string_eq;
use crate::strutil::vec_string_eq;

verus! {

/// A namespace on the build service, identified by the service
/// endpoint it lives on together with its name.
#[derive(Debug)]
pub struct Project {
    pub api_url: String,
    pub name: String,
}

/// Mathematical identity of a [`Project`].
pub struct ProjectView {
    pub api_url: Seq<char>,
    pub name: Seq<char>,
}

impl View for Project {
    type V = ProjectView;

    open spec fn view(&self) -> ProjectView {
        (ProjectView { api_url: self.api_url@, name: self.name@ })
    }
}

impl DeepView for Project {
    type V = ProjectView;

    open spec fn deep_view(&self) -> ProjectView {
        self.view()
    }
}

impl Project {
    pub fn from_name(api_url: String, name: &str) -> (r: Self)
        ensures
            r@.api_url == api_url@,
            r@.name == name@,
    {
        Project { api_url, name: name.to_owned() }
    }

    pub fn name(&self) -> (r: String)
        ensures
            r@ == self@.name,
    {
        self.name.clone()
    }

    pub fn api_url(&self) -> (r: &str)
        ensures
            r@ == self@.api_url,
    {
        self.api_url.as_str()
    }
}

impl Clone for Project {
    fn clone(&self) -> (r: Self)
        ensures
            r == *self,
    {
        Project { api_url: self.api_url.clone(), name: self.name.clone() }
    }
}

impl PartialEq for Project {
    fn eq(&self, other: &Self) -> (r: bool) {
        self.api_url == other.api_url && self.name == other.name
    }
}

impl vstd::std_specs::cmp::PartialEqSpecImpl for Project {
    open spec fn obeys_eq_spec() -> bool {
        true
    }

    open spec fn eq_spec(&self, other: &Self) -> bool {
        self@ == other@
    }
}

/// A named buildable unit within a project.
#[derive(Debug)]
pub struct Package {
    pub name: String,
    pub project: Project,
}

/// Mathematical identity of a [`Package`].
pub struct PackageView {
    pub name: Seq<char>,
    pub project: ProjectView,
}

impl View for Package {
    type V = PackageView;

    open spec fn view(&self) -> PackageView {
        (PackageView { name: self.name@, project: self.project@ })
    }
}

impl DeepView for Package {
    type V = PackageView;

    open spec fn deep_view(&self) -> PackageView {
        self.view()
    }
}

impl Package {
    pub fn from_name(name: String, project: Project) -> (r: Self)
        ensures
            r@.name == name@,
            r@.project == project@,
    {
        Package { name, project }
    }

    pub fn name(&self) -> (r: &str)
        ensures
            r@ == self@.name,
    {
        self.name.as_str()
    }
}

impl Clone for Package {
    fn clone(&self) -> (r: Self)
        ensures
            r == *self,
    {
        Package { name: self.name.clone(), project: self.project.clone() }
    }
}

impl PartialEq for Package {
    fn eq(&self, other: &Self) -> (r: bool) {
        self.name == other.name && self.project == other.project
    }
}

impl vstd::std_specs::cmp::PartialEqSpecImpl for Package {
    open spec fn obeys_eq_spec() -> bool {
        true
    }

    open spec fn eq_spec(&self, other: &Self) -> bool {
        self@ == other@
    }
}

/// A named build-target configuration within a project.
#[derive(Debug)]
pub struct Repository {
    pub name: String,
    pub project: Project,
}

/// Mathematical identity of a [`Repository`].
pub struct RepositoryView {
    pub name: Seq<char>,
    pub project: ProjectView,
}

impl View for Repository {
    type V = RepositoryView;

    open spec fn view(&self) -> RepositoryView {
        (RepositoryView { name: self.name@, project: self.project@ })
    }
}

impl DeepView for Repository {
    type V = RepositoryView;

    open spec fn deep_view(&self) -> RepositoryView {
        self.view()
    }
}

impl Repository {
    pub fn from_name_project(name: &str, project: &Project) -> (r: Self)
        ensures
            r@.name == name@,
            r@.project == project@,
    {
        Repository { name: name.to_owned(), project: project.clone() }
    }

    pub fn project(&self) -> (r: &Project)
        ensures
            r@ == self@.project,
    {
        &self.project
    }

    pub fn name(&self) -> (r: &str)
        ensures
            r@ == self@.name,
    {
        self.name.as_str()
    }
}

impl Clone for Repository {
    fn clone(&self) -> (r: Self)
        ensures
            r == *self,
    {
        Repository { name: self.name.clone(), project: self.project.clone() }
    }
}

impl PartialEq for Repository {
    fn eq(&self, other: &Self) -> (r: bool) {
        self.name == other.name && self.project == other.project
    }
}

impl vstd::std_specs::cmp::PartialEqSpecImpl for Repository {
    open spec fn obeys_eq_spec() -> bool {
        true
    }

    open spec fn eq_spec(&self, other: &Self) -> bool {
        self@ == other@
    }
}

/// An immutable snapshot of one package's source state, as one project
/// query reports it.
#[derive(Debug)]
pub struct PackageInfo {
    pub package: Package,
    pub rev: u32,
    pub vrev: u32,
    pub srcmd5: String,
    pub verifymd5: String,
    pub version: Option<String>,
    pub subpackages: Vec<String>,
}

/// Mathematical content of a [`PackageInfo`].
pub struct PackageInfoView {
    pub package: PackageView,
    pub rev: u32,
    pub vrev: u32,
    pub srcmd5: Seq<char>,
    pub verifymd5: Seq<char>,
    pub version: Option<Seq<char>>,
    pub subpackages: Seq<Seq<char>>,
}

impl View for PackageInfo {
    type V = PackageInfoView;

    open spec fn view(&self) -> PackageInfoView {
        (PackageInfoView {
            package: self.package@,
            rev: self.rev,
            vrev: self.vrev,
            srcmd5: self.srcmd5@,
            verifymd5: self.verifymd5@,
            version: self.version.deep_view(),
            subpackages: self.subpackages.deep_view(),
        })
    }
}

impl DeepView for PackageInfo {
    type V = PackageInfoView;

    open spec fn deep_view(&self) -> PackageInfoView {
        self.view()
    }
}

impl Clone for PackageInfo {
    fn clone(&self) -> (r: Self)
        ensures
            r@ == self@,
    {
        let r = PackageInfo {
            package: self.package.clone(),
            rev: self.rev,
            vrev: self.vrev,
            srcmd5: self.srcmd5.clone(),
            verifymd5: self.verifymd5.clone(),
            version: self.version.clone(),
            subpackages: self.subpackages.clone(),
        };
        proof {
            assert(r.version.deep_view() =~= self.version.deep_view());
            assert(r.subpackages.deep_view() =~= self.subpackages.deep_view());
        }
        r
    }
}

impl PartialEq for PackageInfo {
    fn eq(&self, other: &Self) -> (r: bool) {
        self.package == other.package && self.rev == other.rev && self.vrev == other.vrev
            && self.srcmd5 == other.srcmd5 && self.verifymd5 == other.verifymd5
            && opt_string_eq(&self.version, &other.version)
            && vec_string_eq(&self.subpackages, &other.subpackages)
    }
}

impl vstd::std_specs::cmp::PartialEqSpecImpl for PackageInfo {
    open spec fn obeys_eq_spec() -> bool {
        true
    }

    open spec fn eq_spec(&self, other: &Self) -> bool {
        self@ == other@
    }
}

} // verus!

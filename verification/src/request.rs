//! Requests against the build service: submit and delete actions, and
//! the wire shape they are serialised into.

use vstd::prelude::*;

use crate::model::Package;
use crate::model::PackageView;
use crate::model::Project;
use crate::strutil::opt_u32_eq;

verus! {

/// One requested change in a destination project: mirror a source
/// package into it, or remove a package from it.
#[derive(Debug)]
pub enum Action {
    Submit { source: Package, source_rev: Option<u32>, target: Package },
    Delete(Package),
}

/// Mathematical content of an [`Action`].
pub enum ActionView {
    Submit { source: PackageView, source_rev: Option<u32>, target: PackageView },
    Delete(PackageView),
}

impl View for Action {
    type V = ActionView;

    open spec fn view(&self) -> ActionView {
        match self {
            Action::Submit { source, source_rev, target } => ActionView::Submit {
                source: source@,
                source_rev: *source_rev,
                target: target@,
            },
            Action::Delete(p) => ActionView::Delete(p@),
        }
    }
}

impl DeepView for Action {
    type V = ActionView;

    open spec fn deep_view(&self) -> ActionView {
        self.view()
    }
}

impl Clone for Action {
    fn clone(&self) -> (r: Self)
        ensures
            r@ == self@,
    {
        match self {
            Action::Submit { source, source_rev, target } => Action::Submit {
                source: source.clone(),
                source_rev: match source_rev {
                    Some(v) => Some(*v),
                    None => None,
                },
                target: target.clone(),
            },
            Action::Delete(p) => Action::Delete(p.clone()),
        }
    }
}

impl PartialEq for Action {
    fn eq(&self, other: &Self) -> (r: bool) {
        match (self, other) {
            (
                Action::Submit { source: s1, source_rev: r1, target: t1 },
                Action::Submit { source: s2, source_rev: r2, target: t2 },
            ) => s1 == s2 && opt_u32_eq(r1, r2) && t1 == t2,
            (Action::Delete(p1), Action::Delete(p2)) => p1 == p2,
            _ => false,
        }
    }
}

impl vstd::std_specs::cmp::PartialEqSpecImpl for Action {
    open spec fn obeys_eq_spec() -> bool {
        true
    }

    open spec fn eq_spec(&self, other: &Self) -> bool {
        self@ == other@
    }
}

/// Whether the action concerns the given project: a deletion of one of
/// its packages, or a submission targeting it.
pub open spec fn action_is_for_project(a: ActionView, project: crate::model::ProjectView) -> bool {
    match a {
        ActionView::Delete(p) => p.project == project,
        ActionView::Submit { source, source_rev, target } => target.project == project,
    }
}

impl Action {
    pub fn is_for_project(&self, project: &Project) -> (r: bool)
        ensures
            r == action_is_for_project(self@, project@),
    {
        match self {
            Action::Delete(p) => &p.project == project,
            Action::Submit { source: _, source_rev: _, target } => &target.project == project,
        }
    }
}

/// A request against the build service: a set of actions under one
/// description, with the request number once it is known.
#[derive(Debug)]
pub struct Request {
    pub actions: Vec<Action>,
    pub description: String,
    pub id: Option<u32>,
}

impl Request {
    /// A fresh, not yet submitted request carrying the given actions.
    pub fn new_from_actions(description: String, actions: Vec<Action>) -> (r: Self)
        ensures
            r.actions.deep_view() == actions.deep_view(),
            r.description@ == description@,
            r.id is None,
    {
        Request { actions, description, id: None }
    }

    /// Whether any action of the request concerns the given project.
    pub fn is_for_project(&self, project: &Project) -> (r: bool)
        ensures
            r == exists|i: int|
                0 <= i < self.actions.deep_view().len() && action_is_for_project(
                    #[trigger] self.actions.deep_view()[i],
                    project@,
                ),
    {
        let mut i: usize = 0;
        while i < self.actions.len()
            invariant
                0 <= i <= self.actions@.len(),
                forall|j: int|
                    0 <= j < i ==> !action_is_for_project(
                        #[trigger] self.actions.deep_view()[j],
                        project@,
                    ),
            decreases self.actions@.len() - i,
        {
            assert(self.actions.deep_view()[i as int] == self.actions@[i as int]@);
            if self.actions[i].is_for_project(project) {
                return true;
            }
            i = i + 1;
        }
        false
    }
}

/// The wire form of a request's source or target.
#[derive(Debug)]
pub struct Target {
    pub project: String,
    pub package: String,
    pub rev: Option<u32>,
}

/// The wire form of one action.
#[derive(Debug)]
pub struct XmlAction {
    pub kind: String,
    pub source: Option<Target>,
    pub target: Target,
}

/// The wire form of a whole request.
#[derive(Debug)]
pub struct XmlRequest {
    pub action: Vec<XmlAction>,
    pub description: String,
    pub id: Option<u32>,
}

/// A list of requests, as a request query returns it.
#[derive(Debug)]
pub struct Collection {
    pub request: Vec<XmlRequest>,
}

/// The wire form of one action: its kind string, and source and target
/// identified by plain project and package names.
pub open spec fn xml_action_of(a: ActionView) -> (Seq<char>, Option<(Seq<char>, Seq<char>, Option<u32>)>, (Seq<char>, Seq<char>, Option<u32>)) {
    match a {
        ActionView::Delete(p) => ("delete"@, None, (p.project.name, p.name, None)),
        ActionView::Submit { source, source_rev, target } => (
            "submit"@,
            Some((source.project.name, source.name, source_rev)),
            (target.project.name, target.name, None),
        ),
    }
}

impl XmlAction {
    /// Rewrites an action into its wire form.
    pub fn from_action(value: &Action) -> (r: Self)
        ensures
            (
                r.kind@,
                match r.source {
                    Some(s) => Some((s.project@, s.package@, s.rev)),
                    None => None,
                },
                (r.target.project@, r.target.package@, r.target.rev),
            ) == xml_action_of(value@),
    {
        match value {
            Action::Delete(p) => XmlAction {
                kind: String::from_str("delete"),
                source: None,
                target: Target {
                    package: String::from_str(p.name()),
                    project: p.project.name(),
                    rev: None,
                },
            },
            Action::Submit { source, source_rev, target } => XmlAction {
                kind: String::from_str("submit"),
                source: Some(
                    Target {
                        package: String::from_str(source.name()),
                        project: source.project.name(),
                        rev: match source_rev {
                            Some(v) => Some(*v),
                            None => None,
                        },
                    },
                ),
                target: Target {
                    package: String::from_str(target.name()),
                    project: target.project.name(),
                    rev: None,
                },
            },
        }
    }
}


/// The action a wire action decodes to: a deletion for the "delete"
/// kind, a submission (which must carry a source) for the "submit"
/// kind, and nothing for any other kind.
pub open spec fn decoded_action(api_url: Seq<char>, a: XmlAction) -> Option<ActionView> {
    if a.kind@ == "delete"@ {
        Some(
            ActionView::Delete(
                (PackageView {
                    name: a.target.package@,
                    project: (crate::model::ProjectView { api_url: api_url, name: a.target.project@ }),
                }),
            ),
        )
    } else if a.kind@ == "submit"@ {
        match a.source {
            None => None,
            Some(src) => Some(
                ActionView::Submit {
                    source: (PackageView {
                        name: src.package@,
                        project: (crate::model::ProjectView { api_url: api_url, name: src.project@ }),
                    }),
                    source_rev: src.rev,
                    target: (PackageView {
                        name: a.target.package@,
                        project: (crate::model::ProjectView {
                            api_url: api_url,
                            name: a.target.project@,
                        }),
                    }),
                },
            ),
        }
    } else {
        None
    }
}

/// A wire action of a kind the decoder does not know, or a submission
/// without a source.
#[derive(Debug, PartialEq, Eq, Structural)]
pub struct UnknownActionKind {}

fn decode_target(api_url: &str, t: &Target) -> (r: Package)
    ensures
        r@ == (PackageView {
            name: t.package@,
            project: (crate::model::ProjectView { api_url: api_url@, name: t.project@ }),
        }),
{
    Package::from_name(
        t.package.clone(),
        Project::from_name(String::from_str(api_url), t.project.as_str()),
    )
}

/// Decodes the requests a request query returned: each wire request's
/// actions, description and number, against the given service
/// endpoint.  An action of unknown kind, or a submission without a
/// source, is a malformed reply and fails the whole decoding.
pub fn requests_from_collection(api_url: &str, collection: &Collection) -> (r: Result<
    Vec<Request>,
    UnknownActionKind,
>)
    ensures
        match r {
            Ok(reqs) => {
                &&& reqs@.len() == collection.request@.len()
                &&& forall|i: int|
                    0 <= i < reqs@.len() ==> (#[trigger] reqs@[i]).description@
                        == collection.request@[i].description@ && reqs@[i].id
                        == collection.request@[i].id && reqs@[i].actions.deep_view().len()
                        == collection.request@[i].action@.len()
                &&& forall|i: int, j: int|
                    0 <= i < reqs@.len() && 0 <= j < reqs@[i].actions.deep_view().len() ==> Some(
                        (#[trigger] reqs@[i].actions.deep_view()[j]),
                    ) == decoded_action(api_url@, collection.request@[i].action@[j])
            },
            Err(_) => exists|i: int, j: int|
                0 <= i < collection.request@.len() && 0 <= j < collection.request@[i].action@.len()
                    && decoded_action(
                    api_url@,
                    (#[trigger] collection.request@[i].action@[j]),
                ) is None,
        },
{
    let mut reqs: Vec<Request> = Vec::new();
    let mut i: usize = 0;
    while i < collection.request.len()
        invariant
            0 <= i <= collection.request@.len(),
            reqs@.len() == i,
            forall|m: int|
                0 <= m < i ==> (#[trigger] reqs@[m]).description@
                    == collection.request@[m].description@ && reqs@[m].id
                    == collection.request@[m].id && reqs@[m].actions.deep_view().len()
                    == collection.request@[m].action@.len(),
            forall|m: int, j: int|
                0 <= m < i && 0 <= j < reqs@[m].actions.deep_view().len() ==> Some(
                    (#[trigger] reqs@[m].actions.deep_view()[j]),
                ) == decoded_action(api_url@, collection.request@[m].action@[j]),
        decreases collection.request@.len() - i,
    {
        let xr = &collection.request[i];
        let mut actions: Vec<Action> = Vec::new();
        let mut j: usize = 0;
        while j < xr.action.len()
            invariant
                0 <= j <= xr.action@.len(),
                xr == collection.request@[i as int],
                0 <= i < collection.request@.len(),
                actions.deep_view().len() == j,
                forall|m: int|
                    0 <= m < j ==> Some((#[trigger] actions.deep_view()[m])) == decoded_action(
                        api_url@,
                        xr.action@[m],
                    ),
            decreases xr.action@.len() - j,
        {
            let xa = &xr.action[j];
            let target = decode_target(api_url, &xa.target);
            let action: Action = if crate::strutil::str_eq(xa.kind.as_str(), "delete") {
                Action::Delete(target)
            } else if crate::strutil::str_eq(xa.kind.as_str(), "submit") {
                match &xa.source {
                    None => {
                        return Err(UnknownActionKind {});
                    },
                    Some(src) => Action::Submit {
                        source: decode_target(api_url, src),
                        source_rev: match src.rev {
                            Some(v) => Some(v),
                            None => None,
                        },
                        target,
                    },
                }
            } else {
                return Err(UnknownActionKind {});
            };
            let ghost vec_before = actions@;
            let ghost deep_before = actions.deep_view();
            proof {
                assert(Some(action@) == decoded_action(api_url@, xr.action@[j as int]));
            }
            actions.push(action);
            proof {
                assert forall|m: int| 0 <= m < j + 1 implies Some(
                    (#[trigger] actions.deep_view()[m]),
                ) == decoded_action(api_url@, xr.action@[m]) by {
                    assert(actions.deep_view()[m] == actions@[m].deep_view());
                    if m < j {
                        assert(actions@[m] == vec_before[m]);
                        assert(deep_before[m] == vec_before[m].deep_view());
                    }
                }
            }
            j = j + 1;
        }
        let req = Request {
            actions,
            description: xr.description.clone(),
            id: match xr.id {
                Some(v) => Some(v),
                None => None,
            },
        };
        let ghost vec_before = reqs@;
        reqs.push(req);
        proof {
            assert(forall|m: int|
                0 <= m < vec_before.len() ==> reqs@[m] == #[trigger] vec_before[m]);
        }
        i = i + 1;
    }
    Ok(reqs)
}

} // verus!

//! A declared dependency and what was found out about it.

use vstd::prelude::*;
use vstd::string::StringExecFns;
use crate::pool::{DependencyRequest, RequestModel, Section};
use crate::status::{status_between, status_or_unknown, Status};

verus! {

/// A dependency as the manifest declares it, with the latest version and
/// the status once they are known.
#[derive(Clone, Debug, PartialEq, Eq)]
pub struct Dependency {
    name: String,
    current_version: String,
    latest_version: String,
    status: Option<String>,
}

/// The mathematical value of a [`Dependency`].
pub struct DependencyModel {
    pub name: Seq<char>,
    pub current_version: Seq<char>,
    pub latest_version: Seq<char>,
    pub status: Option<Seq<char>>,
}

impl View for Dependency {
    type V = DependencyModel;

    closed spec fn view(&self) -> DependencyModel {
        DependencyModel {
            name: self.name@,
            current_version: self.current_version@,
            latest_version: self.latest_version@,
            status: match self.status {
                Some(s) => Some(s@),
                None => None,
            },
        }
    }
}

impl Dependency {
    /// A dependency of which only the declaration is known.
    pub fn new(name: String, current_version: String) -> (dep: Self)
        ensures
            dep@ == (DependencyModel {
                name: name@,
                current_version: current_version@,
                latest_version: Seq::empty(),
                status: None,
            }),
    {
        Self { name, current_version, latest_version: String::new(), status: None }
    }

    /// Takes note of the latest version.
    pub fn set_latest_version(&mut self, latest_version: String)
        ensures
            final(self)@ == (DependencyModel { latest_version: latest_version@, ..old(self)@ }),
    {
        self.latest_version = latest_version;
    }

    /// Takes note of the status.
    pub fn set_status(&mut self, status: String)
        ensures
            final(self)@ == (DependencyModel { status: Some(status@), ..old(self)@ }),
    {
        self.status = Some(status);
    }

    /// The words for the status of the declared version against
    /// `latest_version`. The dependency itself stays as it is.
    pub fn compare(&mut self, latest_version: &String) -> (label: String)
        ensures
            final(self)@ == old(self)@,
            label@ == status_between(old(self)@.current_version, latest_version@).label_text(),
    {
        let status = status_or_unknown(self.current_version.as_str(), latest_version.as_str());
        String::from_str(status.label())
    }

    /// Takes note of the latest version and of the status that follows
    /// from it.
    pub fn resolve(&mut self, latest_version: String)
        ensures
            final(self)@ == (DependencyModel {
                latest_version: latest_version@,
                status: Some(
                    status_between(old(self)@.current_version, latest_version@).label_text(),
                ),
                ..old(self)@
            }),
    {
        let label = self.compare(&latest_version);
        self.set_latest_version(latest_version);
        self.set_status(label);
    }

    /// Whether the status says that the dependency is outdated.
    pub fn is_outdated(&self) -> (r: bool)
        ensures
            r == (self@.status == Some(Status::Outdated.label_text())),
    {
        match &self.status {
            Some(s) => crate::text::same_text(s.as_str(), Status::Outdated.label()),
            None => false,
        }
    }

    /// The lookup that this dependency asks for.
    pub fn request(&self, section: Section) -> (r: DependencyRequest)
        ensures
            r@ == (RequestModel {
                name: self@.name,
                declared_constraint: self@.current_version,
                section,
            }),
    {
        DependencyRequest {
            name: self.name.clone(),
            declared_constraint: self.current_version.clone(),
            section,
        }
    }

    /// The name of the package.
    pub fn get_name(&self) -> (name: &String)
        ensures
            name@ == self@.name,
    {
        &self.name
    }

    /// The declared constraint.
    pub fn get_current_version(&self) -> (version: &String)
        ensures
            version@ == self@.current_version,
    {
        &self.current_version
    }

    /// The latest version; empty until it is known.
    pub fn get_latest_version(&self) -> (version: &String)
        ensures
            version@ == self@.latest_version,
    {
        &self.latest_version
    }

    /// The status, once it is known.
    pub fn get_status(&self) -> (status: &Option<String>)
        ensures
            match *status {
                Some(s) => self@.status == Some(s@),
                None => self@.status.is_none(),
            },
    {
        &self.status
    }
}

} // verus!

//! What a statement runs with: the namespace and database it works in, and who runs it.

use vstd::prelude::*;
use crate::ast::Base;
use crate::ast::BaseView;
use crate::err::Error;
use crate::err::ErrorView;
use crate::time::Datetime;

verus! {

/// What is done to a resource.
#[derive(Clone, Copy, PartialEq, Eq, Structural, Debug)]
pub enum Action {
    /// The resource is read.
    View,
    /// The resource is defined, changed or removed.
    Edit,
}

/// The kind of a resource.
#[derive(Clone, Copy, PartialEq, Eq, Structural, Debug)]
pub enum ResourceKind {
    Any,
    Namespace,
    Database,
    Record,
    Table,
    Document,
    Option,
    Function,
    Analyzer,
    Parameter,
    Event,
    Field,
    Index,
    /// A user or a token: who may sign in.
    Actor,
}

/// What a user may do.
#[derive(Clone, Copy, PartialEq, Eq, Structural, Debug)]
pub enum Role {
    /// May read.
    Viewer,
    /// May read, and edit all but users and tokens.
    Editor,
    /// May read and edit everything.
    Owner,
}

/// Where a user is defined.
#[derive(Clone, Copy, PartialEq, Eq, Structural, Debug)]
pub enum AuthLevel {
    /// Nobody signed in.
    Anonymous,
    /// A record signed in through a scope.
    Scope,
    /// A user of the database that the statement works in.
    Database,
    /// A user of the namespace that the statement works in.
    Namespace,
    /// A user of the root.
    Root,
}

/// Who runs a statement.
#[derive(Clone, Copy, PartialEq, Eq, Structural, Debug)]
pub struct Auth {
    pub level: AuthLevel,
    pub role: Role,
}

/// Whether a user with the role `role` may do `action` to a resource of the kind `kind`.
pub open spec fn role_permits(role: Role, action: Action, kind: ResourceKind) -> bool {
    match role {
        Role::Owner => true,
        Role::Editor => action == Action::View || kind != ResourceKind::Actor,
        Role::Viewer => action == Action::View,
    }
}

/// Whether a user who is defined at `level` reaches what is defined at `base`: a user of
/// the root reaches everything, a user of a namespace what is defined in namespaces and
/// databases, and a user of a database what is defined in databases.
pub open spec fn level_reaches(level: AuthLevel, base: BaseView) -> bool {
    match level {
        AuthLevel::Root => true,
        AuthLevel::Namespace => base is Ns || base is Db || base is Sc,
        AuthLevel::Database => base is Db || base is Sc,
        AuthLevel::Scope => false,
        AuthLevel::Anonymous => false,
    }
}

/// Whether `auth` may do `action` to a resource of the kind `kind` that is defined at
/// `base`.
pub open spec fn allowed(auth: Auth, action: Action, kind: ResourceKind, base: BaseView) -> bool {
    level_reaches(auth.level, base) && role_permits(auth.role, action, kind)
}

/// What a statement runs with.
#[derive(Debug)]
pub struct Options {
    /// The namespace that the statement works in, where one is chosen.
    pub ns: Option<String>,
    /// The database that the statement works in, where one is chosen.
    pub db: Option<String>,
    /// Whether it is checked who runs the statement.
    pub auth_enabled: bool,
    /// Who runs the statement.
    pub auth: Auth,
}

impl Options {
    /// Whether who runs the statement may do `action` to a resource of the kind `kind`
    /// that is defined at `base`. Where nothing is checked, everything is allowed.
    pub open spec fn allows(&self, action: Action, kind: ResourceKind, base: BaseView) -> bool {
        !self.auth_enabled || allowed(self.auth, action, kind, base)
    }

    /// Options for a statement of the root user, with no namespace and database chosen.
    pub fn new() -> (options: Options)
        ensures
            options.ns is None,
            options.db is None,
            options.auth_enabled,
            options.auth == (Auth { level: AuthLevel::Root, role: Role::Owner }),
    {
        Options {
            ns: None,
            db: None,
            auth_enabled: true,
            auth: Auth { level: AuthLevel::Root, role: Role::Owner },
        }
    }

    /// The namespace that the statement works in.
    pub fn ns(&self) -> (result: Result<&str, Error>)
        ensures
            match result {
                Ok(ns) => self.ns matches Some(chosen) && ns@ == chosen@,
                Err(e) => self.ns is None && e@ == ErrorView::NotFound,
            },
    {
        match &self.ns {
            Some(ns) => Ok(ns.as_str()),
            None => Err(Error::NotFound),
        }
    }

    /// The database that the statement works in.
    pub fn db(&self) -> (result: Result<&str, Error>)
        ensures
            match result {
                Ok(db) => self.db matches Some(chosen) && db@ == chosen@,
                Err(e) => self.db is None && e@ == ErrorView::NotFound,
            },
    {
        match &self.db {
            Some(db) => Ok(db.as_str()),
            None => Err(Error::NotFound),
        }
    }

    /// Checks that who runs the statement may do `action` to a resource of the kind `kind`
    /// that is defined at `base`.
    pub fn is_allowed(&self, action: Action, kind: ResourceKind, base: &Base) -> (result: Result<
        (),
        Error,
    >)
        ensures
            match result {
                Ok(_) => self.allows(action, kind, base@),
                Err(e) => !self.allows(action, kind, base@) && e@ == ErrorView::PermissionDenied,
            },
    {
        if !self.auth_enabled {
            return Ok(());
        }
        let reaches = match self.auth.level {
            AuthLevel::Root => true,
            AuthLevel::Namespace => match base {
                Base::Root => false,
                _ => true,
            },
            AuthLevel::Database => match base {
                Base::Db => true,
                Base::Sc(_) => true,
                _ => false,
            },
            AuthLevel::Scope => false,
            AuthLevel::Anonymous => false,
        };
        let permits = match self.auth.role {
            Role::Owner => true,
            Role::Editor => match action {
                Action::View => true,
                Action::Edit => match kind {
                    ResourceKind::Actor => false,
                    _ => true,
                },
            },
            Role::Viewer => match action {
                Action::View => true,
                Action::Edit => false,
            },
        };
        if reaches && permits {
            Ok(())
        } else {
            Err(Error::PermissionDenied)
        }
    }
}

/// What a function knows of the run it is called in.
#[derive(Clone, Copy, Debug)]
pub struct Runtime {
    /// The time at which the statement runs.
    pub now: Datetime,
}

} // verus!

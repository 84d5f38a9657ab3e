//! The records the library works with, their mathematical views, and the
//! closed set of errors the store and the activator report.

use vstd::prelude::*;

verus! {

/// A registered project directory, as one row of the store.
#[derive(Debug)]
pub struct Project {
    pub id: i64,
    pub name: String,
    pub path: String,
    pub icon: String,
    pub icon_color: String,
    pub active_environment: Option<String>,
    pub created_at: String,
    pub updated_at: String,
}

/// Mathematical view of a [`Project`].
pub struct ProjectV {
    pub id: int,
    pub name: Seq<char>,
    pub path: Seq<char>,
    pub icon: Seq<char>,
    pub icon_color: Seq<char>,
    pub active_environment: Option<Seq<char>>,
    pub created_at: Seq<char>,
    pub updated_at: Seq<char>,
}

impl View for Project {
    type V = ProjectV;

    open spec fn view(&self) -> ProjectV {
        ProjectV {
            id: self.id as int,
            name: self.name@,
            path: self.path@,
            icon: self.icon@,
            icon_color: self.icon_color@,
            active_environment: match self.active_environment {
                Some(s) => Some(s@),
                None => None,
            },
            created_at: self.created_at@,
            updated_at: self.updated_at@,
        }
    }
}

impl Clone for Project {
    fn clone(&self) -> (r: Self)
        ensures
            r@ == self@,
    {
        Project {
            id: self.id,
            name: self.name.clone(),
            path: self.path.clone(),
            icon: self.icon.clone(),
            icon_color: self.icon_color.clone(),
            active_environment: match &self.active_environment {
                Some(s) => Some(s.clone()),
                None => None,
            },
            created_at: self.created_at.clone(),
            updated_at: self.updated_at.clone(),
        }
    }
}

/// One `.env*` file found by a scan; computed fresh on every scan, never stored.
#[derive(Debug)]
pub struct EnvFile {
    pub name: String,
    pub path: String,
    pub is_active: bool,
    pub modified_at: Option<String>,
}

/// Mathematical view of an [`EnvFile`].
pub struct EnvFileV {
    pub name: Seq<char>,
    pub path: Seq<char>,
    pub is_active: bool,
    pub modified_at: Option<Seq<char>>,
}

impl View for EnvFile {
    type V = EnvFileV;

    open spec fn view(&self) -> EnvFileV {
        EnvFileV {
            name: self.name@,
            path: self.path@,
            is_active: self.is_active,
            modified_at: match self.modified_at {
                Some(s) => Some(s@),
                None => None,
            },
        }
    }
}

/// The optional fields of a partial project update; a `None` field keeps the
/// stored value.
#[derive(Debug)]
pub struct UpdateProjectParams {
    pub id: i64,
    pub name: Option<String>,
    pub icon: Option<String>,
    pub icon_color: Option<String>,
}

/// What a store operation can report.
#[derive(Debug, PartialEq, Eq, Clone, Copy)]
pub enum DatabaseError {
    /// No project row has the given id.
    NotFound,
    /// A uniqueness or referential constraint was violated: the path is
    /// already registered, or a history row names an unknown project.
    Constraint,
    /// The id space is exhausted; no further row can be assigned an id.
    Full,
}

impl DatabaseError {
    /// A human-readable description, for the boundary that flattens errors
    /// to text.
    pub fn message(&self) -> (r: &'static str)
        ensures
            self is NotFound ==> r@ == "Project not found"@,
            self is Constraint ==> r@ == "Constraint violation"@,
            self is Full ==> r@ == "Store is full"@,
    {
        match self {
            DatabaseError::NotFound => "Project not found",
            DatabaseError::Constraint => "Constraint violation",
            DatabaseError::Full => "Store is full",
        }
    }
}

/// What an activation can report.
#[derive(Debug, PartialEq, Eq, Clone, Copy)]
pub enum EnvError {
    /// The project id named by the activation is not registered.
    ProjectNotFound,
    /// The named env file is not present in the project directory.
    SourceMissing,
}

impl EnvError {
    /// A human-readable description, for the boundary that flattens errors
    /// to text.
    pub fn message(&self) -> (r: &'static str)
        ensures
            self is ProjectNotFound ==> r@ == "Project not found"@,
            self is SourceMissing ==> r@ == "Environment file does not exist"@,
    {
        match self {
            EnvError::ProjectNotFound => "Project not found",
            EnvError::SourceMissing => "Environment file does not exist",
        }
    }
}

} // verus!

//! The actions the surrounding application routes to the domain model,
//! and the results it reports back.

use vstd::prelude::*;
use crate::ids::{CodeDefId, FileId, QualCodeId, ThemeId};
use crate::highlight::Highlight;

verus! {

/// One request from the user interface.
pub enum Action {
    /// Leave the application.
    Quit,
    /// Create, save or load a project.
    Project(ProjectAction),
    /// Add or open a file.
    File(FileAction),
    /// Change the coding vocabulary.
    Schema(SchemaAction),
    /// Apply a code to text.
    Coding(CodingAction),
}

/// Project-level requests.
pub enum ProjectAction {
    /// Create a project file at `path` named `name`.
    NewProject { path: String, name: String },
    /// Persist the current project.
    SaveProject,
    /// Load the project file at the given path.
    LoadProject(String),
}

/// File-level requests.
pub enum FileAction {
    /// Register the file at the given path.
    AddFile(String),
    /// Open the given file for coding.
    OpenFile(FileId),
}

/// Vocabulary-level requests.
pub enum SchemaAction {
    /// Create a code definition.
    CreateCode { name: String, color: u8 },
}

/// Coding requests.
pub enum CodingAction {
    /// Apply `code_def_id` to `highlight`, covering `snippet`.
    ApplyCode { code_def_id: CodeDefId, highlight: Highlight, snippet: String },
}

/// What handling an action produced.
pub enum ActionResult {
    /// The application should quit.
    Quit,
    /// The action completed.
    Success,
    /// A theme was created.
    ThemeCreated(ThemeId),
    /// A code definition was created.
    CodeCreated(CodeDefId),
    /// A file was added.
    FileAdded(FileId),
    /// A code was applied.
    CodeApplied(QualCodeId),
}

} // verus!

//! The project record, project context, configuration, and the shared
//! application state with its transition rules.
//!
//! The surrounding application drives these transitions: it performs the
//! slow work (creating, saving or loading a project on disk) outside any
//! lock and then applies one of the brief in-memory transitions here.

use vstd::prelude::*;
use crate::codebook::{codebook_wf, CodeBook, CodeBookV};
use crate::files::{DataState, FileList, QualFileV, file_ids};
use crate::ids::FileId;

verus! {

/// Abstract value of a [`QualProject`].
pub ghost struct QualProjectV {
    pub name: Seq<char>,
    pub version: u64,
    pub created_at: i64,
    pub modified_at: i64,
}

/// The record describing one project: its display name, a format version,
/// and creation/modification timestamps (microseconds since the epoch,
/// supplied by the persistence layer).
pub struct QualProject {
    name: String,
    version: u64,
    created_at: i64,
    modified_at: i64,
}

impl View for QualProject {
    type V = QualProjectV;

    closed spec fn view(&self) -> QualProjectV {
        QualProjectV {
            name: self.name@,
            version: self.version,
            created_at: self.created_at,
            modified_at: self.modified_at,
        }
    }
}

impl QualProject {
    /// A project record with the given parts.
    pub fn new(name: String, version: u64, created_at: i64, modified_at: i64) -> (r: Self)
        ensures
            r@ == (QualProjectV { name: name@, version, created_at, modified_at }),
    {
        QualProject { name, version, created_at, modified_at }
    }

    /// An identical copy.
    pub fn duplicate(&self) -> (r: Self)
        ensures
            r@ == self@,
    {
        QualProject {
            name: self.name.clone(),
            version: self.version,
            created_at: self.created_at,
            modified_at: self.modified_at,
        }
    }

    /// The display name.
    pub fn name(&self) -> (r: &str)
        ensures
            r@ == self@.name,
    {
        self.name.as_str()
    }

    /// The format version.
    pub fn version(&self) -> (r: u64)
        ensures
            r == self@.version,
    {
        self.version
    }

    /// When the project was created.
    pub fn created_at(&self) -> (r: i64)
        ensures
            r == self@.created_at,
    {
        self.created_at
    }

    /// When the project was last modified.
    pub fn modified_at(&self) -> (r: i64)
        ensures
            r == self@.modified_at,
    {
        self.modified_at
    }
}

/// The small configuration record: currently only the UI theme preference.
pub struct AppConfig {
    pub theme: String,
}

impl Default for AppConfig {
    /// The default configuration: the "dark" theme.
    fn default() -> (r: Self)
        ensures
            r.theme@ == "dark"@,
    {
        AppConfig { theme: String::from_str("dark") }
    }
}

impl AppConfig {
    /// An identical copy.
    pub fn duplicate(&self) -> (r: Self)
        ensures
            r.theme@ == self.theme@,
    {
        AppConfig { theme: self.theme.clone() }
    }
}

/// Whether a path has a parent directory component.
pub open spec fn has_parent(p: Seq<char>) -> bool {
    exists|i: int| 0 <= i < p.len() && p[i] == '/'
}

/// The index of the last path separator.
pub open spec fn last_slash(p: Seq<char>) -> int {
    choose|i: int|
        0 <= i < p.len() && p[i] == '/' && (forall|k: int| i < k < p.len() ==> p[k] != '/')
}

/// The parent directory of a path: everything before its last separator.
pub open spec fn parent_dir(p: Seq<char>) -> Seq<char> {
    p.take(last_slash(p))
}

proof fn lemma_last_slash_of(p: Seq<char>, i: int)
    requires
        0 <= i < p.len(),
        p[i] == '/',
        forall|k: int| i < k < p.len() ==> p[k] != '/',
    ensures
        has_parent(p),
        last_slash(p) == i,
{
    assert(has_parent(p));
    assert(0 <= i < p.len() && p[i] == '/' && (forall|k: int| i < k < p.len() ==> p[k] != '/'));
    let j = last_slash(p);
    assert(0 <= j < p.len() && p[j] == '/' && (forall|k: int| j < k < p.len() ==> p[k] != '/'));
}

/// Abstract value of a [`ProjectContext`].
pub ghost struct ProjectContextV {
    pub project: QualProjectV,
    pub path: Seq<char>,
    pub root: Seq<char>,
}

/// A loaded project: its record, the path of its project file, and the
/// root directory that path lies in.
pub struct ProjectContext {
    project: QualProject,
    path: String,
    root: String,
}

impl View for ProjectContext {
    type V = ProjectContextV;

    closed spec fn view(&self) -> ProjectContextV {
        ProjectContextV { project: self.project@, path: self.path@, root: self.root@ }
    }
}

impl ProjectContext {
    /// Builds the context for a project file at `path`.  The path must
    /// have a parent directory (contain a separator); the root is
    /// everything before the last separator.
    pub fn new(path: String, project: QualProject) -> (r: Self)
        requires
            has_parent(path@),
        ensures
            r@.project == project@,
            r@.path == path@,
            r@.root == parent_dir(path@),
    {
        let s = path.as_str();
        let n = s.unicode_len();
        let mut i = n;
        loop
            invariant_except_break
                forall|k: int| i <= k < n ==> path@[k] != '/',
            invariant
                i <= n,
                n == path@.len(),
                s@ == path@,
                has_parent(path@),
            ensures
                0 <= i < n,
                s@ == path@,
                n == path@.len(),
                path@[i as int] == '/',
                forall|k: int| i < k < n ==> path@[k] != '/',
            decreases i,
        {
            if i == 0 {
                proof {
                    let w = choose|w: int| 0 <= w < path@.len() && path@[w] == '/';
                    assert(path@[w] != '/');
                }
                break ;
            }
            i = i - 1;
            if s.get_char(i) == '/' {
                break ;
            }
        }
        proof {
            lemma_last_slash_of(path@, i as int);
        }
        let root = s.substring_char(0, i).to_owned();
        proof {
            assert(root@ =~= parent_dir(path@));
        }
        ProjectContext { project, path, root }
    }

    /// The project record.
    pub fn project(&self) -> (r: &QualProject)
        ensures
            r@ == self@.project,
    {
        &self.project
    }

    /// The path of the project file.
    pub fn path(&self) -> (r: &str)
        ensures
            r@ == self@.path,
    {
        self.path.as_str()
    }

    /// The directory the project file lies in.
    pub fn root(&self) -> (r: &str)
        ensures
            r@ == self@.root,
    {
        self.root.as_str()
    }
}

/// The lifecycle state of the current project, over abstract values.
pub open spec fn project_state_view(s: DataState<ProjectContext>) -> DataState<ProjectContextV> {
    match s {
        DataState::Empty => DataState::Empty,
        DataState::Loaded(c) => DataState::Loaded(c@),
        DataState::Modified(c) => DataState::Modified(c@),
        DataState::Error => DataState::Error,
    }
}

/// Abstract value of an [`AppState`].
pub ghost struct AppStateV {
    pub project: DataState<ProjectContextV>,
    pub codebook: CodeBookV,
    pub filemanager: Seq<QualFileV>,
    pub theme: Seq<char>,
}

/// The whole in-memory application state: the current project (if any),
/// the code book, the file collection, and the configuration.
pub struct AppState {
    project: DataState<ProjectContext>,
    codebook: CodeBook,
    filemanager: FileList,
    config: AppConfig,
}

impl View for AppState {
    type V = AppStateV;

    closed spec fn view(&self) -> AppStateV {
        AppStateV {
            project: project_state_view(self.project),
            codebook: self.codebook@,
            filemanager: self.filemanager@,
            theme: self.config.theme@,
        }
    }
}

impl AppState {
    /// Identifier uniqueness of the owned collections.
    pub open spec fn wf(&self) -> bool {
        codebook_wf(self@.codebook) && file_ids(self@.filemanager).no_duplicates()
    }

    /// A fresh state with an empty code book and file collection.
    pub fn new(project: DataState<ProjectContext>, config: AppConfig) -> (r: Self)
        ensures
            r@.project == project_state_view(project),
            r@.codebook.codes == Seq::<crate::entities::CodeDefV>::empty(),
            r@.codebook.themes == Seq::<crate::entities::ThemeDefV>::empty(),
            r@.codebook.quals == Seq::<crate::entities::QualCodeV>::empty(),
            r@.filemanager == Seq::<QualFileV>::empty(),
            r@.theme == config.theme@,
            r.wf(),
    {
        let codebook = CodeBook::new();
        let filemanager = FileList::new();
        AppState { project, codebook, filemanager, config }
    }

    /// Installs a configuration (applied once at startup, from the
    /// configuration store).
    pub fn set_config(&mut self, config: AppConfig)
        ensures
            final(self)@ == (AppStateV { theme: config.theme@, ..old(self)@ }),
    {
        self.config = config;
    }

    /// The current configuration.
    pub fn config(&self) -> (r: &AppConfig)
        ensures
            r.theme@ == self@.theme,
    {
        &self.config
    }

    /// Records a newly created project as the current one.  The code book
    /// and file collection are untouched.
    pub fn project_opened(&mut self, ctx: ProjectContext)
        ensures
            final(self)@ == (AppStateV { project: DataState::Loaded(ctx@), ..old(self)@ }),
    {
        self.project = DataState::Loaded(ctx);
    }

    /// Records that creating or loading a project failed: a state that
    /// held no project yet moves to `Error`; any other state is kept.
    pub fn project_load_failed(&mut self)
        ensures
            old(self)@.project is Empty ==> final(self)@ == (AppStateV {
                project: DataState::Error,
                ..old(self)@
            }),
            !(old(self)@.project is Empty) ==> final(self)@ == old(self)@,
    {
        if let DataState::Empty = self.project {
            self.project = DataState::Error;
        }
    }

    /// Installs a project loaded from storage together with its code book
    /// and file collection.
    pub fn project_restored(&mut self, ctx: ProjectContext, codebook: CodeBook, filemanager: FileList)
        requires
            codebook.wf(),
            filemanager.wf(),
        ensures
            final(self)@ == (AppStateV {
                project: DataState::Loaded(ctx@),
                codebook: codebook@,
                filemanager: filemanager@,
                ..old(self)@
            }),
            final(self).wf(),
    {
        self.project = DataState::Loaded(ctx);
        self.codebook = codebook;
        self.filemanager = filemanager;
    }

    /// Registers a file under the current project.
    pub fn add_file(&mut self, path: String, file_type: crate::files::FileType) -> (r: FileId)
        requires
            old(self).wf(),
        ensures
            final(self).wf(),
            final(self)@.project == old(self)@.project,
            final(self)@.codebook == old(self)@.codebook,
            final(self)@.theme == old(self)@.theme,
            !crate::files::has_file(old(self)@.filemanager, r)
                ==> final(self)@.filemanager == old(self)@.filemanager.push(
                (QualFileV { id: r, path: path@, file_type, state: DataState::Empty }),
            ),
            crate::files::has_file(old(self)@.filemanager, r)
                ==> final(self)@.filemanager == old(self)@.filemanager.update(
                crate::files::file_index(old(self)@.filemanager, r),
                (QualFileV { id: r, path: path@, file_type, state: DataState::Empty }),
            ),
    {
        self.filemanager.add_file(path, file_type)
    }

    /// Creates a top-level code definition.
    pub fn create_code(&mut self, name: String, color: u8) -> (r: crate::ids::CodeDefId)
        requires
            old(self).wf(),
        ensures
            final(self).wf(),
            final(self)@.project == old(self)@.project,
            final(self)@.filemanager == old(self)@.filemanager,
            final(self)@.theme == old(self)@.theme,
            final(self)@.codebook.themes == old(self)@.codebook.themes,
            final(self)@.codebook.quals == old(self)@.codebook.quals,
            !crate::codebook::has_code(old(self)@.codebook.codes, r)
                ==> final(self)@.codebook.codes == old(self)@.codebook.codes.push(
                (crate::entities::CodeDefV { id: r, name: name@, color, theme_id: None }),
            ),
            crate::codebook::has_code(old(self)@.codebook.codes, r)
                ==> final(self)@.codebook.codes == old(self)@.codebook.codes.update(
                crate::codebook::code_index(old(self)@.codebook.codes, r),
                (crate::entities::CodeDefV { id: r, name: name@, color, theme_id: None }),
            ),
    {
        self.codebook.create_code_def(name, color, None)
    }

    /// Applies a code definition to a highlighted span.
    pub fn apply_code(
        &mut self,
        code_def_id: crate::ids::CodeDefId,
        highlight: crate::highlight::Highlight,
        snippet: String,
    ) -> (r: crate::ids::QualCodeId)
        requires
            old(self).wf(),
        ensures
            final(self).wf(),
            final(self)@.project == old(self)@.project,
            final(self)@.filemanager == old(self)@.filemanager,
            final(self)@.theme == old(self)@.theme,
            final(self)@.codebook.codes == old(self)@.codebook.codes,
            final(self)@.codebook.themes == old(self)@.codebook.themes,
            final(self)@.codebook.quals == old(self)@.codebook.quals.push(
                (crate::entities::QualCodeV {
                    id: r,
                    def_id: code_def_id,
                    highlight: highlight@,
                    snippet: snippet@,
                }),
            ),
    {
        self.codebook.apply_code(code_def_id, highlight, snippet)
    }

    /// Installs freshly loaded text blocks on the file with identifier
    /// `id`, moving it to the `Loaded` content state.  Fails exactly when
    /// `id` is not in the collection.
    pub fn install_file_blocks(&mut self, id: FileId, blocks: Vec<crate::files::TextBlock>) -> (r:
        Result<(), crate::files::FileListError>)
        requires
            old(self).wf(),
        ensures
            final(self).wf(),
            final(self)@.project == old(self)@.project,
            final(self)@.codebook == old(self)@.codebook,
            final(self)@.theme == old(self)@.theme,
            match r {
                Ok(_) => crate::files::has_file(old(self)@.filemanager, id) && ({
                    let i = crate::files::file_index(old(self)@.filemanager, id);
                    final(self)@.filemanager == old(self)@.filemanager.update(
                        i,
                        (QualFileV {
                            state: DataState::Loaded(crate::sorting::views_of(blocks@)),
                            ..old(self)@.filemanager[i]
                        }),
                    )
                }),
                Err(e) => e == crate::files::FileListError::FileNotFound(id) && !crate::files::has_file(
                    old(self)@.filemanager,
                    id,
                ) && final(self)@.filemanager == old(self)@.filemanager,
            },
    {
        match self.filemanager.file_mut(id) {
            Some(f) => {
                f.set_data_state(DataState::Loaded(blocks));
                Ok(())
            },
            None => Err(crate::files::FileListError::FileNotFound(id)),
        }
    }

    /// What a save must persist: the project-file path, the project
    /// record, and read-only copies of the code book and file collection.
    /// `None` exactly when no project is loaded.
    pub fn save_snapshot(&self) -> (r: Option<(String, QualProject, CodeBook, FileList)>)
        requires
            self.wf(),
        ensures
            match self@.project {
                DataState::Loaded(ctx) => r is Some && ({
                    let (path, project, codebook, filemanager) = r.unwrap();
                    path@ == ctx.path && project@ == ctx.project && codebook@ == self@.codebook
                        && filemanager@ == self@.filemanager
                }),
                DataState::Modified(ctx) => r is Some && ({
                    let (path, project, codebook, filemanager) = r.unwrap();
                    path@ == ctx.path && project@ == ctx.project && codebook@ == self@.codebook
                        && filemanager@ == self@.filemanager
                }),
                DataState::Empty => r is None,
                DataState::Error => r is None,
            },
    {
        match &self.project {
            DataState::Loaded(ctx) => Some(
                (
                    ctx.path().to_owned(),
                    ctx.project().duplicate(),
                    self.codebook.duplicate(),
                    self.filemanager.duplicate(),
                ),
            ),
            DataState::Modified(ctx) => Some(
                (
                    ctx.path().to_owned(),
                    ctx.project().duplicate(),
                    self.codebook.duplicate(),
                    self.filemanager.duplicate(),
                ),
            ),
            DataState::Empty => None,
            DataState::Error => None,
        }
    }
}

} // verus!

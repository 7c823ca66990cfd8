//! Source files, their text blocks, and the ordered file collection.

use vstd::prelude::*;
use crate::ids::{BlockId, FileId, fresh_id_value};
use crate::sorting::{
    by_name_le, lemma_no_dup_from_multiset, lemma_no_dup_push, lemma_no_dup_remove,
    lemma_seq_move_permutes, lemma_seq_swap_permutes, lemma_sort_by_stable_multiset,
    lemma_to_multiset_map_values, sort_by_stable, vec_sort_by_name, views_of, SortableByName,
};
use crate::strorder::chars_le;
use crate::strorder::str_le;

verus! {

/// Why a `FileList` operation was refused.
#[derive(Debug, Clone, Copy, PartialEq, Eq, Structural)]
pub enum FileListError {
    /// The given file id is not in the list.
    FileNotFound(FileId),
    /// A reorder target lay beyond the last valid index.
    InvalidIndex { provided: usize, max: usize },
}

/// A failure reported by the external file-content loader, carrying the
/// affected file.  The domain model only passes these through.
#[derive(Debug, Clone, Copy, PartialEq, Eq, Structural)]
pub enum FileError {
    /// The file could not be read.
    Read(FileId),
    /// The file could not be written.
    Write(FileId),
    /// The file's content could not be parsed.
    Parse(FileId),
    /// The file's content could not be decoded.
    Encoding(FileId),
    /// An unclassified failure.
    Unknown(FileId),
}

/// The kind of a source file.
#[derive(Debug, Clone, Copy, PartialEq, Eq, Structural)]
pub enum FileType {
    Pdf,
    PlainText,
    Markdown,
    RichText,
}

/// The load/edit lifecycle of a piece of content: nothing fetched yet,
/// fetched, edited in the application, or failed to load.  Only `Loaded`
/// and `Modified` expose the content.
pub enum DataState<T> {
    Empty,
    Loaded(T),
    Modified(T),
    Error,
}

/// Abstract value of a [`TextBlock`].
pub ghost struct TextBlockV {
    pub id: BlockId,
    pub file_id: FileId,
    pub index: usize,
    pub content: Seq<char>,
}

/// One addressable chunk of a file's decoded content.  Created when the
/// external loader parses a file; immutable thereafter, so existing
/// highlights stay valid.
pub struct TextBlock {
    pub id: BlockId,
    pub file_id: FileId,
    pub index: usize,
    pub content: String,
}

impl View for TextBlock {
    type V = TextBlockV;

    closed spec fn view(&self) -> TextBlockV {
        TextBlockV {
            id: self.id,
            file_id: self.file_id,
            index: self.index,
            content: self.content@,
        }
    }
}

impl TextBlock {
    /// A block of `content` at position `index` of file `file_id`, under a
    /// fresh block identifier.
    pub fn new(file_id: FileId, index: usize, content: String) -> (r: Self)
        ensures
            r@.file_id == file_id,
            r@.index == index,
            r@.content == content@,
            r.id == r@.id,
    {
        TextBlock { id: BlockId(fresh_id_value()), file_id, index, content }
    }

    /// An identical copy.
    pub fn duplicate(&self) -> (r: Self)
        ensures
            r@ == self@,
    {
        TextBlock {
            id: self.id,
            file_id: self.file_id,
            index: self.index,
            content: self.content.clone(),
        }
    }
}

/// The content state of a file, over abstract block values.
pub open spec fn state_view(s: DataState<Vec<TextBlock>>) -> DataState<Seq<TextBlockV>> {
    match s {
        DataState::Empty => DataState::Empty,
        DataState::Loaded(b) => DataState::Loaded(views_of(b@)),
        DataState::Modified(b) => DataState::Modified(views_of(b@)),
        DataState::Error => DataState::Error,
    }
}

/// Abstract value of a [`QualFile`].
pub ghost struct QualFileV {
    pub id: FileId,
    pub path: Seq<char>,
    pub file_type: FileType,
    pub state: DataState<Seq<TextBlockV>>,
}

/// A source file: its path and kind, and its content as an ordered
/// sequence of text blocks behind a load/edit lifecycle state.
pub struct QualFile {
    pub id: FileId,
    path: String,
    file_type: FileType,
    data_state: DataState<Vec<TextBlock>>,
}

impl View for QualFile {
    type V = QualFileV;

    closed spec fn view(&self) -> QualFileV {
        QualFileV {
            id: self.id,
            path: self.path@,
            file_type: self.file_type,
            state: state_view(self.data_state),
        }
    }
}

impl SortableByName for QualFile {
    open spec fn sort_key(v: QualFileV) -> Seq<char> {
        v.path
    }

    fn key_le(&self, other: &Self) -> (r: bool)
        ensures
            r == chars_le(Self::sort_key(self@), Self::sort_key(other@)),
    {
        str_le(self.path.as_str(), other.path.as_str())
    }
}

impl QualFile {
    /// The identifier.
    pub fn id(&self) -> (r: FileId)
        ensures
            r == self@.id,
    {
        self.id
    }

    /// Rebuilds a file entry from its stored parts, for a persistence
    /// layer restoring a saved project.
    pub fn restore(
        id: FileId,
        path: String,
        file_type: FileType,
        data_state: DataState<Vec<TextBlock>>,
    ) -> (r: Self)
        ensures
            r@ == (QualFileV { id, path: path@, file_type, state: state_view(data_state) }),
    {
        QualFile { id, path, file_type, data_state }
    }

    /// An identical copy.
    pub fn duplicate(&self) -> (r: Self)
        ensures
            r@ == self@,
    {
        let state = match &self.data_state {
            DataState::Empty => DataState::Empty,
            DataState::Error => DataState::Error,
            DataState::Loaded(bs) => DataState::Loaded(Self::copy_blocks(bs)),
            DataState::Modified(bs) => DataState::Modified(Self::copy_blocks(bs)),
        };
        QualFile {
            id: self.id,
            path: self.path.clone(),
            file_type: self.file_type,
            data_state: state,
        }
    }

    fn copy_blocks(bs: &Vec<TextBlock>) -> (r: Vec<TextBlock>)
        ensures
            views_of(r@) == views_of(bs@),
    {
        let mut out: Vec<TextBlock> = Vec::new();
        let mut i: usize = 0;
        proof {
            assert(views_of(out@) =~= views_of(bs@).take(0));
        }
        loop
            invariant
                i <= bs.len(),
                views_of(out@) == views_of(bs@).take(i as int),
            ensures
                i == bs.len(),
                views_of(out@) == views_of(bs@).take(i as int),
            decreases bs.len() - i,
        {
            if i >= bs.len() {
                break ;
            }
            out.push(bs[i].duplicate());
            proof {
                assert(views_of(out@) =~= views_of(bs@).take(i as int).push(
                    views_of(bs@)[i as int],
                ));
                assert(views_of(bs@).take(i + 1) =~= views_of(bs@).take(i as int).push(
                    views_of(bs@)[i as int],
                ));
            }
            i = i + 1;
        }
        proof {
            assert(views_of(bs@).take(bs.len() as int) =~= views_of(bs@));
        }
        out
    }

    /// The file's path.
    pub fn path(&self) -> (r: &str)
        ensures
            r@ == self@.path,
    {
        self.path.as_str()
    }

    /// The file's kind.
    pub fn file_type(&self) -> (r: FileType)
        ensures
            r == self@.file_type,
    {
        self.file_type
    }

    /// Installs a new content state; every transition is allowed.
    pub fn set_data_state(&mut self, data_state: DataState<Vec<TextBlock>>)
        ensures
            final(self)@ == (QualFileV { state: state_view(data_state), ..old(self)@ }),
    {
        self.data_state = data_state;
    }

    /// The file's content state.
    pub fn data_state(&self) -> (r: &DataState<Vec<TextBlock>>)
        ensures
            state_view(*r) == self@.state,
    {
        &self.data_state
    }

    /// The file's text blocks: present exactly in the `Loaded` and
    /// `Modified` states.
    pub fn blocks(&self) -> (r: Option<&Vec<TextBlock>>)
        ensures
            match self@.state {
                DataState::Loaded(s) => r is Some && views_of(r.unwrap()@) == s,
                DataState::Modified(s) => r is Some && views_of(r.unwrap()@) == s,
                DataState::Empty => r is None,
                DataState::Error => r is None,
            },
    {
        match &self.data_state {
            DataState::Loaded(content) => Some(content),
            DataState::Modified(content) => Some(content),
            DataState::Empty => None,
            DataState::Error => None,
        }
    }
}

/// The identifiers of a sequence of files, in order.
pub open spec fn file_ids(s: Seq<QualFileV>) -> Seq<FileId> {
    s.map_values(|f: QualFileV| f.id)
}

/// Whether some file in `s` has identifier `id`.
pub open spec fn has_file(s: Seq<QualFileV>, id: FileId) -> bool {
    exists|i: int| 0 <= i < s.len() && s[i].id == id
}

/// The position of the file with identifier `id`.
pub open spec fn file_index(s: Seq<QualFileV>, id: FileId) -> int {
    choose|i: int| 0 <= i < s.len() && s[i].id == id
}

/// In a duplicate-free sequence, `file_index` is the one position holding
/// the given identifier.
pub proof fn lemma_file_index_of(s: Seq<QualFileV>, id: FileId, i: int)
    requires
        file_ids(s).no_duplicates(),
        0 <= i < s.len(),
        s[i].id == id,
    ensures
        has_file(s, id),
        file_index(s, id) == i,
{
    assert(has_file(s, id));
    let j = file_index(s, id);
    if j != i {
        assert(file_ids(s)[i] == id);
        assert(file_ids(s)[j] == id);
    }
}

/// The ordered collection of a project's files: insertion order is display
/// order, and file identifiers are unique keys.
pub struct FileList {
    files: Vec<QualFile>,
}

impl View for FileList {
    type V = Seq<QualFileV>;

    closed spec fn view(&self) -> Seq<QualFileV> {
        views_of(self.files@)
    }
}

impl FileList {
    /// Identifier uniqueness of the collection.
    pub open spec fn wf(&self) -> bool {
        file_ids(self@).no_duplicates()
    }

    /// An empty collection.
    pub fn new() -> (r: Self)
        ensures
            r@ == Seq::<QualFileV>::empty(),
            r.wf(),
    {
        let r = FileList { files: Vec::new() };
        proof {
            assert(views_of(r.files@) =~= Seq::<QualFileV>::empty());
        }
        r
    }

    /// The position of the file with identifier `id`, if any.
    fn find_file(&self, id: FileId) -> (r: Option<usize>)
        ensures
            match r {
                Some(i) => i < self@.len() && self@[i as int].id == id,
                None => !has_file(self@, id),
            },
    {
        let mut i: usize = 0;
        loop
            invariant
                i <= self.files.len(),
                forall|k: int| 0 <= k < i ==> (#[trigger] self@[k]).id != id,
            ensures
                i == self.files.len(),
                forall|k: int| 0 <= k < i ==> (#[trigger] self@[k]).id != id,
            decreases self.files.len() - i,
        {
            if i >= self.files.len() {
                break ;
            }
            if self.files[i].id() == id {
                proof {
                    assert(self@[i as int] == self.files@[i as int]@);
                }
                return Some(i);
            }
            proof {
                assert(self@[i as int] == self.files@[i as int]@);
            }
            i = i + 1;
        }
        None
    }

    /// Adds a file entry for `path` in the `Empty` content state, under a
    /// fresh identifier, at the end of the display order.  In the
    /// vanishingly unlikely event that the drawn identifier collides with
    /// an existing one, the existing entry is replaced in place.
    pub fn add_file(&mut self, path: String, file_type: FileType) -> (r: FileId)
        requires
            old(self).wf(),
        ensures
            final(self).wf(),
            !has_file(old(self)@, r) ==> final(self)@ == old(self)@.push(
                (QualFileV { id: r, path: path@, file_type, state: DataState::Empty }),
            ),
            has_file(old(self)@, r) ==> final(self)@ == old(self)@.update(
                file_index(old(self)@, r),
                (QualFileV { id: r, path: path@, file_type, state: DataState::Empty }),
            ),
    {
        let id = FileId(fresh_id_value());
        let file = QualFile::restore(id, path, file_type, DataState::Empty);
        match self.find_file(id) {
            Some(i) => {
                proof {
                    lemma_file_index_of(self@, id, i as int);
                }
                self.files.set(i, file);
                proof {
                    assert(views_of(self.files@) =~= old(self)@.update(i as int, file@));
                    assert(file_ids(self@) =~= file_ids(old(self)@));
                }
            },
            None => {
                self.files.push(file);
                proof {
                    assert(views_of(self.files@) =~= old(self)@.push(file@));
                    assert(file_ids(self@) =~= file_ids(old(self)@).push(id));
                    assert(!file_ids(old(self)@).contains(id)) by {
                        if file_ids(old(self)@).contains(id) {
                            let k = choose|k: int|
                                0 <= k < file_ids(old(self)@).len() && file_ids(old(self)@)[k]
                                    == id;
                            assert(old(self)@[k].id == id);
                        }
                    }
                    lemma_no_dup_push(file_ids(old(self)@), id);
                }
            },
        }
        id
    }

    /// Removes the file entry with identifier `id`.  Applied codes
    /// referencing its blocks are deliberately untouched: the caller
    /// coordinates with the `CodeBook` (remove the codes first, then the
    /// file).  Fails exactly when `id` is not in the list.
    pub fn remove_file(&mut self, id: FileId) -> (r: Result<(), FileListError>)
        requires
            old(self).wf(),
        ensures
            final(self).wf(),
            match r {
                Ok(_) => has_file(old(self)@, id) && final(self)@ == old(self)@.remove(
                    file_index(old(self)@, id),
                ),
                Err(e) => e == FileListError::FileNotFound(id) && !has_file(old(self)@, id)
                    && final(self)@ == old(self)@,
            },
    {
        match self.find_file(id) {
            Some(i) => {
                proof {
                    lemma_file_index_of(self@, id, i as int);
                }
                self.files.remove(i);
                proof {
                    assert(views_of(self.files@) =~= old(self)@.remove(i as int));
                    assert(file_ids(self@) =~= file_ids(old(self)@).remove(i as int));
                    lemma_no_dup_remove(file_ids(old(self)@), i as int);
                }
                Ok(())
            },
            None => Err(FileListError::FileNotFound(id)),
        }
    }

    /// The file with identifier `id`, if present.
    pub fn file(&self, id: FileId) -> (r: Option<&QualFile>)
        requires
            self.wf(),
        ensures
            match r {
                Some(f) => has_file(self@, id) && f@ == self@[file_index(self@, id)],
                None => !has_file(self@, id),
            },
    {
        match self.find_file(id) {
            Some(i) => {
                proof {
                    lemma_file_index_of(self@, id, i as int);
                }
                Some(&self.files[i])
            },
            None => None,
        }
    }

    /// Mutable access to the file with identifier `id`, for content-state
    /// transitions.  The collection stays well-formed as long as the
    /// caller leaves the file's identifier unchanged.
    pub fn file_mut(&mut self, id: FileId) -> (r: Option<&mut QualFile>)
        requires
            old(self).wf(),
        ensures
            match r {
                None => !has_file(old(self)@, id) && final(self)@ == old(self)@
                    && final(self).wf(),
                Some(f) => has_file(old(self)@, id) && (*f)@ == old(self)@[file_index(
                    old(self)@,
                    id,
                )] && final(self)@ == old(self)@.update(
                    file_index(old(self)@, id),
                    (*final(f))@,
                ) && ((*final(f))@.id == old(self)@[file_index(old(self)@, id)].id
                    ==> final(self).wf()),
            },
    {
        match self.find_file(id) {
            Some(i) => {
                proof {
                    lemma_file_index_of(self@, id, i as int);
                }
                let f = &mut self.files[i];
                proof {
                    assert forall|g: QualFileV|
                        file_ids(old(self)@.update(file_index(old(self)@, id), g)).no_duplicates()
                            || g.id != old(self)@[file_index(old(self)@, id)].id by {
                        if g.id == old(self)@[file_index(old(self)@, id)].id {
                            assert(file_ids(old(self)@.update(file_index(old(self)@, id), g))
                                =~= file_ids(old(self)@));
                        }
                    }
                }
                Some(f)
            },
            None => None,
        }
    }

    /// Copies of all files, in display order.
    pub fn get_all_files(&self) -> (r: Vec<QualFile>)
        ensures
            views_of(r@) == self@,
    {
        let mut out: Vec<QualFile> = Vec::new();
        let mut i: usize = 0;
        proof {
            assert(views_of(out@) =~= self@.take(0));
        }
        loop
            invariant
                i <= self.files.len(),
                views_of(out@) == self@.take(i as int),
            ensures
                i == self.files.len(),
                views_of(out@) == self@.take(i as int),
            decreases self.files.len() - i,
        {
            if i >= self.files.len() {
                break ;
            }
            out.push(self.files[i].duplicate());
            proof {
                assert(views_of(out@) =~= self@.take(i as int).push(self@[i as int]));
                assert(self@.take(i + 1) =~= self@.take(i as int).push(self@[i as int]));
            }
            i = i + 1;
        }
        proof {
            assert(self@.take(self.files.len() as int) =~= self@);
        }
        out
    }

    /// Relocates the file with identifier `id` to `new_index`, keeping
    /// every other file's relative order.  Fails with `FileNotFound` when
    /// `id` is absent, else with `InvalidIndex` when `new_index` lies
    /// beyond the last valid index.
    pub fn move_file_to_index(&mut self, id: FileId, new_index: usize) -> (r: Result<
        (),
        FileListError,
    >)
        requires
            old(self).wf(),
        ensures
            final(self).wf(),
            match r {
                Ok(_) => has_file(old(self)@, id) && new_index < old(self)@.len() && ({
                    let cur = file_index(old(self)@, id);
                    final(self)@ == old(self)@.remove(cur).insert(
                        new_index as int,
                        old(self)@[cur],
                    )
                }),
                Err(e) => final(self)@ == old(self)@ && if !has_file(old(self)@, id) {
                    e == FileListError::FileNotFound(id)
                } else {
                    new_index >= old(self)@.len() && e == (FileListError::InvalidIndex {
                        provided: new_index,
                        max: (old(self)@.len() - 1) as usize,
                    })
                },
            },
    {
        let cur = match self.find_file(id) {
            Some(i) => i,
            None => {
                return Err(FileListError::FileNotFound(id));
            },
        };
        proof {
            lemma_file_index_of(self@, id, cur as int);
        }
        let max_index = self.files.len() - 1;
        if new_index > max_index {
            return Err(FileListError::InvalidIndex { provided: new_index, max: max_index });
        }
        let file = self.files.remove(cur);
        self.files.insert(new_index, file);
        proof {
            assert(views_of(self.files@) =~= old(self)@.remove(cur as int).insert(
                new_index as int,
                old(self)@[cur as int],
            ));
            assert(file_ids(self@) =~= file_ids(old(self)@).remove(cur as int).insert(
                new_index as int,
                file_ids(old(self)@)[cur as int],
            ));
            lemma_seq_move_permutes(file_ids(old(self)@), cur as int, new_index as int);
            lemma_no_dup_from_multiset(file_ids(old(self)@), file_ids(self@));
        }
        Ok(())
    }

    /// Exchanges the files at positions `index_a` and `index_b`.  Swapping
    /// an index with itself is a valid no-op.  Fails with `InvalidIndex`
    /// when either index lies beyond the last valid one (on an empty list,
    /// every index is refused).
    pub fn swap_files(&mut self, index_a: usize, index_b: usize) -> (r: Result<(), FileListError>)
        requires
            old(self).wf(),
        ensures
            final(self).wf(),
            match r {
                Ok(_) => index_a < old(self)@.len() && index_b < old(self)@.len() && final(self)@
                    == old(self)@.update(index_a as int, old(self)@[index_b as int]).update(
                    index_b as int,
                    old(self)@[index_a as int],
                ),
                Err(e) => final(self)@ == old(self)@ && ({
                    let max = if old(self)@.len() == 0 {
                        0usize
                    } else {
                        (old(self)@.len() - 1) as usize
                    };
                    if index_a >= old(self)@.len() {
                        e == (FileListError::InvalidIndex { provided: index_a, max })
                    } else {
                        index_b >= old(self)@.len() && e == (FileListError::InvalidIndex {
                            provided: index_b,
                            max,
                        })
                    }
                }),
            },
    {
        let len = self.files.len();
        let max_index = if len == 0 {
            0
        } else {
            len - 1
        };
        if index_a >= len {
            return Err(FileListError::InvalidIndex { provided: index_a, max: max_index });
        }
        if index_b >= len {
            return Err(FileListError::InvalidIndex { provided: index_b, max: max_index });
        }
        let va = self.files[index_a].duplicate();
        let vb = self.files[index_b].duplicate();
        self.files.set(index_a, vb);
        self.files.set(index_b, va);
        proof {
            assert(views_of(self.files@) =~= old(self)@.update(
                index_a as int,
                old(self)@[index_b as int],
            ).update(index_b as int, old(self)@[index_a as int]));
            assert(file_ids(self@) =~= file_ids(old(self)@).update(
                index_a as int,
                file_ids(old(self)@)[index_b as int],
            ).update(index_b as int, file_ids(old(self)@)[index_a as int]));
            lemma_seq_swap_permutes(file_ids(old(self)@), index_a as int, index_b as int);
            lemma_no_dup_from_multiset(file_ids(old(self)@), file_ids(self@));
        }
        Ok(())
    }

    /// Sorts the files by path, ascending; entries with equal paths keep
    /// their prior relative order.
    pub fn sort_files_by_name(&mut self)
        requires
            old(self).wf(),
        ensures
            final(self).wf(),
            final(self)@ == sort_by_stable(by_name_le::<QualFile>(), old(self)@),
    {
        vec_sort_by_name(&mut self.files);
        proof {
            lemma_sort_by_stable_multiset(by_name_le::<QualFile>(), old(self)@);
            lemma_to_multiset_map_values(old(self)@, self@, |f: QualFileV| f.id);
            lemma_no_dup_from_multiset(file_ids(old(self)@), file_ids(self@));
        }
    }

    /// The number of files in the collection.
    pub fn file_count(&self) -> (r: usize)
        ensures
            r == self@.len(),
    {
        self.files.len()
    }

    /// Whether the given files carry pairwise distinct identifiers.
    fn ids_unique(files: &Vec<QualFile>) -> (r: bool)
        ensures
            r == file_ids(views_of(files@)).no_duplicates(),
    {
        let ghost ids = file_ids(views_of(files@));
        let mut i: usize = 0;
        loop
            invariant
                i <= files.len(),
                ids == file_ids(views_of(files@)),
                forall|a: int, b: int| 0 <= a < i && a < b < files@.len() ==> ids[a] != ids[b],
            ensures
                i == files.len(),
                forall|a: int, b: int| 0 <= a < i && a < b < files@.len() ==> ids[a] != ids[b],
            decreases files.len() - i,
        {
            if i >= files.len() {
                break ;
            }
            let mut j: usize = i + 1;
            loop
                invariant
                    i < files.len(),
                    i < j <= files.len(),
                    ids == file_ids(views_of(files@)),
                    forall|b: int| i < b < j ==> ids[i as int] != ids[b],
                ensures
                    j == files.len(),
                    forall|b: int| i < b < j ==> ids[i as int] != ids[b],
                decreases files.len() - j,
            {
                if j >= files.len() {
                    break ;
                }
                proof {
                    assert(ids[i as int] == files@[i as int]@.id);
                    assert(ids[j as int] == files@[j as int]@.id);
                }
                if files[i].id() == files[j].id() {
                    return false;
                }
                j = j + 1;
            }
            i = i + 1;
        }
        proof {
            assert forall|a: int, b: int|
                0 <= a < ids.len() && 0 <= b < ids.len() && a != b implies ids[a] != ids[b] by {
                if a < b {
                } else {
                    assert(ids[b] != ids[a]);
                }
            }
        }
        true
    }

    /// Rebuilds a collection from stored files, for a persistence layer
    /// restoring a saved project.  Refuses collections whose file
    /// identifiers are not unique.
    pub fn restore(files: Vec<QualFile>) -> (r: Option<FileList>)
        ensures
            match r {
                Some(l) => l@ == views_of(files@) && l.wf(),
                None => !file_ids(views_of(files@)).no_duplicates(),
            },
    {
        if !Self::ids_unique(&files) {
            return None;
        }
        Some(FileList { files })
    }

    /// An identical copy of the collection, for handing a read-only
    /// snapshot to a persistence layer.
    pub fn duplicate(&self) -> (r: Self)
        requires
            self.wf(),
        ensures
            r@ == self@,
            r.wf(),
    {
        FileList { files: self.get_all_files() }
    }
}

} // verus!

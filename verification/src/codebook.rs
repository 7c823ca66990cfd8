//! The `CodeBook`: the ordered, mutable collections of code definitions,
//! themes, and applied codes, with their cross-entity rules.
//!
//! The book owns all identifier allocation and enforces the cascade rules:
//! removing a code definition also removes every application of it;
//! removing a theme demotes its member codes to top level instead of
//! removing them.  File-scoped operations take a caller-built
//! [`BlockFileMap`] and silently skip applied codes whose block it does not
//! resolve (orphans).

use vstd::prelude::*;
use crate::ids::{BlockId, CodeDefId, FileId, QualCodeId, ThemeId, fresh_id_value};
use crate::entities::{CodeDef, CodeDefV, QualCode, QualCodeV, ThemeDef, ThemeDefV};
use crate::highlight::Highlight;
use crate::sorting::{
    by_name_le, lemma_filter_push, lemma_no_dup_from_multiset, lemma_no_dup_push,
    lemma_no_dup_remove, lemma_seq_move_permutes, lemma_seq_swap_permutes,
    lemma_sort_by_stable_multiset, lemma_to_multiset_map_values, sort_by_stable, vec_sort_by_name,
    views_of,
};

verus! {

/// Why a `CodeBook` operation was refused.
#[derive(Debug, Clone, Copy, PartialEq, Eq, Structural)]
pub enum CodeBookError {
    /// The given code definition id is not in the book.
    CodeDefNotFound(CodeDefId),
    /// The given theme id is not in the book.
    ThemeNotFound(ThemeId),
    /// The given applied-code id is not in the book.
    QualCodeNotFound(QualCodeId),
    /// A reorder target lay beyond the last valid index.
    InvalidIndex { provided: usize, max: usize },
}

/// Abstract value of a [`CodeBook`].
pub ghost struct CodeBookV {
    pub codes: Seq<CodeDefV>,
    pub themes: Seq<ThemeDefV>,
    pub quals: Seq<QualCodeV>,
}

/// The identifiers of a sequence of code definitions, in order.
pub open spec fn code_ids(s: Seq<CodeDefV>) -> Seq<CodeDefId> {
    s.map_values(|c: CodeDefV| c.id)
}

/// The identifiers of a sequence of themes, in order.
pub open spec fn theme_ids(s: Seq<ThemeDefV>) -> Seq<ThemeId> {
    s.map_values(|t: ThemeDefV| t.id)
}

/// Whether some code definition in `s` has identifier `id`.
pub open spec fn has_code(s: Seq<CodeDefV>, id: CodeDefId) -> bool {
    exists|i: int| 0 <= i < s.len() && s[i].id == id
}

/// The position of the code definition with identifier `id`.
pub open spec fn code_index(s: Seq<CodeDefV>, id: CodeDefId) -> int {
    choose|i: int| 0 <= i < s.len() && s[i].id == id
}

/// Whether some theme in `s` has identifier `id`.
pub open spec fn has_theme(s: Seq<ThemeDefV>, id: ThemeId) -> bool {
    exists|i: int| 0 <= i < s.len() && s[i].id == id
}

/// The position of the theme with identifier `id`.
pub open spec fn theme_index(s: Seq<ThemeDefV>, id: ThemeId) -> int {
    choose|i: int| 0 <= i < s.len() && s[i].id == id
}

/// Whether some applied code in `s` has identifier `id`.
pub open spec fn has_qual(s: Seq<QualCodeV>, id: QualCodeId) -> bool {
    exists|i: int| 0 <= i < s.len() && s[i].id == id
}

/// The position of the first applied code with identifier `id`.
pub open spec fn first_qual_index(s: Seq<QualCodeV>, id: QualCodeId) -> int {
    choose|i: int|
        0 <= i < s.len() && s[i].id == id && (forall|k: int| 0 <= k < i ==> s[k].id != id)
}

/// A well-formed book: code-definition and theme identifiers are unique.
/// (Applied codes are a plain sequence; the book never keys them.)
pub open spec fn codebook_wf(v: CodeBookV) -> bool {
    &&& code_ids(v.codes).no_duplicates()
    &&& theme_ids(v.themes).no_duplicates()
}

/// The code definitions grouped under theme `t`, in display order.
pub open spec fn codes_in_theme(v: CodeBookV, t: ThemeId) -> Seq<CodeDefV> {
    v.codes.filter(|c: CodeDefV| c.theme_id == Some(t))
}

/// The top-level code definitions (grouped under no theme), in display
/// order.
pub open spec fn top_level_codes(v: CodeBookV) -> Seq<CodeDefV> {
    v.codes.filter(|c: CodeDefV| c.theme_id is None)
}

/// The applications of code definition `d`, in application order.
pub open spec fn codes_for_def(v: CodeBookV, d: CodeDefId) -> Seq<QualCodeV> {
    v.quals.filter(|q: QualCodeV| q.def_id == d)
}

/// Whether the lookup table `m` resolves the block of `q` to file `f`.
pub open spec fn resolves_to(m: Map<BlockId, FileId>, q: QualCodeV, f: FileId) -> bool {
    m.contains_key(q.highlight.block_id) && m[q.highlight.block_id] == f
}

/// The applied codes whose block the lookup table `m` resolves to file
/// `f`; orphans (blocks absent from `m`) are excluded, not errors.
pub open spec fn codes_for_file(v: CodeBookV, f: FileId, m: Map<BlockId, FileId>) -> Seq<
    QualCodeV,
> {
    v.quals.filter(|q: QualCodeV| resolves_to(m, q, f))
}

/// A code definition demoted to top level if it was grouped under theme
/// `t`, and unchanged otherwise.
pub open spec fn demote_from_theme(c: CodeDefV, t: ThemeId) -> CodeDefV {
    if c.theme_id == Some(t) {
        CodeDefV { theme_id: None, ..c }
    } else {
        c
    }
}

/// In a duplicate-free sequence, `code_index` is the one position holding
/// the given identifier.
pub proof fn lemma_code_index_of(s: Seq<CodeDefV>, id: CodeDefId, i: int)
    requires
        code_ids(s).no_duplicates(),
        0 <= i < s.len(),
        s[i].id == id,
    ensures
        has_code(s, id),
        code_index(s, id) == i,
{
    assert(has_code(s, id));
    let j = code_index(s, id);
    if j != i {
        assert(code_ids(s)[i] == id);
        assert(code_ids(s)[j] == id);
    }
}

/// In a duplicate-free sequence, `theme_index` is the one position holding
/// the given identifier.
pub proof fn lemma_theme_index_of(s: Seq<ThemeDefV>, id: ThemeId, i: int)
    requires
        theme_ids(s).no_duplicates(),
        0 <= i < s.len(),
        s[i].id == id,
    ensures
        has_theme(s, id),
        theme_index(s, id) == i,
{
    assert(has_theme(s, id));
    let j = theme_index(s, id);
    if j != i {
        assert(theme_ids(s)[i] == id);
        assert(theme_ids(s)[j] == id);
    }
}

/// The collection of code definitions, themes, and applied codes of one
/// project: the core application state.
pub struct CodeBook {
    code_defs: Vec<CodeDef>,
    themes: Vec<ThemeDef>,
    qual_codes: Vec<QualCode>,
}

impl View for CodeBook {
    type V = CodeBookV;

    closed spec fn view(&self) -> CodeBookV {
        CodeBookV {
            codes: views_of(self.code_defs@),
            themes: views_of(self.themes@),
            quals: views_of(self.qual_codes@),
        }
    }
}

impl CodeBook {
    /// Identifier uniqueness of the book's keyed collections.
    pub open spec fn wf(&self) -> bool {
        codebook_wf(self@)
    }

    /// An empty book.
    pub fn new() -> (r: Self)
        ensures
            r@.codes == Seq::<CodeDefV>::empty(),
            r@.themes == Seq::<ThemeDefV>::empty(),
            r@.quals == Seq::<QualCodeV>::empty(),
            r.wf(),
    {
        let r = CodeBook { code_defs: Vec::new(), themes: Vec::new(), qual_codes: Vec::new() };
        proof {
            assert(views_of(r.code_defs@) =~= Seq::<CodeDefV>::empty());
            assert(views_of(r.themes@) =~= Seq::<ThemeDefV>::empty());
            assert(views_of(r.qual_codes@) =~= Seq::<QualCodeV>::empty());
        }
        r
    }

    /// The position of the code definition with identifier `id`, if any.
    fn find_code(&self, id: CodeDefId) -> (r: Option<usize>)
        ensures
            match r {
                Some(i) => i < self@.codes.len() && self@.codes[i as int].id == id,
                None => !has_code(self@.codes, id),
            },
    {
        let mut i: usize = 0;
        loop
            invariant
                i <= self.code_defs.len(),
                forall|k: int| 0 <= k < i ==> (#[trigger] self@.codes[k]).id != id,
            ensures
                i == self.code_defs.len(),
                forall|k: int| 0 <= k < i ==> (#[trigger] self@.codes[k]).id != id,
            decreases self.code_defs.len() - i,
        {
            if i >= self.code_defs.len() {
                break ;
            }
            if self.code_defs[i].id() == id {
                proof {
                    assert(self@.codes[i as int] == self.code_defs@[i as int]@);
                }
                return Some(i);
            }
            proof {
                assert(self@.codes[i as int] == self.code_defs@[i as int]@);
            }
            i = i + 1;
        }
        None
    }

    /// The position of the theme with identifier `id`, if any.
    fn find_theme(&self, id: ThemeId) -> (r: Option<usize>)
        ensures
            match r {
                Some(i) => i < self@.themes.len() && self@.themes[i as int].id == id,
                None => !has_theme(self@.themes, id),
            },
    {
        let mut i: usize = 0;
        loop
            invariant
                i <= self.themes.len(),
                forall|k: int| 0 <= k < i ==> (#[trigger] self@.themes[k]).id != id,
            ensures
                i == self.themes.len(),
                forall|k: int| 0 <= k < i ==> (#[trigger] self@.themes[k]).id != id,
            decreases self.themes.len() - i,
        {
            if i >= self.themes.len() {
                break ;
            }
            if self.themes[i].id() == id {
                proof {
                    assert(self@.themes[i as int] == self.themes@[i as int]@);
                }
                return Some(i);
            }
            proof {
                assert(self@.themes[i as int] == self.themes@[i as int]@);
            }
            i = i + 1;
        }
        None
    }

    /// Creates a code definition with a fresh identifier, appended at the
    /// end of the display order.  The given `theme_id` is stored without
    /// checking that the theme exists (the caller's responsibility).  In
    /// the vanishingly unlikely event that the drawn identifier collides
    /// with an existing one, the existing entry is replaced in place.
    pub fn create_code_def(&mut self, name: String, color: u8, theme_id: Option<ThemeId>) -> (r:
        CodeDefId)
        requires
            old(self).wf(),
        ensures
            final(self).wf(),
            final(self)@.themes == old(self)@.themes,
            final(self)@.quals == old(self)@.quals,
            !has_code(old(self)@.codes, r) ==> final(self)@.codes == old(self)@.codes.push(
                (CodeDefV { id: r, name: name@, color, theme_id }),
            ),
            has_code(old(self)@.codes, r) ==> final(self)@.codes == old(self)@.codes.update(
                code_index(old(self)@.codes, r),
                (CodeDefV { id: r, name: name@, color, theme_id }),
            ),
    {
        let id = CodeDefId(fresh_id_value());
        let def = CodeDef::restore(id, name, color, theme_id);
        match self.find_code(id) {
            Some(i) => {
                proof {
                    lemma_code_index_of(self@.codes, id, i as int);
                }
                self.code_defs.set(i, def);
                proof {
                    assert(views_of(self.code_defs@) =~= old(self)@.codes.update(
                        i as int,
                        def@,
                    ));
                    assert(code_ids(self@.codes) =~= code_ids(old(self)@.codes));
                }
            },
            None => {
                self.code_defs.push(def);
                proof {
                    assert(views_of(self.code_defs@) =~= old(self)@.codes.push(def@));
                    assert(code_ids(self@.codes) =~= code_ids(old(self)@.codes).push(id));
                    assert(!code_ids(old(self)@.codes).contains(id)) by {
                        if code_ids(old(self)@.codes).contains(id) {
                            let k = choose|k: int|
                                0 <= k < code_ids(old(self)@.codes).len() && code_ids(
                                    old(self)@.codes,
                                )[k] == id;
                            assert(old(self)@.codes[k].id == id);
                        }
                    }
                    lemma_no_dup_push(code_ids(old(self)@.codes), id);
                }
            },
        }
        id
    }

    /// The code definition with identifier `id`, if present.
    pub fn code_def(&self, id: CodeDefId) -> (r: Option<&CodeDef>)
        requires
            self.wf(),
        ensures
            match r {
                Some(c) => has_code(self@.codes, id) && c@ == self@.codes[code_index(
                    self@.codes,
                    id,
                )],
                None => !has_code(self@.codes, id),
            },
    {
        match self.find_code(id) {
            Some(i) => {
                proof {
                    lemma_code_index_of(self@.codes, id, i as int);
                }
                Some(&self.code_defs[i])
            },
            None => None,
        }
    }

    /// Copies of all code definitions, in display order.
    pub fn get_all_code_defs(&self) -> (r: Vec<CodeDef>)
        ensures
            views_of(r@) == self@.codes,
    {
        let mut out: Vec<CodeDef> = Vec::new();
        let mut i: usize = 0;
        proof {
            assert(views_of(out@) =~= self@.codes.take(0));
        }
        loop
            invariant
                i <= self.code_defs.len(),
                views_of(out@) == self@.codes.take(i as int),
            ensures
                i == self.code_defs.len(),
                views_of(out@) == self@.codes.take(i as int),
            decreases self.code_defs.len() - i,
        {
            if i >= self.code_defs.len() {
                break ;
            }
            out.push(self.code_defs[i].duplicate());
            proof {
                assert(views_of(out@) =~= self@.codes.take(i as int).push(
                    self@.codes[i as int],
                ));
                assert(self@.codes.take(i + 1) =~= self@.codes.take(i as int).push(
                    self@.codes[i as int],
                ));
            }
            i = i + 1;
        }
        proof {
            assert(self@.codes.take(self.code_defs.len() as int) =~= self@.codes);
        }
        out
    }

    /// Drops every applied code whose definition is `def_id`.
    fn drop_quals_of_def(&mut self, def_id: CodeDefId)
        ensures
            final(self)@.codes == old(self)@.codes,
            final(self)@.themes == old(self)@.themes,
            final(self)@.quals == old(self)@.quals.filter(
                |q: QualCodeV| q.def_id != def_id,
            ),
    {
        let ghost orig = old(self)@.quals;
        let ghost pred = |q: QualCodeV| q.def_id != def_id;
        let mut kept: Vec<QualCode> = Vec::new();
        let mut i: usize = 0;
        proof {
            assert(views_of(kept@) =~= orig.take(0).filter(pred));
            assert(orig.take(0) =~= Seq::<QualCodeV>::empty());
            reveal(Seq::filter);
        }
        loop
            invariant
                i <= self.qual_codes.len(),
                self@ == old(self)@,
                orig == old(self)@.quals,
                pred == (|q: QualCodeV| q.def_id != def_id),
                views_of(kept@) == orig.take(i as int).filter(pred),
            ensures
                i == self.qual_codes.len(),
                views_of(kept@) == orig.take(i as int).filter(pred),
            decreases self.qual_codes.len() - i,
        {
            if i >= self.qual_codes.len() {
                break ;
            }
            let qc = &self.qual_codes[i];
            proof {
                assert(qc@ == orig[i as int]);
                assert(orig.take(i + 1) =~= orig.take(i as int).push(orig[i as int]));
                lemma_filter_push(orig.take(i as int), orig[i as int], pred);
            }
            if !(qc.def_id() == def_id) {
                let copy = qc.duplicate();
                kept.push(copy);
                proof {
                    assert(views_of(kept@) =~= orig.take(i as int).filter(pred).push(
                        orig[i as int],
                    ));
                }
            }
            i = i + 1;
        }
        proof {
            assert(orig.take(self.qual_codes.len() as int) =~= orig);
        }
        self.qual_codes = kept;
    }

    /// Removes the code definition with identifier `id` and returns it.
    /// Cascades: every applied code whose definition is `id` is removed
    /// atomically with it.  Fails exactly when `id` is not in the book,
    /// and a failed removal leaves the book untouched.
    pub fn remove_code_def(&mut self, id: CodeDefId) -> (r: Result<CodeDef, CodeBookError>)
        requires
            old(self).wf(),
        ensures
            final(self).wf(),
            final(self)@.themes == old(self)@.themes,
            match r {
                Ok(c) => has_code(old(self)@.codes, id) && c@ == old(self)@.codes[code_index(
                    old(self)@.codes,
                    id,
                )] && final(self)@.codes == old(self)@.codes.remove(
                    code_index(old(self)@.codes, id),
                ) && final(self)@.quals == old(self)@.quals.filter(
                    (|q: QualCodeV| q.def_id != id),
                ),
                Err(e) => e == CodeBookError::CodeDefNotFound(id) && !has_code(
                    old(self)@.codes,
                    id,
                ) && final(self)@ == old(self)@,
            },
    {
        match self.find_code(id) {
            Some(i) => {
                proof {
                    lemma_code_index_of(self@.codes, id, i as int);
                }
                self.drop_quals_of_def(id);
                let c = self.code_defs.remove(i);
                proof {
                    assert(views_of(self.code_defs@) =~= old(self)@.codes.remove(i as int));
                    assert(code_ids(self@.codes) =~= code_ids(old(self)@.codes).remove(i as int));
                    lemma_no_dup_remove(code_ids(old(self)@.codes), i as int);
                }
                Ok(c)
            },
            None => Err(CodeBookError::CodeDefNotFound(id)),
        }
    }

    /// Relocates the code definition with identifier `id` to `new_index`,
    /// keeping every other definition's relative order.  Fails with
    /// `CodeDefNotFound` when `id` is absent, else with `InvalidIndex` when
    /// `new_index` lies beyond the last valid index.
    pub fn move_code_def_to_index(&mut self, id: CodeDefId, new_index: usize) -> (r: Result<
        (),
        CodeBookError,
    >)
        requires
            old(self).wf(),
        ensures
            final(self).wf(),
            final(self)@.themes == old(self)@.themes,
            final(self)@.quals == old(self)@.quals,
            match r {
                Ok(_) => has_code(old(self)@.codes, id) && new_index < old(self)@.codes.len() && ({
                    let cur = code_index(old(self)@.codes, id);
                    final(self)@.codes == old(self)@.codes.remove(cur).insert(
                        new_index as int,
                        old(self)@.codes[cur],
                    )
                }),
                Err(e) => final(self)@.codes == old(self)@.codes && if !has_code(
                    old(self)@.codes,
                    id,
                ) {
                    e == CodeBookError::CodeDefNotFound(id)
                } else {
                    new_index >= old(self)@.codes.len() && e == (CodeBookError::InvalidIndex {
                        provided: new_index,
                        max: (old(self)@.codes.len() - 1) as usize,
                    })
                },
            },
    {
        let cur = match self.find_code(id) {
            Some(i) => i,
            None => {
                return Err(CodeBookError::CodeDefNotFound(id));
            },
        };
        proof {
            lemma_code_index_of(self@.codes, id, cur as int);
        }
        let max_index = self.code_defs.len() - 1;
        if new_index > max_index {
            return Err(CodeBookError::InvalidIndex { provided: new_index, max: max_index });
        }
        let def = self.code_defs.remove(cur);
        self.code_defs.insert(new_index, def);
        proof {
            assert(views_of(self.code_defs@) =~= old(self)@.codes.remove(cur as int).insert(
                new_index as int,
                old(self)@.codes[cur as int],
            ));
            assert(code_ids(self@.codes) =~= code_ids(old(self)@.codes).remove(cur as int).insert(
                new_index as int,
                code_ids(old(self)@.codes)[cur as int],
            ));
            lemma_seq_move_permutes(code_ids(old(self)@.codes), cur as int, new_index as int);
            lemma_no_dup_from_multiset(code_ids(old(self)@.codes), code_ids(self@.codes));
        }
        Ok(())
    }

    /// Exchanges the code definitions at positions `index_a` and `index_b`.
    /// Swapping an index with itself is a valid no-op.  Fails with
    /// `InvalidIndex` when either index lies beyond the last valid one (on
    /// an empty book, every index is refused).
    pub fn swap_code_defs(&mut self, index_a: usize, index_b: usize) -> (r: Result<
        (),
        CodeBookError,
    >)
        requires
            old(self).wf(),
        ensures
            final(self).wf(),
            final(self)@.themes == old(self)@.themes,
            final(self)@.quals == old(self)@.quals,
            match r {
                Ok(_) => index_a < old(self)@.codes.len() && index_b < old(self)@.codes.len()
                    && final(self)@.codes == old(self)@.codes.update(
                    index_a as int,
                    old(self)@.codes[index_b as int],
                ).update(index_b as int, old(self)@.codes[index_a as int]),
                Err(e) => final(self)@.codes == old(self)@.codes && ({
                    let max = if old(self)@.codes.len() == 0 {
                        0usize
                    } else {
                        (old(self)@.codes.len() - 1) as usize
                    };
                    if index_a >= old(self)@.codes.len() {
                        e == (CodeBookError::InvalidIndex { provided: index_a, max })
                    } else {
                        index_b >= old(self)@.codes.len() && e == (CodeBookError::InvalidIndex {
                            provided: index_b,
                            max,
                        })
                    }
                }),
            },
    {
        let len = self.code_defs.len();
        let max_index = if len == 0 {
            0
        } else {
            len - 1
        };
        if index_a >= len {
            return Err(CodeBookError::InvalidIndex { provided: index_a, max: max_index });
        }
        if index_b >= len {
            return Err(CodeBookError::InvalidIndex { provided: index_b, max: max_index });
        }
        let va = self.code_defs[index_a].duplicate();
        let vb = self.code_defs[index_b].duplicate();
        self.code_defs.set(index_a, vb);
        self.code_defs.set(index_b, va);
        proof {
            assert(views_of(self.code_defs@) =~= old(self)@.codes.update(
                index_a as int,
                old(self)@.codes[index_b as int],
            ).update(index_b as int, old(self)@.codes[index_a as int]));
            assert(code_ids(self@.codes) =~= code_ids(old(self)@.codes).update(
                index_a as int,
                code_ids(old(self)@.codes)[index_b as int],
            ).update(index_b as int, code_ids(old(self)@.codes)[index_a as int]));
            lemma_seq_swap_permutes(code_ids(old(self)@.codes), index_a as int, index_b as int);
            lemma_no_dup_from_multiset(code_ids(old(self)@.codes), code_ids(self@.codes));
        }
        Ok(())
    }

    /// Sorts the code definitions by display name, ascending; entries with
    /// equal names keep their prior relative order.  Theme membership and
    /// the id-to-definition mapping are untouched.
    pub fn sort_code_defs_by_name(&mut self)
        requires
            old(self).wf(),
        ensures
            final(self).wf(),
            final(self)@.themes == old(self)@.themes,
            final(self)@.quals == old(self)@.quals,
            final(self)@.codes == sort_by_stable(by_name_le::<CodeDef>(), old(self)@.codes),
    {
        vec_sort_by_name(&mut self.code_defs);
        proof {
            lemma_sort_by_stable_multiset(by_name_le::<CodeDef>(), old(self)@.codes);
            lemma_to_multiset_map_values(
                old(self)@.codes,
                self@.codes,
                |c: CodeDefV| c.id,
            );
            lemma_no_dup_from_multiset(code_ids(old(self)@.codes), code_ids(self@.codes));
        }
    }

    /// Creates a theme with a fresh identifier, appended at the end of the
    /// display order.  In the vanishingly unlikely event that the drawn
    /// identifier collides with an existing one, the existing entry is
    /// replaced in place.
    pub fn create_theme(&mut self, name: String, color: u8) -> (r: ThemeId)
        requires
            old(self).wf(),
        ensures
            final(self).wf(),
            final(self)@.codes == old(self)@.codes,
            final(self)@.quals == old(self)@.quals,
            !has_theme(old(self)@.themes, r) ==> final(self)@.themes == old(self)@.themes.push(
                (ThemeDefV { id: r, name: name@, color }),
            ),
            has_theme(old(self)@.themes, r) ==> final(self)@.themes == old(self)@.themes.update(
                theme_index(old(self)@.themes, r),
                (ThemeDefV { id: r, name: name@, color }),
            ),
    {
        let id = ThemeId(fresh_id_value());
        let theme = ThemeDef::restore(id, name, color);
        match self.find_theme(id) {
            Some(i) => {
                proof {
                    lemma_theme_index_of(self@.themes, id, i as int);
                }
                self.themes.set(i, theme);
                proof {
                    assert(views_of(self.themes@) =~= old(self)@.themes.update(
                        i as int,
                        theme@,
                    ));
                    assert(theme_ids(self@.themes) =~= theme_ids(old(self)@.themes));
                }
            },
            None => {
                self.themes.push(theme);
                proof {
                    assert(views_of(self.themes@) =~= old(self)@.themes.push(theme@));
                    assert(theme_ids(self@.themes) =~= theme_ids(old(self)@.themes).push(id));
                    assert(!theme_ids(old(self)@.themes).contains(id)) by {
                        if theme_ids(old(self)@.themes).contains(id) {
                            let k = choose|k: int|
                                0 <= k < theme_ids(old(self)@.themes).len() && theme_ids(
                                    old(self)@.themes,
                                )[k] == id;
                            assert(old(self)@.themes[k].id == id);
                        }
                    }
                    lemma_no_dup_push(theme_ids(old(self)@.themes), id);
                }
            },
        }
        id
    }

    /// The theme with identifier `id`, if present.
    pub fn theme(&self, id: ThemeId) -> (r: Option<&ThemeDef>)
        requires
            self.wf(),
        ensures
            match r {
                Some(t) => has_theme(self@.themes, id) && t@ == self@.themes[theme_index(
                    self@.themes,
                    id,
                )],
                None => !has_theme(self@.themes, id),
            },
    {
        match self.find_theme(id) {
            Some(i) => {
                proof {
                    lemma_theme_index_of(self@.themes, id, i as int);
                }
                Some(&self.themes[i])
            },
            None => None,
        }
    }

    /// Demotes every code definition grouped under theme `id` to top
    /// level.
    fn demote_codes_of_theme(&mut self, id: ThemeId)
        ensures
            final(self)@.themes == old(self)@.themes,
            final(self)@.quals == old(self)@.quals,
            final(self)@.codes == old(self)@.codes.map_values(
                (|c: CodeDefV| demote_from_theme(c, id)),
            ),
    {
        let ghost orig = old(self)@.codes;
        let mut i: usize = 0;
        loop
            invariant
                i <= self.code_defs.len(),
                self.code_defs@.len() == orig.len(),
                orig == old(self)@.codes,
                self@.themes == old(self)@.themes,
                self@.quals == old(self)@.quals,
                forall|k: int| 0 <= k < i ==> self@.codes[k] == demote_from_theme(
                    #[trigger] orig[k],
                    id,
                ),
                forall|k: int| i <= k < orig.len() ==> self@.codes[k] == #[trigger] orig[k],
            ensures
                i == self.code_defs.len(),
                self.code_defs@.len() == orig.len(),
                forall|k: int| 0 <= k < i ==> self@.codes[k] == demote_from_theme(
                    #[trigger] orig[k],
                    id,
                ),
            decreases self.code_defs.len() - i,
        {
            if i >= self.code_defs.len() {
                break ;
            }
            let grouped = match self.code_defs[i].theme_id() {
                Some(t) => t == id,
                None => false,
            };
            if grouped {
                let mut c = self.code_defs[i].duplicate();
                c.set_theme_id(None);
                self.code_defs.set(i, c);
            }
            i = i + 1;
        }
        proof {
            assert(self@.codes =~= orig.map_values((|c: CodeDefV| demote_from_theme(c, id))));
        }
    }

    /// Removes the theme with identifier `id` and returns it.  Codes
    /// grouped under it are demoted to top level atomically with the
    /// removal, never removed and never left dangling.  Fails exactly when
    /// `id` is not in the book, and a failed removal leaves the book
    /// untouched.
    pub fn remove_theme(&mut self, id: ThemeId) -> (r: Result<ThemeDef, CodeBookError>)
        requires
            old(self).wf(),
        ensures
            final(self).wf(),
            final(self)@.quals == old(self)@.quals,
            match r {
                Ok(t) => has_theme(old(self)@.themes, id) && t@ == old(self)@.themes[theme_index(
                    old(self)@.themes,
                    id,
                )] && final(self)@.themes == old(self)@.themes.remove(
                    theme_index(old(self)@.themes, id),
                ) && final(self)@.codes == old(self)@.codes.map_values(
                    (|c: CodeDefV| demote_from_theme(c, id)),
                ),
                Err(e) => e == CodeBookError::ThemeNotFound(id) && !has_theme(
                    old(self)@.themes,
                    id,
                ) && final(self)@ == old(self)@,
            },
    {
        match self.find_theme(id) {
            Some(i) => {
                proof {
                    lemma_theme_index_of(self@.themes, id, i as int);
                }
                self.demote_codes_of_theme(id);
                proof {
                    assert(code_ids(self@.codes) =~= code_ids(old(self)@.codes));
                }
                let t = self.themes.remove(i);
                proof {
                    assert(views_of(self.themes@) =~= old(self)@.themes.remove(i as int));
                    assert(theme_ids(self@.themes) =~= theme_ids(old(self)@.themes).remove(
                        i as int,
                    ));
                    lemma_no_dup_remove(theme_ids(old(self)@.themes), i as int);
                }
                Ok(t)
            },
            None => Err(CodeBookError::ThemeNotFound(id)),
        }
    }

    /// Copies of all themes, in display order.
    pub fn get_all_themes(&self) -> (r: Vec<ThemeDef>)
        ensures
            views_of(r@) == self@.themes,
    {
        let mut out: Vec<ThemeDef> = Vec::new();
        let mut i: usize = 0;
        proof {
            assert(views_of(out@) =~= self@.themes.take(0));
        }
        loop
            invariant
                i <= self.themes.len(),
                views_of(out@) == self@.themes.take(i as int),
            ensures
                i == self.themes.len(),
                views_of(out@) == self@.themes.take(i as int),
            decreases self.themes.len() - i,
        {
            if i >= self.themes.len() {
                break ;
            }
            out.push(self.themes[i].duplicate());
            proof {
                assert(views_of(out@) =~= self@.themes.take(i as int).push(
                    self@.themes[i as int],
                ));
                assert(self@.themes.take(i + 1) =~= self@.themes.take(i as int).push(
                    self@.themes[i as int],
                ));
            }
            i = i + 1;
        }
        proof {
            assert(self@.themes.take(self.themes.len() as int) =~= self@.themes);
        }
        out
    }

    /// Copies of the code definitions grouped under theme `theme_id`, in
    /// display order.
    pub fn get_codes_in_theme(&self, theme_id: ThemeId) -> (r: Vec<CodeDef>)
        ensures
            views_of(r@) == codes_in_theme(self@, theme_id),
    {
        let ghost pred = |c: CodeDefV| c.theme_id == Some(theme_id);
        let mut out: Vec<CodeDef> = Vec::new();
        let mut i: usize = 0;
        proof {
            assert(self@.codes.take(0) =~= Seq::<CodeDefV>::empty());
            reveal(Seq::filter);
            assert(views_of(out@) =~= self@.codes.take(0).filter(pred));
        }
        loop
            invariant
                i <= self.code_defs.len(),
                pred == (|c: CodeDefV| c.theme_id == Some(theme_id)),
                views_of(out@) == self@.codes.take(i as int).filter(pred),
            ensures
                i == self.code_defs.len(),
                views_of(out@) == self@.codes.take(i as int).filter(pred),
            decreases self.code_defs.len() - i,
        {
            if i >= self.code_defs.len() {
                break ;
            }
            let c = &self.code_defs[i];
            proof {
                assert(c@ == self@.codes[i as int]);
                assert(self@.codes.take(i + 1) =~= self@.codes.take(i as int).push(
                    self@.codes[i as int],
                ));
                lemma_filter_push(self@.codes.take(i as int), self@.codes[i as int], pred);
            }
            let grouped = match c.theme_id() {
                Some(t) => t == theme_id,
                None => false,
            };
            if grouped {
                out.push(c.duplicate());
                proof {
                    assert(views_of(out@) =~= self@.codes.take(i as int).filter(pred).push(
                        self@.codes[i as int],
                    ));
                }
            }
            i = i + 1;
        }
        proof {
            assert(self@.codes.take(self.code_defs.len() as int) =~= self@.codes);
        }
        out
    }

    /// Copies of the top-level code definitions (grouped under no theme),
    /// in display order.
    pub fn get_top_level_codes(&self) -> (r: Vec<CodeDef>)
        ensures
            views_of(r@) == top_level_codes(self@),
    {
        let ghost pred = |c: CodeDefV| c.theme_id is None;
        let mut out: Vec<CodeDef> = Vec::new();
        let mut i: usize = 0;
        proof {
            assert(self@.codes.take(0) =~= Seq::<CodeDefV>::empty());
            reveal(Seq::filter);
            assert(views_of(out@) =~= self@.codes.take(0).filter(pred));
        }
        loop
            invariant
                i <= self.code_defs.len(),
                pred == (|c: CodeDefV| c.theme_id is None),
                views_of(out@) == self@.codes.take(i as int).filter(pred),
            ensures
                i == self.code_defs.len(),
                views_of(out@) == self@.codes.take(i as int).filter(pred),
            decreases self.code_defs.len() - i,
        {
            if i >= self.code_defs.len() {
                break ;
            }
            let c = &self.code_defs[i];
            proof {
                assert(c@ == self@.codes[i as int]);
                assert(self@.codes.take(i + 1) =~= self@.codes.take(i as int).push(
                    self@.codes[i as int],
                ));
                lemma_filter_push(self@.codes.take(i as int), self@.codes[i as int], pred);
            }
            if c.theme_id().is_none() {
                out.push(c.duplicate());
                proof {
                    assert(views_of(out@) =~= self@.codes.take(i as int).filter(pred).push(
                        self@.codes[i as int],
                    ));
                }
            }
            i = i + 1;
        }
        proof {
            assert(self@.codes.take(self.code_defs.len() as int) =~= self@.codes);
        }
        out
    }

    /// Groups the code definition `code_id` under theme `theme_id`.
    /// Tolerant: silently does nothing when `code_id` is unknown (contrast
    /// with `remove_code_from_theme`, which reports the unknown id).
    pub fn move_code_to_theme(&mut self, code_id: CodeDefId, theme_id: ThemeId)
        requires
            old(self).wf(),
        ensures
            final(self).wf(),
            final(self)@.themes == old(self)@.themes,
            final(self)@.quals == old(self)@.quals,
            has_code(old(self)@.codes, code_id) ==> final(self)@.codes == old(self)@.codes.update(
                code_index(old(self)@.codes, code_id),
                (CodeDefV {
                    theme_id: Some(theme_id),
                    ..old(self)@.codes[code_index(old(self)@.codes, code_id)]
                }),
            ),
            !has_code(old(self)@.codes, code_id) ==> final(self)@.codes == old(self)@.codes,
    {
        match self.find_code(code_id) {
            Some(i) => {
                proof {
                    lemma_code_index_of(self@.codes, code_id, i as int);
                }
                let mut c = self.code_defs[i].duplicate();
                c.set_theme_id(Some(theme_id));
                self.code_defs.set(i, c);
                proof {
                    assert(views_of(self.code_defs@) =~= old(self)@.codes.update(i as int, c@));
                    assert(code_ids(self@.codes) =~= code_ids(old(self)@.codes));
                }
            },
            None => {},
        }
    }

    /// Ungroups the code definition `code_id`, returning it to top level.
    /// Ungrouping an already top-level code is harmless.  Fails exactly
    /// when `code_id` is not in the book.
    pub fn remove_code_from_theme(&mut self, code_id: CodeDefId) -> (r: Result<(), CodeBookError>)
        requires
            old(self).wf(),
        ensures
            final(self).wf(),
            final(self)@.themes == old(self)@.themes,
            final(self)@.quals == old(self)@.quals,
            match r {
                Ok(_) => has_code(old(self)@.codes, code_id) && final(self)@.codes == old(
                    self,
                )@.codes.update(
                    code_index(old(self)@.codes, code_id),
                    (CodeDefV {
                        theme_id: None,
                        ..old(self)@.codes[code_index(old(self)@.codes, code_id)]
                    }),
                ),
                Err(e) => e == CodeBookError::CodeDefNotFound(code_id) && !has_code(
                    old(self)@.codes,
                    code_id,
                ) && final(self)@.codes == old(self)@.codes,
            },
    {
        match self.find_code(code_id) {
            Some(i) => {
                proof {
                    lemma_code_index_of(self@.codes, code_id, i as int);
                }
                let mut c = self.code_defs[i].duplicate();
                c.set_theme_id(None);
                self.code_defs.set(i, c);
                proof {
                    assert(views_of(self.code_defs@) =~= old(self)@.codes.update(i as int, c@));
                    assert(code_ids(self@.codes) =~= code_ids(old(self)@.codes));
                }
                Ok(())
            },
            None => Err(CodeBookError::CodeDefNotFound(code_id)),
        }
    }

    /// Relocates the theme with identifier `id` to `new_index`, keeping
    /// every other theme's relative order.  Fails with `ThemeNotFound`
    /// when `id` is absent, else with `InvalidIndex` when `new_index` lies
    /// beyond the last valid index.
    pub fn move_theme_to_index(&mut self, id: ThemeId, new_index: usize) -> (r: Result<
        (),
        CodeBookError,
    >)
        requires
            old(self).wf(),
        ensures
            final(self).wf(),
            final(self)@.codes == old(self)@.codes,
            final(self)@.quals == old(self)@.quals,
            match r {
                Ok(_) => has_theme(old(self)@.themes, id) && new_index < old(self)@.themes.len()
                    && ({
                    let cur = theme_index(old(self)@.themes, id);
                    final(self)@.themes == old(self)@.themes.remove(cur).insert(
                        new_index as int,
                        old(self)@.themes[cur],
                    )
                }),
                Err(e) => final(self)@.themes == old(self)@.themes && if !has_theme(
                    old(self)@.themes,
                    id,
                ) {
                    e == CodeBookError::ThemeNotFound(id)
                } else {
                    new_index >= old(self)@.themes.len() && e == (CodeBookError::InvalidIndex {
                        provided: new_index,
                        max: (old(self)@.themes.len() - 1) as usize,
                    })
                },
            },
    {
        let cur = match self.find_theme(id) {
            Some(i) => i,
            None => {
                return Err(CodeBookError::ThemeNotFound(id));
            },
        };
        proof {
            lemma_theme_index_of(self@.themes, id, cur as int);
        }
        let max_index = self.themes.len() - 1;
        if new_index > max_index {
            return Err(CodeBookError::InvalidIndex { provided: new_index, max: max_index });
        }
        let theme = self.themes.remove(cur);
        self.themes.insert(new_index, theme);
        proof {
            assert(views_of(self.themes@) =~= old(self)@.themes.remove(cur as int).insert(
                new_index as int,
                old(self)@.themes[cur as int],
            ));
            assert(theme_ids(self@.themes) =~= theme_ids(old(self)@.themes).remove(
                cur as int,
            ).insert(new_index as int, theme_ids(old(self)@.themes)[cur as int]));
            lemma_seq_move_permutes(theme_ids(old(self)@.themes), cur as int, new_index as int);
            lemma_no_dup_from_multiset(theme_ids(old(self)@.themes), theme_ids(self@.themes));
        }
        Ok(())
    }

    /// Exchanges the themes at positions `index_a` and `index_b`.
    /// Swapping an index with itself is a valid no-op.  Fails with
    /// `InvalidIndex` when either index lies beyond the last valid one (on
    /// an empty book, every index is refused).
    pub fn swap_themes(&mut self, index_a: usize, index_b: usize) -> (r: Result<(), CodeBookError>)
        requires
            old(self).wf(),
        ensures
            final(self).wf(),
            final(self)@.codes == old(self)@.codes,
            final(self)@.quals == old(self)@.quals,
            match r {
                Ok(_) => index_a < old(self)@.themes.len() && index_b < old(self)@.themes.len()
                    && final(self)@.themes == old(self)@.themes.update(
                    index_a as int,
                    old(self)@.themes[index_b as int],
                ).update(index_b as int, old(self)@.themes[index_a as int]),
                Err(e) => final(self)@.themes == old(self)@.themes && ({
                    let max = if old(self)@.themes.len() == 0 {
                        0usize
                    } else {
                        (old(self)@.themes.len() - 1) as usize
                    };
                    if index_a >= old(self)@.themes.len() {
                        e == (CodeBookError::InvalidIndex { provided: index_a, max })
                    } else {
                        index_b >= old(self)@.themes.len() && e == (CodeBookError::InvalidIndex {
                            provided: index_b,
                            max,
                        })
                    }
                }),
            },
    {
        let len = self.themes.len();
        let max_index = if len == 0 {
            0
        } else {
            len - 1
        };
        if index_a >= len {
            return Err(CodeBookError::InvalidIndex { provided: index_a, max: max_index });
        }
        if index_b >= len {
            return Err(CodeBookError::InvalidIndex { provided: index_b, max: max_index });
        }
        let va = self.themes[index_a].duplicate();
        let vb = self.themes[index_b].duplicate();
        self.themes.set(index_a, vb);
        self.themes.set(index_b, va);
        proof {
            assert(views_of(self.themes@) =~= old(self)@.themes.update(
                index_a as int,
                old(self)@.themes[index_b as int],
            ).update(index_b as int, old(self)@.themes[index_a as int]));
            assert(theme_ids(self@.themes) =~= theme_ids(old(self)@.themes).update(
                index_a as int,
                theme_ids(old(self)@.themes)[index_b as int],
            ).update(index_b as int, theme_ids(old(self)@.themes)[index_a as int]));
            lemma_seq_swap_permutes(theme_ids(old(self)@.themes), index_a as int, index_b as int);
            lemma_no_dup_from_multiset(theme_ids(old(self)@.themes), theme_ids(self@.themes));
        }
        Ok(())
    }

    /// Sorts the themes by display name, ascending; entries with equal
    /// names keep their prior relative order.
    pub fn sort_themes_by_name(&mut self)
        requires
            old(self).wf(),
        ensures
            final(self).wf(),
            final(self)@.codes == old(self)@.codes,
            final(self)@.quals == old(self)@.quals,
            final(self)@.themes == sort_by_stable(by_name_le::<ThemeDef>(), old(self)@.themes),
    {
        vec_sort_by_name(&mut self.themes);
        proof {
            lemma_sort_by_stable_multiset(by_name_le::<ThemeDef>(), old(self)@.themes);
            lemma_to_multiset_map_values(
                old(self)@.themes,
                self@.themes,
                |t: ThemeDefV| t.id,
            );
            lemma_no_dup_from_multiset(theme_ids(old(self)@.themes), theme_ids(self@.themes));
        }
    }

    /// Applies the code definition `code_def_id` to `highlight`, recording
    /// the covered `snippet`, and returns the fresh application id.  The
    /// definition's existence is not checked (an application may reference
    /// a since-removed definition in intermediate states).
    pub fn apply_code(&mut self, code_def_id: CodeDefId, highlight: Highlight, snippet: String)
        -> (r: QualCodeId)
        requires
            old(self).wf(),
        ensures
            final(self).wf(),
            final(self)@.codes == old(self)@.codes,
            final(self)@.themes == old(self)@.themes,
            final(self)@.quals == old(self)@.quals.push(
                (QualCodeV { id: r, def_id: code_def_id, highlight: highlight@, snippet: snippet@
                }),
            ),
    {
        let id = QualCodeId(fresh_id_value());
        let qc = QualCode::restore(id, code_def_id, highlight, snippet);
        self.qual_codes.push(qc);
        proof {
            assert(views_of(self.qual_codes@) =~= old(self)@.quals.push(qc@));
        }
        id
    }

    /// Removes the first applied code with identifier `id` (identifiers
    /// are drawn fresh, so in practice the only one).  Fails exactly when
    /// `id` is not in the book.
    pub fn remove_qual_code(&mut self, id: QualCodeId) -> (r: Result<(), CodeBookError>)
        requires
            old(self).wf(),
        ensures
            final(self).wf(),
            final(self)@.codes == old(self)@.codes,
            final(self)@.themes == old(self)@.themes,
            match r {
                Ok(_) => has_qual(old(self)@.quals, id) && final(self)@.quals == old(
                    self,
                )@.quals.remove(first_qual_index(old(self)@.quals, id)),
                Err(e) => e == CodeBookError::QualCodeNotFound(id) && !has_qual(
                    old(self)@.quals,
                    id,
                ) && final(self)@.quals == old(self)@.quals,
            },
    {
        let mut i: usize = 0;
        loop
            invariant
                i <= self.qual_codes.len(),
                self@ == old(self)@,
                old(self).wf(),
                forall|k: int| 0 <= k < i ==> (#[trigger] self@.quals[k]).id != id,
            ensures
                i == self.qual_codes.len(),
                self@ == old(self)@,
                forall|k: int| 0 <= k < i ==> (#[trigger] self@.quals[k]).id != id,
            decreases self.qual_codes.len() - i,
        {
            if i >= self.qual_codes.len() {
                break ;
            }
            proof {
                assert(self@.quals[i as int] == self.qual_codes@[i as int]@);
            }
            if self.qual_codes[i].id() == id {
                proof {
                    lemma_first_qual_index_of(self@.quals, id, i as int);
                }
                self.qual_codes.remove(i);
                proof {
                    assert(views_of(self.qual_codes@) =~= old(self)@.quals.remove(i as int));
                    assert(self@.codes == old(self)@.codes);
                    assert(self@.themes == old(self)@.themes);
                }
                return Ok(());
            }
            i = i + 1;
        }
        Err(CodeBookError::QualCodeNotFound(id))
    }

    /// Copies of the applied codes whose block the lookup table resolves
    /// to `file_id`, in application order.  Applied codes whose block is
    /// absent from the table (orphans) are excluded, not errors.
    pub fn get_codes_for_file(&self, file_id: FileId, block_to_file_map: &crate::blockmap::BlockFileMap)
        -> (r: Vec<QualCode>)
        ensures
            views_of(r@) == codes_for_file(self@, file_id, block_to_file_map@),
    {
        let ghost m = block_to_file_map@;
        let ghost pred = |q: QualCodeV| resolves_to(m, q, file_id);
        let mut out: Vec<QualCode> = Vec::new();
        let mut i: usize = 0;
        proof {
            assert(self@.quals.take(0) =~= Seq::<QualCodeV>::empty());
            reveal(Seq::filter);
            assert(views_of(out@) =~= self@.quals.take(0).filter(pred));
        }
        loop
            invariant
                i <= self.qual_codes.len(),
                m == block_to_file_map@,
                pred == (|q: QualCodeV| resolves_to(m, q, file_id)),
                views_of(out@) == self@.quals.take(i as int).filter(pred),
            ensures
                i == self.qual_codes.len(),
                views_of(out@) == self@.quals.take(i as int).filter(pred),
            decreases self.qual_codes.len() - i,
        {
            if i >= self.qual_codes.len() {
                break ;
            }
            let qc = &self.qual_codes[i];
            proof {
                assert(qc@ == self@.quals[i as int]);
                assert(self@.quals.take(i + 1) =~= self@.quals.take(i as int).push(
                    self@.quals[i as int],
                ));
                lemma_filter_push(self@.quals.take(i as int), self@.quals[i as int], pred);
            }
            let resolved = match block_to_file_map.get(qc.block_id()) {
                Some(f) => f == file_id,
                None => false,
            };
            if resolved {
                out.push(qc.duplicate());
                proof {
                    assert(views_of(out@) =~= self@.quals.take(i as int).filter(pred).push(
                        self@.quals[i as int],
                    ));
                }
            }
            i = i + 1;
        }
        proof {
            assert(self@.quals.take(self.qual_codes.len() as int) =~= self@.quals);
        }
        out
    }

    /// Removes every applied code whose block the lookup table resolves to
    /// `file_id`.  Applied codes with unresolvable blocks (orphans) are
    /// left untouched and stay in the book.
    pub fn remove_codes_for_file(&mut self, file_id: FileId, block_to_file_map: &crate::blockmap::BlockFileMap)
        requires
            old(self).wf(),
        ensures
            final(self).wf(),
            final(self)@.codes == old(self)@.codes,
            final(self)@.themes == old(self)@.themes,
            final(self)@.quals == old(self)@.quals.filter(
                (|q: QualCodeV| !resolves_to(block_to_file_map@, q, file_id)),
            ),
    {
        let ghost orig = old(self)@.quals;
        let ghost m = block_to_file_map@;
        let ghost pred = |q: QualCodeV| !resolves_to(m, q, file_id);
        let mut kept: Vec<QualCode> = Vec::new();
        let mut i: usize = 0;
        proof {
            assert(orig.take(0) =~= Seq::<QualCodeV>::empty());
            reveal(Seq::filter);
            assert(views_of(kept@) =~= orig.take(0).filter(pred));
        }
        loop
            invariant
                i <= self.qual_codes.len(),
                self@ == old(self)@,
                orig == old(self)@.quals,
                m == block_to_file_map@,
                pred == (|q: QualCodeV| !resolves_to(m, q, file_id)),
                views_of(kept@) == orig.take(i as int).filter(pred),
            ensures
                i == self.qual_codes.len(),
                views_of(kept@) == orig.take(i as int).filter(pred),
            decreases self.qual_codes.len() - i,
        {
            if i >= self.qual_codes.len() {
                break ;
            }
            let qc = &self.qual_codes[i];
            proof {
                assert(qc@ == orig[i as int]);
                assert(orig.take(i + 1) =~= orig.take(i as int).push(orig[i as int]));
                lemma_filter_push(orig.take(i as int), orig[i as int], pred);
            }
            let resolved = match block_to_file_map.get(qc.block_id()) {
                Some(f) => f == file_id,
                None => false,
            };
            if !resolved {
                kept.push(qc.duplicate());
                proof {
                    assert(views_of(kept@) =~= orig.take(i as int).filter(pred).push(
                        orig[i as int],
                    ));
                }
            }
            i = i + 1;
        }
        proof {
            assert(orig.take(self.qual_codes.len() as int) =~= orig);
        }
        self.qual_codes = kept;
    }

    /// Copies of the applications of code definition `def_id`, in
    /// application order.
    pub fn get_codes_for_def(&self, def_id: CodeDefId) -> (r: Vec<QualCode>)
        ensures
            views_of(r@) == codes_for_def(self@, def_id),
    {
        let ghost pred = |q: QualCodeV| q.def_id == def_id;
        let mut out: Vec<QualCode> = Vec::new();
        let mut i: usize = 0;
        proof {
            assert(self@.quals.take(0) =~= Seq::<QualCodeV>::empty());
            reveal(Seq::filter);
            assert(views_of(out@) =~= self@.quals.take(0).filter(pred));
        }
        loop
            invariant
                i <= self.qual_codes.len(),
                pred == (|q: QualCodeV| q.def_id == def_id),
                views_of(out@) == self@.quals.take(i as int).filter(pred),
            ensures
                i == self.qual_codes.len(),
                views_of(out@) == self@.quals.take(i as int).filter(pred),
            decreases self.qual_codes.len() - i,
        {
            if i >= self.qual_codes.len() {
                break ;
            }
            let qc = &self.qual_codes[i];
            proof {
                assert(qc@ == self@.quals[i as int]);
                assert(self@.quals.take(i + 1) =~= self@.quals.take(i as int).push(
                    self@.quals[i as int],
                ));
                lemma_filter_push(self@.quals.take(i as int), self@.quals[i as int], pred);
            }
            if qc.def_id() == def_id {
                out.push(qc.duplicate());
                proof {
                    assert(views_of(out@) =~= self@.quals.take(i as int).filter(pred).push(
                        self@.quals[i as int],
                    ));
                }
            }
            i = i + 1;
        }
        proof {
            assert(self@.quals.take(self.qual_codes.len() as int) =~= self@.quals);
        }
        out
    }

    /// All applied codes, in application order.
    pub fn get_all_qual_codes(&self) -> (r: &[QualCode])
        ensures
            views_of(r@) == self@.quals,
    {
        self.qual_codes.as_slice()
    }

    /// An identical copy of the whole book, for handing a read-only
    /// snapshot to a persistence layer.
    pub fn duplicate(&self) -> (r: Self)
        requires
            self.wf(),
        ensures
            r@ == self@,
            r.wf(),
    {
        let code_defs = self.get_all_code_defs();
        let themes = self.get_all_themes();
        let mut qual_codes: Vec<QualCode> = Vec::new();
        let mut i: usize = 0;
        proof {
            assert(views_of(qual_codes@) =~= self@.quals.take(0));
        }
        loop
            invariant
                i <= self.qual_codes.len(),
                views_of(qual_codes@) == self@.quals.take(i as int),
            ensures
                i == self.qual_codes.len(),
                views_of(qual_codes@) == self@.quals.take(i as int),
            decreases self.qual_codes.len() - i,
        {
            if i >= self.qual_codes.len() {
                break ;
            }
            qual_codes.push(self.qual_codes[i].duplicate());
            proof {
                assert(views_of(qual_codes@) =~= self@.quals.take(i as int).push(
                    self@.quals[i as int],
                ));
                assert(self@.quals.take(i + 1) =~= self@.quals.take(i as int).push(
                    self@.quals[i as int],
                ));
            }
            i = i + 1;
        }
        proof {
            assert(self@.quals.take(self.qual_codes.len() as int) =~= self@.quals);
        }
        let r = CodeBook { code_defs, themes, qual_codes };
        proof {
            assert(r@ == self@);
        }
        r
    }
}

impl CodeBook {
    /// Whether the given code definitions carry pairwise distinct
    /// identifiers.
    fn code_ids_unique(defs: &Vec<CodeDef>) -> (r: bool)
        ensures
            r == code_ids(views_of(defs@)).no_duplicates(),
    {
        let ghost ids = code_ids(views_of(defs@));
        let mut i: usize = 0;
        loop
            invariant
                i <= defs.len(),
                ids == code_ids(views_of(defs@)),
                forall|a: int, b: int| 0 <= a < i && a < b < defs@.len() ==> ids[a] != ids[b],
            ensures
                i == defs.len(),
                forall|a: int, b: int| 0 <= a < i && a < b < defs@.len() ==> ids[a] != ids[b],
            decreases defs.len() - i,
        {
            if i >= defs.len() {
                break ;
            }
            let mut j: usize = i + 1;
            loop
                invariant
                    i < defs.len(),
                    i < j <= defs.len(),
                    ids == code_ids(views_of(defs@)),
                    forall|b: int| i < b < j ==> ids[i as int] != ids[b],
                ensures
                    j == defs.len(),
                    forall|b: int| i < b < j ==> ids[i as int] != ids[b],
                decreases defs.len() - j,
            {
                if j >= defs.len() {
                    break ;
                }
                proof {
                    assert(ids[i as int] == defs@[i as int]@.id);
                    assert(ids[j as int] == defs@[j as int]@.id);
                }
                if defs[i].id() == defs[j].id() {
                    return false;
                }
                j = j + 1;
            }
            i = i + 1;
        }
        proof {
            assert forall|a: int, b: int|
                0 <= a < ids.len() && 0 <= b < ids.len() && a != b implies ids[a] != ids[b] by {
                if a < b {
                } else {
                    assert(ids[b] != ids[a]);
                }
            }
        }
        true
    }

    /// Whether the given themes carry pairwise distinct identifiers.
    fn theme_ids_unique(themes: &Vec<ThemeDef>) -> (r: bool)
        ensures
            r == theme_ids(views_of(themes@)).no_duplicates(),
    {
        let ghost ids = theme_ids(views_of(themes@));
        let mut i: usize = 0;
        loop
            invariant
                i <= themes.len(),
                ids == theme_ids(views_of(themes@)),
                forall|a: int, b: int| 0 <= a < i && a < b < themes@.len() ==> ids[a] != ids[b],
            ensures
                i == themes.len(),
                forall|a: int, b: int| 0 <= a < i && a < b < themes@.len() ==> ids[a] != ids[b],
            decreases themes.len() - i,
        {
            if i >= themes.len() {
                break ;
            }
            let mut j: usize = i + 1;
            loop
                invariant
                    i < themes.len(),
                    i < j <= themes.len(),
                    ids == theme_ids(views_of(themes@)),
                    forall|b: int| i < b < j ==> ids[i as int] != ids[b],
                ensures
                    j == themes.len(),
                    forall|b: int| i < b < j ==> ids[i as int] != ids[b],
                decreases themes.len() - j,
            {
                if j >= themes.len() {
                    break ;
                }
                proof {
                    assert(ids[i as int] == themes@[i as int]@.id);
                    assert(ids[j as int] == themes@[j as int]@.id);
                }
                if themes[i].id() == themes[j].id() {
                    return false;
                }
                j = j + 1;
            }
            i = i + 1;
        }
        proof {
            assert forall|a: int, b: int|
                0 <= a < ids.len() && 0 <= b < ids.len() && a != b implies ids[a] != ids[b] by {
                if a < b {
                } else {
                    assert(ids[b] != ids[a]);
                }
            }
        }
        true
    }

    /// Rebuilds a book from stored entities, for a persistence layer
    /// restoring a saved project.  Refuses collections whose code or theme
    /// identifiers are not unique.
    pub fn restore(code_defs: Vec<CodeDef>, themes: Vec<ThemeDef>, qual_codes: Vec<QualCode>) -> (r:
        Option<CodeBook>)
        ensures
            ({
                let v = CodeBookV {
                    codes: views_of(code_defs@),
                    themes: views_of(themes@),
                    quals: views_of(qual_codes@),
                };
                match r {
                    Some(b) => b@ == v && b.wf(),
                    None => !codebook_wf(v),
                }
            }),
    {
        if !Self::code_ids_unique(&code_defs) {
            return None;
        }
        if !Self::theme_ids_unique(&themes) {
            return None;
        }
        Some(CodeBook { code_defs, themes, qual_codes })
    }
}

/// `first_qual_index` is the position of the first applied code with the
/// given identifier.
pub proof fn lemma_first_qual_index_of(s: Seq<QualCodeV>, id: QualCodeId, i: int)
    requires
        0 <= i < s.len(),
        s[i].id == id,
        forall|k: int| 0 <= k < i ==> (#[trigger] s[k]).id != id,
    ensures
        has_qual(s, id),
        first_qual_index(s, id) == i,
{
    assert(has_qual(s, id));
    assert(0 <= i < s.len() && s[i].id == id && (forall|k: int| 0 <= k < i ==> s[k].id != id));
    let j = first_qual_index(s, id);
    assert(0 <= j < s.len() && s[j].id == id && (forall|k: int| 0 <= k < j ==> s[k].id != id));
}

} // verus!

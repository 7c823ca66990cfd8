//! Laws of the domain model: facts that relate several operations, proved
//! from the same abstract values their contracts are stated over.

use vstd::prelude::*;
use crate::ids::{BlockId, CodeDefId, FileId, ThemeId};
use crate::entities::{CodeDef, CodeDefV, QualCodeV, ThemeDef, ThemeDefV};
use crate::codebook::{
    code_index, code_ids, codebook_wf, codes_for_def, codes_for_file, codes_in_theme,
    demote_from_theme, has_code, resolves_to, theme_ids, top_level_codes, CodeBookV,
};
use crate::files::{file_ids, QualFile, QualFileV};
use crate::sorting::{
    by_name_le, lemma_by_name_le_props, lemma_filter_push, lemma_seq_move_permutes,
    lemma_seq_swap_permutes, lemma_sort_by_stable_idempotent, lemma_sort_by_stable_ties,
    lemma_to_multiset_map_values, sort_by_stable,
};
use crate::strorder::lemma_chars_le_refl;

verus! {

/// A sequence splits into the entries satisfying a predicate and those
/// satisfying its negation.
pub proof fn lemma_filter_split_len<T>(s: Seq<T>, p: spec_fn(T) -> bool, q: spec_fn(T) -> bool)
    requires
        forall|x: T| #[trigger] q(x) <==> !p(x),
    ensures
        s.filter(p).len() + s.filter(q).len() == s.len(),
    decreases s.len(),
{
    reveal(Seq::filter);
    if s.len() > 0 {
        lemma_filter_split_len(s.drop_last(), p, q);
    }
}

/// Filtering by a finer predicate ignores a prior coarser filter.
pub proof fn lemma_filter_filter<T>(s: Seq<T>, p: spec_fn(T) -> bool, q: spec_fn(T) -> bool)
    requires
        forall|x: T| #[trigger] q(x) ==> p(x),
    ensures
        s.filter(p).filter(q) == s.filter(q),
    decreases s.len(),
{
    reveal(Seq::filter);
    if s.len() > 0 {
        lemma_filter_filter(s.drop_last(), p, q);
        if p(s.last()) {
            lemma_filter_push(s.drop_last().filter(p), s.last(), q);
        }
    }
}

/// After a code definition is grouped under a theme, it is one of that
/// theme's codes.
pub proof fn lemma_move_code_to_theme_membership(v: CodeBookV, code_id: CodeDefId, t: ThemeId)
    requires
        codebook_wf(v),
        has_code(v.codes, code_id),
    ensures
        ({
            let i = code_index(v.codes, code_id);
            let moved = CodeDefV { theme_id: Some(t), ..v.codes[i] };
            let after = CodeBookV { codes: v.codes.update(i, moved), ..v };
            codes_in_theme(after, t).contains(moved)
        }),
{
    broadcast use vstd::seq_lib::group_filter_ensures;

    let i = code_index(v.codes, code_id);
    let moved = CodeDefV { theme_id: Some(t), ..v.codes[i] };
    let after = CodeBookV { codes: v.codes.update(i, moved), ..v };
    assert(after.codes[i] == moved);
    assert(after.codes.filter(|c: CodeDefV| c.theme_id == Some(t)).contains(after.codes[i]));
}

/// After a code definition is ungrouped, it is a top-level code and is in
/// no theme's code set.
pub proof fn lemma_remove_code_from_theme_top_level(v: CodeBookV, code_id: CodeDefId)
    requires
        codebook_wf(v),
        has_code(v.codes, code_id),
    ensures
        ({
            let i = code_index(v.codes, code_id);
            let cleared = CodeDefV { theme_id: None, ..v.codes[i] };
            let after = CodeBookV { codes: v.codes.update(i, cleared), ..v };
            top_level_codes(after).contains(cleared) && (forall|t: ThemeId|
                !codes_in_theme(after, t).contains(cleared))
        }),
{
    broadcast use vstd::seq_lib::group_filter_ensures;

    let i = code_index(v.codes, code_id);
    let cleared = CodeDefV { theme_id: None, ..v.codes[i] };
    let after = CodeBookV { codes: v.codes.update(i, cleared), ..v };
    assert(after.codes[i] == cleared);
    assert(after.codes.filter(|c: CodeDefV| c.theme_id is None).contains(after.codes[i]));
    assert forall|t: ThemeId| !codes_in_theme(after, t).contains(cleared) by {
        let f = after.codes.filter(|c: CodeDefV| c.theme_id == Some(t));
        if f.contains(cleared) {
            let j = choose|j: int| 0 <= j < f.len() && f[j] == cleared;
            assert((|c: CodeDefV| c.theme_id == Some(t))(f[j]));
        }
    }
}

/// Removing a code definition with N applications shrinks the book's
/// applied codes by exactly N, and leaves the applications of every other
/// definition unchanged.
pub proof fn lemma_remove_code_def_applications(v: CodeBookV, id: CodeDefId, other: CodeDefId)
    requires
        other != id,
    ensures
        ({
            let after = CodeBookV { quals: v.quals.filter(|q: QualCodeV| q.def_id != id), ..v };
            after.quals.len() == v.quals.len() - codes_for_def(v, id).len() && codes_for_def(
                after,
                other,
            ) == codes_for_def(v, other)
        }),
{
    let keep = |q: QualCodeV| q.def_id != id;
    let ofdef = |q: QualCodeV| q.def_id == id;
    let ofother = |q: QualCodeV| q.def_id == other;
    lemma_filter_split_len(v.quals, keep, ofdef);
    lemma_filter_filter(v.quals, keep, ofother);
}

/// Removing a theme with M member codes empties that theme's code set,
/// grows the top-level set by exactly M, and leaves every other theme's
/// code set unchanged.
pub proof fn lemma_remove_theme_demotes(v: CodeBookV, t: ThemeId, other: ThemeId)
    requires
        other != t,
    ensures
        ({
            let after = CodeBookV {
                codes: v.codes.map_values(|c: CodeDefV| demote_from_theme(c, t)),
                ..v
            };
            codes_in_theme(after, t) == Seq::<CodeDefV>::empty() && top_level_codes(after).len()
                == top_level_codes(v).len() + codes_in_theme(v, t).len() && codes_in_theme(
                after,
                other,
            ) == codes_in_theme(v, other)
        }),
{
    lemma_demote_filters(v.codes, t, other);
    let after = CodeBookV { codes: v.codes.map_values(|c: CodeDefV| demote_from_theme(c, t)), ..v };
    assert(after.codes == v.codes.map_values(|c: CodeDefV| demote_from_theme(c, t)));
}

proof fn lemma_demote_filters(s: Seq<CodeDefV>, t: ThemeId, other: ThemeId)
    requires
        other != t,
    ensures
        s.map_values(|c: CodeDefV| demote_from_theme(c, t)).filter(
            |c: CodeDefV| c.theme_id == Some(t),
        ) == Seq::<CodeDefV>::empty(),
        s.map_values(|c: CodeDefV| demote_from_theme(c, t)).filter(
            |c: CodeDefV| c.theme_id is None,
        ).len() == s.filter(|c: CodeDefV| c.theme_id is None).len() + s.filter(
            |c: CodeDefV| c.theme_id == Some(t),
        ).len(),
        s.map_values(|c: CodeDefV| demote_from_theme(c, t)).filter(
            |c: CodeDefV| c.theme_id == Some(other),
        ) == s.filter(|c: CodeDefV| c.theme_id == Some(other)),
    decreases s.len(),
{
    reveal(Seq::filter);
    let f = |c: CodeDefV| demote_from_theme(c, t);
    let in_t = |c: CodeDefV| c.theme_id == Some(t);
    let top = |c: CodeDefV| c.theme_id is None;
    let in_other = |c: CodeDefV| c.theme_id == Some(other);
    if s.len() == 0 {
        assert(s.map_values(f) =~= Seq::<CodeDefV>::empty());
    } else {
        let s2 = s.drop_last();
        lemma_demote_filters(s2, t, other);
        assert(s.map_values(f) =~= s2.map_values(f).push(f(s.last())));
        lemma_filter_push(s2.map_values(f), f(s.last()), in_t);
        lemma_filter_push(s2.map_values(f), f(s.last()), top);
        lemma_filter_push(s2.map_values(f), f(s.last()), in_other);
        assert(s =~= s2.push(s.last()));
        lemma_filter_push(s2, s.last(), in_t);
        lemma_filter_push(s2, s.last(), top);
        lemma_filter_push(s2, s.last(), in_other);
    }
}

/// Relocating a code definition never changes which definitions (and so
/// which identifiers) are present, only their order.
pub proof fn lemma_move_code_def_permutes(s: Seq<CodeDefV>, from: int, to: int)
    requires
        0 <= from < s.len(),
        0 <= to < s.len(),
    ensures
        ({
            let moved = s.remove(from).insert(to, s[from]);
            moved.to_multiset() == s.to_multiset() && code_ids(moved).to_multiset() == code_ids(
                s,
            ).to_multiset()
        }),
{
    lemma_seq_move_permutes(s, from, to);
    lemma_to_multiset_map_values(s.remove(from).insert(to, s[from]), s, |c: CodeDefV| c.id);
}

/// Exchanging two code definitions never changes which definitions (and
/// so which identifiers) are present, only their order.
pub proof fn lemma_swap_code_defs_permutes(s: Seq<CodeDefV>, a: int, b: int)
    requires
        0 <= a < s.len(),
        0 <= b < s.len(),
    ensures
        ({
            let swapped = s.update(a, s[b]).update(b, s[a]);
            swapped.to_multiset() == s.to_multiset() && code_ids(swapped).to_multiset()
                == code_ids(s).to_multiset()
        }),
{
    lemma_seq_swap_permutes(s, a, b);
    lemma_to_multiset_map_values(s.update(a, s[b]).update(b, s[a]), s, |c: CodeDefV| c.id);
}

/// Relocating a theme never changes which themes are present, only their
/// order.
pub proof fn lemma_move_theme_permutes(s: Seq<ThemeDefV>, from: int, to: int)
    requires
        0 <= from < s.len(),
        0 <= to < s.len(),
    ensures
        ({
            let moved = s.remove(from).insert(to, s[from]);
            moved.to_multiset() == s.to_multiset() && theme_ids(moved).to_multiset() == theme_ids(
                s,
            ).to_multiset()
        }),
{
    lemma_seq_move_permutes(s, from, to);
    lemma_to_multiset_map_values(s.remove(from).insert(to, s[from]), s, |t: ThemeDefV| t.id);
}

/// Exchanging two themes never changes which themes are present, only
/// their order.
pub proof fn lemma_swap_themes_permutes(s: Seq<ThemeDefV>, a: int, b: int)
    requires
        0 <= a < s.len(),
        0 <= b < s.len(),
    ensures
        ({
            let swapped = s.update(a, s[b]).update(b, s[a]);
            swapped.to_multiset() == s.to_multiset() && theme_ids(swapped).to_multiset()
                == theme_ids(s).to_multiset()
        }),
{
    lemma_seq_swap_permutes(s, a, b);
    lemma_to_multiset_map_values(s.update(a, s[b]).update(b, s[a]), s, |t: ThemeDefV| t.id);
}

/// Relocating a file never changes which files are present, only their
/// order.
pub proof fn lemma_move_file_permutes(s: Seq<QualFileV>, from: int, to: int)
    requires
        0 <= from < s.len(),
        0 <= to < s.len(),
    ensures
        ({
            let moved = s.remove(from).insert(to, s[from]);
            moved.to_multiset() == s.to_multiset() && file_ids(moved).to_multiset() == file_ids(
                s,
            ).to_multiset()
        }),
{
    lemma_seq_move_permutes(s, from, to);
    lemma_to_multiset_map_values(s.remove(from).insert(to, s[from]), s, |f: QualFileV| f.id);
}

/// Exchanging two files never changes which files are present, only their
/// order.
pub proof fn lemma_swap_files_permutes(s: Seq<QualFileV>, a: int, b: int)
    requires
        0 <= a < s.len(),
        0 <= b < s.len(),
    ensures
        ({
            let swapped = s.update(a, s[b]).update(b, s[a]);
            swapped.to_multiset() == s.to_multiset() && file_ids(swapped).to_multiset()
                == file_ids(s).to_multiset()
        }),
{
    lemma_seq_swap_permutes(s, a, b);
    lemma_to_multiset_map_values(s.update(a, s[b]).update(b, s[a]), s, |f: QualFileV| f.id);
}

/// Sorting the code definitions by name twice gives the same order as
/// sorting once.
pub proof fn lemma_sort_code_defs_idempotent(s: Seq<CodeDefV>)
    ensures
        sort_by_stable(by_name_le::<CodeDef>(), sort_by_stable(by_name_le::<CodeDef>(), s))
            == sort_by_stable(by_name_le::<CodeDef>(), s),
{
    lemma_by_name_le_props::<CodeDef>();
    lemma_sort_by_stable_idempotent(by_name_le::<CodeDef>(), s);
}

/// Sorting the code definitions by name keeps the relative order of
/// definitions sharing one display name.
pub proof fn lemma_sort_code_defs_stable(s: Seq<CodeDefV>, name: Seq<char>)
    ensures
        sort_by_stable(by_name_le::<CodeDef>(), s).filter((|c: CodeDefV| c.name == name))
            == s.filter((|c: CodeDefV| c.name == name)),
{
    let p = |c: CodeDefV| c.name == name;
    assert forall|y: CodeDefV, z: CodeDefV| #[trigger] p(y) && #[trigger] p(z) implies by_name_le::<
        CodeDef,
    >()(y, z) by {
        lemma_chars_le_refl(name);
    }
    lemma_sort_by_stable_ties(by_name_le::<CodeDef>(), s, p);
}

/// Sorting the themes by name twice gives the same order as sorting once.
pub proof fn lemma_sort_themes_idempotent(s: Seq<ThemeDefV>)
    ensures
        sort_by_stable(by_name_le::<ThemeDef>(), sort_by_stable(by_name_le::<ThemeDef>(), s))
            == sort_by_stable(by_name_le::<ThemeDef>(), s),
{
    lemma_by_name_le_props::<ThemeDef>();
    lemma_sort_by_stable_idempotent(by_name_le::<ThemeDef>(), s);
}

/// Sorting the themes by name keeps the relative order of themes sharing
/// one display name.
pub proof fn lemma_sort_themes_stable(s: Seq<ThemeDefV>, name: Seq<char>)
    ensures
        sort_by_stable(by_name_le::<ThemeDef>(), s).filter((|t: ThemeDefV| t.name == name))
            == s.filter((|t: ThemeDefV| t.name == name)),
{
    let p = |t: ThemeDefV| t.name == name;
    assert forall|y: ThemeDefV, z: ThemeDefV|
        #[trigger] p(y) && #[trigger] p(z) implies by_name_le::<ThemeDef>()(y, z) by {
        lemma_chars_le_refl(name);
    }
    lemma_sort_by_stable_ties(by_name_le::<ThemeDef>(), s, p);
}

/// Sorting the files by path twice gives the same order as sorting once.
pub proof fn lemma_sort_files_idempotent(s: Seq<QualFileV>)
    ensures
        sort_by_stable(by_name_le::<QualFile>(), sort_by_stable(by_name_le::<QualFile>(), s))
            == sort_by_stable(by_name_le::<QualFile>(), s),
{
    lemma_by_name_le_props::<QualFile>();
    lemma_sort_by_stable_idempotent(by_name_le::<QualFile>(), s);
}

/// Sorting the files by path keeps the relative order of files sharing
/// one path.
pub proof fn lemma_sort_files_stable(s: Seq<QualFileV>, path: Seq<char>)
    ensures
        sort_by_stable(by_name_le::<QualFile>(), s).filter((|f: QualFileV| f.path == path))
            == s.filter((|f: QualFileV| f.path == path)),
{
    let p = |f: QualFileV| f.path == path;
    assert forall|y: QualFileV, z: QualFileV| #[trigger] p(y) && #[trigger] p(z) implies by_name_le::<
        QualFile,
    >()(y, z) by {
        lemma_chars_le_refl(path);
    }
    lemma_sort_by_stable_ties(by_name_le::<QualFile>(), s, p);
}

/// An orphaned application — one whose block the lookup table does not
/// resolve — is excluded from a file's codes, survives a file-scoped
/// removal, and the removal takes away exactly the codes resolving to the
/// file.
pub proof fn lemma_orphans_tolerated(v: CodeBookV, f: FileId, m: Map<BlockId, FileId>, i: int)
    requires
        0 <= i < v.quals.len(),
        !m.contains_key(v.quals[i].highlight.block_id),
    ensures
        !codes_for_file(v, f, m).contains(v.quals[i]),
        v.quals.filter((|q: QualCodeV| !resolves_to(m, q, f))).contains(v.quals[i]),
        v.quals.filter((|q: QualCodeV| !resolves_to(m, q, f))).len() == v.quals.len()
            - codes_for_file(v, f, m).len(),
{
    broadcast use vstd::seq_lib::group_filter_ensures;

    let keep = |q: QualCodeV| !resolves_to(m, q, f);
    let gone = |q: QualCodeV| resolves_to(m, q, f);
    if codes_for_file(v, f, m).contains(v.quals[i]) {
        let s = v.quals.filter(gone);
        let j = choose|j: int| 0 <= j < s.len() && s[j] == v.quals[i];
        assert(gone(s[j]));
    }
    assert(keep(v.quals[i]));
    assert(v.quals.filter(keep).contains(v.quals[i]));
    lemma_filter_split_len(v.quals, gone, keep);
}

} // verus!

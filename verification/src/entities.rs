//! The coding vocabulary: code definitions, themes, and applied codes.

use vstd::prelude::*;
use crate::ids::{CodeDefId, QualCodeId, ThemeId};
use crate::highlight::{Highlight, HighlightV};
use crate::sorting::SortableByName;
use crate::strorder::chars_le;
use crate::strorder::str_le;

verus! {

/// Abstract value of a [`CodeDef`].
pub ghost struct CodeDefV {
    pub id: CodeDefId,
    pub name: Seq<char>,
    pub color: u8,
    pub theme_id: Option<ThemeId>,
}

/// A user-defined label usable to annotate text.  `theme_id` of `None`
/// means the code is top-level, grouped under no theme.
pub struct CodeDef {
    pub id: CodeDefId,
    name: String,
    color: u8,
    theme_id: Option<ThemeId>,
}

impl View for CodeDef {
    type V = CodeDefV;

    closed spec fn view(&self) -> CodeDefV {
        CodeDefV { id: self.id, name: self.name@, color: self.color, theme_id: self.theme_id }
    }
}

impl SortableByName for CodeDef {
    open spec fn sort_key(v: CodeDefV) -> Seq<char> {
        v.name
    }

    fn key_le(&self, other: &Self) -> (r: bool)
        ensures
            r == chars_le(Self::sort_key(self@), Self::sort_key(other@)),
    {
        str_le(self.name.as_str(), other.name.as_str())
    }
}

impl CodeDef {
    /// The identifier.
    pub fn id(&self) -> (r: CodeDefId)
        ensures
            r == self@.id,
    {
        self.id
    }

    /// Rebuilds a code definition from its stored parts, for a persistence
    /// layer restoring a saved project.
    pub fn restore(id: CodeDefId, name: String, color: u8, theme_id: Option<ThemeId>) -> (r: Self)
        ensures
            r@ == (CodeDefV { id, name: name@, color, theme_id }),
    {
        CodeDef { id, name, color, theme_id }
    }

    /// An identical copy.
    pub fn duplicate(&self) -> (r: Self)
        ensures
            r@ == self@,
    {
        CodeDef {
            id: self.id,
            name: self.name.clone(),
            color: self.color,
            theme_id: self.theme_id,
        }
    }

    /// The display name.
    pub fn name(&self) -> (r: &str)
        ensures
            r@ == self@.name,
    {
        self.name.as_str()
    }

    /// The display color.
    pub fn color(&self) -> (r: u8)
        ensures
            r == self@.color,
    {
        self.color
    }

    /// The theme the code is grouped under, if any.
    pub fn theme_id(&self) -> (r: Option<ThemeId>)
        ensures
            r == self@.theme_id,
    {
        self.theme_id
    }

    /// Regroups the code under `theme_id` (or makes it top-level).
    pub fn set_theme_id(&mut self, theme_id: Option<ThemeId>)
        ensures
            final(self)@ == (CodeDefV { theme_id, ..old(self)@ }),
    {
        self.theme_id = theme_id;
    }
}

/// Abstract value of a [`ThemeDef`].
pub ghost struct ThemeDefV {
    pub id: ThemeId,
    pub name: Seq<char>,
    pub color: u8,
}

/// A flat (non-nested) grouping label for code definitions.
pub struct ThemeDef {
    pub id: ThemeId,
    name: String,
    color: u8,
}

impl View for ThemeDef {
    type V = ThemeDefV;

    closed spec fn view(&self) -> ThemeDefV {
        ThemeDefV { id: self.id, name: self.name@, color: self.color }
    }
}

impl SortableByName for ThemeDef {
    open spec fn sort_key(v: ThemeDefV) -> Seq<char> {
        v.name
    }

    fn key_le(&self, other: &Self) -> (r: bool)
        ensures
            r == chars_le(Self::sort_key(self@), Self::sort_key(other@)),
    {
        str_le(self.name.as_str(), other.name.as_str())
    }
}

impl ThemeDef {
    /// The identifier.
    pub fn id(&self) -> (r: ThemeId)
        ensures
            r == self@.id,
    {
        self.id
    }

    /// Rebuilds a theme from its stored parts, for a persistence layer
    /// restoring a saved project.
    pub fn restore(id: ThemeId, name: String, color: u8) -> (r: Self)
        ensures
            r@ == (ThemeDefV { id, name: name@, color }),
    {
        ThemeDef { id, name, color }
    }

    /// An identical copy.
    pub fn duplicate(&self) -> (r: Self)
        ensures
            r@ == self@,
    {
        ThemeDef { id: self.id, name: self.name.clone(), color: self.color }
    }

    /// The display name.
    pub fn name(&self) -> (r: &str)
        ensures
            r@ == self@.name,
    {
        self.name.as_str()
    }

    /// The display color.
    pub fn color(&self) -> (r: u8)
        ensures
            r == self@.color,
    {
        self.color
    }
}

/// Abstract value of a [`QualCode`].
pub ghost struct QualCodeV {
    pub id: QualCodeId,
    pub def_id: CodeDefId,
    pub highlight: HighlightV,
    pub snippet: Seq<char>,
}

/// One concrete application of a code definition to a highlighted span of
/// text, together with the text snippet it covers.
pub struct QualCode {
    pub id: QualCodeId,
    def_id: CodeDefId,
    highlight: Highlight,
    snippet: String,
}

impl View for QualCode {
    type V = QualCodeV;

    closed spec fn view(&self) -> QualCodeV {
        QualCodeV {
            id: self.id,
            def_id: self.def_id,
            highlight: self.highlight@,
            snippet: self.snippet@,
        }
    }
}

impl QualCode {
    /// The identifier.
    pub fn id(&self) -> (r: QualCodeId)
        ensures
            r == self@.id,
    {
        self.id
    }

    /// Rebuilds an applied code from its stored parts, for a persistence
    /// layer restoring a saved project.
    pub fn restore(id: QualCodeId, def_id: CodeDefId, highlight: Highlight, snippet: String) -> (r:
        Self)
        ensures
            r@ == (QualCodeV { id, def_id, highlight: highlight@, snippet: snippet@ }),
    {
        QualCode { id, def_id, highlight, snippet }
    }

    /// An identical copy.
    pub fn duplicate(&self) -> (r: Self)
        ensures
            r@ == self@,
    {
        QualCode {
            id: self.id,
            def_id: self.def_id,
            highlight: self.highlight,
            snippet: self.snippet.clone(),
        }
    }

    /// The code definition this application instantiates.
    pub fn def_id(&self) -> (r: CodeDefId)
        ensures
            r == self@.def_id,
    {
        self.def_id
    }

    /// The text block the highlight lies in.
    pub fn block_id(&self) -> (r: crate::ids::BlockId)
        ensures
            r == self@.highlight.block_id,
    {
        self.highlight.block_id()
    }

    /// The bounds of the highlighted span.
    pub fn position(&self) -> (r: (u64, u64))
        ensures
            r.0 == self@.highlight.start,
            r.1 == self@.highlight.end,
    {
        (self.highlight.start(), self.highlight.end())
    }

    /// The covered text.
    pub fn snippet(&self) -> (r: &str)
        ensures
            r@ == self@.snippet,
    {
        self.snippet.as_str()
    }
}

} // verus!

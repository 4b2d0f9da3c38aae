//! The two glyph tables: what an open ancestor level draws in front of the
//! lines beneath it, and what stands directly before an item's label.

use vstd::prelude::*;

verus! {

/// Drawn under an ancestor level that still has siblings to come.
pub const LEVEL_CONTEXT: &'static str = "│   ";

/// Drawn under an ancestor level that has finished.
pub const EMPTY_CONTEXT: &'static str = "    ";

/// Stands before an item that has siblings after it.
pub const DEFAULT_ITEM_PREFIX: &'static str = "├── ";

/// Stands before the last item of a level.
pub const DEFAULT_LAST_ITEM_PREFIX: &'static str = "└── ";

/// The text of a [`ContextFormat`]: one glyph for an ancestor level that
/// still has siblings to come, one for a level that has closed.
pub ghost struct ContextGlyphs {
    pub continuation: Seq<char>,
    pub terminal: Seq<char>,
}

impl ContextGlyphs {
    /// The glyphs in effect until a caller sets others.
    pub open spec fn standard() -> Self {
        ContextGlyphs { continuation: LEVEL_CONTEXT@, terminal: EMPTY_CONTEXT@ }
    }

    /// The contribution of one ancestor level: `terminal` where that level
    /// has finished, `continuation` where it has not.
    pub open spec fn context(self, is_last_in_ancestry: bool) -> Seq<char> {
        if is_last_in_ancestry {
            self.terminal
        } else {
            self.continuation
        }
    }
}

/// The text of an [`ItemPrefixFormat`]: one glyph for an item with siblings
/// after it, one for the last item of its level.
pub ghost struct PrefixGlyphs {
    pub branch: Seq<char>,
    pub leaf: Seq<char>,
}

impl PrefixGlyphs {
    /// The glyphs in effect until a caller sets others.
    pub open spec fn standard() -> Self {
        PrefixGlyphs { branch: DEFAULT_ITEM_PREFIX@, leaf: DEFAULT_LAST_ITEM_PREFIX@ }
    }

    /// The glyph that precedes an item's label: `leaf` for the last sibling,
    /// `branch` for any other.
    pub open spec fn prefix(self, is_last: bool) -> Seq<char> {
        if is_last {
            self.leaf
        } else {
            self.branch
        }
    }
}

/// The pair of glyphs from which the indentation of a line is built, one
/// glyph per open ancestor level.
pub struct ContextFormat<'a> {
    empty: &'a str,
    level: &'a str,
}

impl<'a> View for ContextFormat<'a> {
    type V = ContextGlyphs;

    closed spec fn view(&self) -> ContextGlyphs {
        ContextGlyphs { continuation: self.level@, terminal: self.empty@ }
    }
}

impl<'a> ContextFormat<'a> {
    /// A format that draws `empty_context` under a level that has finished
    /// and `level_context` under one that has not.
    pub fn new(empty_context: &'a str, level_context: &'a str) -> (format: Self)
        ensures
            format@.terminal == empty_context@,
            format@.continuation == level_context@,
    {
        ContextFormat { empty: empty_context, level: level_context }
    }

    /// The glyph for one ancestor level.
    pub fn context(&self, is_last: bool) -> (glyph: &'a str)
        ensures
            glyph@ == self@.context(is_last),
    {
        if is_last {
            self.empty
        } else {
            self.level
        }
    }

    /// A vertical line, four cells wide, under an unfinished level, and four
    /// blanks under a finished one.
    pub fn default() -> (format: Self)
        ensures
            format@ == ContextGlyphs::standard(),
    {
        ContextFormat { empty: EMPTY_CONTEXT, level: LEVEL_CONTEXT }
    }
}

/// The pair of glyphs that stand directly before an item's label.
pub struct ItemPrefixFormat<'a> {
    item: &'a str,
    last: &'a str,
}

impl<'a> View for ItemPrefixFormat<'a> {
    type V = PrefixGlyphs;

    closed spec fn view(&self) -> PrefixGlyphs {
        PrefixGlyphs { branch: self.item@, leaf: self.last@ }
    }
}

impl<'a> ItemPrefixFormat<'a> {
    /// A format that puts `item_prefix` before an item with siblings after
    /// it and `last_item_prefix` before the last item of a level.
    pub fn new(item_prefix: &'a str, last_item_prefix: &'a str) -> (format: Self)
        ensures
            format@.branch == item_prefix@,
            format@.leaf == last_item_prefix@,
    {
        ItemPrefixFormat { item: item_prefix, last: last_item_prefix }
    }

    /// The glyph for one item.
    pub fn prefix(&self, is_last: bool) -> (glyph: &'a str)
        ensures
            glyph@ == self@.prefix(is_last),
    {
        if is_last {
            self.last
        } else {
            self.item
        }
    }

    /// A tee before an item with siblings after it, an elbow before the last.
    pub fn default() -> (format: Self)
        ensures
            format@ == PrefixGlyphs::standard(),
    {
        ItemPrefixFormat { item: DEFAULT_ITEM_PREFIX, last: DEFAULT_LAST_ITEM_PREFIX }
    }
}

} // verus!

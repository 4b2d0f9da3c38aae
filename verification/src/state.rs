//! The formatter as a value of mathematics: what it has written, how deep
//! it stands, and what each open level adds to a line. Every operation of
//! the formatter is a function on this state.

use crate::format::{ContextGlyphs, PrefixGlyphs};
use crate::sink::appended;
use vstd::prelude::*;

verus! {

/// The state of a formatter.
///
/// `segments` holds one entry for each open level beyond the first, from
/// the outermost to the innermost: the glyph that the level puts in front
/// of the lines beneath it. The first level adds nothing, since the items
/// directly under the title are indented by their prefix alone.
pub ghost struct FormatterState {
    /// All the text that the sink holds, or `None` where the sink gives
    /// no account of it.
    pub output: Option<Seq<char>>,
    /// Whether the sink accepts whatever it is given.
    pub infallible: bool,
    /// The label that opens every line, the title's included.
    pub leading: Seq<char>,
    /// The number of open levels; below zero after more closings than
    /// openings.
    pub depth: int,
    /// The contributions of the open levels beyond the first.
    pub segments: Seq<Seq<char>>,
    /// The glyphs for ancestor levels that are in effect.
    pub context_format: ContextGlyphs,
    /// The glyphs for items that are in effect.
    pub prefix_format: PrefixGlyphs,
}

/// How often `glyph` stands among `segments`.
pub open spec fn count_glyph(segments: Seq<Seq<char>>, glyph: Seq<char>) -> nat
    decreases segments.len(),
{
    if segments.len() == 0 {
        0
    } else {
        count_glyph(segments.drop_last(), glyph) + if segments.last() == glyph {
            1nat
        } else {
            0nat
        }
    }
}

/// One call on a formatter that has been created: everything a caller can
/// do to it but hand it to a value that draws itself.
pub ghost enum Step {
    /// A level is opened.
    BeginLevel { is_last_branch: bool },
    /// The innermost level is closed.
    EndLevel,
    /// An item is written, and the sink accepts it.
    Write { is_last: bool, item: Seq<char> },
    /// Other glyphs for ancestor levels are put in effect.
    SetContextFormat { context: ContextGlyphs },
    /// Other glyphs for items are put in effect.
    SetPrefixFormat { prefix: PrefixGlyphs },
}

impl FormatterState {
    /// The state of a formatter that has just written its title to a
    /// sink which held `before`.
    pub open spec fn created(
        before: Option<Seq<char>>,
        infallible: bool,
        title: Seq<char>,
        leading: Seq<char>,
    ) -> Self {
        FormatterState {
            output: appended(before, leading + title + seq!['\n']),
            infallible,
            leading,
            depth: 0,
            segments: Seq::empty(),
            context_format: ContextGlyphs::standard(),
            prefix_format: PrefixGlyphs::standard(),
        }
    }

    /// There is one segment for each open level beyond the first.
    pub open spec fn wf(self) -> bool {
        self.segments.len() == if self.depth > 1 {
            self.depth - 1
        } else {
            0
        }
    }

    /// The indentation of a line: the segments, outermost first.
    pub open spec fn context(self) -> Seq<char> {
        self.segments.flatten()
    }

    /// For each segment, where it begins within the context.
    pub open spec fn level_offsets(self) -> Seq<int> {
        Seq::new(self.segments.len(), |i: int| self.segments.take(i).flatten().len() as int)
    }

    /// The line for one item: label, indentation, prefix glyph, the item,
    /// and a newline, with nothing between them.
    pub open spec fn line(self, is_last: bool, item: Seq<char>) -> Seq<char> {
        self.leading + self.context() + self.prefix_format.prefix(is_last) + item + seq!['\n']
    }

    /// Whether two states differ in nothing but the text written.
    pub open spec fn same_bookkeeping(self, other: Self) -> bool {
        other == (FormatterState { output: other.output, ..self })
    }

    /// Opens a level. `is_last_branch` says whether the item that owns the
    /// new level was the last of its siblings.
    pub open spec fn begin_level(self, is_last_branch: bool) -> Self {
        FormatterState {
            depth: self.depth + 1,
            segments: if self.depth + 1 > 1 {
                self.segments.push(self.context_format.context(is_last_branch))
            } else {
                self.segments
            },
            ..self
        }
    }

    /// Closes the innermost level and drops its segment, if it has one.
    pub open spec fn end_level(self) -> Self {
        FormatterState {
            depth: self.depth - 1,
            segments: if self.segments.len() > 0 {
                self.segments.drop_last()
            } else {
                self.segments
            },
            ..self
        }
    }

    /// Whether writing an item turns the innermost segment into the
    /// terminal glyph: the item is the last of its level, and there is a
    /// segment for a level as deep as the one written to.
    pub open spec fn downgrades(self, is_last: bool) -> bool {
        is_last && self.segments.len() > 0 && self.segments.len() > self.depth - 1
    }

    /// Writes one item.
    pub open spec fn write(self, is_last: bool, item: Seq<char>) -> Self {
        FormatterState {
            output: appended(self.output, self.line(is_last, item)),
            segments: if self.downgrades(is_last) {
                self.segments.update(self.segments.len() - 1, self.context_format.context(true))
            } else {
                self.segments
            },
            ..self
        }
    }

    /// Writes the first `count` of `items` as the children of one level:
    /// the item that ends the whole sequence is written as the last, every
    /// other as not the last.
    pub open spec fn write_items(self, items: Seq<Seq<char>>, count: nat) -> Self
        decreases count,
    {
        if count == 0 {
            self
        } else {
            self.write_items(items, (count - 1) as nat).write(
                count == items.len(),
                items[count - 1],
            )
        }
    }

    /// The lines for the first `count` of `items`, written as the children
    /// of the innermost level: one line for each, in order, and the prefix
    /// glyph of the last on the item that ends the whole sequence alone.
    pub open spec fn lines(self, items: Seq<Seq<char>>, count: nat) -> Seq<char>
        decreases count,
    {
        if count == 0 {
            Seq::empty()
        } else {
            self.lines(items, (count - 1) as nat) + self.line(
                count == items.len(),
                items[count - 1],
            )
        }
    }

    /// The number of segments that are the continuation glyph in effect.
    pub open spec fn continuation_count(self) -> nat {
        count_glyph(self.segments, self.context_format.continuation)
    }

    /// Opens a level, writes `items` as its children, and closes it.
    pub open spec fn write_level(self, is_last_branch: bool, items: Seq<Seq<char>>) -> Self {
        self.begin_level(is_last_branch).write_items(items, items.len()).end_level()
    }

    /// Puts other glyphs for ancestor levels in effect.
    pub open spec fn with_context_format(self, glyphs: ContextGlyphs) -> Self {
        FormatterState { context_format: glyphs, ..self }
    }

    /// Puts other glyphs for items in effect.
    pub open spec fn with_prefix_format(self, glyphs: PrefixGlyphs) -> Self {
        FormatterState { prefix_format: glyphs, ..self }
    }

    /// The state after one call.
    pub open spec fn step(self, step: Step) -> Self {
        match step {
            Step::BeginLevel { is_last_branch } => self.begin_level(is_last_branch),
            Step::EndLevel => self.end_level(),
            Step::Write { is_last, item } => self.write(is_last, item),
            Step::SetContextFormat { context } => self.with_context_format(context),
            Step::SetPrefixFormat { prefix } => self.with_prefix_format(prefix),
        }
    }

    /// The state after a sequence of calls, made in order.
    pub open spec fn run(self, steps: Seq<Step>) -> Self
        decreases steps.len(),
    {
        if steps.len() == 0 {
            self
        } else {
            self.run(steps.drop_last()).step(steps.last())
        }
    }
}

} // verus!

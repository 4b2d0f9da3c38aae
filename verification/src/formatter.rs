//! The formatter: the engine that keeps, for every open level, what that
//! level draws in front of the lines beneath it.

use crate::format::{ContextFormat, ItemPrefixFormat};
use crate::sink::{appended, lemma_appended_twice, Sink, WriteFailure};
use crate::state::FormatterState;
use vstd::prelude::*;

verus! {

/// A value that can draw itself, and what lies beneath it, into a formatter.
///
/// What a value draws is its own affair: it says so in `rendered`, and
/// names in `can_render` the states from which it can start.
pub trait TreeDisplay {
    /// The states of a formatter from which this value can be drawn.
    open spec fn can_render(&self, before: FormatterState) -> bool {
        true
    }

    /// What drawing this value makes of the state `before`.
    open spec fn rendered(
        &self,
        before: FormatterState,
        after: FormatterState,
        result: Result<(), WriteFailure>,
    ) -> bool {
        true
    }

    /// Draws this value into `tf`, which stays bound to its sink.
    fn fmt<W: Sink>(&self, tf: &mut TreeFormatter<'_, W>) -> (r: Result<(), WriteFailure>)
        requires
            self.can_render(old(tf)@),
        ensures
            self.rendered(old(tf)@, final(tf)@, r),
            *final(final(tf).sink()) == *final(old(tf).sink()),
    ;
}

/// Writes a tree, line by line, into a sink that it holds for as long as
/// it lives.
pub struct TreeFormatter<'a, W: Sink> {
    inner: &'a mut W,
    leading: &'a str,
    level: i64,
    segments: Vec<&'a str>,
    context_format: ContextFormat<'a>,
    prefix_format: ItemPrefixFormat<'a>,
}

impl<'a, W: Sink> View for TreeFormatter<'a, W> {
    type V = FormatterState;

    closed spec fn view(&self) -> FormatterState {
        FormatterState {
            output: self.inner.text(),
            infallible: self.inner.infallible(),
            leading: self.leading@,
            depth: self.level as int,
            segments: self.segments@.map_values(|glyph: &'a str| glyph@),
            context_format: self.context_format@,
            prefix_format: self.prefix_format@,
        }
    }
}

impl<'a, W: Sink> TreeFormatter<'a, W> {
    /// The borrow of the sink that this formatter holds.
    pub closed spec fn sink(&self) -> &'a mut W {
        self.inner
    }

    /// A formatter that is no longer used has left the sink as it is.
    pub proof fn lemma_sink_is_released(&self)
        requires
            has_resolved(*self),
        ensures
            *self.sink() == *final(self.sink()),
    {
    }

    /// The text of the state is the text of the sink, and the sink is as
    /// reliable as the state says.
    pub proof fn lemma_output_is_sink_text(&self)
        ensures
            self@.output == self.sink().text(),
            self@.infallible == self.sink().infallible(),
    {
    }

    /// The number of levels that are open; below zero after more closings
    /// than openings.
    pub fn depth(&self) -> (depth: i64)
        ensures
            depth == self@.depth,
    {
        self.level
    }

    /// A formatter for `inner`, with the standard glyphs and no label. The
    /// title is written at once, on a line of its own.
    pub fn new(title: &str, inner: &'a mut W) -> (r: Result<Self, WriteFailure>)
        ensures
            r matches Ok(formatter) ==> formatter@ == FormatterState::created(
                old(inner).text(),
                old(inner).infallible(),
                title@,
                Seq::empty(),
            ) && *final(formatter.sink()) == *final(inner),
            r is Err ==> final(inner).infallible() == old(inner).infallible(),
            old(inner).infallible() ==> r is Ok,
    {
        proof {
            reveal_strlit("");
            assert(""@ =~= Seq::<char>::empty());
        }
        Self::with_context(title, inner, "")
    }

    /// A formatter for `inner`, with the standard glyphs. The title is
    /// written at once, on a line of its own; `context` is a label that
    /// opens that line and every line after it.
    pub fn with_context(title: &str, inner: &'a mut W, context: &'a str) -> (r: Result<
        Self,
        WriteFailure,
    >)
        ensures
            r matches Ok(formatter) ==> formatter@ == FormatterState::created(
                old(inner).text(),
                old(inner).infallible(),
                title@,
                context@,
            ) && *final(formatter.sink()) == *final(inner),
            r is Err ==> final(inner).infallible() == old(inner).infallible(),
            old(inner).infallible() ==> r is Ok,
    {
        inner.write_str(context)?;
        inner.write_str(title)?;
        inner.write_str("\n")?;
        proof {
            reveal_strlit("\n");
            assert("\n"@ =~= seq!['\n']);
            lemma_appended_twice(old(inner).text(), context@, title@);
            lemma_appended_twice(old(inner).text(), context@ + title@, seq!['\n']);
        }
        let formatter = TreeFormatter {
            inner,
            leading: context,
            level: 0,
            segments: Vec::new(),
            context_format: ContextFormat::default(),
            prefix_format: ItemPrefixFormat::default(),
        };
        assert(formatter@.segments =~= Seq::empty());
        Ok(formatter)
    }

    /// Puts other glyphs for ancestor levels in effect, for the levels
    /// opened and the last items written from now on. What has been
    /// written, and the segments of the levels that are open, stay.
    pub fn context_format(&mut self, context_format: ContextFormat<'a>) -> (formatter: &mut Self)
        ensures
            formatter@ == old(self)@.with_context_format(context_format@),
            *final(formatter) == *final(self),
            *final(formatter.sink()) == *final(old(self).sink()),
    {
        self.context_format = context_format;
        self
    }

    /// Puts other glyphs for items in effect, for the items written from
    /// now on. What has been written stays.
    pub fn prefix_format(&mut self, prefix_format: ItemPrefixFormat<'a>) -> (formatter: &mut Self)
        ensures
            formatter@ == old(self)@.with_prefix_format(prefix_format@),
            *final(formatter) == *final(self),
            *final(formatter.sink()) == *final(old(self).sink()),
    {
        self.prefix_format = prefix_format;
        self
    }

    /// Opens a level beneath the item written last. `is_last` says whether
    /// that item was the last of its siblings.
    pub fn begin_level(&mut self, is_last: bool)
        requires
            old(self)@.depth < i64::MAX,
        ensures
            final(self)@ == old(self)@.begin_level(is_last),
            *final(final(self).sink()) == *final(old(self).sink()),
    {
        self.level = self.level + 1;
        if self.level > 1 {
            let glyph = self.context_format.context(is_last);
            self.segments.push(glyph);
            assert(self.segments@.map_values(|glyph: &'a str| glyph@) =~= old(self).segments@.map_values(
                |glyph: &'a str| glyph@,
            ).push(glyph@));
        }
    }

    /// Closes the innermost level. Closing more levels than were opened is
    /// not an error: the depth goes below zero.
    pub fn end_level(&mut self)
        requires
            old(self)@.depth > i64::MIN,
        ensures
            final(self)@ == old(self)@.end_level(),
            *final(final(self).sink()) == *final(old(self).sink()),
    {
        self.level = self.level - 1;
        if self.segments.len() > 0 {
            self.segments.pop();
            assert(self.segments@.map_values(|glyph: &'a str| glyph@)
                =~= old(self)@.segments.drop_last());
        }
    }

    /// Writes one item on a line of its own: the label, one glyph for each
    /// open level beyond the first, the item's prefix glyph, the item, and
    /// a newline. An item that is the last of a level whose segment stands
    /// as deep as the line then turns that segment into the terminal glyph.
    ///
    /// Where the sink refuses any part of the line, the error is returned
    /// and the levels are left as they were.
    pub fn write(&mut self, is_last: bool, item: &str) -> (r: Result<(), WriteFailure>)
        ensures
            r is Ok ==> final(self)@ == old(self)@.write(is_last, item@),
            r is Err ==> old(self)@.same_bookkeeping(final(self)@),
            old(self)@.infallible ==> r is Ok,
            *final(final(self).sink()) == *final(old(self).sink()),
    {
        let ghost before = self@;
        let prefix = self.prefix_format.prefix(is_last);
        self.write_context()?;
        self.inner.write_str(prefix)?;
        self.inner.write_str(item)?;
        self.inner.write_str("\n")?;
        proof {
            reveal_strlit("\n");
            assert("\n"@ =~= seq!['\n']);
            let indent = before.leading + before.context();
            lemma_appended_twice(before.output, indent, prefix@);
            lemma_appended_twice(before.output, indent + prefix@, item@);
            lemma_appended_twice(before.output, indent + prefix@ + item@, seq!['\n']);
        }
        let count = self.segments.len();
        if is_last && count > 0 && reaches(count, self.level) {
            let glyph = self.context_format.context(true);
            self.segments.set(count - 1, glyph);
            assert(self.segments@.map_values(|glyph: &'a str| glyph@) =~= old(self)@.segments.update(
                count - 1,
                glyph@,
            ));
        }
        Ok(())
    }

    /// Writes one item that is anything that can be displayed, format
    /// arguments included: the item is rendered to text first, and that
    /// text is written as [`TreeFormatter::write`] writes it.
    pub fn write_fmt(&mut self, is_last: bool, item: impl core::fmt::Display) -> (r: Result<
        (),
        WriteFailure,
    >)
        ensures
            exists|text: String| #[trigger]
                vstd::string::to_string_from_display_ensures(&item, text) && (r is Ok
                    ==> final(self)@ == old(self)@.write(is_last, text@)),
            r is Err ==> old(self)@.same_bookkeeping(final(self)@),
            old(self)@.infallible ==> r is Ok,
            *final(final(self).sink()) == *final(old(self).sink()),
    {
        let text = item.to_string();
        self.write(is_last, text.as_str())
    }

    /// Opens a level, writes each of `items` as a child of it, the one at
    /// the end as the last, and closes the level. Without items nothing is
    /// written.
    ///
    /// Where the sink refuses a line, the error is returned at once: the
    /// level stays open and the items after that line are not written.
    pub fn write_level(&mut self, is_last: bool, items: &[String]) -> (r: Result<(), WriteFailure>)
        requires
            old(self)@.depth < i64::MAX,
        ensures
            r is Ok ==> final(self)@ == old(self)@.write_level(is_last, texts(items@)),
            r is Err ==> old(self)@.begin_level(is_last).same_bookkeeping(final(self)@),
            old(self)@.infallible ==> r is Ok,
            *final(final(self).sink()) == *final(old(self).sink()),
    {
        self.begin_level(is_last);
        let ghost opened = self@;
        let count = items.len();
        let mut done: usize = 0;
        while done < count
            invariant
                done <= count == items@.len(),
                opened == old(self)@.begin_level(is_last),
                self@ == opened.write_items(texts(items@), done as nat),
                done < count ==> opened.same_bookkeeping(self@),
                self@.depth > i64::MIN,
                *final(self.sink()) == *final(old(self).sink()),
            decreases count - done,
        {
            let is_item_last = done + 1 == count;
            self.write(is_item_last, items[done].as_str())?;
            done = done + 1;
        }
        self.end_level();
        Ok(())
    }

    /// Lets `tree` draw itself: the formatter is handed to the value's own
    /// routine as it stands, and what that routine returns is returned.
    pub fn write_tree(&mut self, tree: impl TreeDisplay) -> (r: Result<(), WriteFailure>)
        requires
            tree.can_render(old(self)@),
        ensures
            tree.rendered(old(self)@, final(self)@, r),
            *final(final(self).sink()) == *final(old(self).sink()),
    {
        tree.fmt(self)
    }

    /// Writes what every line begins with: the label and the segments of
    /// the open levels, outermost first.
    fn write_context(&mut self) -> (r: Result<(), WriteFailure>)
        ensures
            r is Ok ==> final(self)@ == (FormatterState {
                output: appended(old(self)@.output, old(self)@.leading + old(self)@.context()),
                ..old(self)@
            }),
            r is Err ==> old(self)@.same_bookkeeping(final(self)@),
            old(self)@.infallible ==> r is Ok,
            *final(final(self).sink()) == *final(old(self).sink()),
    {
        self.inner.write_str(self.leading)?;
        let ghost glyphs = self@.segments;
        let count = self.segments.len();
        let mut done: usize = 0;
        while done < count
            invariant
                done <= count == glyphs.len(),
                old(self)@.same_bookkeeping(self@),
                glyphs == self@.segments,
                self@.output == appended(
                    old(self)@.output,
                    old(self)@.leading + glyphs.take(done as int).flatten(),
                ),
                *final(self.sink()) == *final(old(self).sink()),
            decreases count - done,
        {
            self.inner.write_str(self.segments[done])?;
            proof {
                let drawn = glyphs.take(done as int);
                drawn.lemma_flatten_push(glyphs[done as int]);
                assert(glyphs.take(done + 1) =~= drawn.push(glyphs[done as int]));
                lemma_appended_twice(
                    old(self)@.output,
                    old(self)@.leading + drawn.flatten(),
                    glyphs[done as int],
                );
                assert(old(self)@.leading + drawn.flatten() + glyphs[done as int]
                    =~= old(self)@.leading + drawn.push(glyphs[done as int]).flatten());
            }
            done = done + 1;
        }
        assert(glyphs.take(count as int) =~= glyphs);
        Ok(())
    }
}

/// The text of each of `items`.
pub open spec fn texts(items: Seq<String>) -> Seq<Seq<char>> {
    items.map_values(|item: String| item@)
}

/// Whether a stack of `count` segments holds one for a level as deep as
/// `level`.
fn reaches(count: usize, level: i64) -> (r: bool)
    ensures
        r == (count > level - 1),
{
    level <= 0 || level as u64 <= count as u64
}

} // verus!

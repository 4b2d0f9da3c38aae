//! What holds of every formatter, proved over its state.

use crate::format::{ContextGlyphs, PrefixGlyphs};
use crate::sink::{appended, lemma_appended_twice};
use crate::state::{count_glyph, FormatterState, Step};
use vstd::prelude::*;

verus! {

/// A new formatter has one segment for each open level beyond the first:
/// it has no level open and no segment.
pub proof fn lemma_created_is_wf(
    before: Option<Seq<char>>,
    infallible: bool,
    title: Seq<char>,
    leading: Seq<char>,
)
    ensures
        FormatterState::created(before, infallible, title, leading).wf(),
{
}

/// The first line is the label and the title: no glyph stands on it,
/// whatever glyphs there are.
pub proof fn lemma_root_line(
    before: Seq<char>,
    infallible: bool,
    title: Seq<char>,
    leading: Seq<char>,
)
    ensures
        FormatterState::created(Some(before), infallible, title, leading).output == Some(
            before + (leading + title + seq!['\n']),
        ),
{
}

/// No call breaks the count of segments: after it there is still one for
/// each open level beyond the first.
pub proof fn lemma_step_keeps_wf(state: FormatterState, step: Step)
    requires
        state.wf(),
    ensures
        state.step(step).wf(),
{
}

/// After any sequence of calls there is one segment for each open level
/// beyond the first.
pub proof fn lemma_run_keeps_wf(state: FormatterState, steps: Seq<Step>)
    requires
        state.wf(),
    ensures
        state.run(steps).wf(),
    decreases steps.len(),
{
    if steps.len() > 0 {
        lemma_run_keeps_wf(state, steps.drop_last());
        lemma_step_keeps_wf(state.run(steps.drop_last()), steps.last());
    }
}

/// Writing an item never touches the segments: with one segment for each
/// open level beyond the first, there is none for a level as deep as the
/// line, so the line and nothing else is what a write adds.
pub proof fn lemma_write_keeps_levels(state: FormatterState, is_last: bool, item: Seq<char>)
    requires
        state.wf(),
    ensures
        !state.downgrades(is_last),
        state.write(is_last, item) == (FormatterState {
            output: appended(state.output, state.line(is_last, item)),
            ..state
        }),
{
}

/// Writing the first `count` of `items` adds their lines and changes
/// nothing else.
pub proof fn lemma_write_items(state: FormatterState, items: Seq<Seq<char>>, count: nat)
    requires
        state.wf(),
    ensures
        state.write_items(items, count) == (FormatterState {
            output: appended(state.output, state.lines(items, count)),
            ..state
        }),
    decreases count,
{
    if count == 0 {
        if let Some(held) = state.output {
            assert(held + Seq::<char>::empty() =~= held);
        }
    } else {
        let earlier = (count - 1) as nat;
        let reached = state.write_items(items, earlier);
        lemma_write_items(state, items, earlier);
        lemma_write_keeps_levels(reached, count == items.len(), items[count - 1]);
        lemma_appended_twice(
            state.output,
            state.lines(items, earlier),
            state.line(count == items.len(), items[count - 1]),
        );
    }
}

/// A level written in one call leaves the formatter as deep as it was,
/// with the segments it had. What it adds is one line for each item, all
/// under the glyph of the new level, and the last item alone is marked as
/// the last: without items nothing is added, and an only item is the last.
pub proof fn lemma_write_level(state: FormatterState, is_last_branch: bool, items: Seq<Seq<char>>)
    requires
        state.wf(),
    ensures
        state.write_level(is_last_branch, items) == (FormatterState {
            output: appended(
                state.output,
                state.begin_level(is_last_branch).lines(items, items.len()),
            ),
            ..state
        }),
        items.len() == 0 ==> state.write_level(is_last_branch, items) == state,
        items.len() == 1 ==> state.begin_level(is_last_branch).lines(items, 1)
            == state.begin_level(is_last_branch).line(true, items[0]),
{
    let opened = state.begin_level(is_last_branch);
    lemma_write_items(opened, items, items.len());
    assert(opened.end_level().segments =~= state.segments);
    if items.len() == 0 {
        if let Some(held) = state.output {
            assert(held + Seq::<char>::empty() =~= held);
        }
    }
    if items.len() == 1 {
        assert(opened.lines(items, 0) + opened.line(true, items[0]) =~= opened.line(
            true,
            items[0],
        ));
    }
}

/// Opening a level beneath another is an append to the indentation: the
/// new level's segment begins where the indentation ended, and its glyph
/// stands behind what was there.
pub proof fn lemma_begin_level_appends(state: FormatterState, is_last_branch: bool)
    requires
        state.depth >= 1,
    ensures
        state.begin_level(is_last_branch).context() == state.context()
            + state.context_format.context(is_last_branch),
        state.begin_level(is_last_branch).level_offsets() == state.level_offsets().push(
            state.context().len() as int,
        ),
{
    let glyph = state.context_format.context(is_last_branch);
    let opened = state.begin_level(is_last_branch);
    state.segments.lemma_flatten_push(glyph);
    assert forall|at: int| 0 <= at < opened.segments.len() implies opened.level_offsets()[at]
        == state.level_offsets().push(state.context().len() as int)[at] by {
        if at < state.segments.len() {
            assert(opened.segments.take(at) =~= state.segments.take(at));
        } else {
            assert(opened.segments.take(at) =~= state.segments);
        }
    }
    assert(opened.level_offsets() =~= state.level_offsets().push(state.context().len() as int));
}

/// Closing a level that has a segment cuts the indentation back to where
/// that segment began, and forgets where it began.
pub proof fn lemma_end_level_truncates(state: FormatterState)
    requires
        state.segments.len() > 0,
    ensures
        state.end_level().context() == state.context().take(state.level_offsets().last()),
        state.end_level().level_offsets() == state.level_offsets().drop_last(),
{
    let closed = state.end_level();
    let kept = state.segments.drop_last();
    assert(state.segments.take(state.segments.len() - 1) =~= kept);
    kept.lemma_flatten_push(state.segments.last());
    assert(kept.push(state.segments.last()) =~= state.segments);
    assert(state.context().take(kept.flatten().len() as int) =~= kept.flatten());
    assert forall|at: int| 0 <= at < closed.segments.len() implies closed.level_offsets()[at]
        == state.level_offsets().drop_last()[at] by {
        assert(closed.segments.take(at) =~= state.segments.take(at));
    }
    assert(closed.level_offsets() =~= state.level_offsets().drop_last());
}

/// A write that turns the innermost segment into the terminal glyph
/// replaces the end of the indentation, from where that segment began, and
/// moves no offset.
pub proof fn lemma_downgrade_rewrites_tail(state: FormatterState, item: Seq<char>)
    requires
        state.downgrades(true),
    ensures
        state.write(true, item).context() == state.context().take(state.level_offsets().last())
            + state.context_format.terminal,
        state.write(true, item).level_offsets() == state.level_offsets(),
{
    let written = state.write(true, item);
    let kept = state.segments.drop_last();
    assert(state.segments.take(state.segments.len() - 1) =~= kept);
    kept.lemma_flatten_push(state.segments.last());
    assert(kept.push(state.segments.last()) =~= state.segments);
    assert(state.context().take(kept.flatten().len() as int) =~= kept.flatten());
    kept.lemma_flatten_push(state.context_format.terminal);
    assert(kept.push(state.context_format.terminal) =~= written.segments);
    assert forall|at: int| 0 <= at < written.segments.len() implies written.level_offsets()[at]
        == state.level_offsets()[at] by {
        assert(written.segments.take(at) =~= state.segments.take(at));
    }
    assert(written.level_offsets() =~= state.level_offsets());
}

/// What one call has found written stays written: a call adds text behind
/// it or adds none.
pub proof fn lemma_step_extends_output(state: FormatterState, step: Step)
    ensures
        state.output is None ==> state.step(step).output is None,
        state.output matches Some(before) ==> state.step(step).output matches Some(after)
            && before.is_prefix_of(after),
{
    if let Some(before) = state.output {
        let after = state.step(step).output->0;
        assert(before.is_prefix_of(after));
    }
}

/// What has been written stays written, whatever is called afterwards.
pub proof fn lemma_run_extends_output(state: FormatterState, steps: Seq<Step>)
    ensures
        state.output is None ==> state.run(steps).output is None,
        state.output matches Some(before) ==> state.run(steps).output matches Some(after)
            && before.is_prefix_of(after),
    decreases steps.len(),
{
    if steps.len() > 0 {
        let reached = state.run(steps.drop_last());
        lemma_run_extends_output(state, steps.drop_last());
        lemma_step_extends_output(reached, steps.last());
        if let Some(before) = state.output {
            let between = reached.output->0;
            let after = state.run(steps).output->0;
            assert(before.is_prefix_of(after)) by {
                assert(before =~= between.subrange(0, before.len() as int));
                assert(between =~= after.subrange(0, between.len() as int));
            }
        }
    }
}

/// Other glyphs hold for what is written after they are put in effect.
/// The text written before, the segments of the levels that are open and
/// the depth stay as they are, and no later call changes the text that was
/// there; an item written next gets its glyphs from the tables then in
/// effect.
pub proof fn lemma_reconfiguring(
    state: FormatterState,
    context: ContextGlyphs,
    prefix: PrefixGlyphs,
    steps: Seq<Step>,
    is_last: bool,
    item: Seq<char>,
)
    ensures
        state.with_context_format(context) == (FormatterState { context_format: context, ..state }),
        state.with_prefix_format(prefix) == (FormatterState { prefix_format: prefix, ..state }),
        state.output matches Some(before) ==> {
            &&& state.with_context_format(context).run(steps).output matches Some(after)
                && before.is_prefix_of(after)
            &&& state.with_prefix_format(prefix).run(steps).output matches Some(after)
                && before.is_prefix_of(after)
        },
        state.with_context_format(context).line(is_last, item) == state.line(is_last, item),
        state.with_prefix_format(prefix).line(is_last, item) == state.leading + state.context()
            + prefix.prefix(is_last) + item + seq!['\n'],
        state.with_context_format(context).begin_level(is_last).segments == if state.depth >= 1 {
            state.segments.push(context.context(is_last))
        } else {
            state.segments
        },
{
    lemma_run_extends_output(state.with_context_format(context), steps);
    lemma_run_extends_output(state.with_prefix_format(prefix), steps);
}

/// A level that is open, as the calls made so far have left it.
pub ghost struct OpenLevel {
    /// What the caller said on opening it: whether the item that owns the
    /// level was the last of its siblings.
    pub is_last_branch: bool,
    /// Whether an item has been written at this level as its last.
    pub finished: bool,
}

/// The levels that are open after `steps`, the outermost first, on a
/// formatter that had none open before.
pub open spec fn open_levels(steps: Seq<Step>) -> Seq<OpenLevel>
    decreases steps.len(),
{
    if steps.len() == 0 {
        Seq::empty()
    } else {
        let before = open_levels(steps.drop_last());
        match steps.last() {
            Step::BeginLevel { is_last_branch } => before.push(
                OpenLevel { is_last_branch, finished: false },
            ),
            Step::EndLevel => if before.len() > 0 {
                before.drop_last()
            } else {
                before
            },
            Step::Write { is_last, item } => if before.len() > 0 && is_last {
                before.update(before.len() - 1, OpenLevel { finished: true, ..before.last() })
            } else {
                before
            },
            _ => before,
        }
    }
}

/// No call of `steps` closes a level when none is open.
pub open spec fn balanced(steps: Seq<Step>) -> bool
    decreases steps.len(),
{
    steps.len() == 0 || {
        &&& balanced(steps.drop_last())
        &&& steps.last() is EndLevel ==> open_levels(steps.drop_last()).len() > 0
    }
}

/// Every level that `steps` open beneath another is opened with the truth:
/// as under a last item exactly where the level around it has written its
/// last item.
pub open spec fn truthful(steps: Seq<Step>) -> bool
    decreases steps.len(),
{
    steps.len() == 0 || {
        &&& truthful(steps.drop_last())
        &&& steps.last() matches Step::BeginLevel { is_last_branch } ==> {
            let before = open_levels(steps.drop_last());
            before.len() > 0 ==> is_last_branch == before.last().finished
        }
    }
}

/// No call of `steps` puts other glyphs for ancestor levels in effect.
pub open spec fn keeps_context_glyphs(steps: Seq<Step>) -> bool {
    forall|at: int| 0 <= at < steps.len() ==> !(#[trigger] steps[at] is SetContextFormat)
}

/// How many of `levels` have not written their last item.
pub open spec fn count_unfinished(levels: Seq<OpenLevel>) -> nat
    decreases levels.len(),
{
    if levels.len() == 0 {
        0
    } else {
        count_unfinished(levels.drop_last()) + if levels.last().finished {
            0nat
        } else {
            1nat
        }
    }
}

/// The levels around the innermost one.
pub open spec fn ancestors(levels: Seq<OpenLevel>) -> Seq<OpenLevel> {
    if levels.len() == 0 {
        levels
    } else {
        levels.drop_last()
    }
}

/// The segments are what the levels were opened with. On a formatter that
/// starts without an open level, after calls that close no level that is
/// not open and leave the glyphs for ancestor levels alone, the depth is
/// the number of open levels, and each level beyond the first has put in
/// front of the lines the glyph for what the caller said on opening it.
pub proof fn lemma_segments_follow_levels(start: FormatterState, steps: Seq<Step>)
    requires
        start.wf(),
        start.depth == 0,
        balanced(steps),
        keeps_context_glyphs(steps),
    ensures
        start.run(steps).context_format == start.context_format,
        start.run(steps).depth == open_levels(steps).len(),
        start.run(steps).segments.len() == ancestors(open_levels(steps)).len(),
        forall|at: int|
            0 <= at < start.run(steps).segments.len() ==> #[trigger] start.run(steps).segments[at]
                == start.context_format.context(open_levels(steps)[at + 1].is_last_branch),
    decreases steps.len(),
{
    if steps.len() > 0 {
        let earlier = steps.drop_last();
        assert(keeps_context_glyphs(earlier)) by {
            assert forall|at: int| 0 <= at < earlier.len() implies !(#[trigger] earlier[at]
                is SetContextFormat) by {
                assert(earlier[at] == steps[at]);
            }
        }
        lemma_segments_follow_levels(start, earlier);
        lemma_run_keeps_wf(start, earlier);
        assert(!(steps[steps.len() - 1] is SetContextFormat));
    }
}

/// Where every level was opened with the truth, what a level beneath
/// another was opened with is whether the level around it has written its
/// last item.
pub proof fn lemma_truthful_levels(steps: Seq<Step>)
    requires
        truthful(steps),
    ensures
        forall|at: int|
            0 <= at < open_levels(steps).len() - 1 ==> (#[trigger] open_levels(steps)[at
                + 1]).is_last_branch == open_levels(steps)[at].finished,
    decreases steps.len(),
{
    if steps.len() > 0 {
        lemma_truthful_levels(steps.drop_last());
        let before = open_levels(steps.drop_last());
        let after = open_levels(steps);
        assert forall|at: int| 0 <= at < after.len() - 1 implies (#[trigger] after[at
            + 1]).is_last_branch == after[at].finished by {
            if at + 1 < before.len() {
                assert(before[at + 1].is_last_branch == before[at].finished);
            }
        }
    }
}

/// Segments and levels that agree one by one agree in number: there are
/// as many continuation glyphs as levels that have not finished.
proof fn lemma_counts_agree(
    segments: Seq<Seq<char>>,
    levels: Seq<OpenLevel>,
    glyphs: ContextGlyphs,
)
    requires
        glyphs.continuation != glyphs.terminal,
        segments.len() == levels.len(),
        forall|at: int|
            0 <= at < segments.len() ==> #[trigger] segments[at] == glyphs.context(
                levels[at].finished,
            ),
    ensures
        count_glyph(segments, glyphs.continuation) == count_unfinished(levels),
    decreases segments.len(),
{
    if segments.len() > 0 {
        let last = segments.len() - 1;
        assert(segments[last] == glyphs.context(levels[last].finished));
        lemma_counts_agree(segments.drop_last(), levels.drop_last(), glyphs);
    }
}

/// In front of a line stand as many continuation glyphs as there are open
/// levels around the line's own that have not written their last item.
///
/// This holds on a formatter that starts without an open level, with a
/// continuation glyph that differs from the terminal glyph, after calls
/// that close no level that is not open, leave the glyphs for ancestor
/// levels alone and open every level with the truth.
pub proof fn lemma_continuations_count_unfinished_ancestors(
    start: FormatterState,
    steps: Seq<Step>,
)
    requires
        start.wf(),
        start.depth == 0,
        start.context_format.continuation != start.context_format.terminal,
        balanced(steps),
        keeps_context_glyphs(steps),
        truthful(steps),
    ensures
        start.run(steps).continuation_count() == count_unfinished(ancestors(open_levels(steps))),
{
    let reached = start.run(steps);
    let levels = open_levels(steps);
    lemma_segments_follow_levels(start, steps);
    lemma_truthful_levels(steps);
    assert forall|at: int| 0 <= at < reached.segments.len() implies #[trigger] reached.segments[at]
        == start.context_format.context(ancestors(levels)[at].finished) by {
        assert(levels[at + 1].is_last_branch == levels[at].finished);
    }
    lemma_counts_agree(reached.segments, ancestors(levels), start.context_format);
}

} // verus!

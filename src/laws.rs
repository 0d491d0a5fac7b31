use vstd::prelude::*;
use crate::event::MdEvent;
use crate::code_block::{all_blank, code_block_text, frame_width_of, framed, max_width, plain_frame, tag_or_default};
use crate::lines::{lines_of, split_from, strip_cr};
use crate::render::{
    bullet_marker, flush_buffer, flush_text, heading_prefix, line_break, margin, quote_prefix, item_step, max, newlines, number_marker, request, state_wf, step,
    spans_code, run, initial_state, next_counter, ListFrame, RenderState, Span,
};
use crate::style::{BOLD, HEADING_COLOR, ITALIC, RESET};
use crate::text::{text_output, text_shows, budget_after, indent_of, join, lemma_indent_len, line_text, text_body, trim_end_spaces, trim_end_lf, trim_lf, trim_start_lf, wrap_of};
use crate::text_util::repeat;
use crate::width::visible_width_of;

verus! {

/// The marker of an item in a list nested at depth `d` (the outermost list
/// at 0) stands behind exactly `2 * d` spaces.
pub proof fn lemma_item_indent(s: RenderState, d: nat)
    requires
        s.list_stack.len() == d + 1,
    ensures
        ({
            let lead = if s.at_line_start { Seq::empty() } else { line_break(s) };
            let marker = match s.list_stack.last().counter {
                Some(n) => number_marker(n as nat),
                None => bullet_marker(),
            };
            item_step(s).1 == lead + indent_of(d) + marker
        }),
        indent_of(d).len() == 2 * d,
        forall|i: int| 0 <= i < 2 * d ==> #[trigger] indent_of(d)[i] == ' ',
{
    lemma_indent_len(d);
    lemma_indent_spaces(d);
}

proof fn lemma_indent_spaces(d: nat)
    ensures
        forall|i: int| 0 <= i < indent_of(d).len() ==> #[trigger] indent_of(d)[i] == ' ',
    decreases d,
{
    if d > 0 {
        lemma_indent_spaces((d - 1) as nat);
        lemma_indent_len((d - 1) as nat);
        assert(indent_of(d) =~= indent_of((d - 1) as nat) + seq![' ', ' ']);
    }
}

/// A link end with no open link shows a lone `]` after the waiting text,
/// and changes nothing else.
pub proof fn lemma_unbalanced_link_end(s: RenderState)
    requires
        s.link_stack.len() == 0,
    ensures
        step(s, MdEvent::LinkEnd) == (flush_buffer(s).0, flush_buffer(s).1 + seq![']']),
{
}

/// Blank lines asked for by neighbouring blocks are not added up: content
/// that asks for `b` after a block that asked for `a` gets the largest of
/// the two and of what was owed before.
pub proof fn lemma_newlines_coalesce(s: RenderState, a: nat, b: nat)
    ensures
        flush_text(request(s, a), b) == repeat(line_break(s), max(max(s.pending_newlines, a), b)),
{
}

/// A heading right after an outermost block quote, which asks for one
/// line, stands exactly two line feeds below it, never three.
pub proof fn lemma_quote_then_heading(s: RenderState, level: u8)
    requires
        state_wf(s),
        s.quote_depth <= 1,
    ensures
        step(step(s, MdEvent::BlockQuoteEnd).0, MdEvent::HeadingStart(level)).1
            == newlines(2) + BOLD@ + HEADING_COLOR@ + heading_prefix(level as nat),
{
    let s1 = step(s, MdEvent::BlockQuoteEnd).0;
    assert(quote_prefix(0) =~= Seq::<char>::empty());
    assert(line_break(s1) =~= seq!['\n']);
}

/// Closing an inner style switches the outer ones back on: after a strong
/// span inside an emphasis closes, the emphasis still applies.
pub proof fn lemma_nested_styles_survive(s: RenderState)
    ensures
        ({
            let s1 = step(s, MdEvent::EmphasisStart).0;
            let s2 = step(s1, MdEvent::StrongStart).0;
            let closed = step(s2, MdEvent::StrongEnd);
            &&& closed.1 == RESET@ + spans_code(s.style_stack) + ITALIC@
            &&& closed.0.style_stack == s.style_stack.push(Span::Emphasis)
        }),
{
    let s1 = step(s, MdEvent::EmphasisStart).0;
    let s2 = step(s1, MdEvent::StrongStart).0;
    assert(s2.style_stack.drop_last() =~= s.style_stack.push(Span::Emphasis));
    assert(spans_code(s.style_stack.push(Span::Emphasis)) =~= spans_code(s.style_stack) + ITALIC@) by {
        assert(s.style_stack.push(Span::Emphasis).drop_last() =~= s.style_stack);
    }
}

proof fn lemma_split_single(t: Seq<char>, cur: Seq<char>)
    requires
        forall|i: int| 0 <= i < t.len() ==> #[trigger] t[i] != '\n',
    ensures
        split_from(t, cur) == seq![strip_cr(cur + t)],
    decreases t.len(),
{
    if t.len() == 0 {
        assert(cur + t =~= cur);
    } else {
        assert(t.drop_first().len() < t.len());
        assert forall|i: int| 0 <= i < t.drop_first().len() implies #[trigger] t.drop_first()[i] != '\n' by {
            assert(t.drop_first()[i] == t[i + 1]);
        }
        lemma_split_single(t.drop_first(), cur.push(t[0]));
        assert(cur.push(t[0]) + t.drop_first() =~= cur + t);
    }
}

proof fn lemma_single_line(s: RenderState, c: Seq<char>)
    requires
        s.list_stack.len() == 0,
        s.quote_depth == 0,
        c.len() > 0,
        forall|i: int| 0 <= i < c.len() ==> #[trigger] c[i] != '\n' && c[i] != '\r',
        c.last() != ' ',
    ensures
        text_shows(c),
        text_output(c, margin(s), s.wrap_width) == join(wrap_of(c, s.wrap_width), seq!['\n']),
{
    assert(trim_start_lf(c) == c);
    assert(trim_end_lf(c) == c);
    assert(trim_lf(c) == c);
    lemma_split_single(c, Seq::empty());
    assert(Seq::<char>::empty() + c =~= c);
    assert(lines_of(c) == seq![c]);
    assert(quote_prefix(0) =~= Seq::<char>::empty());
    assert(indent_of(0) =~= Seq::<char>::empty());
    assert(margin(s) =~= Seq::<char>::empty());
    assert(visible_width_of(margin(s)) == 0);
    assert(budget_after(s.wrap_width, 0) == s.wrap_width);
    assert(seq!['\n'] + margin(s) =~= seq!['\n']);
    assert(trim_end_spaces(c) == c);
    assert(c.subrange(c.len() as int, c.len() as int) =~= Seq::<char>::empty());
    assert(line_text(c, seq!['\n'], s.wrap_width) =~= join(wrap_of(c, s.wrap_width), seq!['\n']));
    assert(text_body(seq![c], margin(s), s.wrap_width) == join(wrap_of(c, s.wrap_width), seq!['\n']));
}

/// Outside quotes, lists and code, a paragraph of two one-line runs of
/// text joined by a soft break is reflowed as one: it shows exactly the
/// lines that the word wrapper makes of the two runs with one space
/// between them, for the wrap budget.
pub proof fn lemma_paragraph_wraps_as_one(s: RenderState, a: String, b: String)
    requires
        !s.in_code_block,
        s.list_stack.len() == 0,
        s.quote_depth == 0,
        s.pending_newlines == 0,
        s.text_buffer.len() == 0,
        a@.len() > 0,
        b@.len() > 0,
        forall|i: int| 0 <= i < a@.len() ==> #[trigger] a@[i] != '\n' && a@[i] != '\r',
        forall|i: int| 0 <= i < b@.len() ==> #[trigger] b@[i] != '\n' && b@[i] != '\r',
        b@.last() != ' ',
    ensures
        ({
            let r1 = step(s, MdEvent::Text(a));
            let r2 = step(r1.0, MdEvent::SoftBreak);
            let r3 = step(r2.0, MdEvent::Text(b));
            let r4 = step(r3.0, MdEvent::ParagraphEnd);
            r1.1 + r2.1 + r3.1 + r4.1 == join(wrap_of(a@ + seq![' '] + b@, s.wrap_width), seq!['\n'])
        }),
{
    let c = a@ + seq![' '] + b@;
    assert forall|i: int| 0 <= i < c.len() implies #[trigger] c[i] != '\n' && c[i] != '\r' by {
        if i < a@.len() {
            assert(c[i] == a@[i]);
        } else if i > a@.len() {
            assert(c[i] == b@[i - a@.len() - 1]);
        }
    }
    assert(c.last() == b@.last());
    assert(trim_start_lf(a@) == a@);
    assert(trim_end_lf(a@) == a@);
    let r1 = step(s, MdEvent::Text(a));
    let r2 = step(r1.0, MdEvent::SoftBreak);
    let r3 = step(r2.0, MdEvent::Text(b));
    assert(Seq::<char>::empty() + a@ =~= a@);
    assert(r3.0.text_buffer =~= c);
    lemma_single_line(r3.0, c);
    assert(repeat(line_break(s), 0) =~= Seq::<char>::empty());
    assert(repeat(line_break(r2.0), 0) =~= Seq::<char>::empty());
    assert(r1.1 =~= Seq::<char>::empty());
    assert(r3.1 =~= Seq::<char>::empty());
}

proof fn lemma_max_width_bounds(lines: Seq<Seq<char>>)
    ensures
        forall|i: int| 0 <= i < lines.len() ==> max_width(lines) >= visible_width_of(#[trigger] lines[i]),
    decreases lines.len(),
{
    if lines.len() > 0 {
        lemma_max_width_bounds(lines.drop_last());
        assert forall|i: int| 0 <= i < lines.len() implies max_width(lines) >= visible_width_of(#[trigger] lines[i]) by {
            if i < lines.len() - 1 {
                assert(lines[i] == lines.drop_last()[i]);
            }
        }
    }
}

/// A code block that is not blank is drawn in a frame, highlighted or
/// plain, whose width is at least 40, at least that of each line it
/// holds, and at least the label's plus 4; where the highlighter fails,
/// the raw lines are shown in the plain frame.
pub proof fn lemma_code_frame(code: Seq<char>, language: Seq<char>, highlighted: Option<Seq<char>>)
    requires
        !all_blank(code),
    ensures
        ({
            let tag = tag_or_default(language);
            let lines = match highlighted {
                Some(h) => lines_of(h),
                None => lines_of(code),
            };
            let w = frame_width_of(lines, tag);
            &&& w >= 40
            &&& w >= visible_width_of(tag) + 4
            &&& forall|i: int| 0 <= i < lines.len() ==> w >= visible_width_of(#[trigger] lines[i])
            &&& code_block_text(code, language, highlighted) == match highlighted {
                Some(_) => framed(lines, tag),
                None => plain_frame(lines, tag),
            }
        }),
{
    let lines = match highlighted {
        Some(h) => lines_of(h),
        None => lines_of(code),
    };
    lemma_max_width_bounds(lines);
}

/// The number of links left open after `evs`, starting with `open` open:
/// a link start opens one, a link end closes one if any is open.
pub open spec fn open_links(open: nat, evs: Seq<MdEvent>) -> nat
    decreases evs.len(),
{
    if evs.len() == 0 {
        open
    } else {
        let before = open_links(open, evs.drop_last());
        match evs.last() {
            MdEvent::LinkStart(_) => before + 1,
            MdEvent::LinkEnd => if before > 0 { (before - 1) as nat } else { 0 },
            _ => before,
        }
    }
}

proof fn lemma_step_links(s: RenderState, ev: MdEvent)
    ensures
        step(s, ev).0.link_stack.len() == match ev {
            MdEvent::LinkStart(_) => s.link_stack.len() + 1,
            MdEvent::LinkEnd => if s.link_stack.len() > 0 { (s.link_stack.len() - 1) as nat } else { 0 },
            _ => s.link_stack.len(),
        },
{
}

/// The renderer holds exactly the links that the events left open.
pub proof fn lemma_run_links(s: RenderState, evs: Seq<MdEvent>)
    ensures
        run(s, evs).0.link_stack.len() == open_links(s.link_stack.len(), evs),
    decreases evs.len(),
{
    if evs.len() > 0 {
        lemma_run_links(s, evs.drop_last());
        lemma_step_links(run(s, evs.drop_last()).0, evs.last());
    }
}

/// In a whole render, a link end that no open link start precedes shows a
/// lone `]` after the waiting text, and the events after it are taken as
/// usual.
pub proof fn lemma_run_unbalanced_link_end(wrap_width: nat, before: Seq<MdEvent>, after: Seq<MdEvent>)
    requires
        open_links(0, before) == 0,
    ensures
        ({
            let r = run(initial_state(wrap_width), before);
            let evs = before.push(MdEvent::LinkEnd) + after;
            let f = flush_buffer(r.0);
            &&& run(initial_state(wrap_width), evs).0 == run(f.0, after).0
            &&& run(initial_state(wrap_width), evs).1 == r.1 + f.1 + seq![']'] + run(f.0, after).1
        }),
{
    let s0 = initial_state(wrap_width);
    lemma_run_links(s0, before);
    let r = run(s0, before);
    let with_end = before.push(MdEvent::LinkEnd);
    assert(with_end.drop_last() =~= before);
    lemma_unbalanced_link_end(r.0);
    lemma_run_split(s0, with_end, after);
}

proof fn lemma_run_split(s: RenderState, a: Seq<MdEvent>, b: Seq<MdEvent>)
    ensures
        run(s, a + b).0 == run(run(s, a).0, b).0,
        run(s, a + b).1 == run(s, a).1 + run(run(s, a).0, b).1,
    decreases b.len(),
{
    if b.len() == 0 {
        assert(a + b =~= a);
        assert(run(s, a).1 + Seq::<char>::empty() =~= run(s, a).1);
    } else {
        assert((a + b).drop_last() =~= a + b.drop_last());
        assert((a + b).last() == b.last());
        lemma_run_split(s, a, b.drop_last());
        let m = run(s, a).0;
        let x = run(m, b.drop_last());
        let y = step(x.0, b.last());
        assert(run(s, a).1 + x.1 + y.1 =~= run(s, a).1 + (x.1 + y.1));
    }
}

/// The number of lists left open after `evs`, starting with `open` open.
pub open spec fn open_lists(open: nat, evs: Seq<MdEvent>) -> nat
    decreases evs.len(),
{
    if evs.len() == 0 {
        open
    } else {
        let before = open_lists(open, evs.drop_last());
        match evs.last() {
            MdEvent::ListStart(_) => before + 1,
            MdEvent::ListEnd => if before > 0 { (before - 1) as nat } else { 0 },
            _ => before,
        }
    }
}

proof fn lemma_step_lists(s: RenderState, ev: MdEvent)
    ensures
        step(s, ev).0.list_stack.len() == match ev {
            MdEvent::ListStart(_) => s.list_stack.len() + 1,
            MdEvent::ListEnd => if s.list_stack.len() > 0 { (s.list_stack.len() - 1) as nat } else { 0 },
            _ => s.list_stack.len(),
        },
{
}

/// The renderer holds exactly the lists that the events left open.
pub proof fn lemma_run_lists(s: RenderState, evs: Seq<MdEvent>)
    ensures
        run(s, evs).0.list_stack.len() == open_lists(s.list_stack.len(), evs),
    decreases evs.len(),
{
    if evs.len() > 0 {
        lemma_run_lists(s, evs.drop_last());
        lemma_step_lists(run(s, evs.drop_last()).0, evs.last());
    }
}

/// In a whole render, an item of a list nested at depth `d` (the events
/// before it leave `d + 1` lists open) shows its marker behind exactly
/// `2 * d` spaces, after the waiting text and, where the line is not
/// fresh, a line break.
pub proof fn lemma_run_item_indent(wrap_width: nat, before: Seq<MdEvent>, d: nat)
    requires
        open_lists(0, before) == d + 1,
    ensures
        ({
            let r = run(initial_state(wrap_width), before);
            let f = flush_buffer(r.0);
            let lead = if f.0.at_line_start { Seq::empty() } else { line_break(f.0) };
            let marker = match f.0.list_stack.last().counter {
                Some(n) => number_marker(n as nat),
                None => bullet_marker(),
            };
            step(r.0, MdEvent::ItemStart).1 == f.1 + lead + indent_of(d) + marker
        }),
        indent_of(d).len() == 2 * d,
        forall|i: int| 0 <= i < 2 * d ==> #[trigger] indent_of(d)[i] == ' ',
{
    let s0 = initial_state(wrap_width);
    lemma_run_lists(s0, before);
    let r = run(s0, before);
    lemma_item_indent(flush_buffer(r.0).0, d);
}

/// How many items of the list at position `j` start during `evs`, when
/// `open` lists are open before them: items that start while that list is
/// the innermost one.
pub open spec fn direct_items(open: nat, j: nat, evs: Seq<MdEvent>) -> nat
    decreases evs.len(),
{
    if evs.len() == 0 {
        0
    } else {
        let here = open_lists(open, evs.drop_last());
        direct_items(open, j, evs.drop_last()) + if evs.last() is ItemStart && here == j + 1 { 1nat } else { 0nat }
    }
}

/// The list at position `j` stays open all through `evs`.
pub open spec fn keeps_open(open: nat, j: nat, evs: Seq<MdEvent>) -> bool {
    forall|k: int| 0 <= k <= evs.len() ==> #[trigger] open_lists(open, evs.take(k)) >= j + 1
}

proof fn lemma_step_keeps_frame(s: RenderState, ev: MdEvent, j: nat)
    requires
        s.list_stack.len() >= j + 1,
        step(s, ev).0.list_stack.len() >= j + 1,
    ensures
        (ev is ItemStart && s.list_stack.len() == j + 1) ==> ({
            let c = s.list_stack[j as int].counter;
            step(s, ev).0.list_stack[j as int].counter == match c {
                Some(n) => Some(next_counter(n)),
                None => None::<u64>,
            }
        }),
        !(ev is ItemStart && s.list_stack.len() == j + 1) ==> step(s, ev).0.list_stack[j as int]
            == s.list_stack[j as int],
{
}

/// Items of lists nested inside an open list do not move its number: after
/// `evs`, during which it stays open, its counter has moved on by exactly
/// the number of its own items.
pub proof fn lemma_counter_counts_own_items(s: RenderState, j: nat, c: u64, evs: Seq<MdEvent>)
    requires
        s.list_stack.len() == j + 1,
        s.list_stack[j as int].counter == Some(c),
        keeps_open(j + 1, j, evs),
        c + direct_items(j + 1, j, evs) <= u64::MAX,
    ensures
        run(s, evs).0.list_stack.len() >= j + 1,
        run(s, evs).0.list_stack[j as int].counter == Some((c + direct_items(j + 1, j, evs)) as u64),
    decreases evs.len(),
{
    lemma_run_lists(s, evs);
    assert(evs.take(evs.len() as int) =~= evs);
    if evs.len() > 0 {
        let p = evs.drop_last();
        assert forall|k: int| 0 <= k <= p.len() implies #[trigger] open_lists(j + 1, p.take(k)) >= j + 1 by {
            assert(p.take(k) =~= evs.take(k));
        }
        lemma_counter_counts_own_items(s, j, c, p);
        lemma_run_lists(s, p);
        lemma_step_keeps_frame(run(s, p).0, evs.last(), j);
    }
}

/// In an ordered list started at `n`, an item that starts while the list
/// is the innermost one shows `n` plus the number of the list's own items
/// before it, whatever nested lists came between.
pub proof fn lemma_ordered_item_number_in_run(s: RenderState, n: u64, evs: Seq<MdEvent>)
    requires
        state_wf(s),
        s.list_stack.len() < usize::MAX,
        ({
            let j = s.list_stack.len();
            &&& keeps_open(j + 1, j, evs)
            &&& open_lists(j + 1, evs) == j + 1
            &&& n + direct_items(j + 1, j, evs) <= u64::MAX
        }),
    ensures
        ({
            let j = s.list_stack.len();
            let opened = step(s, MdEvent::ListStart(Some(n))).0;
            let before = run(opened, evs).0;
            let f = flush_buffer(before);
            let lead = if f.0.at_line_start { Seq::empty() } else { line_break(f.0) };
            step(before, MdEvent::ItemStart).1 == f.1 + lead + indent_of(j) + number_marker(
                (n + direct_items(j + 1, j, evs)) as nat,
            )
        }),
{
    let j = s.list_stack.len();
    let opened = step(s, MdEvent::ListStart(Some(n))).0;
    assert(opened.list_stack[j as int] == ListFrame { counter: Some(n), depth: j as usize });
    lemma_counter_counts_own_items(opened, j, n, evs);
    lemma_run_lists(opened, evs);
}

} // verus!

use vstd::prelude::*;
use crate::code_block::{CODE_THEME, tag_or_default, all_blank, is_all_blank_chars, code_block_text, highlight_of, render_code_block, trim_end};
use crate::event::MdEvent;
use crate::lines::views;
use crate::style::{
    BOLD, BULLET, CODE_COLOR, DIM, FILL, HEADING_COLOR, ITALIC, LINK_COLOR, MARKER_COLOR, QUOTE_BAR,
    RESET, STRIKETHROUGH, STRONG_COLOR,
};
use crate::text::{indent_of, push_text, shows_text, text_output, text_shows};
use crate::text_util::{decimal, push_all, push_decimal, push_repeat, push_repeat_chars, push_str, repeat};
use crate::width::chars_of;

verus! {

/// Widest a horizontal rule is drawn.
pub const RULE_MAX_WIDTH: usize = 50;

/// One open list: the number its next item shows, if it is ordered, and
/// how deep it is nested (the outermost list is at depth 0).
#[derive(Clone, Copy, Debug)]
pub struct ListFrame {
    pub counter: Option<u64>,
    pub depth: usize,
}

/// An inline style that is open.
#[derive(Clone, Copy, Debug, PartialEq, Eq)]
pub enum Span {
    Emphasis,
    Strong,
    Strike,
}

/// The escape codes that switch a style on.
pub open spec fn span_code(sp: Span) -> Seq<char> {
    match sp {
        Span::Emphasis => ITALIC@,
        Span::Strong => BOLD@ + STRONG_COLOR@,
        Span::Strike => STRIKETHROUGH@,
    }
}

/// The codes of every open style, outermost first.
pub open spec fn spans_code(spans: Seq<Span>) -> Seq<char>
    decreases spans.len(),
{
    if spans.len() == 0 {
        Seq::empty()
    } else {
        spans_code(spans.drop_last()) + span_code(spans.last())
    }
}

/// What opening a style does: it is pushed, and its codes are written.
pub open spec fn span_start(s: RenderState, sp: Span) -> (RenderState, Seq<char>) {
    (RenderState { style_stack: s.style_stack.push(sp), ..s }, span_code(sp))
}

/// What closing a style does: the innermost one is dropped, every style
/// is reset, and the styles still open are switched back on.
pub open spec fn span_end(s: RenderState) -> (RenderState, Seq<char>) {
    let rest = if s.style_stack.len() > 0 { s.style_stack.drop_last() } else { s.style_stack };
    (RenderState { style_stack: rest, ..s }, RESET@ + spans_code(rest))
}

/// What the renderer holds between two events.
#[verifier::ext_equal]
pub struct RenderState {
    pub wrap_width: nat,
    pub at_line_start: bool,
    pub pending_newlines: nat,
    pub in_code_block: bool,
    pub code_buffer: Seq<char>,
    pub code_language: Seq<char>,
    pub list_stack: Seq<ListFrame>,
    pub link_stack: Seq<Seq<char>>,
    pub style_stack: Seq<Span>,
    pub quote_depth: nat,
    pub text_buffer: Seq<char>,
    pub last_was_list_item: bool,
}

/// The streaming renderer: it takes events one at a time and appends
/// what each shows to an output.
pub struct Renderer {
    pub wrap_width: usize,
    pub at_line_start: bool,
    pub pending_newlines: usize,
    pub in_code_block: bool,
    pub code_buffer: Vec<char>,
    pub code_language: Vec<char>,
    pub list_stack: Vec<ListFrame>,
    pub link_stack: Vec<Vec<char>>,
    pub style_stack: Vec<Span>,
    pub quote_depth: usize,
    pub text_buffer: Vec<char>,
    pub last_was_list_item: bool,
}

impl View for Renderer {
    type V = RenderState;

    open spec fn view(&self) -> RenderState {
        RenderState {
            wrap_width: self.wrap_width as nat,
            at_line_start: self.at_line_start,
            pending_newlines: self.pending_newlines as nat,
            in_code_block: self.in_code_block,
            code_buffer: self.code_buffer@,
            code_language: self.code_language@,
            list_stack: self.list_stack@,
            link_stack: views(self.link_stack@),
            style_stack: self.style_stack@,
            quote_depth: self.quote_depth as nat,
            text_buffer: self.text_buffer@,
            last_was_list_item: self.last_was_list_item,
        }
    }
}

/// The larger of two numbers.
pub open spec fn max(a: nat, b: nat) -> nat {
    if a > b { a } else { b }
}

/// `n` line feeds.
pub open spec fn newlines(n: nat) -> Seq<char> {
    repeat(seq!['\n'], n)
}

/// The state is one the renderer can be in: at most two blank lines owed,
/// each open list as deep as the lists below it, and a language tag whose
/// label width can be counted.
pub open spec fn state_wf(s: RenderState) -> bool {
    &&& s.pending_newlines <= 2
    &&& s.wrap_width <= usize::MAX
    &&& s.code_language.len() + 4 <= usize::MAX
    &&& s.list_stack.len() <= usize::MAX
    &&& s.quote_depth <= usize::MAX
    &&& forall|i: int| 0 <= i < s.list_stack.len() ==> (#[trigger] s.list_stack[i]).depth == i
}

/// At least `n` blank lines are owed before the next content.
pub open spec fn request(s: RenderState, n: nat) -> RenderState {
    RenderState { pending_newlines: max(s.pending_newlines, n), ..s }
}

/// The bar that marks one level of block quote.
pub open spec fn quote_mark() -> Seq<char> {
    DIM@ + QUOTE_BAR@ + RESET@
}

/// What starts each line inside `depth` nested block quotes.
pub open spec fn quote_prefix(depth: nat) -> Seq<char> {
    repeat(quote_mark(), depth)
}

/// A line feed, then the bars of the open block quotes.
pub open spec fn line_break(s: RenderState) -> Seq<char> {
    seq!['\n'] + quote_prefix(s.quote_depth)
}

/// What text continuation lines start with: the quote bars, then the
/// indent of the open lists.
pub open spec fn margin(s: RenderState) -> Seq<char> {
    quote_prefix(s.quote_depth) + indent_of(s.list_stack.len())
}

/// The line breaks written before content that asks for at least `n`.
pub open spec fn flush_text(s: RenderState, n: nat) -> Seq<char> {
    repeat(line_break(s), max(s.pending_newlines, n))
}

/// Nothing is owed any more.
pub open spec fn flushed(s: RenderState) -> RenderState {
    RenderState { pending_newlines: 0, ..s }
}

/// The `#` marks of a heading of level `level`, then a space.
pub open spec fn heading_prefix(level: nat) -> Seq<char> {
    repeat(seq!['#'], level) + seq![' ']
}

/// The tag a code block is labelled with: the fence's tag, or `txt` for
/// an untagged or indented block.
pub open spec fn language_for(tag: Option<String>) -> Seq<char> {
    match tag {
        Some(t) => if t@.len() > 0 && t@.len() + 4 <= usize::MAX { t@ } else { "txt"@ },
        None => "txt"@,
    }
}

/// An item number, right-aligned in two columns.
pub open spec fn counter_text(n: nat) -> Seq<char> {
    if decimal(n).len() < 2 { seq![' '] + decimal(n) } else { decimal(n) }
}

/// The number after `n`, staying at the largest one.
pub open spec fn next_counter(n: u64) -> u64 {
    if n < u64::MAX { (n + 1) as u64 } else { n }
}

/// The marker of an ordered item numbered `n`.
pub open spec fn number_marker(n: nat) -> Seq<char> {
    MARKER_COLOR@ + counter_text(n) + seq!['.', ' '] + RESET@
}

/// The marker of an unordered item.
pub open spec fn bullet_marker() -> Seq<char> {
    MARKER_COLOR@ + seq![' '] + BULLET@ + seq![' '] + RESET@
}

/// What starting a list item does: a line break unless at the start of a
/// line, the indent of the innermost list, then its marker.
pub open spec fn item_step(s: RenderState) -> (RenderState, Seq<char>) {
    let d = s.list_stack.len();
    let lead = if s.at_line_start { Seq::empty() } else { line_break(s) };
    let indent = indent_of(if d > 0 { (d - 1) as nat } else { 0 });
    let s2 = RenderState { at_line_start: false, last_was_list_item: true, pending_newlines: 0, ..s };
    if d > 0 && s.list_stack.last().counter is Some {
        let top = s.list_stack.last();
        let n = top.counter->0;
        let frame = ListFrame { counter: Some(next_counter(n)), depth: top.depth };
        (
            RenderState { list_stack: s.list_stack.update(d - 1, frame), ..s2 },
            lead + indent + number_marker(n as nat),
        )
    } else {
        (s2, lead + indent + bullet_marker())
    }
}

/// What a run of text does: inside a code block it is kept for the block;
/// elsewhere owed lines are written and the text joins the paragraph text
/// waiting to be reflowed.
pub open spec fn text_step(s: RenderState, t: Seq<char>) -> (RenderState, Seq<char>) {
    if s.in_code_block {
        (RenderState { code_buffer: s.code_buffer + t, ..s }, Seq::empty())
    } else {
        (
            RenderState {
                pending_newlines: 0,
                at_line_start: if text_shows(t) { false } else { s.at_line_start },
                text_buffer: s.text_buffer + t,
                ..s
            },
            flush_text(s, 0),
        )
    }
}

/// What a soft break does: nothing at the start of a line; a space in the
/// waiting paragraph text, so that the wrapper may break the line there;
/// a written space where no text waits.
pub open spec fn soft_break_step(s: RenderState) -> (RenderState, Seq<char>) {
    if s.at_line_start {
        (s, Seq::empty())
    } else if s.text_buffer.len() > 0 {
        (RenderState { text_buffer: s.text_buffer.push(' '), ..s }, Seq::empty())
    } else {
        (s, seq![' '])
    }
}

/// The waiting paragraph text is reflowed as one run and written.
pub open spec fn flush_buffer(s: RenderState) -> (RenderState, Seq<char>) {
    (
        RenderState { text_buffer: Seq::empty(), ..s },
        if text_shows(s.text_buffer) { text_output(s.text_buffer, margin(s), s.wrap_width) } else { Seq::empty() },
    )
}

/// What one event does to the state, and what it shows: text and soft
/// breaks wait for the wrapper; any other event first has the waiting text
/// written.
pub open spec fn step(s: RenderState, ev: MdEvent) -> (RenderState, Seq<char>) {
    match ev {
        MdEvent::Text(t) => text_step(s, t@),
        MdEvent::SoftBreak => soft_break_step(s),
        _ => {
            let f = flush_buffer(s);
            let r = block_step(f.0, ev);
            (r.0, f.1 + r.1)
        },
    }
}

/// What an event other than text or a soft break does.
pub open spec fn block_step(s: RenderState, ev: MdEvent) -> (RenderState, Seq<char>) {
    match ev {
        MdEvent::ParagraphStart => if !s.at_line_start && !s.last_was_list_item {
            (request(s, 1), Seq::empty())
        } else {
            (s, Seq::empty())
        },
        MdEvent::HeadingStart(level) => (
            RenderState { pending_newlines: 0, at_line_start: false, ..s },
            flush_text(s, 2) + BOLD@ + HEADING_COLOR@ + heading_prefix(level as nat),
        ),
        MdEvent::HeadingEnd => (RenderState { at_line_start: true, ..request(s, 2) }, RESET@),
        MdEvent::BlockQuoteStart => (
            RenderState {
                pending_newlines: 0,
                at_line_start: true,
                quote_depth: if s.quote_depth < usize::MAX { s.quote_depth + 1 } else { s.quote_depth },
                ..s
            },
            flush_text(s, 1) + quote_mark(),
        ),
        MdEvent::BlockQuoteEnd => (
            RenderState {
                at_line_start: true,
                quote_depth: if s.quote_depth > 0 { (s.quote_depth - 1) as nat } else { 0 },
                ..request(s, 1)
            },
            Seq::empty(),
        ),
        MdEvent::CodeBlockStart(tag) => (
            RenderState { pending_newlines: 0, in_code_block: true, code_language: language_for(tag), ..s },
            flush_text(s, 1),
        ),
        MdEvent::CodeBlockEnd => (
            RenderState {
                in_code_block: false,
                code_buffer: Seq::empty(),
                code_language: "text"@,
                at_line_start: true,
                ..request(s, 1)
            },
            code_block_text(s.code_buffer, s.code_language, highlight_of(trim_end(s.code_buffer), tag_or_default(s.code_language), CODE_THEME@)),
        ),
        MdEvent::ListStart(start) => {
            let frame = ListFrame { counter: start, depth: s.list_stack.len() as usize };
            if s.list_stack.len() > 0 {
                (RenderState { list_stack: s.list_stack.push(frame), ..request(s, 1) }, Seq::empty())
            } else {
                (RenderState { list_stack: s.list_stack.push(frame), pending_newlines: 0, ..s }, flush_text(s, 1))
            }
        },
        MdEvent::ListEnd => {
            let rest = if s.list_stack.len() > 0 { s.list_stack.drop_last() } else { s.list_stack };
            if rest.len() == 0 {
                (
                    RenderState { list_stack: rest, last_was_list_item: false, at_line_start: true, ..request(s, 1) },
                    Seq::empty(),
                )
            } else {
                (RenderState { list_stack: rest, ..s }, Seq::empty())
            }
        },
        MdEvent::ItemStart => item_step(s),
        MdEvent::EmphasisStart => span_start(s, Span::Emphasis),
        MdEvent::StrongStart => span_start(s, Span::Strong),
        MdEvent::StrikeStart => span_start(s, Span::Strike),
        MdEvent::EmphasisEnd => span_end(s),
        MdEvent::StrongEnd => span_end(s),
        MdEvent::StrikeEnd => span_end(s),
        MdEvent::LinkStart(url) => (
            RenderState { link_stack: s.link_stack.push(url@), pending_newlines: 0, at_line_start: false, ..s },
            flush_text(s, 0) + LINK_COLOR@ + seq!['['],
        ),
        MdEvent::LinkEnd => if s.link_stack.len() > 0 {
            (
                RenderState { link_stack: s.link_stack.drop_last(), ..s },
                seq![']', '('] + LINK_COLOR@ + s.link_stack.last() + RESET@ + seq![')'],
            )
        } else {
            (s, seq![']'])
        },
        MdEvent::Code(t) => (
            RenderState { pending_newlines: 0, at_line_start: false, ..s },
            flush_text(s, 0) + CODE_COLOR@ + seq!['`'] + t@ + seq!['`'] + RESET@,
        ),
        MdEvent::Html(h) => if !all_blank(h@) && !(h@.len() > 0 && h@[0] == '<') {
            (RenderState { pending_newlines: 0, at_line_start: false, ..s }, flush_text(s, 0) + h@)
        } else {
            (s, Seq::empty())
        },
        MdEvent::HardBreak => (RenderState { at_line_start: true, ..s }, line_break(s)),
        MdEvent::Rule => {
            let w = if s.wrap_width < RULE_MAX_WIDTH { s.wrap_width } else { RULE_MAX_WIDTH as nat };
            (
                RenderState { pending_newlines: 1, at_line_start: true, ..s },
                flush_text(s, 1) + DIM@ + repeat(FILL@, w) + RESET@ + seq!['\n'],
            )
        },
        _ => (s, Seq::empty()),
    }
}

/// What a run of events does, one after another.
pub open spec fn run(s: RenderState, evs: Seq<MdEvent>) -> (RenderState, Seq<char>)
    decreases evs.len(),
{
    if evs.len() == 0 {
        (s, Seq::empty())
    } else {
        let before = run(s, evs.drop_last());
        let after = step(before.0, evs.last());
        (after.0, before.1 + after.1)
    }
}

/// A document's text ends with a line break: one is added unless the text
/// is empty or already ends in one.
pub open spec fn end_text(o: Seq<char>) -> Seq<char> {
    if o.len() > 0 && o.last() != '\n' { o.push('\n') } else { o }
}

/// The state a render starts in.
pub open spec fn initial_state(wrap_width: nat) -> RenderState {
    RenderState {
        wrap_width,
        at_line_start: true,
        pending_newlines: 0,
        in_code_block: false,
        code_buffer: Seq::empty(),
        code_language: "text"@,
        list_stack: Seq::empty(),
        link_stack: Seq::empty(),
        style_stack: Seq::empty(),
        quote_depth: 0,
        text_buffer: Seq::empty(),
        last_was_list_item: false,
    }
}

/// Every event keeps the state one the renderer can be in, as long as its
/// lists can still be counted.
pub proof fn lemma_step_wf(s: RenderState, ev: MdEvent)
    requires
        state_wf(s),
        step(s, ev).0.list_stack.len() <= usize::MAX,
    ensures
        state_wf(step(s, ev).0),
{
    match ev {
        MdEvent::Text(_) => {},
        MdEvent::SoftBreak => {},
        _ => {
            lemma_block_step_wf(flush_buffer(s).0, ev);
        },
    }
}

proof fn lemma_block_step_wf(s: RenderState, ev: MdEvent)
    requires
        state_wf(s),
        block_step(s, ev).0.list_stack.len() <= usize::MAX,
    ensures
        state_wf(block_step(s, ev).0),
{
    reveal_strlit("txt");
    reveal_strlit("text");
    let s2 = block_step(s, ev).0;
    match ev {
        MdEvent::ListStart(start) => {
            assert forall|i: int| 0 <= i < s2.list_stack.len() implies (#[trigger] s2.list_stack[i]).depth == i by {
                if i < s.list_stack.len() {
                    assert(s2.list_stack[i] == s.list_stack[i]);
                }
            }
        },
        MdEvent::ListEnd => {
            assert forall|i: int| 0 <= i < s2.list_stack.len() implies (#[trigger] s2.list_stack[i]).depth == i by {
                assert(s2.list_stack[i] == s.list_stack[i]);
            }
        },
        MdEvent::ItemStart => {
            assert forall|i: int| 0 <= i < s2.list_stack.len() implies (#[trigger] s2.list_stack[i]).depth == i by {
                assert(s2.list_stack[i].depth == s.list_stack[i].depth);
            }
        },
        _ => {},
    }
}

fn push_number_marker(out: &mut Vec<char>, n: u64)
    ensures
        final(out)@ == old(out)@ + number_marker(n as nat),
{
    push_str(out, MARKER_COLOR);
    let mut digits: Vec<char> = Vec::new();
    push_decimal(&mut digits, n);
    assert(digits@ =~= decimal(n as nat));
    if digits.len() < 2 {
        out.push(' ');
    }
    push_all(out, &digits);
    out.push('.');
    out.push(' ');
    push_str(out, RESET);
    assert(out@ =~= old(out)@ + number_marker(n as nat));
}

fn quote_prefix_chars(depth: usize) -> (r: Vec<char>)
    ensures
        r@ == quote_prefix(depth as nat),
{
    let mut mark: Vec<char> = Vec::new();
    push_str(&mut mark, DIM);
    push_str(&mut mark, QUOTE_BAR);
    push_str(&mut mark, RESET);
    assert(mark@ =~= quote_mark());
    let mut r: Vec<char> = Vec::new();
    push_repeat_chars(&mut r, &mark, depth);
    assert(r@ =~= quote_prefix(depth as nat));
    r
}

fn push_span_code(out: &mut Vec<char>, sp: Span)
    ensures
        final(out)@ == old(out)@ + span_code(sp),
{
    match sp {
        Span::Emphasis => push_str(out, ITALIC),
        Span::Strong => {
            push_str(out, BOLD);
            push_str(out, STRONG_COLOR);
            assert(out@ =~= old(out)@ + span_code(sp));
        },
        Span::Strike => push_str(out, STRIKETHROUGH),
    }
}

fn push_bullet_marker(out: &mut Vec<char>)
    ensures
        final(out)@ == old(out)@ + bullet_marker(),
{
    push_str(out, MARKER_COLOR);
    out.push(' ');
    push_str(out, BULLET);
    out.push(' ');
    push_str(out, RESET);
    assert(out@ =~= old(out)@ + bullet_marker());
}

impl Renderer {
    /// The renderer's state is one it can be in.
    pub open spec fn wf(&self) -> bool {
        state_wf(self@)
    }

    /// A renderer at the start of a document, reflowing text to
    /// `wrap_width` columns.
    pub fn new(wrap_width: usize) -> (r: Renderer)
        ensures
            r@ == initial_state(wrap_width as nat),
            r.wf(),
    {
        let r = Renderer {
            wrap_width,
            at_line_start: true,
            pending_newlines: 0,
            in_code_block: false,
            code_buffer: Vec::new(),
            code_language: chars_of("text"),
            list_stack: Vec::new(),
            link_stack: Vec::new(),
            style_stack: Vec::new(),
            quote_depth: 0,
            text_buffer: Vec::new(),
            last_was_list_item: false,
        };
        proof {
            reveal_strlit("text");
        }
        assert(r@ =~= initial_state(wrap_width as nat));
        r
    }

    fn line_break(&self) -> (r: Vec<char>)
        ensures
            r@ == line_break(self@),
    {
        let mut r: Vec<char> = Vec::new();
        r.push('\n');
        let prefix = quote_prefix_chars(self.quote_depth);
        push_all(&mut r, &prefix);
        assert(r@ =~= line_break(self@));
        r
    }

    fn flush(&mut self, min: usize, out: &mut Vec<char>)
        requires
            old(self).wf(),
            min <= 2,
        ensures
            final(self)@ == flushed(old(self)@),
            final(self).wf(),
            final(out)@ == old(out)@ + flush_text(old(self)@, min as nat),
    {
        let n = if self.pending_newlines > min { self.pending_newlines } else { min };
        let lb = self.line_break();
        push_repeat_chars(out, &lb, n);
        self.pending_newlines = 0;
        assert(self@ =~= flushed(old(self)@));
    }

    fn request(&mut self, n: usize)
        requires
            old(self).wf(),
            n <= 2,
        ensures
            final(self)@ == request(old(self)@, n as nat),
            final(self).wf(),
    {
        if self.pending_newlines < n {
            self.pending_newlines = n;
        }
        assert(self@ =~= request(old(self)@, n as nat));
    }

    fn start_item(&mut self, out: &mut Vec<char>)
        requires
            old(self).wf(),
        ensures
            final(self)@ == item_step(old(self)@).0,
            final(out)@ == old(out)@ + item_step(old(self)@).1,
    {
        let ghost s = self@;
        let d = self.list_stack.len();
        let ghost lead: Seq<char> = if s.at_line_start { Seq::empty() } else { line_break(s) };
        if !self.at_line_start {
            let lb = self.line_break();
            push_all(out, &lb);
        }
        let level = if d > 0 { d - 1 } else { 0 };
        push_repeat(out, "  ", level);
        proof {
            reveal_strlit("  ");
            assert("  "@ =~= seq![' ', ' ']);
            assert(out@ =~= old(out)@ + lead + indent_of(level as nat));
        }
        let ghost head = out@;
        let top_counter: Option<u64> = if d > 0 { self.list_stack[d - 1].counter } else { None };
        match top_counter {
            Some(n) => {
                push_number_marker(out, n);
                let depth = self.list_stack[d - 1].depth;
                let next = if n < u64::MAX { n + 1 } else { n };
                self.list_stack.set(d - 1, ListFrame { counter: Some(next), depth });
            },
            None => {
                push_bullet_marker(out);
            },
        }
        self.at_line_start = false;
        self.last_was_list_item = true;
        self.pending_newlines = 0;
        assert(self@ =~= item_step(s).0);
        assert(out@ =~= old(out)@ + item_step(s).1);
    }

    fn start_span(&mut self, sp: Span, out: &mut Vec<char>)
        ensures
            final(self)@ == span_start(old(self)@, sp).0,
            final(out)@ == old(out)@ + span_start(old(self)@, sp).1,
    {
        push_span_code(out, sp);
        self.style_stack.push(sp);
        assert(self@ =~= span_start(old(self)@, sp).0);
    }

    fn end_span(&mut self, out: &mut Vec<char>)
        ensures
            final(self)@ == span_end(old(self)@).0,
            final(out)@ == old(out)@ + span_end(old(self)@).1,
    {
        if self.style_stack.len() > 0 {
            self.style_stack.pop();
        }
        push_str(out, RESET);
        let ghost head = out@;
        let mut i: usize = 0;
        assert(self.style_stack@.take(0) =~= Seq::<Span>::empty());
        while i < self.style_stack.len()
            invariant
                i <= self.style_stack@.len(),
                out@ == head + spans_code(self.style_stack@.take(i as int)),
            decreases self.style_stack@.len() - i,
        {
            push_span_code(out, self.style_stack[i]);
            assert(self.style_stack@.take(i + 1).drop_last() =~= self.style_stack@.take(i as int));
            i = i + 1;
            assert(out@ =~= head + spans_code(self.style_stack@.take(i as int)));
        }
        assert(self.style_stack@.take(self.style_stack@.len() as int) =~= self.style_stack@);
        assert(self@ =~= span_end(old(self)@).0);
        assert(out@ =~= old(out)@ + span_end(old(self)@).1);
    }

    fn text(&mut self, t: &String, out: &mut Vec<char>)
        requires
            old(self).wf(),
        ensures
            final(self)@ == text_step(old(self)@, t@).0,
            final(out)@ == old(out)@ + text_step(old(self)@, t@).1,
    {
        let ghost s = self@;
        let cs = chars_of(t.as_str());
        if self.in_code_block {
            push_all(&mut self.code_buffer, &cs);
        } else {
            self.flush(0, out);
            push_all(&mut self.text_buffer, &cs);
            if shows_text(&cs) {
                self.at_line_start = false;
            }
        }
        assert(self@ =~= text_step(s, t@).0);
        assert(out@ =~= old(out)@ + text_step(s, t@).1);
    }

    fn soft_break(&mut self, out: &mut Vec<char>)
        ensures
            final(self)@ == soft_break_step(old(self)@).0,
            final(out)@ == old(out)@ + soft_break_step(old(self)@).1,
    {
        if !self.at_line_start {
            if self.text_buffer.len() > 0 {
                self.text_buffer.push(' ');
            } else {
                out.push(' ');
            }
        }
        assert(self@ =~= soft_break_step(old(self)@).0);
        assert(out@ =~= old(out)@ + soft_break_step(old(self)@).1);
    }

    /// Writes the waiting paragraph text, reflowed as one run.
    pub fn flush_buffer(&mut self, out: &mut Vec<char>)
        ensures
            final(self)@ == flush_buffer(old(self)@).0,
            final(out)@ == old(out)@ + flush_buffer(old(self)@).1,
    {
        let ghost s = self@;
        let mut lead = quote_prefix_chars(self.quote_depth);
        push_repeat(&mut lead, "  ", self.list_stack.len());
        proof {
            reveal_strlit("  ");
            assert("  "@ =~= seq![' ', ' ']);
            assert(lead@ =~= margin(s));
        }
        push_text(out, &self.text_buffer, &lead, self.wrap_width);
        self.text_buffer = Vec::new();
        assert(self@ =~= flush_buffer(s).0);
        assert(out@ =~= old(out)@ + flush_buffer(s).1);
    }

    fn end_code_block(&mut self, out: &mut Vec<char>)
        requires
            old(self).wf(),
        ensures
            final(self)@ == block_step(old(self)@, MdEvent::CodeBlockEnd).0,
            final(out)@ == old(out)@ + block_step(old(self)@, MdEvent::CodeBlockEnd).1,
    {
        let ghost s = self@;
        let shown = render_code_block(&self.code_buffer, &self.code_language);
        push_all(out, &shown);
        self.request(1);
        self.in_code_block = false;
        self.code_buffer = Vec::new();
        self.code_language = chars_of("text");
        self.at_line_start = true;
        assert(self@ =~= block_step(s, MdEvent::CodeBlockEnd).0);
    }

    /// Takes one event: the state moves and the output grows as `step`
    /// says.
    pub fn handle(&mut self, ev: &MdEvent, out: &mut Vec<char>)
        requires
            old(self).wf(),
        ensures
            final(self)@ == step(old(self)@, *ev).0,
            final(out)@ == old(out)@ + step(old(self)@, *ev).1,
            final(self).wf(),
    {
        let ghost s = self@;
        match ev {
            MdEvent::Text(t) => self.text(t, out),
            MdEvent::SoftBreak => self.soft_break(out),
            _ => {
                self.flush_buffer(out);
                self.block_event(ev, out);
                assert(out@ =~= old(out)@ + step(s, *ev).1);
            },
        }
        proof {
            assert(self.list_stack.len() == self.list_stack@.len());
            lemma_step_wf(s, *ev);
        }
    }

    #[verifier::rlimit(100)]
    #[verifier::spinoff_prover]
    fn block_event(&mut self, ev: &MdEvent, out: &mut Vec<char>)
        requires
            old(self).wf(),
        ensures
            final(self)@ == block_step(old(self)@, *ev).0,
            final(out)@ == old(out)@ + block_step(old(self)@, *ev).1,
    {
        let ghost s = self@;
        match ev {
            MdEvent::ParagraphStart => {
                if !self.at_line_start && !self.last_was_list_item {
                    self.request(1);
                }
                assert(out@ =~= old(out)@ + block_step(s, *ev).1);
            },
            MdEvent::HeadingStart(level) => {
                self.flush(2, out);
                push_str(out, BOLD);
                push_str(out, HEADING_COLOR);
                push_repeat(out, "#", *level as usize);
                out.push(' ');
                proof {
                    reveal_strlit("#");
                    assert("#"@ =~= seq!['#']);
                }
                self.at_line_start = false;
                assert(out@ =~= old(out)@ + block_step(s, *ev).1);
            },
            MdEvent::HeadingEnd => {
                push_str(out, RESET);
                self.request(2);
                self.at_line_start = true;
            },
            MdEvent::BlockQuoteStart => {
                self.flush(1, out);
                push_str(out, DIM);
                push_str(out, QUOTE_BAR);
                push_str(out, RESET);
                if self.quote_depth < usize::MAX {
                    self.quote_depth = self.quote_depth + 1;
                }
                self.at_line_start = true;
                assert(out@ =~= old(out)@ + block_step(s, *ev).1);
            },
            MdEvent::BlockQuoteEnd => {
                self.request(1);
                if self.quote_depth > 0 {
                    self.quote_depth = self.quote_depth - 1;
                }
                self.at_line_start = true;
                assert(out@ =~= old(out)@ + block_step(s, *ev).1);
            },
            MdEvent::CodeBlockStart(tag) => {
                self.flush(1, out);
                self.in_code_block = true;
                let lang = match tag {
                    Some(t) => {
                        let cs = chars_of(t.as_str());
                        if cs.len() > 0 && cs.len() <= usize::MAX - 4 { cs } else { chars_of("txt") }
                    },
                    None => chars_of("txt"),
                };
                self.code_language = lang;
                proof {
                    reveal_strlit("txt");
                }
            },
            MdEvent::CodeBlockEnd => {
                self.end_code_block(out);
            },
            MdEvent::ListStart(start) => {
                let depth = self.list_stack.len();
                if depth > 0 {
                    self.request(1);
                } else {
                    self.flush(1, out);
                }
                self.list_stack.push(ListFrame { counter: *start, depth });
                assert(out@ =~= old(out)@ + block_step(s, *ev).1);
            },
            MdEvent::ListEnd => {
                if self.list_stack.len() > 0 {
                    self.list_stack.pop();
                }
                if self.list_stack.len() == 0 {
                    self.request(1);
                    self.last_was_list_item = false;
                    self.at_line_start = true;
                }
                assert(out@ =~= old(out)@ + block_step(s, *ev).1);
            },
            MdEvent::ItemStart => {
                self.start_item(out);
            },
            MdEvent::EmphasisStart => {
                self.start_span(Span::Emphasis, out);
            },
            MdEvent::StrongStart => {
                self.start_span(Span::Strong, out);
            },
            MdEvent::StrikeStart => {
                self.start_span(Span::Strike, out);
            },
            MdEvent::EmphasisEnd | MdEvent::StrongEnd | MdEvent::StrikeEnd => {
                self.end_span(out);
            },
            MdEvent::LinkStart(url) => {
                self.flush(0, out);
                let cs = chars_of(url.as_str());
                let ghost before = views(self.link_stack@);
                self.link_stack.push(cs);
                assert(views(self.link_stack@) =~= before.push(url@));
                push_str(out, LINK_COLOR);
                out.push('[');
                self.at_line_start = false;
                assert(out@ =~= old(out)@ + block_step(s, *ev).1);
            },
            MdEvent::LinkEnd => {
                let ghost before = views(self.link_stack@);
                match self.link_stack.pop() {
                    Some(url) => {
                        assert(views(self.link_stack@) =~= before.drop_last());
                        out.push(']');
                        out.push('(');
                        push_str(out, LINK_COLOR);
                        push_all(out, &url);
                        push_str(out, RESET);
                        out.push(')');
                    },
                    None => {
                        out.push(']');
                    },
                }
                assert(out@ =~= old(out)@ + block_step(s, *ev).1);
            },
            MdEvent::Code(t) => {
                self.flush(0, out);
                push_str(out, CODE_COLOR);
                out.push('`');
                push_str(out, t.as_str());
                out.push('`');
                push_str(out, RESET);
                self.at_line_start = false;
                assert(out@ =~= old(out)@ + block_step(s, *ev).1);
            },
            MdEvent::Html(h) => {
                let cs = chars_of(h.as_str());
                let blank = is_all_blank_chars(&cs);
                let tag_like = cs.len() > 0 && cs[0] == '<';
                if !blank && !tag_like {
                    self.flush(0, out);
                    push_all(out, &cs);
                    self.at_line_start = false;
                }
                assert(out@ =~= old(out)@ + block_step(s, *ev).1);
            },
            MdEvent::HardBreak => {
                let lb = self.line_break();
                push_all(out, &lb);
                self.at_line_start = true;
                assert(out@ =~= old(out)@ + block_step(s, *ev).1);
            },
            MdEvent::Rule => {
                self.flush(1, out);
                let w = if self.wrap_width < RULE_MAX_WIDTH { self.wrap_width } else { RULE_MAX_WIDTH };
                push_str(out, DIM);
                push_repeat(out, FILL, w);
                push_str(out, RESET);
                out.push('\n');
                self.pending_newlines = 1;
                self.at_line_start = true;
                assert(out@ =~= old(out)@ + block_step(s, *ev).1);
            },
            _ => {
                assert(out@ =~= old(out)@ + block_step(s, *ev).1);
            },
        }
        assert(self@ =~= block_step(s, *ev).0);
    }
}

/// What a whole document shows: its events rendered one after another
/// from the initial state, then the paragraph text still waiting, ending
/// with a line break.
pub open spec fn document_text(evs: Seq<MdEvent>, wrap_width: nat) -> Seq<char> {
    let r = run(initial_state(wrap_width), evs);
    end_text(r.1 + flush_buffer(r.0).1)
}

/// Renders a sequence of events with text reflowed to `wrap_width`
/// columns.
pub fn render_events(events: &Vec<MdEvent>, wrap_width: usize) -> (r: Vec<char>)
    ensures
        r@ == document_text(events@, wrap_width as nat),
{
    let mut renderer = Renderer::new(wrap_width);
    let mut out: Vec<char> = Vec::new();
    let mut i: usize = 0;
    assert(events@.take(0) =~= Seq::<MdEvent>::empty());
    while i < events.len()
        invariant
            i <= events@.len(),
            renderer.wf(),
            renderer@ == run(initial_state(wrap_width as nat), events@.take(i as int)).0,
            out@ == run(initial_state(wrap_width as nat), events@.take(i as int)).1,
        decreases events@.len() - i,
    {
        renderer.handle(&events[i], &mut out);
        assert(events@.take(i + 1).drop_last() =~= events@.take(i as int));
        i = i + 1;
    }
    assert(events@.take(events@.len() as int) =~= events@);
    renderer.flush_buffer(&mut out);
    let n = out.len();
    if n > 0 && out[n - 1] != '\n' {
        out.push('\n');
    }
    out
}

} // verus!

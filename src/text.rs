use vstd::prelude::*;
use crate::lines::{lines_of, split_lines, views};
use crate::text_util::{push_all, repeat};
use crate::width::{visible_width, visible_width_of};

verus! {

/// A name for the lines that the word wrapper makes of `line` for a budget
/// of `width` columns, breaking at spaces only and never inside a word.
pub uninterp spec fn wrap_of(line: Seq<char>, width: nat) -> Seq<Seq<char>>;

/// Relies on textwrap's `wrap`, with ASCII spaces as the only word
/// separator, no hyphenation and no breaking inside words: the lines of the
/// reflowed text.
#[verifier::external_body]
fn wrap_line(line: &Vec<char>, width: usize) -> (r: Vec<Vec<char>>)
    ensures
        views(r@) == wrap_of(line@, width as nat),
{
    let line: String = line.iter().collect();
    let options = textwrap::Options::new(width)
        .word_separator(textwrap::WordSeparator::AsciiSpace)
        .word_splitter(textwrap::WordSplitter::NoHyphenation)
        .break_words(false);
    textwrap::wrap(&line, options).iter().map(|l| l.chars().collect()).collect()
}

/// The pieces of `parts` with `sep` between each two of them.
pub open spec fn join(parts: Seq<Seq<char>>, sep: Seq<char>) -> Seq<char>
    decreases parts.len(),
{
    if parts.len() == 0 {
        Seq::empty()
    } else if parts.len() == 1 {
        parts[0]
    } else {
        join(parts.drop_last(), sep) + sep + parts.last()
    }
}

/// The indent of text inside `depth` nested lists: two spaces a level.
pub open spec fn indent_of(depth: nat) -> Seq<char> {
    repeat(seq![' ', ' '], depth)
}

/// `s` without the line feeds at its start.
pub open spec fn trim_start_lf(s: Seq<char>) -> Seq<char>
    decreases s.len(),
{
    if s.len() > 0 && s[0] == '\n' {
        trim_start_lf(s.drop_first())
    } else {
        s
    }
}

/// `s` without the line feeds at its end.
pub open spec fn trim_end_lf(s: Seq<char>) -> Seq<char>
    decreases s.len(),
{
    if s.len() > 0 && s.last() == '\n' {
        trim_end_lf(s.drop_last())
    } else {
        s
    }
}

/// `s` without the line feeds at either end.
pub open spec fn trim_lf(s: Seq<char>) -> Seq<char> {
    trim_end_lf(trim_start_lf(s))
}

/// Columns left for text after an indent of `indent` columns.
pub open spec fn budget_after(width: nat, indent: nat) -> nat {
    if width > indent { (width - indent) as nat } else { 0 }
}

/// `s` without the spaces at its end.
pub open spec fn trim_end_spaces(s: Seq<char>) -> Seq<char>
    decreases s.len(),
{
    if s.len() > 0 && s.last() == ' ' {
        trim_end_spaces(s.drop_last())
    } else {
        s
    }
}

/// One line of text reflowed, continuation lines after `sep`; spaces at
/// its end stay at the end, where the wrapper would drop them.
pub open spec fn line_text(line: Seq<char>, sep: Seq<char>, width: nat) -> Seq<char> {
    let body = trim_end_spaces(line);
    join(wrap_of(body, width), sep) + line.subrange(body.len() as int, line.len() as int)
}

/// The lines of `lines`, each reflowed to `width` columns, continuation
/// lines under `indent`.
pub open spec fn text_body(lines: Seq<Seq<char>>, indent: Seq<char>, width: nat) -> Seq<char>
    decreases lines.len(),
{
    let sep = seq!['\n'] + indent;
    if lines.len() == 0 {
        Seq::empty()
    } else if lines.len() == 1 {
        line_text(lines[0], sep, width)
    } else {
        text_body(lines.drop_last(), indent, width) + sep + line_text(lines.last(), sep, width)
    }
}

/// What a run of text shows with each continuation line behind `margin`,
/// reflowed to the columns that `wrap_width` leaves beside the margin.
pub open spec fn text_output(t: Seq<char>, margin: Seq<char>, wrap_width: nat) -> Seq<char> {
    text_body(lines_of(trim_lf(t)), margin, budget_after(wrap_width, visible_width_of(margin)))
}

/// Whether a run of text shows anything at all.
pub open spec fn text_shows(t: Seq<char>) -> bool {
    trim_lf(t).len() > 0
}

pub proof fn lemma_indent_len(depth: nat)
    ensures
        indent_of(depth).len() == 2 * depth,
    decreases depth,
{
    if depth > 0 {
        lemma_indent_len((depth - 1) as nat);
    }
}

fn trim_lf_exec(cs: &Vec<char>) -> (r: Vec<char>)
    ensures
        r@ == trim_lf(cs@),
{
    let n = cs.len();
    let mut start: usize = 0;
    assert(cs@.subrange(0, n as int) =~= cs@);
    while start < n && cs[start] == '\n'
        invariant
            start <= n,
            n == cs@.len(),
            trim_start_lf(cs@.subrange(start as int, n as int)) == trim_start_lf(cs@),
        decreases n - start,
    {
        assert(cs@.subrange(start as int, n as int).drop_first() =~= cs@.subrange(start + 1, n as int));
        start = start + 1;
    }
    let mut end: usize = n;
    assert(start == n ==> cs@.subrange(start as int, n as int) =~= Seq::<char>::empty());
    assert(trim_start_lf(cs@) == cs@.subrange(start as int, n as int));
    while end > start && cs[end - 1] == '\n'
        invariant
            start <= end <= n,
            n == cs@.len(),
            trim_end_lf(cs@.subrange(start as int, end as int)) == trim_lf(cs@),
        decreases end,
    {
        assert(cs@.subrange(start as int, end as int).drop_last() =~= cs@.subrange(start as int, end - 1));
        end = end - 1;
    }
    let mut r: Vec<char> = Vec::new();
    let mut i: usize = start;
    while i < end
        invariant
            start <= i <= end <= n,
            n == cs@.len(),
            r@ == cs@.subrange(start as int, i as int),
        decreases end - i,
    {
        r.push(cs[i]);
        i = i + 1;
        assert(r@ =~= cs@.subrange(start as int, i as int));
    }
    r
}

/// Whether a run of text shows anything at all.
pub fn shows_text(t: &Vec<char>) -> (r: bool)
    ensures
        r == text_shows(t@),
{
    trim_lf_exec(t).len() > 0
}

fn push_joined(out: &mut Vec<char>, parts: &Vec<Vec<char>>, indent: &Vec<char>)
    ensures
        final(out)@ == old(out)@ + join(views(parts@), seq!['\n'] + indent@),
{
    let ghost sep = seq!['\n'] + indent@;
    let mut i: usize = 0;
    assert(views(parts@).take(0) =~= Seq::<Seq<char>>::empty());
    while i < parts.len()
        invariant
            i <= parts@.len(),
            sep == seq!['\n'] + indent@,
            out@ == old(out)@ + join(views(parts@).take(i as int), sep),
        decreases parts@.len() - i,
    {
        if i > 0 {
            out.push('\n');
            push_all(out, indent);
        }
        push_all(out, &parts[i]);
        assert(views(parts@).take(i + 1).drop_last() =~= views(parts@).take(i as int));
        i = i + 1;
        assert(out@ =~= old(out)@ + join(views(parts@).take(i as int), sep));
    }
    assert(views(parts@).take(parts@.len() as int) =~= views(parts@));
}

fn push_line(out: &mut Vec<char>, line: &Vec<char>, indent: &Vec<char>, width: usize)
    ensures
        final(out)@ == old(out)@ + line_text(line@, seq!['\n'] + indent@, width as nat),
{
    let n = line.len();
    let mut end: usize = n;
    assert(line@.subrange(0, n as int) =~= line@);
    while end > 0 && line[end - 1] == ' '
        invariant
            end <= n,
            n == line@.len(),
            trim_end_spaces(line@.subrange(0, end as int)) == trim_end_spaces(line@),
        decreases end,
    {
        assert(line@.subrange(0, end as int).drop_last() =~= line@.subrange(0, end - 1));
        end = end - 1;
    }
    let ghost body = line@.subrange(0, end as int);
    assert(trim_end_spaces(body) == body);
    let mut head: Vec<char> = Vec::new();
    let mut i: usize = 0;
    while i < end
        invariant
            i <= end <= n,
            n == line@.len(),
            head@ == line@.subrange(0, i as int),
        decreases end - i,
    {
        head.push(line[i]);
        i = i + 1;
        assert(head@ =~= line@.subrange(0, i as int));
    }
    let wrapped = wrap_line(&head, width);
    push_joined(out, &wrapped, indent);
    let mut j: usize = end;
    let ghost mid = out@;
    while j < n
        invariant
            end <= j <= n,
            n == line@.len(),
            out@ == mid + line@.subrange(end as int, j as int),
        decreases n - j,
    {
        out.push(line[j]);
        j = j + 1;
        assert(out@ =~= mid + line@.subrange(end as int, j as int));
    }
    assert(out@ =~= old(out)@ + line_text(line@, seq!['\n'] + indent@, width as nat));
}

/// Appends a run of text, continuation lines behind `margin`, reflowed to
/// the columns that `wrap_width` leaves beside the margin; says whether
/// anything was shown.
pub fn push_text(out: &mut Vec<char>, t: &Vec<char>, margin: &Vec<char>, wrap_width: usize) -> (shown: bool)
    ensures
        shown == text_shows(t@),
        final(out)@ == old(out)@ + (if shown { text_output(t@, margin@, wrap_width as nat) } else { Seq::empty() }),
{
    let trimmed = trim_lf_exec(t);
    if trimmed.len() == 0 {
        assert(out@ =~= old(out)@ + Seq::<char>::empty());
        return false;
    }
    let used = visible_width(margin);
    let width = if wrap_width > used { wrap_width - used } else { 0 };
    let lines = split_lines(&trimmed);
    let ghost ls = views(lines@);
    let ghost sep = seq!['\n'] + margin@;
    let mut i: usize = 0;
    assert(ls.take(0) =~= Seq::<Seq<char>>::empty());
    while i < lines.len()
        invariant
            i <= lines@.len(),
            ls == views(lines@),
            sep == seq!['\n'] + margin@,
            out@ == old(out)@ + text_body(ls.take(i as int), margin@, width as nat),
        decreases lines@.len() - i,
    {
        if i > 0 {
            out.push('\n');
            push_all(out, margin);
        }
        push_line(out, &lines[i], margin, width);
        assert(ls.take(i + 1).drop_last() =~= ls.take(i as int));
        i = i + 1;
        assert(out@ =~= old(out)@ + text_body(ls.take(i as int), margin@, width as nat));
    }
    assert(ls.take(lines@.len() as int) =~= ls);
    true
}

} // verus!

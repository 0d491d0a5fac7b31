use vstd::prelude::*;
use crate::lines::{lines_of, split_lines, views};
use crate::style::{DIM, FILL, RESET};
use crate::text_util::{push_all, push_repeat, push_str, repeat};
use crate::width::{chars_of, lemma_visible_le_len, visible_width, visible_width_of};

verus! {

/// The narrowest a code frame is drawn.
pub const MIN_FRAME_WIDTH: usize = 40;

/// The label of a code block without a language tag.
pub const DEFAULT_TAG: &'static str = "text";

/// The colour theme code is highlighted in.
pub const CODE_THEME: &'static str = "Monokai Extended";

/// A name for the styled text that the highlighter makes of `code` in the
/// language `language` and the theme `theme`, or `None` where it has no
/// rules for that language.
pub uninterp spec fn highlight_of(code: Seq<char>, language: Seq<char>, theme: Seq<char>) -> Option<Seq<char>>;

/// The characters of an optional vector.
pub open spec fn opt_view(h: Option<Vec<char>>) -> Option<Seq<char>> {
    match h {
        Some(v) => Some(v@),
        None => None,
    }
}

/// Relies on bat's `Controller::run` with a text buffer: it writes the
/// highlighted text there, and fails on a language it does not know.
#[verifier::external_body]
fn highlight(code: &Vec<char>, language: &Vec<char>, theme: &str) -> (r: Option<Vec<char>>)
    ensures
        opt_view(r) == highlight_of(code@, language@, theme@),
{
    let code: String = code.iter().collect();
    let language: String = language.iter().collect();
    let assets = bat::assets::HighlightingAssets::from_binary();
    let mut config = bat::config::Config::default();
    config.language = Some(&language);
    config.theme = theme.to_string();
    config.colored_output = true;
    config.true_color = true;
    let input = bat::input::Input::from_reader(Box::new(code.as_bytes()));
    let mut out = String::new();
    match bat::controller::Controller::new(&config, &assets).run(vec![input], Some(&mut out)) {
        Ok(true) => Some(out.chars().collect()),
        _ => None,
    }
}

/// White space as Unicode defines it.
pub open spec fn is_blank(c: char) -> bool {
    ('\t' <= c && c <= '\r') || c == ' ' || c == '\u{85}' || c == '\u{a0}' || c == '\u{1680}'
        || ('\u{2000}' <= c && c <= '\u{200a}') || c == '\u{2028}' || c == '\u{2029}'
        || c == '\u{202f}' || c == '\u{205f}' || c == '\u{3000}'
}

/// Whether `c` is white space.
pub fn is_blank_char(c: char) -> (r: bool)
    ensures
        r == is_blank(c),
{
    ('\t' <= c && c <= '\r') || c == ' ' || c == '\u{85}' || c == '\u{a0}' || c == '\u{1680}'
        || ('\u{2000}' <= c && c <= '\u{200a}') || c == '\u{2028}' || c == '\u{2029}'
        || c == '\u{202f}' || c == '\u{205f}' || c == '\u{3000}'
}

/// The tag a code block is labelled and highlighted with: its own, or
/// `text` where it has none.
pub open spec fn tag_or_default(language: Seq<char>) -> Seq<char> {
    if language.len() == 0 { DEFAULT_TAG@ } else { language }
}

/// Every character of `s` is blank.
pub open spec fn all_blank(s: Seq<char>) -> bool {
    forall|i: int| 0 <= i < s.len() ==> is_blank(#[trigger] s[i])
}

/// `s` without its blank characters at the end.
pub open spec fn trim_end(s: Seq<char>) -> Seq<char>
    decreases s.len(),
{
    if s.len() > 0 && is_blank(s.last()) {
        trim_end(s.drop_last())
    } else {
        s
    }
}

/// Widest line among `lines`, in columns.
pub open spec fn max_width(lines: Seq<Seq<char>>) -> nat
    decreases lines.len(),
{
    if lines.len() == 0 {
        0
    } else {
        let w = visible_width_of(lines.last());
        let m = max_width(lines.drop_last());
        if w > m { w } else { m }
    }
}

/// Width of the frame drawn around `lines` under the label `tag`.
pub open spec fn frame_width_of(lines: Seq<Seq<char>>, tag: Seq<char>) -> nat {
    let base = if max_width(lines) > MIN_FRAME_WIDTH { max_width(lines) } else { MIN_FRAME_WIDTH as nat };
    let label = visible_width_of(tag) + 4;
    if label > base { label } else { base }
}

/// Top border: the label ` tag ` centred in filler, the odd filler
/// character on the right.
pub open spec fn top_border(width: nat, tag: Seq<char>) -> Seq<char> {
    let filler = (width - (visible_width_of(tag) + 2)) as nat;
    let left = filler / 2;
    let right = (filler - left) as nat;
    DIM@ + repeat(FILL@, left) + seq![' '] + tag + seq![' '] + repeat(FILL@, right) + RESET@
        + seq!['\n']
}

/// Bottom border: filler across the whole frame.
pub open spec fn bottom_border(width: nat) -> Seq<char> {
    DIM@ + repeat(FILL@, width) + RESET@ + seq!['\n']
}

/// Each line followed by a line feed.
pub open spec fn line_block(lines: Seq<Seq<char>>) -> Seq<char>
    decreases lines.len(),
{
    if lines.len() == 0 {
        Seq::empty()
    } else {
        line_block(lines.drop_last()) + lines.last() + seq!['\n']
    }
}

/// Highlighted lines in a frame labelled with the language.
pub open spec fn framed(lines: Seq<Seq<char>>, tag: Seq<char>) -> Seq<char> {
    let w = frame_width_of(lines, tag);
    top_border(w, tag) + line_block(lines) + bottom_border(w)
}

/// One line of the plain frame: a dim bar, then the raw line.
pub open spec fn plain_line(line: Seq<char>) -> Seq<char> {
    DIM@ + "│"@ + RESET@ + seq![' '] + line + seq!['\n']
}

/// The raw lines, each behind a bar.
pub open spec fn plain_lines(lines: Seq<Seq<char>>) -> Seq<char>
    decreases lines.len(),
{
    if lines.len() == 0 {
        Seq::empty()
    } else {
        plain_lines(lines.drop_last()) + plain_line(lines.last())
    }
}

/// The frame drawn when no highlighting is to be had: raw lines behind a
/// bar, between two dashed borders as wide as a labelled frame would be.
pub open spec fn plain_frame(lines: Seq<Seq<char>>, tag: Seq<char>) -> Seq<char> {
    let w = frame_width_of(lines, tag);
    DIM@ + "┌"@ + repeat(FILL@, w) + RESET@ + seq!['\n'] + plain_lines(lines) + DIM@ + "└"@ + repeat(
        FILL@,
        w,
    ) + RESET@ + seq!['\n']
}

/// What a code block shows, given what the highlighter made of it.
pub open spec fn code_block_text(code: Seq<char>, language: Seq<char>, highlighted: Option<Seq<char>>) -> Seq<char> {
    if all_blank(code) {
        Seq::empty()
    } else {
        match highlighted {
            Some(h) => framed(lines_of(h), tag_or_default(language)),
            None => plain_frame(lines_of(code), tag_or_default(language)),
        }
    }
}

/// Width of the frame for `lines` under the label `tag`: never under the
/// minimum, the widest line, or the label with room around it.
pub fn frame_width(lines: &Vec<Vec<char>>, tag: &Vec<char>) -> (r: usize)
    requires
        tag@.len() + 4 <= usize::MAX,
    ensures
        r == frame_width_of(views(lines@), tag@),
        r >= MIN_FRAME_WIDTH,
        r >= visible_width_of(tag@) + 4,
        forall|i: int| 0 <= i < lines@.len() ==> r >= visible_width_of(#[trigger] lines@[i]@),
{
    let mut m: usize = 0;
    let mut i: usize = 0;
    assert(views(lines@).take(0) =~= Seq::<Seq<char>>::empty());
    while i < lines.len()
        invariant
            i <= lines@.len(),
            m == max_width(views(lines@).take(i as int)),
            forall|j: int| 0 <= j < i ==> m >= visible_width_of(#[trigger] lines@[j]@),
        decreases lines@.len() - i,
    {
        let w = visible_width(&lines[i]);
        assert(views(lines@).take(i + 1).drop_last() =~= views(lines@).take(i as int));
        if w > m {
            m = w;
        }
        i = i + 1;
    }
    assert(views(lines@).take(lines@.len() as int) =~= views(lines@));
    let base = if m > MIN_FRAME_WIDTH { m } else { MIN_FRAME_WIDTH };
    proof {
        lemma_visible_le_len(tag@, false);
    }
    let label = visible_width(tag) + 4;
    if label > base { label } else { base }
}

pub fn is_all_blank_chars(cs: &Vec<char>) -> (r: bool)
    ensures
        r == all_blank(cs@),
{
    let mut i: usize = 0;
    while i < cs.len()
        invariant
            i <= cs@.len(),
            forall|j: int| 0 <= j < i ==> is_blank(#[trigger] cs@[j]),
        decreases cs@.len() - i,
    {
        let c = cs[i];
        if !is_blank_char(c) {
            return false;
        }
        i = i + 1;
    }
    true
}

fn trim_end_exec(cs: &Vec<char>) -> (r: Vec<char>)
    ensures
        r@ == trim_end(cs@),
{
    let mut v = cs.clone();
    assert(v@ =~= cs@);
    loop
        invariant
            trim_end(v@) == trim_end(cs@),
        ensures
            v@ == trim_end(cs@),
        decreases v@.len(),
    {
        if v.len() == 0 {
            break;
        }
        let c = v[v.len() - 1];
        if !is_blank_char(c) {
            break;
        }
        v.pop();
    }
    v
}

fn push_top_border(out: &mut Vec<char>, width: usize, tag: &Vec<char>)
    requires
        width >= visible_width_of(tag@) + 4,
    ensures
        final(out)@ == old(out)@ + top_border(width as nat, tag@),
{
    let filler = width - (visible_width(tag) + 2);
    let left = filler / 2;
    let right = filler - left;
    push_str(out, DIM);
    push_repeat(out, FILL, left);
    out.push(' ');
    push_all(out, tag);
    out.push(' ');
    push_repeat(out, FILL, right);
    push_str(out, RESET);
    out.push('\n');
    assert(out@ =~= old(out)@ + top_border(width as nat, tag@));
}

fn push_line_block(out: &mut Vec<char>, lines: &Vec<Vec<char>>)
    ensures
        final(out)@ == old(out)@ + line_block(views(lines@)),
{
    let mut i: usize = 0;
    assert(views(lines@).take(0) =~= Seq::<Seq<char>>::empty());
    while i < lines.len()
        invariant
            i <= lines@.len(),
            out@ == old(out)@ + line_block(views(lines@).take(i as int)),
        decreases lines@.len() - i,
    {
        push_all(out, &lines[i]);
        out.push('\n');
        assert(views(lines@).take(i + 1).drop_last() =~= views(lines@).take(i as int));
        i = i + 1;
        assert(out@ =~= old(out)@ + line_block(views(lines@).take(i as int)));
    }
    assert(views(lines@).take(lines@.len() as int) =~= views(lines@));
}

fn push_plain_frame(out: &mut Vec<char>, lines: &Vec<Vec<char>>, tag: &Vec<char>)
    requires
        tag@.len() + 4 <= usize::MAX,
    ensures
        final(out)@ == old(out)@ + plain_frame(views(lines@), tag@),
{
    let w = frame_width(lines, tag);
    push_str(out, DIM);
    push_str(out, "┌");
    push_repeat(out, FILL, w);
    push_str(out, RESET);
    out.push('\n');
    let ghost head = out@;
    let mut i: usize = 0;
    assert(views(lines@).take(0) =~= Seq::<Seq<char>>::empty());
    while i < lines.len()
        invariant
            i <= lines@.len(),
            out@ == head + plain_lines(views(lines@).take(i as int)),
        decreases lines@.len() - i,
    {
        push_str(out, DIM);
        push_str(out, "│");
        push_str(out, RESET);
        out.push(' ');
        push_all(out, &lines[i]);
        out.push('\n');
        assert(views(lines@).take(i + 1).drop_last() =~= views(lines@).take(i as int));
        i = i + 1;
        assert(out@ =~= head + plain_lines(views(lines@).take(i as int)));
    }
    assert(views(lines@).take(lines@.len() as int) =~= views(lines@));
    push_str(out, DIM);
    push_str(out, "└");
    push_repeat(out, FILL, w);
    push_str(out, RESET);
    out.push('\n');
    assert(out@ =~= old(out)@ + plain_frame(views(lines@), tag@));
}

fn default_tag(language: &Vec<char>) -> (r: Vec<char>)
    requires
        language@.len() + 4 <= usize::MAX,
    ensures
        r@ == tag_or_default(language@),
        r@.len() + 4 <= usize::MAX,
{
    proof {
        reveal_strlit("text");
    }
    if language.len() == 0 { chars_of(DEFAULT_TAG) } else { language.clone() }
}

/// What a code block shows once the highlighter has answered with
/// `highlighted`: nothing for blank code; the highlighted lines in a
/// labelled frame; or, where highlighting failed, the raw lines in a plain
/// frame of the same width. An empty tag stands for `text`.
pub fn code_block_output(code: &Vec<char>, language: &Vec<char>, highlighted: Option<Vec<char>>) -> (r: Vec<char>)
    requires
        language@.len() + 4 <= usize::MAX,
    ensures
        r@ == code_block_text(code@, language@, opt_view(highlighted)),
{
    let mut out: Vec<char> = Vec::new();
    if is_all_blank_chars(code) {
        assert(out@ =~= Seq::<char>::empty());
        return out;
    }
    let tag = default_tag(language);
    let language = &tag;
    match highlighted {
        Some(h) => {
            let lines = split_lines(&h);
            let w = frame_width(&lines, language);
            push_top_border(&mut out, w, language);
            push_line_block(&mut out, &lines);
            push_str(&mut out, DIM);
            push_repeat(&mut out, FILL, w);
            push_str(&mut out, RESET);
            out.push('\n');
            assert(out@ =~= framed(lines_of(h@), language@));
        },
        None => {
            let lines = split_lines(code);
            push_plain_frame(&mut out, &lines, language);
            assert(out@ =~= plain_frame(lines_of(code@), language@));
        },
    }
    out
}

/// Renders a code block: the code, without its blank end, goes to the
/// highlighter under its language tag (`text` where it is empty) and the
/// code theme, and the answer is framed as
/// `code_block_output` says.
pub fn render_code_block(code: &Vec<char>, language: &Vec<char>) -> (r: Vec<char>)
    requires
        language@.len() + 4 <= usize::MAX,
    ensures
        r@ == code_block_text(
            code@,
            language@,
            highlight_of(trim_end(code@), tag_or_default(language@), CODE_THEME@),
        ),
{
    if is_all_blank_chars(code) {
        return code_block_output(code, language, None);
    }
    let trimmed = trim_end_exec(code);
    let tag = default_tag(language);
    let highlighted = highlight(&trimmed, &tag, CODE_THEME);
    code_block_output(code, language, highlighted)
}

} // verus!

use vstd::prelude::*;

verus! {

/// The escape character that opens a terminal control sequence.
pub open spec fn is_escape(c: char) -> bool {
    c == '\x1b'
}

/// An ASCII letter: the character that closes a control sequence.
pub open spec fn is_letter(c: char) -> bool {
    ('a' <= c && c <= 'z') || ('A' <= c && c <= 'Z')
}

/// Number of columns that `s` occupies, where `in_escape` says whether a
/// control sequence is open before its first character.
pub open spec fn visible_from(s: Seq<char>, in_escape: bool) -> nat
    decreases s.len(),
{
    if s.len() == 0 {
        0
    } else if in_escape {
        visible_from(s.drop_first(), !is_letter(s[0]))
    } else if is_escape(s[0]) {
        visible_from(s.drop_first(), true)
    } else {
        1 + visible_from(s.drop_first(), false)
    }
}

/// Columns that a printed string occupies: every character counts but
/// those of control sequences, which run from an escape up to and
/// including the next letter.
pub open spec fn visible_width_of(s: Seq<char>) -> nat {
    visible_from(s, false)
}

/// The characters of `s`, one by one.
pub fn chars_of(s: &str) -> (r: Vec<char>)
    ensures
        r@ == s@,
{
    let mut v: Vec<char> = Vec::new();
    for c in it: s.chars()
        invariant
            v@ == it.seq().take(it.index()),
    {
        v.push(c);
    }
    v
}

/// Columns that the characters `cs` occupy once printed.
pub fn visible_width(cs: &Vec<char>) -> (r: usize)
    ensures
        r == visible_width_of(cs@),
{
    let n = cs.len();
    let mut count: usize = 0;
    let mut in_escape = false;
    let mut i: usize = 0;
    assert(cs@.subrange(0, n as int) =~= cs@);
    while i < n
        invariant
            n == cs@.len(),
            i <= n,
            count <= i,
            count + visible_from(cs@.subrange(i as int, n as int), in_escape) == visible_width_of(cs@),
        decreases n - i,
    {
        let c = cs[i];
        let ghost rest = cs@.subrange(i as int, n as int);
        assert(rest.drop_first() =~= cs@.subrange(i + 1, n as int));
        if in_escape {
            in_escape = !(('a' <= c && c <= 'z') || ('A' <= c && c <= 'Z'));
        } else if c == '\x1b' {
            in_escape = true;
        } else {
            count = count + 1;
        }
        i = i + 1;
    }
    assert(cs@.subrange(n as int, n as int) =~= Seq::<char>::empty());
    count
}

/// A control sequence takes no more columns than it has characters.
pub proof fn lemma_visible_le_len(s: Seq<char>, in_escape: bool)
    ensures
        visible_from(s, in_escape) <= s.len(),
    decreases s.len(),
{
    if s.len() > 0 {
        lemma_visible_le_len(s.drop_first(), !is_letter(s[0]));
        lemma_visible_le_len(s.drop_first(), true);
        lemma_visible_le_len(s.drop_first(), false);
    }
}

} // verus!

use vstd::prelude::*;

verus! {

/// The characters of each vector, in order.
pub open spec fn views(v: Seq<Vec<char>>) -> Seq<Seq<char>> {
    v.map_values(|l: Vec<char>| l@)
}

/// `s` without one carriage return at its end.
pub open spec fn strip_cr(s: Seq<char>) -> Seq<char> {
    if s.len() > 0 && s.last() == '\r' {
        s.drop_last()
    } else {
        s
    }
}

/// The pieces of `s` between line feeds, the first of them continuing
/// `cur`; each piece loses a carriage return at its end.
pub open spec fn split_from(s: Seq<char>, cur: Seq<char>) -> Seq<Seq<char>>
    decreases s.len(),
{
    if s.len() == 0 {
        seq![strip_cr(cur)]
    } else if s[0] == '\n' {
        seq![strip_cr(cur)] + split_from(s.drop_first(), Seq::empty())
    } else {
        split_from(s.drop_first(), cur.push(s[0]))
    }
}

/// The lines of `s`: no lines for an empty text, and a line feed at the
/// very end closes the last line rather than opening a new one.
pub open spec fn lines_of(s: Seq<char>) -> Seq<Seq<char>> {
    if s.len() == 0 {
        Seq::empty()
    } else if s.last() == '\n' {
        split_from(s.drop_last(), Seq::empty())
    } else {
        split_from(s, Seq::empty())
    }
}

fn strip_cr_exec(cur: Vec<char>) -> (r: Vec<char>)
    ensures
        r@ == strip_cr(cur@),
{
    let mut cur = cur;
    if cur.len() > 0 && cur[cur.len() - 1] == '\r' {
        cur.pop();
    }
    cur
}

/// Splits `cs` into its lines.
pub fn split_lines(cs: &Vec<char>) -> (r: Vec<Vec<char>>)
    ensures
        views(r@) == lines_of(cs@),
{
    let n = cs.len();
    let mut res: Vec<Vec<char>> = Vec::new();
    if n == 0 {
        assert(views(res@) =~= Seq::<Seq<char>>::empty());
        return res;
    }
    let end: usize = if cs[n - 1] == '\n' { n - 1 } else { n };
    let ghost whole = cs@.subrange(0, end as int);
    assert(cs@.last() == '\n' ==> whole =~= cs@.drop_last());
    assert(cs@.last() != '\n' ==> whole =~= cs@);
    let mut cur: Vec<char> = Vec::new();
    let mut i: usize = 0;
    assert(views(res@) =~= Seq::<Seq<char>>::empty());
    while i < end
        invariant
            n == cs@.len(),
            end <= n,
            i <= end,
            whole == cs@.subrange(0, end as int),
            views(res@) + split_from(cs@.subrange(i as int, end as int), cur@)
                == split_from(whole, Seq::empty()),
        decreases end - i,
    {
        let c = cs[i];
        let ghost rest = cs@.subrange(i as int, end as int);
        assert(rest.drop_first() =~= cs@.subrange(i + 1, end as int));
        if c == '\n' {
            let old_cur = cur;
            let piece = strip_cr_exec(old_cur);
            let ghost before = views(res@);
            res.push(piece);
            assert(views(res@) =~= before.push(piece@));
            assert(before + split_from(rest, old_cur@) =~= views(res@) + split_from(
                cs@.subrange(i + 1, end as int),
                Seq::empty(),
            ));
            cur = Vec::new();
            assert(cur@ =~= Seq::<char>::empty());
        } else {
            cur.push(c);
        }
        i = i + 1;
    }
    assert(cs@.subrange(end as int, end as int) =~= Seq::<char>::empty());
    let piece = strip_cr_exec(cur);
    let ghost before = views(res@);
    res.push(piece);
    assert(views(res@) =~= before.push(piece@));
    res
}

} // verus!

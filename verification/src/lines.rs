//! Splitting text into lines the way `BufRead::lines` does, and joining lines back.

use vstd::prelude::*;

verus! {

/// The position of the first `'\n'` at or after `i`, or the length of `s` if there is none.
pub open spec fn line_end(s: Seq<char>, i: int) -> int
    decreases s.len() - i,
{
    if i < 0 || i >= s.len() {
        s.len() as int
    } else if s[i] == '\n' {
        i
    } else {
        line_end(s, i + 1)
    }
}

/// A line read up to a `'\n'` loses one `'\r'` in front of it.
pub open spec fn strip_cr(l: Seq<char>) -> Seq<char> {
    if l.len() > 0 && l.last() == '\r' {
        l.drop_last()
    } else {
        l
    }
}

pub proof fn lemma_line_end_bounds(s: Seq<char>, i: int)
    requires
        0 <= i,
    ensures
        i <= s.len() ==> i <= line_end(s, i),
        line_end(s, i) <= s.len(),
        line_end(s, i) < s.len() ==> s[line_end(s, i)] == '\n',
        forall|j: int| i <= j < line_end(s, i) ==> s[j] != '\n',
    decreases s.len() - i,
{
    if i < s.len() && s[i] != '\n' {
        lemma_line_end_bounds(s, i + 1);
    }
}

/// The lines of `s` that start at position `p`, as `BufRead::lines` yields them:
/// split at each `'\n'`, one `'\r'` before it dropped, and no empty line after a final `'\n'`.
pub open spec fn lines_from(s: Seq<char>, p: int) -> Seq<Seq<char>>
    decreases s.len() - p,
{
    if p < 0 || p >= s.len() {
        seq![]
    } else {
        let k = line_end(s, p);
        if k >= s.len() {
            seq![s.subrange(p, s.len() as int)]
        } else {
            proof {
                lemma_line_end_bounds(s, p);
            }
            seq![strip_cr(s.subrange(p, k))] + lines_from(s, k + 1)
        }
    }
}

/// The lines of `s`.
pub open spec fn split_lines(s: Seq<char>) -> Seq<Seq<char>> {
    lines_from(s, 0)
}

/// Each line followed by `'\n'`, as `writeln!` writes them.
pub open spec fn join_lines(ls: Seq<Seq<char>>) -> Seq<char>
    decreases ls.len(),
{
    if ls.len() == 0 {
        seq![]
    } else {
        join_lines(ls.drop_last()) + ls.last() + seq!['\n']
    }
}

/// The bounds in `text` of each of its lines.
pub fn line_ranges(text: &Vec<char>) -> (r: Vec<(usize, usize)>)
    ensures
        r@.len() == split_lines(text@).len(),
        forall|i: int|
            0 <= i < r@.len() ==> {
                &&& (#[trigger] r@[i]).0 <= r@[i].1 <= text@.len()
                &&& text@.subrange(r@[i].0 as int, r@[i].1 as int) == split_lines(text@)[i]
            },
        forall|i: int| 0 < i < r@.len() ==> r@[i - 1].1 <= (#[trigger] r@[i]).0,
{
    let ghost total = split_lines(text@);
    let mut r: Vec<(usize, usize)> = Vec::new();
    let mut pos: usize = 0;
    while pos < text.len()
        invariant
            pos <= text@.len(),
            r@.len() <= total.len(),
            total == split_lines(text@),
            lines_from(text@, pos as int) == total.subrange(r@.len() as int, total.len() as int),
            forall|i: int|
                0 <= i < r@.len() ==> {
                    &&& (#[trigger] r@[i]).0 <= r@[i].1 <= text@.len()
                    &&& text@.subrange(r@[i].0 as int, r@[i].1 as int) == total[i]
                },
            forall|i: int| 0 < i < r@.len() ==> r@[i - 1].1 <= (#[trigger] r@[i]).0,
            r@.len() > 0 ==> r@[r@.len() - 1].1 <= pos,
        decreases text@.len() - pos,
    {
        let mut k = pos;
        while k < text.len() && text[k] != '\n'
            invariant
                pos <= k <= text@.len(),
                line_end(text@, pos as int) == line_end(text@, k as int),
            decreases text@.len() - k,
        {
            k = k + 1;
        }
        proof {
            lemma_line_end_bounds(text@, pos as int);
        }
        let ghost before = r@.len();
        assert(lines_from(text@, pos as int).len() >= 1);
        assert(before < total.len());
        if k == text.len() {
            r.push((pos, k));
            assert(total.subrange(before as int, total.len() as int) == seq![
                text@.subrange(pos as int, k as int),
            ]);
            assert(total[before as int] == total.subrange(before as int, total.len() as int)[0]);
            pos = k;
            assert(total.len() == before + 1);
        } else {
            let end = if k > pos && text[k - 1] == '\r' {
                k - 1
            } else {
                k
            };
            assert(text@.subrange(pos as int, end as int) == strip_cr(
                text@.subrange(pos as int, k as int),
            ));
            r.push((pos, end));
            let ghost rest = total.subrange(before as int, total.len() as int);
            assert(rest[0] == total[before as int]);
            assert(rest.drop_first() == total.subrange(before + 1int, total.len() as int));
            pos = k + 1;
        }
    }
    assert(total.subrange(r@.len() as int, total.len() as int).len() == 0);
    r
}

} // verus!

verus! {

pub proof fn lemma_line_end_at(s: Seq<char>, p: int, q: int)
    requires
        0 <= p <= q <= s.len(),
        q < s.len() ==> s[q] == '\n',
        forall|j: int| p <= j < q ==> s[j] != '\n',
    ensures
        line_end(s, p) == q,
    decreases q - p,
{
    if p < q {
        lemma_line_end_at(s, p + 1, q);
    }
}

/// Text after a line that ends in `c` does not change where that line ends.
pub proof fn lemma_line_end_prefix(c: Seq<char>, d: Seq<char>, p: int)
    requires
        0 <= p <= c.len(),
        line_end(c, p) < c.len(),
    ensures
        line_end(c + d, p) == line_end(c, p),
{
    lemma_line_end_bounds(c, p);
    let k = line_end(c, p);
    assert forall|j: int| p <= j < k implies (c + d)[j] != '\n' by {
        assert((c + d)[j] == c[j]);
    }
    assert((c + d)[k] == c[k]);
    lemma_line_end_at(c + d, p, k);
}

pub proof fn lemma_line_end_shift(x: Seq<char>, d: Seq<char>, q: int)
    requires
        0 <= q,
    ensures
        line_end(x + d, x.len() + q) == x.len() + line_end(d, q),
    decreases d.len() - q,
{
    if q < d.len() {
        assert((x + d)[x.len() + q] == d[q]);
        if d[q] != '\n' {
            lemma_line_end_shift(x, d, q + 1);
        }
    }
}

/// The lines after a prefix `x` are the lines of what follows it.
pub proof fn lemma_lines_shift(x: Seq<char>, d: Seq<char>, q: int)
    requires
        0 <= q,
    ensures
        lines_from(x + d, x.len() + q) == lines_from(d, q),
    decreases d.len() - q,
{
    if q < d.len() {
        lemma_line_end_shift(x, d, q);
        lemma_line_end_bounds(d, q);
        let k = line_end(d, q);
        if k < d.len() {
            lemma_lines_shift(x, d, k + 1);
            assert((x + d).subrange(x.len() + q, x.len() + k) == d.subrange(q, k));
        } else {
            assert((x + d).subrange(x.len() + q, (x + d).len() as int) == d.subrange(
                q,
                d.len() as int,
            ));
        }
    }
}

/// Text that ends with a line break splits apart from what is appended to it.
pub proof fn lemma_lines_append(c: Seq<char>, d: Seq<char>, p: int)
    requires
        0 <= p <= c.len(),
        c.len() == 0 || c.last() == '\n',
    ensures
        lines_from(c + d, p) == lines_from(c, p) + lines_from(d, 0),
    decreases c.len() - p,
{
    if p == c.len() {
        lemma_lines_shift(c, d, 0);
        assert(lines_from(c, p) + lines_from(d, 0) == lines_from(d, 0));
    } else {
        lemma_line_end_bounds(c, p);
        if line_end(c, p) == c.len() {
            assert(c[c.len() - 1] == '\n');
            assert(false);
        }
        let k = line_end(c, p);
        lemma_line_end_prefix(c, d, p);
        lemma_lines_append(c, d, k + 1);
        assert((c + d).subrange(p, k) == c.subrange(p, k));
        assert(lines_from(c + d, p) == seq![strip_cr(c.subrange(p, k))] + lines_from(c + d, k + 1));
        assert(lines_from(c, p) == seq![strip_cr(c.subrange(p, k))] + lines_from(c, k + 1));
        assert(seq![strip_cr(c.subrange(p, k))] + (lines_from(c, k + 1) + lines_from(d, 0))
            == (seq![strip_cr(c.subrange(p, k))] + lines_from(c, k + 1)) + lines_from(d, 0));
    }
}

pub proof fn lemma_join_prepend(x: Seq<char>, rest: Seq<Seq<char>>)
    ensures
        join_lines(seq![x] + rest) == x + seq!['\n'] + join_lines(rest),
    decreases rest.len(),
{
    if rest.len() == 0 {
        assert(seq![x] + rest == seq![x]);
        assert(seq![x].drop_last() =~= Seq::<Seq<char>>::empty());
        assert(join_lines(Seq::<Seq<char>>::empty()) =~= Seq::<char>::empty());
        assert(join_lines(seq![x]) =~= x + seq!['\n']);
        assert(x + seq!['\n'] + join_lines(rest) =~= x + seq!['\n']);
    } else {
        lemma_join_prepend(x, rest.drop_last());
        assert((seq![x] + rest).drop_last() =~= seq![x] + rest.drop_last());
        assert((seq![x] + rest).last() == rest.last());
        assert(join_lines(seq![x] + rest) =~= x + seq!['\n'] + join_lines(rest.drop_last())
            + rest.last() + seq!['\n']);
    }
}

/// Joining the lines of text without `'\r'` that ends with a line break gives the text back.
pub proof fn lemma_join_lines_from(c: Seq<char>, p: int)
    requires
        0 <= p <= c.len(),
        c.len() == 0 || c.last() == '\n',
        forall|j: int| 0 <= j < c.len() ==> c[j] != '\r',
    ensures
        join_lines(lines_from(c, p)) == c.subrange(p, c.len() as int),
    decreases c.len() - p,
{
    if p < c.len() {
        lemma_line_end_bounds(c, p);
        if line_end(c, p) == c.len() {
            assert(c[c.len() - 1] == '\n');
            assert(false);
        }
        let k = line_end(c, p);
        lemma_join_lines_from(c, k + 1);
        if k > p {
            assert(c.subrange(p, k).last() == c[k - 1]);
        }
        assert(strip_cr(c.subrange(p, k)) == c.subrange(p, k));
        lemma_join_prepend(c.subrange(p, k), lines_from(c, k + 1));
        assert(c.subrange(p, c.len() as int) =~= c.subrange(p, k) + seq!['\n'] + c.subrange(
            k + 1,
            c.len() as int,
        ));
    } else {
        assert(c.subrange(p, c.len() as int) =~= Seq::<char>::empty());
    }
}

/// Each line is a piece of the text.
pub proof fn lemma_lines_are_pieces(s: Seq<char>, p: int, i: int)
    requires
        0 <= p,
        0 <= i < lines_from(s, p).len(),
    ensures
        exists|a: int, b: int|
            0 <= a <= b <= s.len() && lines_from(s, p)[i] == #[trigger] s.subrange(a, b),
    decreases s.len() - p,
{
    lemma_line_end_bounds(s, p);
    let k = line_end(s, p);
    if k >= s.len() {
        assert(lines_from(s, p)[i] == s.subrange(p, s.len() as int));
    } else if i == 0 {
        if k > p && s.subrange(p, k).last() == '\r' {
            assert(lines_from(s, p)[0] == s.subrange(p, k - 1));
        } else {
            assert(lines_from(s, p)[0] == s.subrange(p, k));
        }
    } else {
        lemma_lines_are_pieces(s, k + 1, i - 1);
        assert(lines_from(s, p)[i] == lines_from(s, k + 1)[i - 1]);
    }
}

} // verus!

verus! {

/// Joining two lists of lines is joining each and putting the texts together.
pub proof fn lemma_join_concat(a: Seq<Seq<char>>, b: Seq<Seq<char>>)
    ensures
        join_lines(a + b) == join_lines(a) + join_lines(b),
    decreases b.len(),
{
    if b.len() == 0 {
        assert(a + b == a);
        assert(join_lines(a) + Seq::<char>::empty() == join_lines(a));
    } else {
        lemma_join_concat(a, b.drop_last());
        assert((a + b).drop_last() == a + b.drop_last());
        assert((a + b).last() == b.last());
        assert(join_lines(a) + join_lines(b) =~= join_lines(a) + join_lines(b.drop_last())
            + b.last() + seq!['\n']);
    }
}

/// A line without line breaks, followed by `'\n'`, is that one line.
pub proof fn lemma_single_line(l: Seq<char>)
    requires
        forall|j: int| 0 <= j < l.len() ==> l[j] != '\n',
        l.len() == 0 || l.last() != '\r',
    ensures
        split_lines(l + seq!['\n']) == seq![l],
{
    let s = l + seq!['\n'];
    assert forall|j: int| 0 <= j < l.len() implies s[j] != '\n' by {
        assert(s[j] == l[j]);
    }
    lemma_line_end_at(s, 0, l.len() as int);
    assert(s.subrange(0, l.len() as int) =~= l);
    assert(strip_cr(l) == l);
    assert(lines_from(s, l.len() as int + 1) == Seq::<Seq<char>>::empty());
    assert(lines_from(s, 0) =~= seq![l]);
}

/// Lines without line breaks, joined, split back into the same lines.
pub proof fn lemma_split_join(ls: Seq<Seq<char>>)
    requires
        forall|i: int, j: int|
            0 <= i < ls.len() && 0 <= j < ls[i].len() ==> ls[i][j] != '\n' && ls[i][j] != '\r',
    ensures
        split_lines(join_lines(ls)) == ls,
    decreases ls.len(),
{
    if ls.len() > 0 {
        let init = ls.drop_last();
        let last = ls.last();
        assert forall|i: int, j: int|
            0 <= i < init.len() && 0 <= j < init[i].len() implies init[i][j] != '\n'
            && init[i][j] != '\r' by {
            assert(init[i] == ls[i]);
        }
        lemma_split_join(init);
        assert forall|j: int| 0 <= j < last.len() implies last[j] != '\n' && last[j] != '\r' by {
            assert(last == ls[ls.len() - 1]);
        }
        if last.len() > 0 {
            assert(last.last() == last[last.len() - 1]);
        }
        lemma_single_line(last);
        let ji = join_lines(init);
        if ji.len() > 0 {
            lemma_join_ends(init);
        }
        lemma_lines_append(ji, last + seq!['\n'], 0);
        assert(join_lines(ls) == ji + (last + seq!['\n']));
        assert(init + seq![last] == ls);
    }
}

/// Joined lines end with a line break.
pub proof fn lemma_join_ends(ls: Seq<Seq<char>>)
    requires
        ls.len() > 0,
    ensures
        join_lines(ls).len() > 0,
        join_lines(ls).last() == '\n',
{
}

} // verus!

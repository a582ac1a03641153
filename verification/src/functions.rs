//! The module file of functions: saving a function and removing one.

use vstd::prelude::*;
use crate::lines::{
    join_lines, lemma_join_concat, lemma_join_ends, lemma_join_lines_from, lemma_line_end_at,
    lemma_lines_append, lemma_lines_are_pieces, lemma_single_line, lemma_split_join,
    line_ranges, lines_from, split_lines, strip_cr,
};
use crate::text::{lemma_closing_line_counts, lemma_count_concat, lemma_count_single, occurs_at, trim_start, chars_of, contains, contains_exec, count_char, count_char_exec, push_char, push_range, starts_with_at, trim, trim_bounds};

verus! {

/// `function NAME {`, the first line of a saved function.
pub open spec fn header(name: Seq<char>) -> Seq<char> {
    seq!['f', 'u', 'n', 'c', 't', 'i', 'o', 'n', ' '] + name + seq![' ', '{']
}

/// The text that saving function `name` with `body` appends to the module file.
pub open spec fn definition(name: Seq<char>, body: Seq<char>) -> Seq<char> {
    header(name) + seq!['\n', ' ', ' ', ' ', ' '] + body + seq!['\n', '}', '\n']
}

/// `function NAME {`.
pub fn function_header(name: &str) -> (h: String)
    ensures
        h@ == header(name@),
{
    let mut h = String::from_str("function ");
    proof {
        reveal_strlit("function ");
    }
    h.append(name);
    h.append(" {");
    proof {
        reveal_strlit(" {");
    }
    h
}

/// The definition of function `name` whose body is `body`.
pub fn function_definition(name: &str, body: &str) -> (d: String)
    ensures
        d@ == definition(name@, body@),
{
    let mut d = function_header(name);
    d.append("\n    ");
    d.append(body);
    d.append("\n}\n");
    proof {
        reveal_strlit("\n    ");
        reveal_strlit("\n}\n");
    }
    d
}

} // verus!

verus! {

/// The state of the scan that removes a function: whether it is inside the function,
/// the brace depth there, and whether the function was found at all.
pub type ScanState = (bool, int, bool);

pub open spec fn scan_start() -> ScanState {
    (false, 0, false)
}

/// One line of the scan: the next state, and whether the line is kept.
pub open spec fn scan_step(st: ScanState, line: Seq<char>, h: Seq<char>) -> (ScanState, bool) {
    if h.is_prefix_of(line) && !st.0 {
        ((true, 1, true), false)
    } else if st.0 && trim(line) == seq!['}'] {
        if st.1 - 1 == 0 {
            ((false, 0, st.2), false)
        } else {
            ((true, st.1 - 1, st.2), false)
        }
    } else if st.0 {
        ((true, st.1 + count_char(line, '{') - count_char(line, '}'), st.2), false)
    } else {
        (st, true)
    }
}

/// The scan over `lines` from `st`: the final state and the lines kept.
pub open spec fn scan(st: ScanState, lines: Seq<Seq<char>>, h: Seq<char>) -> (
    ScanState,
    Seq<Seq<char>>,
)
    decreases lines.len(),
{
    if lines.len() == 0 {
        (st, seq![])
    } else {
        let prev = scan(st, lines.drop_last(), h);
        let next = scan_step(prev.0, lines.last(), h);
        (next.0, if next.1 {
            prev.1.push(lines.last())
        } else {
            prev.1
        })
    }
}

/// What removing function `name` from the module text `text` gives: `None` when no line
/// starts the function, else the remaining lines, each ended by `'\n'`.
pub open spec fn removal(text: Seq<char>, name: Seq<char>) -> Option<Seq<char>> {
    let out = scan(scan_start(), split_lines(text), header(name));
    if out.0.2 {
        Some(join_lines(out.1))
    } else {
        None
    }
}

/// Removes function `name` from the module text: each line that starts with
/// `function NAME {` begins a block that ends at the line reading `}` (after trimming)
/// that brings the brace depth back to zero; those lines are dropped, the others kept.
/// Returns `None` when no line starts the function.
pub fn remove_function(text: &str, name: &str) -> (r: Option<String>)
    ensures
        r matches Some(s) ==> removal(text@, name@) == Some(s@),
        r is None ==> removal(text@, name@) is None,
{
    let v = chars_of(text);
    let hs = function_header(name);
    let h = chars_of(hs.as_str());
    let ranges = line_ranges(&v);
    let ghost lines = split_lines(v@);
    let mut out = String::new();
    let mut in_function = false;
    let mut depth: i128 = 0;
    let mut found = false;
    let mut i: usize = 0;
    while i < ranges.len()
        invariant
            lines == split_lines(v@),
            v@ == text@,
            h@ == header(name@),
            i <= ranges@.len(),
            ranges@.len() == lines.len(),
            forall|j: int|
                0 <= j < ranges@.len() ==> {
                    &&& (#[trigger] ranges@[j]).0 <= ranges@[j].1 <= v@.len()
                    &&& v@.subrange(ranges@[j].0 as int, ranges@[j].1 as int) == lines[j]
                },
            forall|j: int| 0 < j < ranges@.len() ==> ranges@[j - 1].1 <= (#[trigger] ranges@[j]).0,
            i > 0 ==> -(ranges@[i - 1].1 as int) <= depth <= ranges@[i - 1].1 + 1,
            i == 0 ==> depth == 0,
            scan(scan_start(), lines.take(i as int), header(name@)).0 == (
                in_function,
                depth as int,
                found,
            ),
            out@ == join_lines(scan(scan_start(), lines.take(i as int), header(name@)).1),
        decreases ranges@.len() - i,
    {
        let (a, b) = ranges[i];
        let ghost line = lines[i as int];
        let ghost prev = scan(scan_start(), lines.take(i as int), header(name@));
        assert(lines.take(i + 1).drop_last() == lines.take(i as int));
        assert(lines.take(i + 1).last() == line);
        if starts_with_at(&v, a, b, &h) && !in_function {
            found = true;
            in_function = true;
            depth = 1;
        } else {
            let (x, y) = trim_bounds(&v, a, b);
            let closes = x < y && y - x == 1 && v[x] == '}';
            assert(closes == (trim(line) == seq!['}'])) by {
                assert(trim(line) == v@.subrange(x as int, y as int));
                if x < y && y - x == 1 {
                    assert(v@.subrange(x as int, y as int) =~= seq![v@[x as int]]);
                    if trim(line) == seq!['}'] {
                        assert(trim(line)[0] == '}');
                    }
                } else {
                    assert(trim(line).len() != 1);
                }
            }
            if in_function && closes {
                depth = depth - 1;
                if depth == 0 {
                    in_function = false;
                }
            } else if in_function {
                let opens = count_char_exec(&v, a, b, '{');
                let shuts = count_char_exec(&v, a, b, '}');
                proof {
                    lemma_count_le(line, '{');
                    lemma_count_le(line, '}');
                }
                depth = depth + opens as i128 - shuts as i128;
            } else {
                push_range(&mut out, &v, a, b);
                push_char(&mut out, '\n');
                assert(prev.1.push(line).drop_last() == prev.1);
                assert(out@ == join_lines(prev.1) + line + seq!['\n']);
            }
        }
        i = i + 1;
    }
    assert(lines.take(ranges@.len() as int) == lines);
    if found {
        Some(out)
    } else {
        None
    }
}

pub proof fn lemma_count_le(s: Seq<char>, c: char)
    ensures
        count_char(s, c) <= s.len(),
    decreases s.len(),
{
    if s.len() > 0 {
        lemma_count_le(s.drop_last(), c);
    }
}

} // verus!

verus! {

/// What saving function `name` with `body` gives: `None` when the module text already
/// holds `function NAME {`, else the definition to append.
pub open spec fn saving(contents: Seq<char>, name: Seq<char>, body: Seq<char>) -> Option<
    Seq<char>,
> {
    if contains(contents, header(name)) {
        None
    } else {
        Some(definition(name, body))
    }
}

/// Saves function `name` with `body`: refused (`None`) when the module text `contents`
/// already holds `function NAME {`, else the definition to append to it.
pub fn save_function(contents: &str, name: &str, body: &str) -> (r: Option<String>)
    ensures
        r matches Some(d) ==> saving(contents@, name@, body@) == Some(d@),
        r is None ==> saving(contents@, name@, body@) is None,
        r is None <==> contains(
            contents@,
            seq!['f', 'u', 'n', 'c', 't', 'i', 'o', 'n', ' '] + name@ + seq![' ', '{'],
        ),
{
    proof {
        law_save_exactly_when_absent(contents@, name@, body@);
    }
    let c = chars_of(contents);
    let hs = function_header(name);
    let h = chars_of(hs.as_str());
    if contains_exec(&c, &h) {
        None
    } else {
        Some(function_definition(name, body))
    }
}

/// The definition whose body first clears the host: `Clear-Host; BODY`.
pub fn clearing_function_definition(name: &str, body: &str) -> (d: String)
    ensures
        d@ == definition(name@, seq!['C', 'l', 'e', 'a', 'r', '-', 'H', 'o', 's', 't', ';', ' '] + body@),
{
    let mut b = String::from_str("Clear-Host; ");
    proof {
        reveal_strlit("Clear-Host; ");
    }
    b.append(body);
    function_definition(name, b.as_str())
}

} // verus!

verus! {

pub proof fn lemma_scan_concat(st: ScanState, a: Seq<Seq<char>>, b: Seq<Seq<char>>, h: Seq<char>)
    ensures
        scan(st, a + b, h) == (
            scan(scan(st, a, h).0, b, h).0,
            scan(st, a, h).1 + scan(scan(st, a, h).0, b, h).1,
        ),
    decreases b.len(),
{
    if b.len() == 0 {
        assert(a + b == a);
        assert(scan(st, a, h).1 + Seq::<Seq<char>>::empty() == scan(st, a, h).1);
    } else {
        lemma_scan_concat(st, a, b.drop_last(), h);
        assert((a + b).drop_last() == a + b.drop_last());
        assert((a + b).last() == b.last());
        let mid = scan(st, a, h);
        let rest = scan(mid.0, b.drop_last(), h);
        assert(mid.1 + rest.1.push(b.last()) == (mid.1 + rest.1).push(b.last()));
    }
}

/// Outside a function, lines that do not start it are all kept.
pub proof fn lemma_scan_keeps_all(st: ScanState, lines: Seq<Seq<char>>, h: Seq<char>)
    requires
        !st.0,
        forall|i: int| 0 <= i < lines.len() ==> !h.is_prefix_of(#[trigger] lines[i]),
    ensures
        scan(st, lines, h) == (st, lines),
    decreases lines.len(),
{
    if lines.len() > 0 {
        lemma_scan_keeps_all(st, lines.drop_last(), h);
        assert(!h.is_prefix_of(lines[lines.len() - 1]));
        assert(lines.drop_last().push(lines.last()) == lines);
    }
}

/// The lines of a definition: its header, its body line and the closing `}`.
pub proof fn lemma_definition_lines(name: Seq<char>, body: Seq<char>)
    requires
        forall|j: int| 0 <= j < name.len() ==> name[j] != '\n',
        forall|j: int| 0 <= j < body.len() ==> body[j] != '\n',
    ensures
        split_lines(definition(name, body)) == seq![
            header(name),
            strip_cr(seq![' ', ' ', ' ', ' '] + body),
            seq!['}'],
        ],
{
    let h = header(name);
    let sp = seq![' ', ' ', ' ', ' '];
    let d = definition(name, body);
    let n = h.len() as int;
    assert(d =~= h + seq!['\n'] + (sp + body) + seq!['\n', '}', '\n']);
    assert forall|j: int| 0 <= j < n implies d[j] != '\n' by {
        assert(d[j] == h[j]);
        if 9 <= j < 9 + name.len() {
            assert(h[j] == name[j - 9]);
        }
    }
    assert(d[n] == '\n');
    lemma_line_end_at(d, 0, n);
    assert(d.subrange(0, n) =~= h);
    assert(h.last() == '{');
    let p1 = n + 1;
    let q1 = p1 + 4 + body.len();
    assert forall|j: int| p1 <= j < q1 implies d[j] != '\n' by {
        if j < p1 + 4 {
            assert(d[j] == ' ');
        } else {
            assert(d[j] == body[j - p1 - 4]);
        }
    }
    assert(d[q1] == '\n');
    lemma_line_end_at(d, p1, q1);
    assert(d.subrange(p1, q1) =~= sp + body);
    let p2 = q1 + 1;
    assert(d[p2] == '}');
    assert(d[p2 + 1] == '\n');
    lemma_line_end_at(d, p2, p2 + 1);
    assert(d.subrange(p2, p2 + 1) =~= seq!['}']);
    assert(d.len() == p2 + 2);
    assert(lines_from(d, p2 + 2) == Seq::<Seq<char>>::empty());
    assert(lines_from(d, p2) =~= seq![seq!['}']]);
    assert(lines_from(d, p1) =~= seq![strip_cr(sp + body), seq!['}']]);
    assert(lines_from(d, 0) =~= seq![h, strip_cr(sp + body), seq!['}']]);
}

} // verus!

verus! {

/// Saving a function and then removing it gives the module text back unchanged, when the
/// text has the shape the module file keeps (no `'\r'`, ended by a line break or empty),
/// the name and body are single lines, and the body's braces balance.
pub proof fn law_remove_undoes_save(contents: Seq<char>, name: Seq<char>, body: Seq<char>)
    requires
        saving(contents, name, body) is Some,
        contents.len() == 0 || contents.last() == '\n',
        forall|j: int| 0 <= j < contents.len() ==> contents[j] != '\r',
        forall|j: int| 0 <= j < name.len() ==> name[j] != '\n',
        forall|j: int| 0 <= j < body.len() ==> body[j] != '\n',
        count_char(body, '{') == count_char(body, '}'),
    ensures
        removal(contents + definition(name, body), name) == Some(contents),
{
    let h = header(name);
    let d = definition(name, body);
    let l1 = split_lines(contents);
    let sp = seq![' ', ' ', ' ', ' '];
    let bl = strip_cr(sp + body);
    let l2 = seq![h, bl, seq!['}']];
    lemma_lines_append(contents, d, 0);
    lemma_definition_lines(name, body);
    assert forall|i: int| 0 <= i < l1.len() implies !h.is_prefix_of(#[trigger] l1[i]) by {
        lemma_lines_are_pieces(contents, 0, i);
        let (a, b) = choose|a: int, b: int|
            0 <= a <= b <= contents.len() && l1[i] == #[trigger] contents.subrange(a, b);
        if h.is_prefix_of(l1[i]) {
            assert(contents.subrange(a, a + h.len()) =~= h);
            assert(occurs_at(contents, h, a));
        }
    }
    lemma_scan_keeps_all(scan_start(), l1, h);
    lemma_scan_concat(scan_start(), l1, l2, h);
    // The body line keeps the brace depth at one.
    reveal_with_fuel(count_char, 5);
    assert(count_char(sp, '{') == 0);
    assert(count_char(sp, '}') == 0);
    lemma_count_concat(sp, body, '{');
    lemma_count_concat(sp, body, '}');
    assert(count_char(bl, '{') == count_char(bl, '}'));
    if trim(bl) == seq!['}'] {
        lemma_closing_line_counts(bl);
    }
    assert(h.is_prefix_of(h));
    let s1 = scan(scan_start(), seq![h], h);
    assert(seq![h].drop_last() =~= Seq::<Seq<char>>::empty());
    assert(seq![h].last() == h);
    assert(scan(scan_start(), Seq::<Seq<char>>::empty(), h) == (scan_start(), Seq::<Seq<char>>::empty()));
    assert(scan_step(scan_start(), h, h) == ((true, 1int, true), false));
    assert(s1 == ((true, 1int, true), Seq::<Seq<char>>::empty()));
    assert(seq![h, bl].drop_last() =~= seq![h]);
    assert(seq![h, bl].last() == bl);
    let s2 = scan(scan_start(), seq![h, bl], h);
    assert(s2.0 == (true, 1int, true));
    assert(s2.1 == Seq::<Seq<char>>::empty());
    assert(l2.drop_last() =~= seq![h, bl]);
    assert(l2.last() == seq!['}']);
    assert(trim_start(seq!['}']) == seq!['}']);
    assert(trim(seq!['}']) == seq!['}']);
    assert(scan(scan_start(), l2, h) == ((false, 0int, true), Seq::<Seq<char>>::empty()));
    assert(l1 + Seq::<Seq<char>>::empty() == l1);
    lemma_join_lines_from(contents, 0);
    assert(contents.subrange(0, contents.len() as int) == contents);
}

} // verus!

verus! {

pub proof fn lemma_scan_found(st: ScanState, lines: Seq<Seq<char>>, h: Seq<char>)
    requires
        st.0 ==> st.2,
    ensures
        scan(st, lines, h).0.0 ==> scan(st, lines, h).0.2,
        scan(st, lines, h).0.2 == (st.2 || exists|i: int|
            0 <= i < lines.len() && h.is_prefix_of(#[trigger] lines[i])),
        forall|i: int|
            0 <= i < scan(st, lines, h).1.len() ==> !h.is_prefix_of(
                #[trigger] scan(st, lines, h).1[i],
            ),
    decreases lines.len(),
{
    if lines.len() > 0 {
        let init = lines.drop_last();
        lemma_scan_found(st, init, h);
        assert forall|i: int| 0 <= i < init.len() implies init[i] == lines[i] by {}
        if exists|i: int| 0 <= i < lines.len() && h.is_prefix_of(#[trigger] lines[i]) {
            let i = choose|i: int| 0 <= i < lines.len() && h.is_prefix_of(#[trigger] lines[i]);
            if i < init.len() {
                assert(h.is_prefix_of(init[i]));
            }
        }
        if h.is_prefix_of(lines.last()) {
            assert(h.is_prefix_of(lines[lines.len() - 1]));
        }
        let prev = scan(st, init, h);
        assert forall|i: int| 0 <= i < prev.1.len() implies prev.1.push(lines.last())[i]
            == prev.1[i] by {}
    }
}

/// Removing a function fails exactly when no line of the module text starts it.
pub proof fn law_remove_fails_exactly_when_absent(text: Seq<char>, name: Seq<char>)
    ensures
        removal(text, name) is None <==> forall|i: int|
            0 <= i < split_lines(text).len() ==> !header(name).is_prefix_of(
                #[trigger] split_lines(text)[i],
            ),
{
    lemma_scan_found(scan_start(), split_lines(text), header(name));
}

/// No line that removing a function keeps starts that function.
pub proof fn law_removal_keeps_no_header(text: Seq<char>, name: Seq<char>)
    ensures
        forall|i: int|
            0 <= i < scan(scan_start(), split_lines(text), header(name)).1.len()
                ==> !header(name).is_prefix_of(
                #[trigger] scan(scan_start(), split_lines(text), header(name)).1[i],
            ),
{
    lemma_scan_found(scan_start(), split_lines(text), header(name));
}

/// Once a function is saved, saving one of the same name again is refused.
pub proof fn law_save_refuses_duplicate(
    contents: Seq<char>,
    name: Seq<char>,
    body: Seq<char>,
    other: Seq<char>,
)
    requires
        saving(contents, name, body) is Some,
    ensures
        saving(contents + definition(name, body), name, other) is None,
{
    let all = contents + definition(name, body);
    let h = header(name);
    assert(all.subrange(contents.len() as int, (contents.len() + h.len()) as int) =~= h);
    assert(occurs_at(all, h, contents.len() as int));
}

} // verus!

verus! {

/// `count('{') - count('}')` in `s`.
pub open spec fn brace_balance(s: Seq<char>) -> int {
    count_char(s, '{') - count_char(s, '}')
}

/// Text without `function NAME {` in it has no line that starts with it.
pub proof fn lemma_no_header_lines(s: Seq<char>, h: Seq<char>)
    requires
        !contains(s, h),
    ensures
        forall|i: int|
            0 <= i < split_lines(s).len() ==> !h.is_prefix_of(#[trigger] split_lines(s)[i]),
{
    let l = split_lines(s);
    assert forall|i: int| 0 <= i < l.len() implies !h.is_prefix_of(#[trigger] l[i]) by {
        lemma_lines_are_pieces(s, 0, i);
        let (a, b) = choose|a: int, b: int|
            0 <= a <= b <= s.len() && l[i] == #[trigger] s.subrange(a, b);
        if h.is_prefix_of(l[i]) {
            assert(s.subrange(a, a + h.len()) =~= h);
            assert(occurs_at(s, h, a));
        }
    }
}

/// Inside a function, lines that never bring the depth below one only move the depth
/// by their braces, and none is kept.
pub proof fn lemma_scan_body(d: int, f: bool, body: Seq<Seq<char>>, h: Seq<char>)
    requires
        forall|k: int| 0 <= k <= body.len() ==> d + brace_balance(#[trigger] join_lines(body.take(k))) >= 1,
    ensures
        scan((true, d, f), body, h) == ((true, d + brace_balance(join_lines(body)), f), Seq::<
            Seq<char>,
        >::empty()),
    decreases body.len(),
{
    assert(body.take(0) =~= Seq::<Seq<char>>::empty());
    assert(d + brace_balance(join_lines(body.take(0))) >= 1);
    if body.len() == 0 {
        assert(join_lines(body) =~= Seq::<char>::empty());
    } else {
        let init = body.drop_last();
        let last = body.last();
        assert forall|k: int| 0 <= k <= init.len() implies d + brace_balance(
            #[trigger] join_lines(init.take(k)),
        ) >= 1 by {
            assert(init.take(k) == body.take(k));
        }
        lemma_scan_body(d, f, init, h);
        let ji = join_lines(init);
        assert(body.take(body.len() as int) == body);
        assert(body.take(init.len() as int) == init);
        assert(d + brace_balance(ji) >= 1);
        assert(join_lines(body) == ji + last + seq!['\n']);
        lemma_count_concat(ji + last, seq!['\n'], '{');
        lemma_count_concat(ji + last, seq!['\n'], '}');
        lemma_count_concat(ji, last, '{');
        lemma_count_concat(ji, last, '}');
        lemma_count_single('\n', '{');
        lemma_count_single('\n', '}');
        assert(brace_balance(join_lines(body)) == brace_balance(ji) + brace_balance(last));
        assert(d + brace_balance(join_lines(body)) >= 1);
        if trim(last) == seq!['}'] {
            lemma_closing_line_counts(last);
        }
    }
}

/// Removing a function block gives back the text around it, whatever its body: a block
/// is `function NAME {`, body lines in which no prefix has more `}` than `{` and whose
/// braces balance in all, and a closing `}` line. A line such as `} else {` inside the
/// body only moves the depth by its braces and never ends the block.
pub proof fn law_remove_block_keeps_surroundings(
    before: Seq<char>,
    name: Seq<char>,
    body: Seq<Seq<char>>,
    after: Seq<char>,
)
    requires
        !contains(
            before,
            seq!['f', 'u', 'n', 'c', 't', 'i', 'o', 'n', ' '] + name + seq![' ', '{'],
        ),
        !contains(
            after,
            seq!['f', 'u', 'n', 'c', 't', 'i', 'o', 'n', ' '] + name + seq![' ', '{'],
        ),
        before.len() == 0 || before.last() == '\n',
        after.len() == 0 || after.last() == '\n',
        forall|j: int| 0 <= j < before.len() ==> before[j] != '\r',
        forall|j: int| 0 <= j < after.len() ==> after[j] != '\r',
        forall|j: int| 0 <= j < name.len() ==> name[j] != '\n',
        forall|i: int, j: int|
            0 <= i < body.len() && 0 <= j < body[i].len() ==> body[i][j] != '\n' && body[i][j]
                != '\r',
        forall|k: int|
            0 <= k <= body.len() ==> count_char(#[trigger] join_lines(body.take(k)), '}')
                <= count_char(join_lines(body.take(k)), '{'),
        count_char(join_lines(body), '}') == count_char(join_lines(body), '{'),
    ensures
        removal(
            before + (seq!['f', 'u', 'n', 'c', 't', 'i', 'o', 'n', ' '] + name + seq![' ', '{'])
                + seq!['\n'] + join_lines(body) + seq!['}', '\n'] + after,
            name,
        ) == Some(before + after),
{
    let h = header(name);
    assert(h == seq!['f', 'u', 'n', 'c', 't', 'i', 'o', 'n', ' '] + name + seq![' ', '{']);
    let jb = join_lines(body);
    let close = seq!['}', '\n'];
    let hl = h + seq!['\n'];
    let blk = hl + (jb + close);
    let text = before + h + seq!['\n'] + jb + close + after;
    assert(text =~= before + (blk + after));
    // The lines of the text.
    assert forall|j: int| 0 <= j < h.len() implies h[j] != '\n' by {
        if 9 <= j < 9 + name.len() {
            assert(h[j] == name[j - 9]);
        }
    }
    assert(h.last() == '{');
    lemma_single_line(h);
    lemma_split_join(body);
    lemma_single_line(seq!['}']);
    assert(seq!['}'] + seq!['\n'] =~= close);
    if jb.len() > 0 {
        lemma_join_ends(body);
    }
    lemma_lines_append(jb, close, 0);
    assert(blk.last() == '\n');
    lemma_lines_append(hl, jb + close, 0);
    lemma_lines_append(blk, after, 0);
    lemma_lines_append(before, blk + after, 0);
    let l1 = split_lines(before);
    let l3 = split_lines(after);
    let lb = seq![h] + (body + seq![seq!['}']]);
    assert(split_lines(blk) == lb);
    assert(split_lines(text) == l1 + (lb + l3));
    // The scan.
    lemma_no_header_lines(before, h);
    lemma_no_header_lines(after, h);
    lemma_scan_keeps_all(scan_start(), l1, h);
    lemma_scan_concat(scan_start(), l1, lb + l3, h);
    lemma_scan_concat(scan_start(), lb, l3, h);
    lemma_scan_concat(scan_start(), seq![h], body + seq![seq!['}']], h);
    assert(h.is_prefix_of(h));
    assert(seq![h].drop_last() =~= Seq::<Seq<char>>::empty());
    assert(seq![h].last() == h);
    assert(scan(scan_start(), Seq::<Seq<char>>::empty(), h) == (scan_start(), Seq::<Seq<char>>::empty()));
    assert(scan_step(scan_start(), h, h) == ((true, 1int, true), false));
    assert(scan(scan_start(), seq![h], h) == ((true, 1int, true), Seq::<Seq<char>>::empty()));
    let st1 = (true, 1int, true);
    lemma_scan_concat(st1, body, seq![seq!['}']], h);
    assert forall|k: int| 0 <= k <= body.len() implies 1 + brace_balance(
        #[trigger] join_lines(body.take(k)),
    ) >= 1 by {
        assert(count_char(join_lines(body.take(k)), '}') <= count_char(
            join_lines(body.take(k)),
            '{',
        ));
    }
    lemma_scan_body(1, true, body, h);
    assert(scan(st1, body, h) == (st1, Seq::<Seq<char>>::empty()));
    assert(seq![seq!['}']].drop_last() =~= Seq::<Seq<char>>::empty());
    assert(seq![seq!['}']].last() == seq!['}']);
    assert(trim_start(seq!['}']) == seq!['}']);
    assert(trim(seq!['}']) == seq!['}']);
    assert(scan(st1, Seq::<Seq<char>>::empty(), h) == (st1, Seq::<Seq<char>>::empty()));
    assert(scan_step(st1, seq!['}'], h) == ((false, 0int, true), false));
    assert(scan(st1, seq![seq!['}']], h) == ((false, 0int, true), Seq::<Seq<char>>::empty()));
    let st2 = (false, 0int, true);
    lemma_scan_keeps_all(st2, l3, h);
    assert(scan(scan_start(), lb, h) == (st2, Seq::<Seq<char>>::empty()));
    assert(scan(scan_start(), split_lines(text), h).1 =~= l1 + l3);
    assert(scan(scan_start(), split_lines(text), h).0 == st2);
    lemma_join_concat(l1, l3);
    lemma_join_lines_from(before, 0);
    lemma_join_lines_from(after, 0);
    assert(before.subrange(0, before.len() as int) == before);
    assert(after.subrange(0, after.len() as int) == after);
}

/// Saving is refused exactly when the module text contains `function NAME {`; otherwise
/// the text to append is `function NAME {`, a line break, four spaces, the body, a line
/// break, `}` and a line break.
pub proof fn law_save_exactly_when_absent(contents: Seq<char>, name: Seq<char>, body: Seq<char>)
    ensures
        saving(contents, name, body) is None <==> contains(
            contents,
            seq!['f', 'u', 'n', 'c', 't', 'i', 'o', 'n', ' '] + name + seq![' ', '{'],
        ),
        !contains(
            contents,
            seq!['f', 'u', 'n', 'c', 't', 'i', 'o', 'n', ' '] + name + seq![' ', '{'],
        ) ==> saving(contents, name, body) == Some(
            seq!['f', 'u', 'n', 'c', 't', 'i', 'o', 'n', ' '] + name + seq![
                ' ',
                '{',
                '\n',
                ' ',
                ' ',
                ' ',
                ' ',
            ] + body + seq!['\n', '}', '\n'],
        ),
{
    let lit = seq!['f', 'u', 'n', 'c', 't', 'i', 'o', 'n', ' '] + name + seq![' ', '{'];
    assert(header(name) == lit);
    assert(definition(name, body) =~= seq!['f', 'u', 'n', 'c', 't', 'i', 'o', 'n', ' '] + name
        + seq![' ', '{', '\n', ' ', ' ', ' ', ' '] + body + seq!['\n', '}', '\n']);
}

} // verus!

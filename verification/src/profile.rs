//! The PowerShell profile: lines it must hold, the module import, and saved variables.

use vstd::prelude::*;
use crate::text::{chars_of, contains, contains_exec, occurs_at, push_char};

verus! {

/// The required lines that `contents` lacks, each followed by `'\n'`, in order.
pub open spec fn missing_lines(contents: Seq<char>, lines: Seq<Seq<char>>) -> Seq<char>
    decreases lines.len(),
{
    if lines.len() == 0 {
        seq![]
    } else {
        missing_lines(contents, lines.drop_last()) + if contains(contents, lines.last()) {
            Seq::<char>::empty()
        } else {
            lines.last() + seq!['\n']
        }
    }
}

/// Some required line is not in `contents`.
pub open spec fn lacks_some(contents: Seq<char>, lines: Seq<Seq<char>>) -> bool {
    exists|i: int| 0 <= i < lines.len() && !contains(contents, #[trigger] lines[i])
}

/// The views of a list of string slices.
pub open spec fn views(lines: Seq<&str>) -> Seq<Seq<char>> {
    lines.map_values(|l: &str| l@)
}

/// Puts in front of the profile text every required line that it does not contain
/// (each followed by `'\n'`, in the given order), and says whether any was missing.
pub fn add_missing_lines(contents: &str, lines: &[&str]) -> (r: (String, bool))
    ensures
        r.0@ == missing_lines(contents@, views(lines@)) + contents@,
        r.1 == lacks_some(contents@, views(lines@)),
{
    let c = chars_of(contents);
    let ghost ls = views(lines@);
    let mut updated = String::new();
    let mut modified = false;
    let mut i: usize = 0;
    while i < lines.len()
        invariant
            c@ == contents@,
            ls == views(lines@),
            i <= lines@.len(),
            updated@ == missing_lines(contents@, ls.take(i as int)),
            modified == lacks_some(contents@, ls.take(i as int)),
        decreases lines@.len() - i,
    {
        let l = chars_of(lines[i]);
        assert(ls.take(i + 1).drop_last() == ls.take(i as int));
        assert(ls.take(i + 1).last() == l@);
        if !contains_exec(&c, &l) {
            modified = true;
            updated.append(lines[i]);
            push_char(&mut updated, '\n');
            assert(ls.take(i + 1)[i as int] == l@);
        }
        assert forall|j: int| 0 <= j < i implies ls.take(i + 1)[j] == ls.take(i as int)[j] by {}
        i = i + 1;
    }
    assert(ls.take(lines@.len() as int) == ls);
    updated.append(contents);
    (updated, modified)
}

pub proof fn lemma_contains_extend(a: Seq<char>, b: Seq<char>, x: Seq<char>)
    ensures
        contains(b, x) ==> contains(a + b, x),
        contains(a, x) ==> contains(a + b, x),
{
    if contains(b, x) {
        let i = choose|i: int| occurs_at(b, x, i);
        assert((a + b).subrange(a.len() + i, a.len() + i + x.len()) =~= b.subrange(i, i + x.len()));
        assert(occurs_at(a + b, x, a.len() + i));
    }
    if contains(a, x) {
        let i = choose|i: int| occurs_at(a, x, i);
        assert((a + b).subrange(i, i + x.len()) =~= a.subrange(i, i + x.len()));
        assert(occurs_at(a + b, x, i));
    }
}

pub proof fn lemma_missing_lines_cover(contents: Seq<char>, lines: Seq<Seq<char>>)
    ensures
        forall|i: int|
            0 <= i < lines.len() ==> contains(
                missing_lines(contents, lines) + contents,
                #[trigger] lines[i],
            ),
        !lacks_some(contents, lines) ==> missing_lines(contents, lines) == Seq::<char>::empty(),
    decreases lines.len(),
{
    if lines.len() > 0 {
        let init = lines.drop_last();
        let last = lines.last();
        lemma_missing_lines_cover(contents, init);
        let pre = missing_lines(contents, init);
        let add = if contains(contents, last) {
            Seq::<char>::empty()
        } else {
            last + seq!['\n']
        };
        assert forall|i: int| 0 <= i < lines.len() implies contains(
            missing_lines(contents, lines) + contents,
            #[trigger] lines[i],
        ) by {
            assert(missing_lines(contents, lines) + contents =~= pre + (add + contents));
            if i < init.len() {
                assert(init[i] == lines[i]);
                if contains(contents, lines[i]) {
                    lemma_contains_extend(pre + add, contents, lines[i]);
                    assert(pre + add + contents =~= missing_lines(contents, lines) + contents);
                } else {
                    lemma_in_missing(contents, init, i);
                    lemma_contains_extend(pre, add + contents, lines[i]);
                }
            } else {
                if contains(contents, last) {
                    lemma_contains_extend(pre + add, contents, last);
                    assert(pre + add + contents =~= missing_lines(contents, lines) + contents);
                } else {
                    assert(occurs_at(add + contents, last, 0)) by {
                        assert((add + contents).subrange(0, last.len() as int) =~= last);
                    }
                    lemma_contains_extend(pre, add + contents, last);
                }
            }
        }
        if !lacks_some(contents, lines) {
            assert forall|i: int| 0 <= i < init.len() implies contains(contents, #[trigger] init[i]) by {
                assert(init[i] == lines[i]);
            }
            assert(contains(contents, lines[lines.len() - 1]));
            assert(pre + add =~= Seq::<char>::empty());
        }
    }
}

pub proof fn lemma_in_missing(contents: Seq<char>, lines: Seq<Seq<char>>, i: int)
    requires
        0 <= i < lines.len(),
        !contains(contents, lines[i]),
    ensures
        contains(missing_lines(contents, lines), lines[i]),
    decreases lines.len(),
{
    let init = lines.drop_last();
    let pre = missing_lines(contents, init);
    let add = if contains(contents, lines.last()) {
        Seq::<char>::empty()
    } else {
        lines.last() + seq!['\n']
    };
    if i < init.len() {
        assert(init[i] == lines[i]);
        lemma_in_missing(contents, init, i);
        lemma_contains_extend(pre, add, lines[i]);
    } else {
        assert(occurs_at(add, lines[i], 0)) by {
            assert(add.subrange(0, lines[i].len() as int) =~= lines[i]);
        }
        lemma_contains_extend(pre, add, lines[i]);
    }
}

/// After the missing lines are added, the profile contains every required line.
pub proof fn law_added_lines_present(contents: Seq<char>, lines: Seq<Seq<char>>)
    ensures
        forall|i: int|
            0 <= i < lines.len() ==> contains(
                missing_lines(contents, lines) + contents,
                #[trigger] lines[i],
            ),
{
    lemma_missing_lines_cover(contents, lines);
}

/// Adding the missing lines a second time finds none missing and changes nothing.
pub proof fn law_add_missing_idempotent(contents: Seq<char>, lines: Seq<Seq<char>>)
    ensures
        !lacks_some(missing_lines(contents, lines) + contents, lines),
        missing_lines(missing_lines(contents, lines) + contents, lines)
            + (missing_lines(contents, lines) + contents) == missing_lines(contents, lines)
            + contents,
{
    let once = missing_lines(contents, lines) + contents;
    lemma_missing_lines_cover(contents, lines);
    lemma_missing_lines_cover(once, lines);
    assert(Seq::<char>::empty() + once == once);
}

} // verus!

verus! {

/// `Import-Module -DisableNameChecking "PATH"`, the profile line that loads the module file.
pub open spec fn import_line(mods_path: Seq<char>) -> Seq<char> {
    seq![
        'I', 'm', 'p', 'o', 'r', 't', '-', 'M', 'o', 'd', 'u', 'l', 'e', ' ', '-', 'D', 'i', 's',
        'a', 'b', 'l', 'e', 'N', 'a', 'm', 'e', 'C', 'h', 'e', 'c', 'k', 'i', 'n', 'g', ' ', '"',
    ] + mods_path + seq!['"']
}

/// The line that loads the module file at `mods_path`.
pub fn import_module_line(mods_path: &str) -> (l: String)
    ensures
        l@ == import_line(mods_path@),
{
    let mut l = String::from_str("Import-Module -DisableNameChecking \"");
    proof {
        reveal_strlit("Import-Module -DisableNameChecking \"");
    }
    l.append(mods_path);
    push_char(&mut l, '"');
    l
}

/// What to append to the profile so that it loads the module file: nothing when the
/// profile already contains the import line, else that line and a line break.
pub fn import_addition(profile: &str, mods_path: &str) -> (r: Option<String>)
    ensures
        r is None <==> contains(profile@, import_line(mods_path@)),
        r matches Some(s) ==> s@ == import_line(mods_path@) + seq!['\n'],
{
    let line = import_module_line(mods_path);
    let p = chars_of(profile);
    let l = chars_of(line.as_str());
    if contains_exec(&p, &l) {
        None
    } else {
        let mut s = line;
        push_char(&mut s, '\n');
        Some(s)
    }
}

/// How a character of a variable's value is written inside single quotes:
/// `'` doubled, `"` tripled.
pub open spec fn escape_char(c: char) -> Seq<char> {
    if c == '\'' {
        seq!['\'', '\'']
    } else if c == '"' {
        seq!['"', '"', '"']
    } else {
        seq![c]
    }
}

/// `s` with each `'` replaced by `''` and each `"` by `"""`.
pub open spec fn escape_quotes(s: Seq<char>) -> Seq<char>
    decreases s.len(),
{
    if s.len() == 0 {
        seq![]
    } else {
        escape_quotes(s.drop_last()) + escape_char(s.last())
    }
}

/// Appends `s` with its quotes escaped to `out`.
pub fn push_escaped(out: &mut String, s: &str)
    ensures
        final(out)@ == old(out)@ + escape_quotes(s@),
{
    let v = chars_of(s);
    let ghost start = out@;
    let mut i: usize = 0;
    while i < v.len()
        invariant
            v@ == s@,
            i <= v@.len(),
            out@ == start + escape_quotes(v@.take(i as int)),
        decreases v@.len() - i,
    {
        let c = v[i];
        if c == '\'' {
            push_char(out, '\'');
            push_char(out, '\'');
        } else if c == '"' {
            push_char(out, '"');
            push_char(out, '"');
            push_char(out, '"');
        } else {
            push_char(out, c);
        }
        assert(v@.take(i + 1).drop_last() == v@.take(i as int));
        assert(v@.take(i + 1).last() == c);
        assert(out@ == start + escape_quotes(v@.take(i + 1)));
        i = i + 1;
    }
    assert(v@.take(v@.len() as int) == v@);
}

/// `$NAME =`, what marks a saved variable in the profile.
pub open spec fn variable_marker(name: Seq<char>) -> Seq<char> {
    seq!['$'] + name + seq![' ', '=']
}

/// `$NAME =  'VALUE'` and a line break, with the value's quotes escaped.
pub open spec fn variable_definition(name: Seq<char>, value: Seq<char>) -> Seq<char> {
    variable_marker(name) + seq![' ', ' ', '\''] + escape_quotes(value) + seq!['\'', '\n']
}

/// What saving variable `name` with `value` gives: `None` when the profile already holds
/// `$NAME =`, else the definition to append.
pub open spec fn saving_variable(contents: Seq<char>, name: Seq<char>, value: Seq<char>) -> Option<
    Seq<char>,
> {
    if contains(contents, variable_marker(name)) {
        None
    } else {
        Some(variable_definition(name, value))
    }
}

/// `$NAME =`.
pub fn variable_marker_text(name: &str) -> (m: String)
    ensures
        m@ == variable_marker(name@),
{
    let mut m = String::new();
    push_char(&mut m, '$');
    m.append(name);
    m.append(" =");
    proof {
        reveal_strlit(" =");
    }
    m
}

/// Saves variable `name` with `value`: refused (`None`) when the profile text `contents`
/// already holds `$NAME =`, else the definition to append to it.
pub fn save_variable(contents: &str, name: &str, value: &str) -> (r: Option<String>)
    ensures
        r matches Some(d) ==> saving_variable(contents@, name@, value@) == Some(d@),
        r is None ==> saving_variable(contents@, name@, value@) is None,
{
    let c = chars_of(contents);
    let marker = variable_marker_text(name);
    let m = chars_of(marker.as_str());
    if contains_exec(&c, &m) {
        return None;
    }
    let mut d = marker;
    d.append("  '");
    proof {
        reveal_strlit("  '");
    }
    push_escaped(&mut d, value);
    push_char(&mut d, '\'');
    push_char(&mut d, '\n');
    Some(d)
}

/// Once a variable is saved, saving one of the same name again is refused.
pub proof fn law_save_variable_refuses_duplicate(
    contents: Seq<char>,
    name: Seq<char>,
    value: Seq<char>,
    other: Seq<char>,
)
    requires
        saving_variable(contents, name, value) is Some,
    ensures
        saving_variable(contents + variable_definition(name, value), name, other) is None,
{
    let all = contents + variable_definition(name, value);
    let m = variable_marker(name);
    assert(all.subrange(contents.len() as int, (contents.len() + m.len()) as int) =~= m);
    assert(occurs_at(all, m, contents.len() as int));
}

/// Once the import line is added, it is not added again.
pub proof fn law_import_added_once(profile: Seq<char>, mods_path: Seq<char>)
    ensures
        contains(profile + import_line(mods_path) + seq!['\n'], import_line(mods_path)),
{
    let all = profile + import_line(mods_path) + seq!['\n'];
    let l = import_line(mods_path);
    assert(all.subrange(profile.len() as int, (profile.len() + l.len()) as int) =~= l);
    assert(occurs_at(all, l, profile.len() as int));
}

} // verus!

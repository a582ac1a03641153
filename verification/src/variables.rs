//! Removing and listing the variables saved in the profile, by regular expression.

use vstd::prelude::*;
use crate::pattern::{
    captures_view, regex_captures, regex_captures_all, regex_finds, regex_is_match, regex_is_valid,
    regex_replace_all, regex_replaced, Pattern,
};
use crate::profile::{escape_quotes, push_escaped};
use crate::text::push_char;

verus! {

/// Why a variable is not removed.
#[derive(Debug, Clone, Copy, PartialEq, Eq, Structural)]
pub enum VariableError {
    /// The name makes the search pattern one that the `regex` crate refuses.
    InvalidName,
    /// No line of the profile defines the variable.
    NotFound,
}

/// `(?m)^\$NAME\s*=\s*.+[\r\n]*`: a line that assigns the variable, with its line breaks.
/// The name is put in as it is, so it is read as part of the expression.
pub open spec fn removal_pattern(name: Seq<char>) -> Seq<char> {
    "(?m)^\\$"@ + name + "\\s*=\\s*.+[\\r\\n]*"@
}

/// The pattern that finds the lines assigning variable `name`.
pub fn variable_pattern(name: &str) -> (p: String)
    ensures
        p@ == removal_pattern(name@),
{
    let mut p = String::from_str("(?m)^\\$");
    p.append(name);
    p.append("\\s*=\\s*.+[\\r\\n]*");
    p
}

/// What removing variable `name` from the profile text gives.
pub open spec fn variable_removal(profile: Seq<char>, name: Seq<char>) -> Result<
    Seq<char>,
    VariableError,
> {
    let p = removal_pattern(name);
    if !regex_is_valid(p) {
        Err(VariableError::InvalidName)
    } else if !regex_finds(p, profile) {
        Err(VariableError::NotFound)
    } else {
        Ok(regex_replaced(p, profile, Seq::<char>::empty()))
    }
}

/// The outcome once the profile has been searched: the variable is missing when the
/// search found nothing, else the profile is `without`, the text with its lines removed.
pub fn finish_variable_removal(found: bool, without: String) -> (r: Result<String, VariableError>)
    ensures
        found ==> (r matches Ok(s) && s@ == without@),
        !found ==> r == Err::<String, VariableError>(VariableError::NotFound),
{
    if found {
        Ok(without)
    } else {
        Err(VariableError::NotFound)
    }
}

/// Removes from the profile text every line that assigns variable `name`,
/// with the line breaks after it; fails when there is none.
pub fn remove_variable(profile: &str, name: &str) -> (r: Result<String, VariableError>)
    ensures
        r matches Ok(s) ==> variable_removal(profile@, name@) == Ok::<Seq<char>, VariableError>(
            s@,
        ),
        r matches Err(e) ==> variable_removal(profile@, name@) == Err::<Seq<char>, VariableError>(
            e,
        ),
        r matches Ok(s) ==> s@ == regex_replaced(
            "(?m)^\\$"@ + name@ + "\\s*=\\s*.+[\\r\\n]*"@,
            profile@,
            Seq::<char>::empty(),
        ),
        r == Err::<String, VariableError>(VariableError::NotFound) <==> regex_is_valid(
            "(?m)^\\$"@ + name@ + "\\s*=\\s*.+[\\r\\n]*"@,
        ) && !regex_finds("(?m)^\\$"@ + name@ + "\\s*=\\s*.+[\\r\\n]*"@, profile@),
{
    proof {
        law_variable_removal_pattern(profile@, name@);
    }
    let source = variable_pattern(name);
    let p = match Pattern::compile(source.as_str()) {
        Some(p) => p,
        None => return Err(VariableError::InvalidName),
    };
    let found = regex_is_match(&p, profile);
    let without = if found {
        let s = regex_replace_all(&p, profile, "");
        proof {
            reveal_strlit("");
        }
        assert(""@ =~= Seq::<char>::empty());
        s
    } else {
        String::new()
    };
    finish_variable_removal(found, without)
}

/// `(?m)^\$([a-zA-Z0-9_]+)\s*=\s*'?(.*?)'?\s*$`: a variable's name and its value
/// without the quotes around it.
pub open spec fn listing_pattern() -> Seq<char> {
    "(?m)^\\$([a-zA-Z0-9_]+)\\s*=\\s*'?(.*?)'?\\s*$"@
}

/// Every match has a name (group 1) and a value (group 2).
pub open spec fn captures_complete(c: Seq<Seq<Option<Seq<char>>>>) -> bool {
    forall|i: int|
        0 <= i < c.len() ==> (#[trigger] c[i]).len() >= 3 && c[i][1] is Some && c[i][2] is Some
}

/// `$NAME = 'VALUE'` and a line break, with the value's quotes escaped.
pub open spec fn listed_variable(name: Seq<char>, value: Seq<char>) -> Seq<char> {
    seq!['$'] + name + seq![' ', '=', ' ', '\''] + escape_quotes(value) + seq!['\'', '\n']
}

/// The listing of the variables that the matches `c` found, one per line.
pub open spec fn listing(c: Seq<Seq<Option<Seq<char>>>>) -> Seq<char>
    decreases c.len(),
{
    if c.len() == 0 {
        seq![]
    } else {
        listing(c.drop_last()) + listed_variable(c.last()[1]->0, c.last()[2]->0)
    }
}

/// Whether every match has a name and a value.
pub fn captures_are_complete(caps: &Vec<Vec<Option<String>>>) -> (b: bool)
    ensures
        b == captures_complete(captures_view(caps@)),
{
    let mut i: usize = 0;
    while i < caps.len()
        invariant
            i <= caps@.len(),
            forall|k: int|
                0 <= k < i ==> (#[trigger] captures_view(caps@)[k]).len() >= 3
                    && captures_view(caps@)[k][1] is Some && captures_view(caps@)[k][2] is Some,
        decreases caps@.len() - i,
    {
        let g = &caps[i];
        let ghost gv = captures_view(caps@)[i as int];
        assert(gv.len() == g@.len());
        if g.len() < 3 || g[1].is_none() || g[2].is_none() {
            assert(!captures_complete(captures_view(caps@))) by {
                assert(captures_view(caps@)[i as int] == gv);
                if g@.len() >= 3 {
                    assert(gv[1] is Some == g@[1] is Some);
                    assert(gv[2] is Some == g@[2] is Some);
                }
            }
            return false;
        }
        assert(gv[1] is Some && gv[2] is Some);
        i = i + 1;
    }
    true
}

/// Lists the variables that the matches found: `$NAME = 'VALUE'` per line.
pub fn render_variables(caps: &Vec<Vec<Option<String>>>) -> (s: String)
    requires
        captures_complete(captures_view(caps@)),
    ensures
        s@ == listing(captures_view(caps@)),
{
    let ghost c = captures_view(caps@);
    let mut s = String::new();
    let mut i: usize = 0;
    while i < caps.len()
        invariant
            c == captures_view(caps@),
            captures_complete(c),
            i <= caps@.len(),
            s@ == listing(c.take(i as int)),
        decreases caps@.len() - i,
    {
        let g = &caps[i];
        assert(c[i as int].len() >= 3);
        let name = match &g[1] {
            Some(n) => n,
            None => {
                assert(c[i as int][1] is Some);
                return s;
            },
        };
        let value = match &g[2] {
            Some(v) => v,
            None => {
                assert(c[i as int][2] is Some);
                return s;
            },
        };
        assert(c[i as int][1]->0 == name@);
        assert(c[i as int][2]->0 == value@);
        push_char(&mut s, '$');
        s.append(name.as_str());
        s.append(" = '");
        proof {
            reveal_strlit(" = '");
        }
        push_escaped(&mut s, value.as_str());
        push_char(&mut s, '\'');
        push_char(&mut s, '\n');
        assert(c.take(i + 1).drop_last() == c.take(i as int));
        assert(c.take(i + 1).last() == c[i as int]);
        assert(s@ == listing(c.take(i + 1)));
        i = i + 1;
    }
    assert(c.take(caps@.len() as int) == c);
    s
}

/// Lists the variables saved in the profile text: for each line that assigns one,
/// `$NAME = 'VALUE'`. `None` only if the `regex` crate refused the listing pattern or
/// reported a match without a name or a value.
pub fn list_variables(profile: &str) -> (r: Option<String>)
    ensures
        r is Some <==> regex_is_valid(listing_pattern()) && captures_complete(
            regex_captures(listing_pattern(), profile@),
        ),
        r matches Some(s) ==> s@ == listing(regex_captures(listing_pattern(), profile@)),
        r matches Some(s) ==> s@ == listing(
            regex_captures("(?m)^\\$([a-zA-Z0-9_]+)\\s*=\\s*'?(.*?)'?\\s*$"@, profile@),
        ),
{
    proof {
        law_listing_pattern(profile@);
    }
    let p = match Pattern::compile("(?m)^\\$([a-zA-Z0-9_]+)\\s*=\\s*'?(.*?)'?\\s*$") {
        Some(p) => p,
        None => return None,
    };
    let caps = regex_captures_all(&p, profile);
    if captures_are_complete(&caps) {
        Some(render_variables(&caps))
    } else {
        None
    }
}

} // verus!

verus! {

/// Removing variable `NAME` searches with `(?m)^\$NAME\s*=\s*.+[\r\n]*`, the lines that
/// assign exactly `NAME` (the name followed by optional spaces and `=`): the variable is
/// refused only when the `regex` crate refuses that pattern, missing exactly when that
/// pattern finds nothing in the profile, and otherwise the profile is every match of that
/// pattern replaced by nothing.
pub proof fn law_variable_removal_pattern(profile: Seq<char>, name: Seq<char>)
    ensures
        variable_removal(profile, name) == Err::<Seq<char>, VariableError>(
            VariableError::InvalidName,
        ) <==> !regex_is_valid("(?m)^\\$"@ + name + "\\s*=\\s*.+[\\r\\n]*"@),
        variable_removal(profile, name) == Err::<Seq<char>, VariableError>(
            VariableError::NotFound,
        ) <==> regex_is_valid("(?m)^\\$"@ + name + "\\s*=\\s*.+[\\r\\n]*"@) && !regex_finds(
            "(?m)^\\$"@ + name + "\\s*=\\s*.+[\\r\\n]*"@,
            profile,
        ),
        variable_removal(profile, name) is Ok ==> variable_removal(profile, name)->Ok_0
            == regex_replaced(
            "(?m)^\\$"@ + name + "\\s*=\\s*.+[\\r\\n]*"@,
            profile,
            Seq::<char>::empty(),
        ),
{
}

/// Listing searches the profile with `(?m)^\$([a-zA-Z0-9_]+)\s*=\s*'?(.*?)'?\s*$`, names of
/// ASCII letters of either case, digits and `_`; the listing holds, for each match in
/// order, `$NAME = 'VALUE'` and a line break, with the value's quotes escaped.
pub proof fn law_listing_pattern(profile: Seq<char>)
    ensures
        listing_pattern() == "(?m)^\\$([a-zA-Z0-9_]+)\\s*=\\s*'?(.*?)'?\\s*$"@,
        forall|c: Seq<Seq<Option<Seq<char>>>>, g: Seq<Option<Seq<char>>>|
            #[trigger] listing(c.push(g)) == listing(c) + seq!['$'] + g[1]->0 + seq![
                ' ',
                '=',
                ' ',
                '\'',
            ] + escape_quotes(g[2]->0) + seq!['\'', '\n'],
{
    assert forall|c: Seq<Seq<Option<Seq<char>>>>, g: Seq<Option<Seq<char>>>|
        #[trigger] listing(c.push(g)) == listing(c) + seq!['$'] + g[1]->0 + seq![
            ' ',
            '=',
            ' ',
            '\'',
        ] + escape_quotes(g[2]->0) + seq!['\'', '\n'] by {
        assert(c.push(g).drop_last() == c);
        assert(c.push(g).last() == g);
    }
}

} // verus!

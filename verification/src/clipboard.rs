//! Importing a complete function or variable definition from the clipboard.

use vstd::prelude::*;
use crate::text::{
    chars_of, contains, contains_exec, ends_with_at, occurs_at, push_char, push_range, starts_with_at, trim,
    trim_bounds,
};

verus! {

/// Where an imported definition goes.
#[derive(Debug, Clone, Copy, PartialEq, Eq, Structural)]
pub enum Target {
    /// The module file of functions.
    Module,
    /// The PowerShell profile.
    Profile,
}

/// Why the clipboard is not imported.
#[derive(Debug, Clone, Copy, PartialEq, Eq, Structural)]
pub enum ClipboardError {
    /// The module file already contains this function's text.
    FunctionExists,
    /// The profile already contains this variable's text.
    VariableExists,
    /// The clipboard holds neither a function nor a variable.
    NotRecognized,
}

/// A definition to import: the text to append to its target.
#[derive(Debug)]
pub struct Import {
    pub target: Target,
    pub text: String,
}

pub open spec fn function_word() -> Seq<char> {
    seq!['f', 'u', 'n', 'c', 't', 'i', 'o', 'n', ' ']
}

/// The trimmed clipboard text is a complete function: it starts with `function `
/// and ends with a line break and `}`.
pub open spec fn is_function_text(t: Seq<char>) -> bool {
    function_word().is_prefix_of(t) && seq!['\n', '}'].is_suffix_of(t)
}

/// The trimmed clipboard text is a variable: it starts with `$`.
pub open spec fn is_variable_text(t: Seq<char>) -> bool {
    seq!['$'].is_prefix_of(t)
}

/// What importing the clipboard text `clip` gives, against the module text `module`
/// and the profile text `profile`: the target and the text to append
/// (a line break and the trimmed clipboard), or why nothing is imported.
pub open spec fn clipboard_outcome(clip: Seq<char>, module: Seq<char>, profile: Seq<char>) -> Result<
    (Target, Seq<char>),
    ClipboardError,
> {
    let t = trim(clip);
    if is_function_text(t) {
        if contains(module, t) {
            Err(ClipboardError::FunctionExists)
        } else {
            Ok((Target::Module, seq!['\n'] + t))
        }
    } else if is_variable_text(t) {
        if contains(profile, t) {
            Err(ClipboardError::VariableExists)
        } else {
            Ok((Target::Profile, seq!['\n'] + t))
        }
    } else {
        Err(ClipboardError::NotRecognized)
    }
}

/// Decides what to do with the clipboard text `clip`: a trimmed text that starts with
/// `function ` and ends with a line break and `}` goes to the module file, one that
/// starts with `$` goes to the profile, unless the target already contains it.
pub fn import_clipboard(clip: &str, module: &str, profile: &str) -> (r: Result<Import, ClipboardError>)
    ensures
        r matches Ok(imp) ==> clipboard_outcome(clip@, module@, profile@) == Ok::<
            (Target, Seq<char>),
            ClipboardError,
        >((imp.target, imp.text@)),
        r matches Err(e) ==> clipboard_outcome(clip@, module@, profile@) == Err::<
            (Target, Seq<char>),
            ClipboardError,
        >(e),
        trim(clip@).len() > 0 && trim(clip@)[0] == '$' && !contains(profile@, trim(clip@)) ==> (
        r matches Ok(imp) && imp.target == Target::Profile && imp.text@ == seq!['\n'] + trim(
            clip@,
        )),
{
    proof {
        law_clipboard_classification(clip@, module@, profile@);
    }
    let v = chars_of(clip);
    let (a, b) = trim_bounds(&v, 0, v.len());
    assert(v@.subrange(0, v@.len() as int) == v@);
    let ghost t = v@.subrange(a as int, b as int);
    let mut text = String::new();
    push_char(&mut text, '\n');
    push_range(&mut text, &v, a, b);
    let tv = chars_of(text.as_str());
    let trimmed = slice_tail(&tv);
    let fw = chars_of("function ");
    let close = chars_of("\n}");
    let dollar = chars_of("$");
    proof {
        reveal_strlit("function ");
        reveal_strlit("\n}");
        reveal_strlit("$");
    }
    assert(fw@ =~= function_word());
    assert(close@ =~= seq!['\n', '}']);
    assert(dollar@ =~= seq!['$']);
    assert(text@ =~= seq!['\n'] + t);
    assert(trimmed@ =~= t);
    if starts_with_at(&v, a, b, &fw) && ends_with_at(&v, a, b, &close) {
        let m = chars_of(module);
        if contains_exec(&m, &trimmed) {
            Err(ClipboardError::FunctionExists)
        } else {
            Ok(Import { target: Target::Module, text })
        }
    } else if starts_with_at(&v, a, b, &dollar) {
        let p = chars_of(profile);
        if contains_exec(&p, &trimmed) {
            Err(ClipboardError::VariableExists)
        } else {
            Ok(Import { target: Target::Profile, text })
        }
    } else {
        Err(ClipboardError::NotRecognized)
    }
}

/// All but the first character of `v`.
fn slice_tail(v: &Vec<char>) -> (r: Vec<char>)
    requires
        v@.len() > 0,
    ensures
        r@ == v@.drop_first(),
{
    let mut r: Vec<char> = Vec::new();
    let mut i: usize = 1;
    while i < v.len()
        invariant
            1 <= i <= v@.len(),
            r@ == v@.subrange(1, i as int),
        decreases v@.len() - i,
    {
        r.push(v[i]);
        assert(v@.subrange(1, i + 1) == v@.subrange(1, i as int).push(v@[i as int]));
        i = i + 1;
    }
    r
}

} // verus!

verus! {

/// A definition imported from the clipboard is refused when imported again.
pub proof fn law_clipboard_import_once(clip: Seq<char>, module: Seq<char>, profile: Seq<char>)
    ensures
        clipboard_outcome(clip, module, profile) matches Ok((Target::Module, text))
            ==> clipboard_outcome(clip, module + text, profile) == Err::<
            (Target, Seq<char>),
            ClipboardError,
        >(ClipboardError::FunctionExists),
        clipboard_outcome(clip, module, profile) matches Ok((Target::Profile, text))
            ==> clipboard_outcome(clip, module, profile + text) == Err::<
            (Target, Seq<char>),
            ClipboardError,
        >(ClipboardError::VariableExists),
{
    let t = trim(clip);
    let text = seq!['\n'] + t;
    let m = module.len() as int + 1;
    let p = profile.len() as int + 1;
    assert((module + text).subrange(m, m + t.len()) =~= t);
    assert(occurs_at(module + text, t, m));
    assert((profile + text).subrange(p, p + t.len()) =~= t);
    assert(occurs_at(profile + text, t, p));
}

} // verus!

verus! {

/// Any clipboard text that, trimmed, starts with `$` is a variable: it goes to the profile
/// as a line break and the trimmed text, unless the profile already contains that text.
/// Any trimmed text that starts with `function ` and ends with a line break and `}` is a
/// function and goes to the module file in the same way. Nothing else is imported.
pub proof fn law_clipboard_classification(clip: Seq<char>, module: Seq<char>, profile: Seq<char>)
    ensures
        trim(clip).len() > 0 && trim(clip)[0] == '$' ==> clipboard_outcome(clip, module, profile)
            == if contains(profile, trim(clip)) {
            Err::<(Target, Seq<char>), ClipboardError>(ClipboardError::VariableExists)
        } else {
            Ok::<(Target, Seq<char>), ClipboardError>((Target::Profile, seq!['\n'] + trim(clip)))
        },
        trim(clip).len() >= 9 && trim(clip).subrange(0, 9) == seq![
            'f',
            'u',
            'n',
            'c',
            't',
            'i',
            'o',
            'n',
            ' ',
        ] && trim(clip).len() >= 2 && trim(clip)[trim(clip).len() - 2] == '\n' && trim(clip)[trim(
            clip,
        ).len() - 1] == '}' ==> clipboard_outcome(clip, module, profile) == if contains(
            module,
            trim(clip),
        ) {
            Err::<(Target, Seq<char>), ClipboardError>(ClipboardError::FunctionExists)
        } else {
            Ok::<(Target, Seq<char>), ClipboardError>((Target::Module, seq!['\n'] + trim(clip)))
        },
        clipboard_outcome(clip, module, profile) == Err::<(Target, Seq<char>), ClipboardError>(
            ClipboardError::NotRecognized,
        ) ==> !(trim(clip).len() > 0 && trim(clip)[0] == '$'),
{
    let t = trim(clip);
    if t.len() > 0 && t[0] == '$' {
        assert(seq!['$'].is_prefix_of(t)) by {
            assert(t.subrange(0, 1) =~= seq!['$']);
        }
        assert(!function_word().is_prefix_of(t)) by {
            if function_word().is_prefix_of(t) {
                assert(t.subrange(0, 9)[0] == 'f');
            }
        }
    }
    if t.len() >= 9 && t.subrange(0, 9) == seq!['f', 'u', 'n', 'c', 't', 'i', 'o', 'n', ' ']
        && t[t.len() - 2] == '\n' && t[t.len() - 1] == '}' {
        assert(function_word().is_prefix_of(t));
        assert(t.subrange(t.len() - 2, t.len() as int) =~= seq!['\n', '}']);
        assert(seq!['\n', '}'].is_suffix_of(t));
    }
}

} // verus!

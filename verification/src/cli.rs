//! The command line: which command the arguments ask for, and the usage table.

use vstd::prelude::*;
use crate::text::{chars_of, push_char};

verus! {

/// A command of the function manager.
#[derive(Debug, PartialEq, Eq)]
pub enum Command {
    /// Print the usage table.
    Usage,
    /// `sv NAME BODY`: save a function.
    SaveFunction { name: String, body: String },
    /// `rm NAME`: remove a function.
    RemoveFunction { name: String },
    /// `ls`: list the functions.
    ListFunctions,
    /// `cp`: import a function or variable from the clipboard.
    ImportClipboard,
    /// `svp NAME VALUE`: save a variable.
    SaveVariable { name: String, value: String },
    /// `rmp NAME`: remove a variable.
    RemoveVariable { name: String },
    /// `lsp`: list the variables.
    ListVariables,
}

/// The text of each argument.
pub open spec fn arg_views(args: Seq<String>) -> Seq<Seq<char>> {
    args.map_values(|a: String| a@)
}

/// `c` is the command that the arguments `args` (the program's name first) ask for.
pub open spec fn is_command_for(c: Command, args: Seq<Seq<char>>) -> bool {
    if args.len() < 2 {
        c is Usage
    } else {
        let w = args[1];
        if w == "sv"@ {
            if args.len() >= 4 {
                c matches Command::SaveFunction { name, body } && name@ == args[2] && body@
                    == args[3]
            } else {
                c is Usage
            }
        } else if w == "cp"@ {
            c is ImportClipboard
        } else if w == "rm"@ {
            if args.len() >= 3 {
                c matches Command::RemoveFunction { name } && name@ == args[2]
            } else {
                c is Usage
            }
        } else if w == "svp"@ {
            if args.len() >= 4 {
                c matches Command::SaveVariable { name, value } && name@ == args[2] && value@
                    == args[3]
            } else {
                c is Usage
            }
        } else if w == "rmp"@ {
            if args.len() >= 3 {
                c matches Command::RemoveVariable { name } && name@ == args[2]
            } else {
                c is Usage
            }
        } else if w == "lsp"@ {
            c is ListVariables
        } else if w == "ls"@ {
            c is ListFunctions
        } else {
            c is Usage
        }
    }
}

/// Whether `a` and `b` hold the same text.
pub fn same_text(a: &str, b: &str) -> (r: bool)
    ensures
        r == (a@ == b@),
{
    let x = chars_of(a);
    let y = chars_of(b);
    if x.len() != y.len() {
        return false;
    }
    let mut i: usize = 0;
    while i < x.len()
        invariant
            x@ == a@,
            y@ == b@,
            x@.len() == y@.len(),
            i <= x@.len(),
            forall|k: int| 0 <= k < i ==> x@[k] == y@[k],
        decreases x@.len() - i,
    {
        if x[i] != y[i] {
            return false;
        }
        i = i + 1;
    }
    assert(x@ =~= y@);
    true
}

/// The command that the arguments ask for; the first argument is the program's name.
pub fn parse_command(args: &Vec<String>) -> (c: Command)
    requires
        args@.len() >= 1,
    ensures
        is_command_for(c, arg_views(args@)),
{
    let ghost v = arg_views(args@);
    if args.len() == 1 {
        return Command::Usage;
    }
    let w = args[1].as_str();
    assert(v[1] == w@);
    if args.len() >= 3 {
        assert(v[2] == args@[2]@);
    }
    if args.len() >= 4 {
        assert(v[3] == args@[3]@);
    }
    if same_text(w, "sv") {
        if args.len() >= 4 {
            Command::SaveFunction { name: args[2].clone(), body: args[3].clone() }
        } else {
            Command::Usage
        }
    } else if same_text(w, "cp") {
        Command::ImportClipboard
    } else if same_text(w, "rm") {
        if args.len() >= 3 {
            Command::RemoveFunction { name: args[2].clone() }
        } else {
            Command::Usage
        }
    } else if same_text(w, "svp") {
        if args.len() >= 4 {
            Command::SaveVariable { name: args[2].clone(), value: args[3].clone() }
        } else {
            Command::Usage
        }
    } else if same_text(w, "rmp") {
        if args.len() >= 3 {
            Command::RemoveVariable { name: args[2].clone() }
        } else {
            Command::Usage
        }
    } else if same_text(w, "lsp") {
        Command::ListVariables
    } else if same_text(w, "ls") {
        Command::ListFunctions
    } else {
        Command::Usage
    }
}

/// `s` padded with spaces on the right to `width` characters (as `{:<width}`).
pub open spec fn padded(s: Seq<char>, width: nat) -> Seq<char> {
    if s.len() >= width {
        s
    } else {
        s + Seq::new((width - s.len()) as nat, |i: int| ' ')
    }
}

/// `s` padded with spaces on the right to `width` characters.
pub fn pad_right(s: &str, width: usize) -> (r: String)
    ensures
        r@ == padded(s@, width as nat),
{
    let n = chars_of(s).len();
    let mut r = String::from_str(s);
    let mut k = n;
    while k < width
        invariant
            n == s@.len(),
            n <= k,
            width <= n ==> k == n,
            n < width ==> k <= width,
            r@ == s@ + Seq::new((k - n) as nat, |i: int| ' '),
        decreases width - k,
    {
        push_char(&mut r, ' ');
        assert(s@ + Seq::new((k + 1 - n) as nat, |i: int| ' ') =~= (s@ + Seq::new(
            (k - n) as nat,
            |i: int| ' ',
        )).push(' '));
        k = k + 1;
    }
    if n >= width {
        assert(s@ + Seq::new(0, |i: int| ' ') =~= s@);
    }
    r
}

/// The commands and what each does, as the usage table shows them.
pub fn usage_entries() -> (r: Vec<(String, String)>)
    ensures
        r@.len() == 7,
        r@[0].0@ == "sv"@ && r@[0].1@ == "<name> <args> | save a new function"@,
        r@[1].0@ == "rm"@ && r@[1].1@ == "<name>        | remove an existing function"@,
        r@[2].0@ == "ls"@ && r@[2].1@ == "              | list all functions"@,
        r@[3].0@ == "cp"@ && r@[3].1@
            == "              | import complete functions or variables from clipboard"@,
        r@[4].0@ == "svp"@ && r@[4].1@ == "<name> <args> | save a new PowerShell variable"@,
        r@[5].0@ == "rmp"@ && r@[5].1@ == "<name>        | remove an existing PowerShell variable"@,
        r@[6].0@ == "lsp"@ && r@[6].1@ == "              | list all PowerShell variables"@,
{
    let mut r: Vec<(String, String)> = Vec::new();
    r.push((String::from_str("sv"), String::from_str("<name> <args> | save a new function")));
    r.push(
        (String::from_str("rm"), String::from_str("<name>        | remove an existing function")),
    );
    r.push((String::from_str("ls"), String::from_str("              | list all functions")));
    r.push(
        (
            String::from_str("cp"),
            String::from_str("              | import complete functions or variables from clipboard"),
        ),
    );
    r.push(
        (String::from_str("svp"), String::from_str("<name> <args> | save a new PowerShell variable")),
    );
    r.push(
        (
            String::from_str("rmp"),
            String::from_str("<name>        | remove an existing PowerShell variable"),
        ),
    );
    r.push(
        (String::from_str("lsp"), String::from_str("              | list all PowerShell variables")),
    );
    r
}

} // verus!

//! Builtin command recognition and the exact text each builtin writes.
//!
//! The builtins are `exit`, `echo`, `type`, `pwd` and `cd`. What they print
//! is pure text computed here; opening files, changing directory and writing
//! to the terminal happen outside the library.

use vstd::prelude::*;
use crate::strutil::str_eq;
use crate::tokenizer::views;

verus! {

/// The in-process commands.
#[derive(Clone, Copy, PartialEq, Eq, Structural, Debug)]
pub enum Builtin {
    Exit,
    Echo,
    Type,
    Pwd,
    Cd,
}

/// Which builtin a command name denotes, if any.
pub open spec fn spec_builtin_of(name: Seq<char>) -> Option<Builtin> {
    if name == seq!['e', 'x', 'i', 't'] {
        Some(Builtin::Exit)
    } else if name == seq!['e', 'c', 'h', 'o'] {
        Some(Builtin::Echo)
    } else if name == seq!['t', 'y', 'p', 'e'] {
        Some(Builtin::Type)
    } else if name == seq!['p', 'w', 'd'] {
        Some(Builtin::Pwd)
    } else if name == seq!['c', 'd'] {
        Some(Builtin::Cd)
    } else {
        None
    }
}

pub open spec fn spec_is_builtin_name(name: Seq<char>) -> bool {
    spec_builtin_of(name) is Some
}

/// Recognizes a builtin command name.
pub fn builtin_of(name: &str) -> (r: Option<Builtin>)
    ensures
        r == spec_builtin_of(name@),
{
    proof {
        reveal_strlit("exit");
        reveal_strlit("echo");
        reveal_strlit("type");
        reveal_strlit("pwd");
        reveal_strlit("cd");
        assert("exit"@ =~= seq!['e', 'x', 'i', 't']);
        assert("echo"@ =~= seq!['e', 'c', 'h', 'o']);
        assert("type"@ =~= seq!['t', 'y', 'p', 'e']);
        assert("pwd"@ =~= seq!['p', 'w', 'd']);
        assert("cd"@ =~= seq!['c', 'd']);
    }
    if str_eq(name, "exit") {
        Some(Builtin::Exit)
    } else if str_eq(name, "echo") {
        Some(Builtin::Echo)
    } else if str_eq(name, "type") {
        Some(Builtin::Type)
    } else if str_eq(name, "pwd") {
        Some(Builtin::Pwd)
    } else if str_eq(name, "cd") {
        Some(Builtin::Cd)
    } else {
        None
    }
}

/// The words joined by single spaces.
pub open spec fn join_spaced(ts: Seq<Seq<char>>) -> Seq<char>
    decreases ts.len(),
{
    if ts.len() == 0 {
        Seq::empty()
    } else if ts.len() == 1 {
        ts[0]
    } else {
        ts[0] + seq![' '] + join_spaced(ts.drop_first())
    }
}

pub proof fn lemma_join_spaced_snoc(ts: Seq<Seq<char>>, t: Seq<char>)
    requires
        ts.len() >= 1,
    ensures
        join_spaced(ts.push(t)) == ts[0] + seq![' '] + join_spaced(ts.drop_first().push(t)),
{
    assert(ts.push(t).len() >= 2);
    assert(ts.push(t)[0] == ts[0]);
    assert(ts.push(t).drop_first() =~= ts.drop_first().push(t));
}

/// What `echo` writes: its arguments joined by single spaces, then a newline.
pub open spec fn spec_echo_output(args: Seq<Seq<char>>) -> Seq<char> {
    join_spaced(args) + seq!['\n']
}

/// The text `echo` writes for the given arguments (argv without the command
/// name).
pub fn echo_output(args: &Vec<String>) -> (r: String)
    ensures
        r@ == spec_echo_output(views(args@)),
{
    let ghost argss = views(args@);
    let mut r = String::new();
    if args.len() > 0 {
        r.append(args[0].as_str());
        proof {
            assert(argss.take(1) =~= seq![argss[0]]);
            assert(r@ == join_spaced(argss.take(1)));
        }
        let mut i: usize = 1;
        while i < args.len()
            invariant
                1 <= i <= args.len(),
                argss == views(args@),
                r@ == join_spaced(argss.take(i as int)),
            decreases args.len() - i,
        {
            r.append(" ");
            r.append(args[i].as_str());
            proof {
                reveal_strlit(" ");
                assert(" "@ =~= seq![' ']);
                let pre = argss.take(i as int);
                assert(argss.take(i + 1 as int) =~= pre.push(argss[i as int]));
                lemma_join_tail(pre, argss[i as int]);
            }
            i = i + 1;
        }
        proof {
            assert(argss.take(args@.len() as int) =~= argss);
        }
    }
    r.append("\n");
    proof {
        reveal_strlit("\n");
        assert("\n"@ =~= seq!['\n']);
    }
    r
}

/// Joining one more word onto a non-empty join appends a space and the word.
pub proof fn lemma_join_tail(ts: Seq<Seq<char>>, t: Seq<char>)
    requires
        ts.len() >= 1,
    ensures
        join_spaced(ts.push(t)) == join_spaced(ts) + seq![' '] + t,
    decreases ts.len(),
{
    if ts.len() == 1 {
        assert(ts.push(t).len() == 2);
        assert(ts.push(t)[0] == ts[0]);
        assert(ts.push(t).drop_first() =~= seq![t]);
        assert(join_spaced(seq![t]) == t);
    } else {
        lemma_join_spaced_snoc(ts, t);
        lemma_join_tail(ts.drop_first(), t);
        assert(join_spaced(ts.push(t)) == ts[0] + seq![' '] + (join_spaced(ts.drop_first()) + seq![
            ' ',
        ] + t));
        assert(ts[0] + seq![' '] + (join_spaced(ts.drop_first()) + seq![' '] + t) =~= (ts[0] + seq![
            ' ',
        ] + join_spaced(ts.drop_first())) + seq![' '] + t);
    }
}

/// What `type` writes for a query: the builtin notice for builtin names, the
/// resolved path for names found on the search path, and a not-found notice
/// otherwise. `resolved` is the search-path lookup result for the query and
/// only matters for non-builtin names.
pub open spec fn spec_type_output(q: Seq<char>, resolved: Option<Seq<char>>) -> Seq<char> {
    if spec_is_builtin_name(q) {
        q + " is a shell builtin\n"@
    } else {
        match resolved {
            Some(p) => q + " is "@ + p + "\n"@,
            None => q + ": not found\n"@,
        }
    }
}

/// The text `type` writes for `query`, given the search-path resolution of
/// that name.
pub fn type_output(query: &str, resolved: &Option<String>) -> (r: String)
    ensures
        r@ == spec_type_output(query@, match resolved {
            Some(p) => Some(p@),
            None => None,
        }),
{
    let mut r = String::new();
    r.append(query);
    if builtin_of(query).is_some() {
        r.append(" is a shell builtin\n");
    } else {
        match resolved {
            Some(p) => {
                r.append(" is ");
                r.append(p.as_str());
                r.append("\n");
            },
            None => {
                r.append(": not found\n");
            },
        }
    }
    r
}

/// What `pwd` writes: the current working directory and a newline.
pub fn pwd_output(cwd: &str) -> (r: String)
    ensures
        r@ == cwd@ + "\n"@,
{
    let mut r = String::new();
    r.append(cwd);
    r.append("\n");
    r
}

/// Where `cd` goes: the home directory when no argument is given, the home
/// directory followed by the rest of the argument when it starts with `~`,
/// and the argument itself otherwise.
pub open spec fn spec_cd_target(arg: Option<Seq<char>>, home: Seq<char>) -> Seq<char> {
    match arg {
        None => home,
        Some(a) => {
            if a.len() > 0 && a[0] == '~' {
                home + a.skip(1)
            } else {
                a
            }
        },
    }
}

/// The directory `cd` should change to.
pub fn cd_target(arg: Option<&String>, home: &str) -> (r: String)
    ensures
        r@ == spec_cd_target(match arg {
            Some(a) => Some(a@),
            None => None,
        }, home@),
{
    match arg {
        None => {
            let mut r = String::new();
            r.append(home);
            r
        },
        Some(a) => {
            let alen = a.as_str().unicode_len();
            if alen > 0 && a.as_str().get_char(0) == '~' {
                let rest = a.as_str().substring_char(1, alen);
                let mut r = String::new();
                r.append(home);
                r.append(rest);
                proof {
                    assert(a@.subrange(1, a@.len() as int) =~= a@.skip(1));
                }
                r
            } else {
                a.clone()
            }
        },
    }
}

/// What `cd` reports when the directory change fails: the argument as typed
/// (or `~` when none was given) with a not-found notice.
pub open spec fn spec_cd_failure(arg: Option<Seq<char>>) -> Seq<char> {
    "cd: "@ + (match arg {
        Some(a) => a,
        None => "~"@,
    }) + ": No such file or directory\n"@
}

/// The diagnostic `cd` writes when the target cannot be entered.
pub fn cd_failure_message(arg: Option<&String>) -> (r: String)
    ensures
        r@ == spec_cd_failure(match arg {
            Some(a) => Some(a@),
            None => None,
        }),
{
    let mut r = String::new();
    r.append("cd: ");
    match arg {
        Some(a) => r.append(a.as_str()),
        None => r.append("~"),
    }
    r.append(": No such file or directory\n");
    r
}

/// The diagnostic for a command name that resolves nowhere when invoked
/// directly.
pub fn command_not_found_message(name: &str) -> (r: String)
    ensures
        r@ == name@ + ": command not found\n"@,
{
    let mut r = String::new();
    r.append(name);
    r.append(": command not found\n");
    r
}

/// The diagnostic for a name that the search-path resolution cannot find
/// inside `type` or pipeline execution.
pub fn not_found_message(name: &str) -> (r: String)
    ensures
        r@ == name@ + ": not found\n"@,
{
    let mut r = String::new();
    r.append(name);
    r.append(": not found\n");
    r
}


/// The builtin command names, in the order they are usually listed; the
/// completion engine takes them as one of its candidate pools.
pub fn builtin_names() -> (r: Vec<String>)
    ensures
        views(r@) == seq!["exit"@, "echo"@, "type"@, "pwd"@, "cd"@],
{
    let mut r: Vec<String> = Vec::new();
    r.push(String::from_str("exit"));
    r.push(String::from_str("echo"));
    r.push(String::from_str("type"));
    r.push(String::from_str("pwd"));
    r.push(String::from_str("cd"));
    proof {
        assert(views(r@) =~= seq!["exit"@, "echo"@, "type"@, "pwd"@, "cd"@]);
    }
    r
}

} // verus!

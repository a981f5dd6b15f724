//! What a resolved segment asks for: a builtin, a listing, or an external
//! program; and where `cd` goes.

use vstd::prelude::*;
use crate::text::{chars_of, push_all, string_of};

verus! {

/// How a directory listing is asked for.
pub struct ListRequest {
    pub path: String,
    pub show_hidden: bool,
    pub long_format: bool,
    pub human_readable: bool,
}

/// The action that a resolved segment stands for.
pub enum Command {
    /// A segment left with no tokens: nothing runs, and it succeeds.
    Nothing,
    Exit,
    Pwd,
    /// `cd` with its first argument, if any.
    Cd(Option<String>),
    Ls(ListRequest),
    /// Any other program, with its arguments.
    External(String, Vec<String>),
}

/// The character sequences of a list of strings.
pub open spec fn views(ts: Seq<String>) -> Seq<Seq<char>> {
    ts.map_values(|t: String| t@)
}

pub open spec fn starts_with_char(s: Seq<char>, c: char) -> bool {
    s.len() > 0 && s[0] == c
}

/// Whether one of the arguments `ts[1..]` is exactly `f`.
pub open spec fn has_arg(ts: Seq<Seq<char>>, f: Seq<char>) -> bool {
    exists|i: int| 1 <= i < ts.len() && ts[i] == f
}

/// The first of `ts[i..]` that is not a flag, or `.` when there is none.
pub open spec fn first_operand(ts: Seq<Seq<char>>, i: int) -> Seq<char>
    decreases ts.len() - i,
{
    if i >= ts.len() {
        "."@
    } else if !starts_with_char(ts[i], '-') {
        ts[i]
    } else {
        first_operand(ts, i + 1)
    }
}

/// The directory that `ls` lists: its first argument that is not a flag.
pub open spec fn ls_path(ts: Seq<Seq<char>>) -> Seq<char> {
    first_operand(ts, 1)
}

fn ls_path_exec(ts: &Vec<String>) -> (r: String)
    ensures
        r@ == ls_path(views(ts@)),
{
    let ghost tv = views(ts@);
    let mut i: usize = 1;
    while i < ts.len()
        invariant
            1 <= i,
            tv == views(ts@),
            first_operand(tv, 1) == first_operand(tv, i as int),
        decreases ts@.len() - i,
    {
        assert(tv[i as int] == ts@[i as int]@);
        if !starts_with_dash(&ts[i]) {
            return ts[i].clone();
        }
        i = i + 1;
    }
    String::from_str(".")
}

fn has_arg_exec(ts: &Vec<String>, f: &str) -> (r: bool)
    ensures
        r == has_arg(ts@.map_values(|t: String| t@), f@),
{
    let fs = String::from_str(f);
    let mut i: usize = 1;
    while i < ts.len()
        invariant
            1 <= i <= ts@.len() || ts@.len() == 0,
            fs@ == f@,
            forall|j: int| 1 <= j < i && j < ts@.len() ==> ts@[j]@ != f@,
        decreases ts@.len() - i,
    {
        if ts[i] == fs {
            assert(ts@.map_values(|t: String| t@)[i as int] == f@);
            return true;
        }
        i = i + 1;
    }
    proof {
        let tv = ts@.map_values(|t: String| t@);
        assert forall|j: int| 1 <= j < tv.len() implies tv[j] != f@ by {
            assert(tv[j] == ts@[j]@);
        }
    }
    false
}

fn starts_with_dash(s: &String) -> (r: bool)
    ensures
        r == starts_with_char(s@, '-'),
{
    let cs = chars_of(s.as_str());
    cs.len() > 0 && cs[0] == '-'
}

/// The action for a segment's resolved tokens: `exit`, `pwd`, `cd` and `ls`
/// are builtins; any other first token names an external program.
pub fn dispatch(ts: &Vec<String>) -> (r: Command)
    ensures
        views(ts@).len() == 0 <==> r is Nothing,
        views(ts@).len() > 0 && views(ts@)[0] == "exit"@ <==> r is Exit,
        views(ts@).len() > 0 && views(ts@)[0] == "pwd"@ <==> r is Pwd,
        views(ts@).len() > 0 && views(ts@)[0] == "cd"@ <==> r is Cd,
        views(ts@).len() > 0 && views(ts@)[0] == "ls"@ <==> r is Ls,
        r matches Command::Cd(a) ==> (a is Some <==> views(ts@).len() > 1),
        r matches Command::Cd(a) ==> (a matches Some(x) ==> x@ == views(ts@)[1]),
        r matches Command::Ls(q) ==> q.path@ == ls_path(views(ts@)),
        r matches Command::Ls(q) ==> q.show_hidden == (has_arg(views(ts@), "-a"@) || has_arg(
            views(ts@),
            "--all"@,
        )),
        r matches Command::Ls(q) ==> q.long_format == has_arg(views(ts@), "-l"@),
        r matches Command::Ls(q) ==> q.human_readable == has_arg(views(ts@), "-h"@),
        r matches Command::External(p, args) ==> p@ == views(ts@)[0] && views(args@) == views(
            ts@,
        ).drop_first(),
{
    let ghost tv = ts@.map_values(|t: String| t@);
    proof {
        reveal_strlit("exit");
        reveal_strlit("pwd");
        reveal_strlit("cd");
        reveal_strlit("ls");
        assert("cd"@[0] != "ls"@[0]);
    }
    if ts.len() == 0 {
        return Command::Nothing;
    }
    assert(tv[0] == ts@[0]@);
    let name = &ts[0];
    if *name == String::from_str("exit") {
        Command::Exit
    } else if *name == String::from_str("pwd") {
        Command::Pwd
    } else if *name == String::from_str("cd") {
        if ts.len() > 1 {
            assert(tv[1] == ts@[1]@);
            Command::Cd(Some(ts[1].clone()))
        } else {
            Command::Cd(None)
        }
    } else if *name == String::from_str("ls") {
        let path = ls_path_exec(ts);
        let show_hidden = has_arg_exec(ts, "-a") || has_arg_exec(ts, "--all");
        let long_format = has_arg_exec(ts, "-l");
        let human_readable = has_arg_exec(ts, "-h");
        Command::Ls(ListRequest { path, show_hidden, long_format, human_readable })
    } else {
        let mut args: Vec<String> = Vec::new();
        let mut i: usize = 1;
        while i < ts.len()
            invariant
                1 <= i <= ts@.len(),
                tv == ts@.map_values(|t: String| t@),
                args@.map_values(|t: String| t@) == tv.subrange(1, i as int),
            decreases ts@.len() - i,
        {
            let ghost prev = args@.map_values(|t: String| t@);
            let a = ts[i].clone();
            args.push(a);
            assert(args@.map_values(|t: String| t@) =~= prev.push(a@));
            assert(tv.subrange(1, i as int + 1) =~= tv.subrange(1, i as int).push(tv[i as int]));
            i = i + 1;
        }
        assert(tv.subrange(1, tv.len() as int) =~= tv.drop_first());
        Command::External(name.clone(), args)
    }
}


/// `s` with every double quote removed.
pub open spec fn without_quotes(s: Seq<char>) -> Seq<char>
    decreases s.len(),
{
    if s.len() == 0 {
        s
    } else if s.last() == '"' {
        without_quotes(s.drop_last())
    } else {
        without_quotes(s.drop_last()).push(s.last())
    }
}

/// Where `cd` goes: `~` alone is the home directory; a leading `~` of a
/// longer argument (or of `~` when no home directory is known) becomes
/// `/home/<user>`; any other argument is taken as it is; with no argument,
/// the home directory, or `.` when there is none.
pub open spec fn cd_target(arg: Option<Seq<char>>, user: Seq<char>, home: Option<Seq<char>>) -> Seq<
    char,
> {
    match arg {
        Some(a) => if a == seq!['~'] && home is Some {
            home->0
        } else if starts_with_char(a, '~') {
            "/home/"@ + user + a.drop_first()
        } else {
            a
        },
        None => match home {
            Some(h) => h,
            None => "."@,
        },
    }
}

pub open spec fn opt_view(o: Option<String>) -> Option<Seq<char>> {
    match o {
        Some(s) => Some(s@),
        None => None,
    }
}

pub(crate) fn strip_quotes(v: &Vec<char>) -> (r: Vec<char>)
    ensures
        r@ == without_quotes(v@),
{
    let mut r: Vec<char> = Vec::new();
    let mut i: usize = 0;
    while i < v.len()
        invariant
            i <= v@.len(),
            r@ == without_quotes(v@.take(i as int)),
        decreases v@.len() - i,
    {
        assert(v@.take(i as int + 1).drop_last() =~= v@.take(i as int));
        if v[i] != '"' {
            r.push(v[i]);
        }
        i = i + 1;
    }
    assert(v@.take(v@.len() as int) =~= v@);
    r
}

/// The directory that `cd` changes to, given the user name and the home
/// directory; quotes in the user name are dropped.
pub fn cd_target_for(arg: &Option<String>, user: &str, home: Option<String>) -> (r: String)
    ensures
        r@ == cd_target(opt_view(*arg), without_quotes(user@), opt_view(home)),
{
    match arg {
        Some(a) => {
            let cs = chars_of(a.as_str());
            if cs.len() == 1 && cs[0] == '~' && home.is_some() {
                assert(cs@ =~= seq!['~']);
                return home.unwrap();
            }
            if cs.len() > 0 && cs[0] == '~' {
                let mut out = chars_of("/home/");
                let uq = strip_quotes(&chars_of(user));
                push_all(&mut out, &uq);
                let mut i: usize = 1;
                let ghost start = out@;
                while i < cs.len()
                    invariant
                        1 <= i <= cs@.len(),
                        out@ == start + cs@.subrange(1, i as int),
                    decreases cs@.len() - i,
                {
                    out.push(cs[i]);
                    assert(out@ =~= start + cs@.subrange(1, i as int + 1));
                    i = i + 1;
                }
                assert(cs@.subrange(1, cs@.len() as int) =~= cs@.drop_first());
                string_of(out.as_slice())
            } else {
                a.clone()
            }
        },
        None => match home {
            Some(h) => h,
            None => String::from_str("."),
        },
    }
}

/// Relies on `whoami::username`: the name of the user running the shell.
#[verifier::external_body]
pub(crate) fn user_name() -> (r: String) {
    whoami::username()
}

/// Relies on `dirs::home_dir`: the user's home directory, if one is known.
#[verifier::external_body]
pub(crate) fn home_dir_text() -> (r: Option<String>) {
    dirs::home_dir().map(|p| p.to_string_lossy().into_owned())
}

/// Where `cd` with this argument goes, for the user running the shell.
pub fn resolve_cd(arg: &Option<String>) -> (r: String)
    ensures
        exists|user: Seq<char>, home: Option<Seq<char>>| r@ == cd_target(opt_view(*arg), without_quotes(user), home),
        *arg matches Some(a) ==> (!starts_with_char(a@, '~') ==> r@ == a@),
{
    let user = user_name();
    let home = home_dir_text();
    let ghost hv = opt_view(home);
    let r = cd_target_for(arg, user.as_str(), home);
    assert(r@ == cd_target(opt_view(*arg), without_quotes(user@), hv));
    r
}

} // verus!

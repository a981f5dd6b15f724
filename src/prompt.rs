//! The prompt: where the shell is, and who runs it on which host.

use vstd::prelude::*;
use crate::command::{home_dir_text, opt_view, strip_quotes, user_name, without_quotes};
use crate::render::{is_painted, paint_bold, paint_green};
use crate::text::{chars_of, push_all, string_of};

verus! {

/// What `Path::strip_prefix` leaves of `path` after the leading components
/// of `base`, if `base` is a prefix of it.
pub uninterp spec fn path_suffix(path: Seq<char>, base: Seq<char>) -> Option<Seq<char>>;

/// Relies on `Path::strip_prefix`: `path` without the leading components
/// that make up `base`, when they do; the result depends on the two paths
/// alone.
#[verifier::external_body]
fn strip_path_prefix(path: &str, base: &str) -> (r: Option<String>)
    ensures
        opt_view(r) == path_suffix(path@, base@),
{
    std::path::Path::new(path).strip_prefix(base).ok().map(|p| p.display().to_string())
}

/// `target` relative to `base` when it lies under it, else unchanged.
pub fn relative_path(base: &str, target: &str) -> (r: String)
    ensures
        r@ == match path_suffix(target@, base@) {
            Some(x) => x,
            None => target@,
        },
{
    match strip_path_prefix(target, base) {
        Some(x) => x,
        None => String::from_str(target),
    }
}

/// The directory as the prompt shows it: under `~/` when it lies in the
/// home directory.
pub open spec fn shown_dir(cwd: Seq<char>, home: Seq<char>) -> Seq<char> {
    match path_suffix(cwd, home) {
        Some(x) => "~/"@ + x,
        None => cwd,
    }
}

/// Shows `cwd` relative to `home` when it lies under it.
pub fn display_dir(cwd: &str, home: &str) -> (r: String)
    ensures
        r@ == shown_dir(cwd@, home@),
{
    match strip_path_prefix(cwd, home) {
        Some(x) => String::from_str("~/").concat(x.as_str()),
        None => String::from_str(cwd),
    }
}

/// The prompt: a blank line, the directory, then `user@host`, the marker
/// and a space; each piece as given.
pub open spec fn prompt_text(dir: Seq<char>, user: Seq<char>, host: Seq<char>, marker: Seq<char>) -> Seq<
    char,
> {
    seq!['\n'] + dir + seq!['\n'] + user + seq!['@'] + host + seq![' '] + marker + seq![' ']
}

/// Assembles the prompt from its pieces.
pub fn prompt_line(dir: &String, user: &String, host: &String, marker: &String) -> (r: String)
    ensures
        r@ == prompt_text(dir@, user@, host@, marker@),
{
    let mut v: Vec<char> = vec!['\n'];
    push_all(&mut v, &chars_of(dir.as_str()));
    v.push('\n');
    push_all(&mut v, &chars_of(user.as_str()));
    v.push('@');
    push_all(&mut v, &chars_of(host.as_str()));
    v.push(' ');
    push_all(&mut v, &chars_of(marker.as_str()));
    v.push(' ');
    assert(v@ =~= prompt_text(dir@, user@, host@, marker@));
    string_of(v.as_slice())
}

/// Relies on `whoami::hostname`: the name of this machine.
#[verifier::external_body]
fn host_name() -> (r: String) {
    whoami::hostname()
}

/// The prompt for a shell in directory `cwd`.
pub fn prompt(cwd: &str) -> (r: String)
    ensures
        exists|dir: Seq<char>, home: Seq<char>, user: Seq<char>, host: Seq<char>, marker: Seq<char>|
            {
                &&& is_painted(dir, shown_dir(cwd@, home))
                &&& is_painted(marker, ">"@)
                &&& r@ == prompt_text(dir, without_quotes(user), host, marker)
            },
{
    let name = user_name();
    let user = string_of(strip_quotes(&chars_of(name.as_str())).as_slice());
    let host = host_name();
    let home = match home_dir_text() {
        Some(h) => h,
        None => String::from_str("~"),
    };
    let dir = display_dir(cwd, home.as_str());
    let shown = paint_bold(dir.as_str());
    let marker = paint_green(">");
    let r = prompt_line(&shown, &user, &host, &marker);
    assert(is_painted(shown@, shown_dir(cwd@, home@)) && is_painted(marker@, ">"@) && r@
        == prompt_text(shown@, without_quotes(name@), host@, marker@));
    r
}

} // verus!

//! Classification of directory entries: the icon shown beside a name and
//! the color class of the name.

use vstd::prelude::*;
use crate::listing::{Entry, EntryKind};
use crate::text::chars_of;

verus! {

/// How a name is colored in a listing.
#[derive(Clone, Copy, Debug, PartialEq, Eq)]
pub enum ColorClass {
    Directory,
    Link,
    Executable,
    Image,
    Archive,
    Plain,
}

/// The icon and the color class of an entry.
pub struct Classification {
    pub icon: String,
    pub color: ColorClass,
}

pub open spec fn ends_with(s: Seq<char>, suffix: Seq<char>) -> bool {
    s.len() >= suffix.len() && s.subrange(s.len() - suffix.len(), s.len() as int) == suffix
}

pub open spec fn starts_with(s: Seq<char>, prefix: Seq<char>) -> bool {
    s.len() >= prefix.len() && s.subrange(0, prefix.len() as int) == prefix
}

/// The extension of `name` is `dotted` without its dot: `name` ends with
/// `dotted` and has more before it. (`dotted` is a dot and a dot-free word.)
pub open spec fn has_extension(name: Seq<char>, dotted: Seq<char>) -> bool {
    ends_with(name, dotted) && name.len() > dotted.len()
}

fn ends_with_str(s: &Vec<char>, suffix: &str) -> (r: bool)
    ensures
        r == ends_with(s@, suffix@),
{
    let t = chars_of(suffix);
    if t.len() > s.len() {
        return false;
    }
    let n: usize = s.len();
    let off = n - t.len();
    let mut i: usize = 0;
    while i < t.len()
        invariant
            off + t@.len() == s@.len(),
            n == s@.len(),
            t@ == suffix@,
            i <= t@.len(),
            forall|j: int| 0 <= j < i ==> s@[off + j] == t@[j],
        decreases t@.len() - i,
    {
        if s[off + i] != t[i] {
            assert(s@.subrange(off as int, s@.len() as int)[i as int] != t@[i as int]);
            return false;
        }
        i = i + 1;
    }
    assert(s@.subrange(off as int, s@.len() as int) =~= t@);
    true
}

fn starts_with_str(s: &Vec<char>, prefix: &str) -> (r: bool)
    ensures
        r == starts_with(s@, prefix@),
{
    let t = chars_of(prefix);
    if t.len() > s.len() {
        return false;
    }
    let mut i: usize = 0;
    while i < t.len()
        invariant
            t@.len() <= s@.len(),
            t@ == prefix@,
            i <= t@.len(),
            forall|j: int| 0 <= j < i ==> s@[j] == t@[j],
        decreases t@.len() - i,
    {
        if s[i] != t[i] {
            assert(s@.subrange(0, t@.len() as int)[i as int] != t@[i as int]);
            return false;
        }
        i = i + 1;
    }
    assert(s@.subrange(0, t@.len() as int) =~= t@);
    true
}

fn same_chars(s: &Vec<char>, t: &str) -> (r: bool)
    ensures
        r == (s@ == t@),
{
    let u = chars_of(t);
    if u.len() != s.len() {
        return false;
    }
    let mut i: usize = 0;
    while i < u.len()
        invariant
            u@.len() == s@.len(),
            u@ == t@,
            i <= u@.len(),
            forall|j: int| 0 <= j < i ==> s@[j] == u@[j],
        decreases u@.len() - i,
    {
        if s[i] != u[i] {
            return false;
        }
        i = i + 1;
    }
    assert(s@ =~= u@);
    true
}

/// The icon of a regular file, by the first rule that its name meets.
pub open spec fn file_icon_of(n: Seq<char>) -> Seq<char> {
    if ends_with(n, ".rs"@) {
        " \u{1f980}"@
    } else if ends_with(n, ".go"@) {
        " \u{1f439}"@
    } else if ends_with(n, ".c"@) {
        " C"@
    } else if ends_with(n, ".cpp"@) {
        " C++"@
    } else if ends_with(n, ".h"@) {
        " H"@
    } else if ends_with(n, ".py"@) {
        " \u{1f40d}"@
    } else if ends_with(n, ".r"@) {
        " \u{1d411}"@
    } else if ends_with(n, ".js"@) {
        " JS"@
    } else if ends_with(n, ".ts"@) {
        " TS"@
    } else if ends_with(n, ".html"@) {
        " \u{1f310}"@
    } else if ends_with(n, ".css"@) {
        " \u{1f3a8}"@
    } else if ends_with(n, ".md"@) {
        " \u{e609}"@
    } else if ends_with(n, ".json"@) {
        " {}"@
    } else if ends_with(n, ".toml"@) || ends_with(n, ".yaml"@) || ends_with(n, ".conf"@) || ends_with(n, ".config"@) || starts_with(n, "."@) {
        " \u{2699}\u{fe0f}"@
    } else if ends_with(n, ".sh"@) {
        " >_"@
    } else if ends_with(n, ".txt"@) {
        " \u{f15c}"@
    } else if ends_with(n, ".sql"@) {
        " \u{f1c0}"@
    } else if ends_with(n, ".java"@) {
        " \u{2615}"@
    } else if ends_with(n, ".jpg"@) || ends_with(n, ".png"@) || ends_with(n, ".gif"@) {
        " \u{1f5bc}\u{fe0f}"@
    } else if ends_with(n, ".zip"@) || ends_with(n, ".gz"@) || ends_with(n, ".tar"@) {
        " \u{1f4e6}"@
    } else {
        " \u{1f4c4}"@
    }
}

/// The icon of a directory: well-known folder names have their own.
pub open spec fn folder_icon_of(n: Seq<char>) -> Seq<char> {
    if n == "Downloads"@ {
        " \u{1f4e5}"@
    } else if n == "Desktop"@ {
        " \u{1f5a5}\u{fe0f}"@
    } else if n == "Documents"@ || n == "Documentos"@ {
        " \u{1f4c4}"@
    } else if n == "Dev"@ || n == "dev"@ {
        " </>"@
    } else if n == "Projects"@ || n == "projects"@ {
        " \u{1f5c2}\u{fe0f}"@
    } else if n == "Pictures"@ || n == "Imagens"@ {
        " \u{1f5bc}\u{fe0f}"@
    } else if n == "Music"@ || n == "M\u{fa}sica"@ {
        " \u{1f3b5}"@
    } else if n == "Videos"@ || n == "V\u{ed}deos"@ {
        " \u{1f3a5}"@
    } else if n == ".config"@ {
        " \u{2699}\u{fe0f}"@
    } else if n == ".git"@ {
        " \u{1f5c3}\u{fe0f}"@
    } else if n == "node_modules"@ {
        " \u{1f4e6}"@
    } else if n == "target"@ {
        " \u{1f6e0}\u{fe0f}"@
    } else {
        " \u{1f4c1}"@
    }
}

/// Picks the icon of a regular file from its name.
pub fn file_icon(cs: &Vec<char>) -> (r: String)
    ensures
        r@ == file_icon_of(cs@),
{
    if ends_with_str(cs, ".rs") {
        String::from_str(" \u{1f980}")
    } else if ends_with_str(cs, ".go") {
        String::from_str(" \u{1f439}")
    } else if ends_with_str(cs, ".c") {
        String::from_str(" C")
    } else if ends_with_str(cs, ".cpp") {
        String::from_str(" C++")
    } else if ends_with_str(cs, ".h") {
        String::from_str(" H")
    } else if ends_with_str(cs, ".py") {
        String::from_str(" \u{1f40d}")
    } else if ends_with_str(cs, ".r") {
        String::from_str(" \u{1d411}")
    } else if ends_with_str(cs, ".js") {
        String::from_str(" JS")
    } else if ends_with_str(cs, ".ts") {
        String::from_str(" TS")
    } else if ends_with_str(cs, ".html") {
        String::from_str(" \u{1f310}")
    } else if ends_with_str(cs, ".css") {
        String::from_str(" \u{1f3a8}")
    } else if ends_with_str(cs, ".md") {
        String::from_str(" \u{e609}")
    } else if ends_with_str(cs, ".json") {
        String::from_str(" {}")
    } else if ends_with_str(cs, ".toml") || ends_with_str(cs, ".yaml") || ends_with_str(cs, ".conf") || ends_with_str(cs, ".config") || starts_with_str(cs, ".") {
        String::from_str(" \u{2699}\u{fe0f}")
    } else if ends_with_str(cs, ".sh") {
        String::from_str(" >_")
    } else if ends_with_str(cs, ".txt") {
        String::from_str(" \u{f15c}")
    } else if ends_with_str(cs, ".sql") {
        String::from_str(" \u{f1c0}")
    } else if ends_with_str(cs, ".java") {
        String::from_str(" \u{2615}")
    } else if ends_with_str(cs, ".jpg") || ends_with_str(cs, ".png") || ends_with_str(cs, ".gif") {
        String::from_str(" \u{1f5bc}\u{fe0f}")
    } else if ends_with_str(cs, ".zip") || ends_with_str(cs, ".gz") || ends_with_str(cs, ".tar") {
        String::from_str(" \u{1f4e6}")
    } else {
        String::from_str(" \u{1f4c4}")
    }
}

/// Picks the icon of a directory from its name.
pub fn folder_icon(cs: &Vec<char>) -> (r: String)
    ensures
        r@ == folder_icon_of(cs@),
{
    if same_chars(cs, "Downloads") {
        String::from_str(" \u{1f4e5}")
    } else if same_chars(cs, "Desktop") {
        String::from_str(" \u{1f5a5}\u{fe0f}")
    } else if same_chars(cs, "Documents") || same_chars(cs, "Documentos") {
        String::from_str(" \u{1f4c4}")
    } else if same_chars(cs, "Dev") || same_chars(cs, "dev") {
        String::from_str(" </>")
    } else if same_chars(cs, "Projects") || same_chars(cs, "projects") {
        String::from_str(" \u{1f5c2}\u{fe0f}")
    } else if same_chars(cs, "Pictures") || same_chars(cs, "Imagens") {
        String::from_str(" \u{1f5bc}\u{fe0f}")
    } else if same_chars(cs, "Music") || same_chars(cs, "M\u{fa}sica") {
        String::from_str(" \u{1f3b5}")
    } else if same_chars(cs, "Videos") || same_chars(cs, "V\u{ed}deos") {
        String::from_str(" \u{1f3a5}")
    } else if same_chars(cs, ".config") {
        String::from_str(" \u{2699}\u{fe0f}")
    } else if same_chars(cs, ".git") {
        String::from_str(" \u{1f5c3}\u{fe0f}")
    } else if same_chars(cs, "node_modules") {
        String::from_str(" \u{1f4e6}")
    } else if same_chars(cs, "target") {
        String::from_str(" \u{1f6e0}\u{fe0f}")
    } else {
        String::from_str(" \u{1f4c1}")
    }
}

/// The color class of a regular file that is not executable, by extension.
pub open spec fn file_color_of(n: Seq<char>) -> ColorClass {
    if has_extension(n, ".jpg"@) || has_extension(n, ".png"@) || has_extension(n, ".gif"@) {
        ColorClass::Image
    } else if has_extension(n, ".zip"@) || has_extension(n, ".gz"@) || has_extension(n, ".tar"@) {
        ColorClass::Archive
    } else {
        ColorClass::Plain
    }
}

fn has_extension_str(cs: &Vec<char>, dotted: &str) -> (r: bool)
    ensures
        r == has_extension(cs@, dotted@),
{
    let e = ends_with_str(cs, dotted);
    let d = chars_of(dotted);
    e && cs.len() > d.len()
}

pub open spec fn link_icon() -> Seq<char> {
    " \u{1f517}"@
}

pub open spec fn executable_icon() -> Seq<char> {
    " >_"@
}

/// The icon of an entry: directories by name, then links, then executable
/// files, then other files by name.
pub open spec fn icon_of(e: Entry) -> Seq<char> {
    match e.kind {
        EntryKind::Directory => folder_icon_of(e.name@),
        EntryKind::Symlink => link_icon(),
        EntryKind::File => if e.executable {
            executable_icon()
        } else {
            file_icon_of(e.name@)
        },
    }
}

/// The color class of an entry, by the same order of rules.
pub open spec fn color_of(e: Entry) -> ColorClass {
    match e.kind {
        EntryKind::Directory => ColorClass::Directory,
        EntryKind::Symlink => ColorClass::Link,
        EntryKind::File => if e.executable {
            ColorClass::Executable
        } else {
            file_color_of(e.name@)
        },
    }
}

/// Classifies an entry: its icon and the color class of its name.
pub fn classify(e: &Entry) -> (r: Classification)
    ensures
        r.icon@ == icon_of(*e),
        r.color == color_of(*e),
{
    let cs = chars_of(e.name.as_str());
    match e.kind {
        EntryKind::Directory => Classification { icon: folder_icon(&cs), color: ColorClass::Directory },
        EntryKind::Symlink => Classification {
            icon: String::from_str(" \u{1f517}"),
            color: ColorClass::Link,
        },
        EntryKind::File => if e.executable {
            Classification { icon: String::from_str(" >_"), color: ColorClass::Executable }
        } else {
            let color = if has_extension_str(&cs, ".jpg") || has_extension_str(&cs, ".png")
                || has_extension_str(&cs, ".gif") {
                ColorClass::Image
            } else if has_extension_str(&cs, ".zip") || has_extension_str(&cs, ".gz")
                || has_extension_str(&cs, ".tar") {
                ColorClass::Archive
            } else {
                ColorClass::Plain
            };
            Classification { icon: file_icon(&cs), color }
        },
    }
}

} // verus!

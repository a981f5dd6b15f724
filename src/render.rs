//! Laying out a listing: a grid of four columns, or a long table with one
//! row per entry.

use vstd::prelude::*;
use colored::Colorize;
use chrono::{Datelike, Timelike};
use crate::classify::{classify, icon_of, ColorClass};
use crate::command::ListRequest;
use crate::format::{
    format_permissions, format_size, format_stamp, permission_text, size_text, stamp_text, Stamp,
};
use crate::listing::{is_listing, list_entries, Entry};
use crate::text::{
    chars_of, decimal, decimal_chars, pad_left, pad_right, push_all, push_padded_left,
    push_padded_right, push_spaces, spaces, string_of, truncate_string, truncated,
};

verus! {

/// Columns of the grid.
pub const GRID_COLUMNS: usize = 4;

/// Width of a row of the long table besides the name.
pub const LONG_ALLOWANCE: usize = 50;

/// Terminal width when none can be found.
pub const DEFAULT_WIDTH: usize = 80;

/// The column titles of the long table.
pub open spec fn long_header() -> Seq<char> {
    "Permisions  Owner   Grup     Size    Modification       Name"@
}

/// The terminal width the grid works with: at least 40, or 80 when unknown.
pub open spec fn grid_width_of(probe: Option<u16>) -> nat {
    match probe {
        Some(w) => if w < 40 { 40 } else { w as nat },
        None => 80,
    }
}

/// Room for a name in the long table: the width (80 when unknown) less the
/// other columns, and never under 20.
pub open spec fn long_width_of(probe: Option<u16>) -> nat {
    let w: int = match probe {
        Some(w) => w as int,
        None => 80,
    };
    if w - 50 < 20 { 20 } else { (w - 50) as nat }
}

pub fn grid_width(probe: Option<u16>) -> (r: usize)
    ensures
        r == grid_width_of(probe),
{
    match probe {
        Some(w) => if w < 40 { 40 } else { w as usize },
        None => DEFAULT_WIDTH,
    }
}

/// Room for a name in the grid: a fourth of the width, less the icon.
pub fn grid_name_width(term_width: usize) -> (r: usize)
    requires
        term_width >= 40,
    ensures
        r == term_width / 4 - 3,
{
    term_width / GRID_COLUMNS - 3
}

pub fn long_name_width(probe: Option<u16>) -> (r: usize)
    ensures
        r == long_width_of(probe),
{
    let w: usize = match probe {
        Some(w) => w as usize,
        None => DEFAULT_WIDTH,
    };
    if w < LONG_ALLOWANCE + 20 {
        20
    } else {
        w - LONG_ALLOWANCE
    }
}

/// The size column: bytes, or binary units when asked for.
pub open spec fn size_column(size: u64, human: bool) -> Seq<char> {
    if human {
        size_text(size as nat)
    } else {
        decimal(size as nat)
    }
}

/// One row of the long table, `when` being the time column and `name` the
/// name as displayed.
pub open spec fn long_row_text(e: Entry, human: bool, when: Seq<char>, name: Seq<char>) -> Seq<
    char,
> {
    pad_right(permission_text(e.mode), 10) + seq![' '] + pad_left(decimal(e.uid as nat), 6)
        + seq![' '] + pad_left(decimal(e.gid as nat), 6) + seq![' '] + pad_left(
        size_column(e.size, human),
        8,
    ) + seq![' '] + when + seq![' '] + icon_of(e) + seq![' '] + name
}

/// Renders one row of the long table.
pub fn long_row(e: &Entry, human: bool, when: &String, name: &String) -> (r: Vec<char>)
    ensures
        r@ == long_row_text(*e, human, when@, name@),
{
    let mut v: Vec<char> = Vec::new();
    let perms = chars_of(format_permissions(e.mode).as_str());
    push_padded_right(&mut v, &perms, 10);
    v.push(' ');
    push_padded_left(&mut v, &decimal_chars(e.uid as u128), 6);
    v.push(' ');
    push_padded_left(&mut v, &decimal_chars(e.gid as u128), 6);
    v.push(' ');
    let size = if human {
        chars_of(format_size(e.size).as_str())
    } else {
        decimal_chars(e.size as u128)
    };
    push_padded_left(&mut v, &size, 8);
    v.push(' ');
    push_all(&mut v, &chars_of(when.as_str()));
    v.push(' ');
    let c = classify(e);
    push_all(&mut v, &chars_of(c.icon.as_str()));
    v.push(' ');
    push_all(&mut v, &chars_of(name.as_str()));
    assert(v@ =~= long_row_text(*e, human, when@, name@));
    v
}

/// The rows of the first `n` entries: an entry without a time is left out.
pub open spec fn rows_text(
    es: Seq<Entry>,
    human: bool,
    whens: Seq<Option<String>>,
    names: Seq<String>,
    n: nat,
) -> Seq<char>
    decreases n,
{
    if n == 0 {
        Seq::empty()
    } else {
        let i = n - 1;
        rows_text(es, human, whens, names, (n - 1) as nat) + match whens[i] {
            Some(w) => long_row_text(es[i], human, w@, names[i]@) + seq!['\n'],
            None => Seq::empty(),
        }
    }
}

/// The long table: the header line, then a row for each entry that has a
/// time, the name in the form `names` gives.
pub fn long_table(
    header: &String,
    es: &Vec<Entry>,
    human: bool,
    whens: &Vec<Option<String>>,
    names: &Vec<String>,
) -> (r: String)
    requires
        whens@.len() == es@.len(),
        names@.len() == es@.len(),
    ensures
        r@ == header@ + seq!['\n'] + rows_text(es@, human, whens@, names@, es@.len() as nat),
{
    let mut v = chars_of(header.as_str());
    v.push('\n');
    let ghost start = v@;
    let mut i: usize = 0;
    while i < es.len()
        invariant
            i <= es@.len(),
            whens@.len() == es@.len(),
            names@.len() == es@.len(),
            v@ == start + rows_text(es@, human, whens@, names@, i as nat),
        decreases es@.len() - i,
    {
        match &whens[i] {
            Some(w) => {
                let row = long_row(&es[i], human, w, &names[i]);
                push_all(&mut v, &row);
                v.push('\n');
            },
            None => {},
        }
        assert(v@ =~= start + rows_text(es@, human, whens@, names@, i as nat + 1));
        i = i + 1;
    }
    string_of(v.as_slice())
}

/// One cell of the grid: the icon, then the name as displayed, then room up
/// to `width` by the length of the name as cut to `width`.
pub open spec fn cell_text(e: Entry, shown: Seq<char>, width: nat) -> Seq<char> {
    let plain = truncated(e.name@, width);
    icon_of(e) + seq![' '] + shown + if plain.len() < width {
        spaces((width - plain.len()) as nat)
    } else {
        Seq::empty()
    }
}

/// The cells of the first `n` entries, with a line break after every fourth.
pub open spec fn grid_cells(es: Seq<Entry>, names: Seq<String>, width: nat, n: nat) -> Seq<char>
    decreases n,
{
    if n == 0 {
        Seq::empty()
    } else {
        grid_cells(es, names, width, (n - 1) as nat) + cell_text(es[n - 1], names[n - 1]@, width)
            + if n % 4 == 0 {
            seq!['\n']
        } else {
            Seq::empty()
        }
    }
}

/// The whole grid: the cells, and a line break after a last row that is
/// not full.
pub open spec fn grid_text(es: Seq<Entry>, names: Seq<String>, width: nat) -> Seq<char> {
    grid_cells(es, names, width, es.len()) + if es.len() % 4 != 0 {
        seq!['\n']
    } else {
        Seq::empty()
    }
}

/// Lays the entries out four to a row, each name shown as `names` gives it.
pub fn grid(es: &Vec<Entry>, names: &Vec<String>, width: usize) -> (r: String)
    requires
        names@.len() == es@.len(),
    ensures
        r@ == grid_text(es@, names@, width as nat),
{
    let mut v: Vec<char> = Vec::new();
    let mut i: usize = 0;
    while i < es.len()
        invariant
            i <= es@.len(),
            names@.len() == es@.len(),
            v@ == grid_cells(es@, names@, width as nat, i as nat),
        decreases es@.len() - i,
    {
        let e = &es[i];
        let c = classify(e);
        push_all(&mut v, &chars_of(c.icon.as_str()));
        v.push(' ');
        push_all(&mut v, &chars_of(names[i].as_str()));
        let plain = truncate_string(e.name.as_str(), width);
        let plen = chars_of(plain.as_str()).len();
        if plen < width {
            push_spaces(&mut v, width - plen);
        }
        if (i + 1) % GRID_COLUMNS == 0 {
            v.push('\n');
        }
        assert(v@ =~= grid_cells(es@, names@, width as nat, i as nat + 1));
        i = i + 1;
    }
    if es.len() % GRID_COLUMNS != 0 {
        v.push('\n');
    }
    assert(v@ =~= grid_text(es@, names@, width as nat));
    string_of(v.as_slice())
}

/// `shown` is `s` as displayed: when `s` holds no escape character, it
/// stands whole in `shown`, possibly between escape codes.
pub open spec fn is_painted(shown: Seq<char>, s: Seq<char>) -> bool {
    !s.contains('\u{1b}') ==> exists|pre: Seq<char>, post: Seq<char>| shown == pre + s + post
}

/// Moments that chrono can represent: every second within 8 * 10^12 of the
/// epoch (chrono covers the years -262143 to 262142).
pub open spec fn stamp_in_range(secs: i64) -> bool {
    -8_000_000_000_000 <= secs <= 8_000_000_000_000
}

/// A well-formed local time, rendered.
pub open spec fn is_stamp_text(w: Seq<char>) -> bool {
    exists|s: Stamp| s.wf() && w == stamp_text(s)
}

/// What a row of the long table shows of `e`: a time whenever the entry has
/// one that chrono can represent, and the name cut to `width`.
pub open spec fn long_cell_ok(e: Entry, width: nat, when: Option<String>, name: String) -> bool {
    &&& (e.modified matches Some(t) && stamp_in_range(t)) ==> when is Some
    &&& when matches Some(t) ==> is_stamp_text(t@)
    &&& is_painted(name@, truncated(e.name@, width))
}

/// `r` is the long table of `es`, names cut to `width`: the header, then a
/// row for each entry that has a time, in order.
pub open spec fn is_long_listing(es: Seq<Entry>, human: bool, width: nat, r: Seq<char>) -> bool {
    exists|h: String, whens: Seq<Option<String>>, names: Seq<String>|
        {
            &&& whens.len() == es.len()
            &&& names.len() == es.len()
            &&& is_painted(h@, long_header())
            &&& forall|i: int|
                0 <= i < es.len() ==> #[trigger] long_cell_ok(es[i], width, whens[i], names[i])
            &&& r == h@ + seq!['\n'] + rows_text(es, human, whens, names, es.len() as nat)
        }
}

/// `r` is the grid of `es` with `width` columns for each name, each name
/// cut to `width`.
pub open spec fn is_grid_listing(es: Seq<Entry>, width: nat, r: Seq<char>) -> bool {
    exists|names: Seq<String>|
        {
            &&& names.len() == es.len()
            &&& forall|i: int|
                0 <= i < es.len() ==> is_painted(#[trigger] names[i]@, truncated(es[i].name@, width))
            &&& r == grid_text(es, names, width)
        }
}

/// Relies on `Colorize::blue` from colored: a name stays as it is, possibly
/// between escape codes.
#[verifier::external_body]
fn paint_blue(s: &str) -> (r: String)
    ensures
        !s@.contains('\u{1b}') ==> exists|pre: Seq<char>, post: Seq<char>| r@ == pre + s@ + post,
{
    s.blue().to_string()
}

/// Relies on `Colorize::cyan` from colored, as `paint_blue` does.
#[verifier::external_body]
fn paint_cyan(s: &str) -> (r: String)
    ensures
        !s@.contains('\u{1b}') ==> exists|pre: Seq<char>, post: Seq<char>| r@ == pre + s@ + post,
{
    s.cyan().to_string()
}

/// Relies on `Colorize::green` from colored, as `paint_blue` does.
#[verifier::external_body]
pub(crate) fn paint_green(s: &str) -> (r: String)
    ensures
        !s@.contains('\u{1b}') ==> exists|pre: Seq<char>, post: Seq<char>| r@ == pre + s@ + post,
{
    s.green().to_string()
}

/// Relies on `Colorize::yellow` from colored, as `paint_blue` does.
#[verifier::external_body]
fn paint_yellow(s: &str) -> (r: String)
    ensures
        !s@.contains('\u{1b}') ==> exists|pre: Seq<char>, post: Seq<char>| r@ == pre + s@ + post,
{
    s.yellow().to_string()
}

/// Relies on `Colorize::red` from colored, as `paint_blue` does.
#[verifier::external_body]
fn paint_red(s: &str) -> (r: String)
    ensures
        !s@.contains('\u{1b}') ==> exists|pre: Seq<char>, post: Seq<char>| r@ == pre + s@ + post,
{
    s.red().to_string()
}

/// Relies on `Colorize::white` from colored, as `paint_blue` does.
#[verifier::external_body]
fn paint_white(s: &str) -> (r: String)
    ensures
        !s@.contains('\u{1b}') ==> exists|pre: Seq<char>, post: Seq<char>| r@ == pre + s@ + post,
{
    s.white().to_string()
}

/// Relies on `Colorize::bold` from colored, as `paint_blue` does.
#[verifier::external_body]
pub(crate) fn paint_bold(s: &str) -> (r: String)
    ensures
        !s@.contains('\u{1b}') ==> exists|pre: Seq<char>, post: Seq<char>| r@ == pre + s@ + post,
{
    s.bold().to_string()
}

/// A name in the color of its class.
pub fn paint(s: &str, c: ColorClass) -> (r: String)
    ensures
        is_painted(r@, s@),
{
    match c {
        ColorClass::Directory => paint_blue(s),
        ColorClass::Link => paint_cyan(s),
        ColorClass::Executable => paint_green(s),
        ColorClass::Image => paint_yellow(s),
        ColorClass::Archive => paint_red(s),
        ColorClass::Plain => paint_white(s),
    }
}

/// Relies on `terminal_size::terminal_size`: the width of the controlling
/// terminal, when there is one.
#[verifier::external_body]
fn terminal_columns() -> (r: Option<u16>) {
    terminal_size::terminal_size().map(|(w, _)| w.0)
}

/// Relies on chrono's `DateTime::from_timestamp` and `with_timezone(&Local)`:
/// the local date and time of a moment. `from_timestamp` returns `None` only
/// for seconds out of its range; the month, day, hour and minute are in the
/// ranges that `Datelike` and `Timelike` document. (chrono panics only on
/// time-zone data with an offset of a day or more, which depends on the
/// machine, not on the argument.)
#[verifier::external_body]
fn local_stamp(secs: i64) -> (r: Option<Stamp>)
    ensures
        r matches Some(s) ==> s.wf(),
        stamp_in_range(secs) ==> r is Some,
{
    match chrono::DateTime::from_timestamp(secs, 0) {
        Some(t) => {
            let l = t.with_timezone(&chrono::Local);
            Some(Stamp { year: l.year(), month: l.month(), day: l.day(), hour: l.hour(), minute: l.minute() })
        },
        None => None,
    }
}

/// The long table for entries already in listing order, names cut to
/// `name_width` and colored.
pub fn long_listing(es: &Vec<Entry>, human: bool, name_width: usize) -> (r: String)
    ensures
        is_long_listing(es@, human, name_width as nat, r@),
{
    let header = paint_bold("Permisions  Owner   Grup     Size    Modification       Name");
    let mut whens: Vec<Option<String>> = Vec::new();
    let mut names: Vec<String> = Vec::new();
    let mut i: usize = 0;
    while i < es.len()
        invariant
            i <= es@.len(),
            whens@.len() == i,
            names@.len() == i,
            forall|j: int|
                0 <= j < i ==> #[trigger] long_cell_ok(es@[j], name_width as nat, whens@[j], names@[j]),
        decreases es@.len() - i,
    {
        let e = &es[i];
        let stamp = match e.modified {
            Some(secs) => local_stamp(secs),
            None => None,
        };
        let when = match stamp {
            Some(s) => {
                let t = format_stamp(s);
                assert(s.wf() && t@ == stamp_text(s));
                Some(t)
            },
            None => None,
        };
        let cut = truncate_string(e.name.as_str(), name_width);
        let name = paint(cut.as_str(), classify(e).color);
        assert(long_cell_ok(es@[i as int], name_width as nat, when, name));
        whens.push(when);
        names.push(name);
        i = i + 1;
    }
    let r = long_table(&header, es, human, &whens, &names);
    assert(whens@.len() == es@.len() && names@.len() == es@.len() && is_painted(header@, long_header())
        && (forall|i: int|
        0 <= i < es@.len() ==> #[trigger] long_cell_ok(es@[i], name_width as nat, whens@[i], names@[i]))
        && r@ == header@ + seq!['\n'] + rows_text(es@, human, whens@, names@, es@.len() as nat));
    r
}

/// The grid for entries already in listing order, for a terminal of
/// `term_width` columns.
pub fn grid_listing(es: &Vec<Entry>, term_width: usize) -> (r: String)
    requires
        term_width >= 40,
    ensures
        is_grid_listing(es@, (term_width / 4 - 3) as nat, r@),
{
    let width = grid_name_width(term_width);
    let mut names: Vec<String> = Vec::new();
    let mut i: usize = 0;
    while i < es.len()
        invariant
            i <= es@.len(),
            names@.len() == i,
            forall|j: int|
                0 <= j < i ==> is_painted(#[trigger] names@[j]@, truncated(es@[j].name@, width as nat)),
        decreases es@.len() - i,
    {
        let e = &es[i];
        let cut = truncate_string(e.name.as_str(), width);
        names.push(paint(cut.as_str(), classify(e).color));
        i = i + 1;
    }
    let r = grid(es, &names, width);
    assert(names@.len() == es@.len() && (forall|j: int|
        0 <= j < es@.len() ==> is_painted(#[trigger] names@[j]@, truncated(es@[j].name@, width as nat)))
        && r@ == grid_text(es@, names@, width as nat));
    r
}

/// The listing that `ls` prints for these entries of a directory, in the
/// form the request asks for, sized to the terminal.
pub fn render_listing(entries: Vec<Entry>, req: &ListRequest) -> (r: String)
    ensures
        exists|shown: Seq<Entry>|
            {
                &&& is_listing(entries@, req.show_hidden, shown)
                &&& req.long_format ==> exists|p: Option<u16>|
                    is_long_listing(shown, req.human_readable, #[trigger] long_width_of(p), r@)
                &&& !req.long_format ==> exists|p: Option<u16>|
                    is_grid_listing(shown, (#[trigger] grid_width_of(p) / 4 - 3) as nat, r@)
            },
{
    let ghost given = entries@;
    let shown = list_entries(entries, req.show_hidden);
    let probe = terminal_columns();
    if req.long_format {
        let r = long_listing(&shown, req.human_readable, long_name_width(probe));
        assert(is_long_listing(shown@, req.human_readable, long_width_of(probe), r@));
        assert(is_listing(given, req.show_hidden, shown@));
        r
    } else {
        let w = grid_width(probe);
        let r = grid_listing(&shown, w);
        assert(is_grid_listing(shown@, (grid_width_of(probe) / 4 - 3) as nat, r@));
        assert(is_listing(given, req.show_hidden, shown@));
        r
    }
}


/// The longest name among `es`, in characters.
pub open spec fn widest_name(es: Seq<Entry>) -> nat
    decreases es.len(),
{
    if es.len() == 0 {
        0
    } else {
        let w = widest_name(es.drop_last());
        let b = es.last().name@.len();
        if b > w {
            b
        } else {
            w
        }
    }
}

/// The entries on one line: icon, name padded to `width`, two spaces.
pub open spec fn inline_cells(es: Seq<Entry>, names: Seq<String>, width: nat, n: nat) -> Seq<char>
    decreases n,
{
    if n == 0 {
        Seq::empty()
    } else {
        let e = es[n - 1];
        inline_cells(es, names, width, (n - 1) as nat) + icon_of(e) + seq![' '] + names[n - 1]@
            + if e.name@.len() < width {
            spaces((width - e.name@.len()) as nat)
        } else {
            Seq::empty()
        } + seq![' ', ' ']
    }
}

/// The column width of a one-line listing: the widest name, or 20 when
/// there is none.
pub fn inline_width(es: &Vec<Entry>) -> (r: usize)
    ensures
        r == if es@.len() == 0 {
            20
        } else {
            widest_name(es@)
        },
{
    if es.len() == 0 {
        return 20;
    }
    let mut w: usize = 0;
    let mut i: usize = 0;
    while i < es.len()
        invariant
            i <= es@.len(),
            w == widest_name(es@.take(i as int)),
        decreases es@.len() - i,
    {
        proof {
            assert(es@.take(i as int + 1).drop_last() =~= es@.take(i as int));
        }
        let b = chars_of(es[i].name.as_str()).len();
        if b > w {
            w = b;
        }
        i = i + 1;
    }
    assert(es@.take(es@.len() as int) =~= es@);
    w
}

/// Lays the entries out on one line, each name shown as `names` gives it.
pub fn inline(es: &Vec<Entry>, names: &Vec<String>, width: usize) -> (r: String)
    requires
        names@.len() == es@.len(),
    ensures
        r@ == inline_cells(es@, names@, width as nat, es@.len() as nat),
{
    let mut v: Vec<char> = Vec::new();
    let mut i: usize = 0;
    while i < es.len()
        invariant
            i <= es@.len(),
            names@.len() == es@.len(),
            v@ == inline_cells(es@, names@, width as nat, i as nat),
        decreases es@.len() - i,
    {
        let e = &es[i];
        push_all(&mut v, &chars_of(classify(e).icon.as_str()));
        v.push(' ');
        push_all(&mut v, &chars_of(names[i].as_str()));
        let len = chars_of(e.name.as_str()).len();
        if len < width {
            push_spaces(&mut v, width - len);
        }
        v.push(' ');
        v.push(' ');
        assert(v@ =~= inline_cells(es@, names@, width as nat, i as nat + 1));
        i = i + 1;
    }
    string_of(v.as_slice())
}

/// All entries, hidden ones too, on one line in name order, names colored.
pub fn print_entries(entries: Vec<Entry>) -> (r: String)
    ensures
        exists|shown: Seq<Entry>, names: Seq<String>|
            {
                &&& is_listing(entries@, true, shown)
                &&& names.len() == shown.len()
                &&& forall|i: int|
                    0 <= i < shown.len() ==> is_painted(#[trigger] names[i]@, shown[i].name@)
                &&& r@ == inline_cells(
                    shown,
                    names,
                    if shown.len() == 0 {
                        20
                    } else {
                        widest_name(shown)
                    },
                    shown.len() as nat,
                )
            },
{
    let ghost given = entries@;
    let es = list_entries(entries, true);
    let width = inline_width(&es);
    let mut names: Vec<String> = Vec::new();
    let mut i: usize = 0;
    while i < es.len()
        invariant
            i <= es@.len(),
            names@.len() == i,
            forall|j: int| 0 <= j < i ==> is_painted(#[trigger] names@[j]@, es@[j].name@),
        decreases es@.len() - i,
    {
        let e = &es[i];
        names.push(paint(e.name.as_str(), classify(e).color));
        i = i + 1;
    }
    let r = inline(&es, &names, width);
    assert(is_listing(given, true, es@));
    assert(names@.len() == es@.len());
    assert(forall|j: int| 0 <= j < es@.len() ==> is_painted(#[trigger] names@[j]@, es@[j].name@));
    r
}

} // verus!

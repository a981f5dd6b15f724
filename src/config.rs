//! The start-up file: `alias name=value` and `export KEY=value` lines;
//! blank lines and lines that start with `#` are skipped.

use vstd::prelude::*;
use crate::chain::AliasTable;
use crate::classify::starts_with;
use crate::text::{chars_of, string_of, trim, trim_range};

verus! {

/// Lines finished so far, and the line being read, after reading `s`.
pub open spec fn lines_acc(s: Seq<char>) -> (Seq<Seq<char>>, Seq<char>)
    decreases s.len(),
{
    if s.len() == 0 {
        (Seq::empty(), Seq::empty())
    } else {
        let (done, cur) = lines_acc(s.drop_last());
        if s.last() == '\n' {
            (done.push(cur), Seq::empty())
        } else {
            (done, cur.push(s.last()))
        }
    }
}

/// The pieces of `s` between line breaks.
pub open spec fn lines(s: Seq<char>) -> Seq<Seq<char>> {
    let (done, cur) = lines_acc(s);
    done.push(cur)
}

/// `s` without leading double quotes.
pub open spec fn unquote_start(s: Seq<char>) -> Seq<char>
    decreases s.len(),
{
    if s.len() > 0 && s[0] == '"' {
        unquote_start(s.drop_first())
    } else {
        s
    }
}

/// `s` without trailing double quotes.
pub open spec fn unquote_end(s: Seq<char>) -> Seq<char>
    decreases s.len(),
{
    if s.len() > 0 && s.last() == '"' {
        unquote_end(s.drop_last())
    } else {
        s
    }
}

/// The index of the first `=` in `s`, if any.
pub open spec fn first_eq(s: Seq<char>) -> Option<int> {
    if exists|k: int| 0 <= k < s.len() && s[k] == '=' {
        Some(choose|k: int| 0 <= k < s.len() && s[k] == '=' && forall|j: int| 0 <= j < k ==> s[j] != '=')
    } else {
        None
    }
}

/// `name=value` read as a trimmed name and a trimmed value without its
/// surrounding quotes.
pub open spec fn binding(s: Seq<char>) -> Option<(Seq<char>, Seq<char>)> {
    match first_eq(s) {
        Some(k) => Some(
            (trim(s.take(k)), unquote_end(unquote_start(trim(s.skip(k + 1))))),
        ),
        None => None,
    }
}

/// What a line of the file says.
pub enum Directive {
    Alias(String, String),
    Export(String, String),
    Nothing,
}

/// Whether `t`, a trimmed line, is an alias line, an export line, or
/// neither, and its binding.
pub open spec fn directive_of(t: Seq<char>) -> Option<(bool, Seq<char>, Seq<char>)> {
    if starts_with(t, "alias "@) {
        match binding(t.skip(6)) {
            Some((n, v)) => Some((true, n, v)),
            None => None,
        }
    } else if starts_with(t, "export "@) {
        match binding(t.skip(7)) {
            Some((n, v)) => Some((false, n, v)),
            None => None,
        }
    } else {
        None
    }
}

fn unquote(v: &Vec<char>) -> (r: Vec<char>)
    ensures
        r@ == unquote_end(unquote_start(v@)),
{
    let mut a: usize = 0;
    assert(v@.skip(0) =~= v@);
    while a < v.len() && v[a] == '"'
        invariant
            a <= v@.len(),
            unquote_start(v@) == unquote_start(v@.skip(a as int)),
        decreases v@.len() - a,
    {
        assert(v@.skip(a as int).drop_first() =~= v@.skip(a as int + 1));
        a = a + 1;
    }
    let mut b: usize = v.len();
    assert(v@.skip(a as int) =~= v@.subrange(a as int, b as int));
    while b > a && v[b - 1] == '"'
        invariant
            a <= b <= v@.len(),
            unquote_start(v@) == v@.subrange(a as int, v@.len() as int),
            unquote_end(unquote_start(v@)) == unquote_end(v@.subrange(a as int, b as int)),
        decreases b - a,
    {
        assert(v@.subrange(a as int, b as int).drop_last() =~= v@.subrange(a as int, b as int - 1));
        b = b - 1;
    }
    let mut r: Vec<char> = Vec::new();
    let mut i: usize = a;
    while i < b
        invariant
            a <= i <= b <= v@.len(),
            r@ == v@.subrange(a as int, i as int),
        decreases b - i,
    {
        r.push(v[i]);
        assert(r@ =~= v@.subrange(a as int, i as int + 1));
        i = i + 1;
    }
    r
}

/// Reads `name=value` from `t[from..]`.
fn read_binding(t: &Vec<char>, from: usize) -> (r: Option<(String, String)>)
    requires
        from <= t@.len(),
    ensures
        match binding(t@.skip(from as int)) {
            Some((n, v)) => r matches Some(p) && p.0@ == n && p.1@ == v,
            None => r is None,
        },
{
    let ghost s = t@.skip(from as int);
    let mut k: usize = from;
    while k < t.len() && t[k] != '='
        invariant
            from <= k <= t@.len(),
            s == t@.skip(from as int),
            forall|j: int| 0 <= j < k - from ==> s[j] != '=',
        decreases t@.len() - k,
    {
        k = k + 1;
    }
    if k == t.len() {
        assert(!exists|j: int| 0 <= j < s.len() && s[j] == '=');
        return None;
    }
    let ghost kk: int = k - from;
    proof {
        assert(s[kk] == '=');
        let c = choose|c: int|
            0 <= c < s.len() && s[c] == '=' && forall|j: int| 0 <= j < c ==> s[j] != '=';
        assert(first_eq(s) == Some(c));
        assert(c == kk) by {
            if c < kk {
                assert(s[c] != '=');
            }
            if kk < c {
                assert(s[kk] != '=');
            }
        }
    }
    let name = trim_range(t, from, k);
    assert(t@.subrange(from as int, k as int) =~= s.take(kk));
    let value = trim_range(t, k + 1, t.len());
    assert(t@.subrange(k + 1, t@.len() as int) =~= s.skip(kk + 1));
    let value = unquote(&value);
    Some((string_of(name.as_slice()), string_of(value.as_slice())))
}

/// What one line of the file says.
pub fn read_directive(line: &Vec<char>) -> (r: Directive)
    ensures
        match directive_of(trim(line@)) {
            Some((true, n, v)) => r matches Directive::Alias(a, b) && a@ == n && b@ == v,
            Some((false, n, v)) => r matches Directive::Export(a, b) && a@ == n && b@ == v,
            None => r is Nothing,
        },
{
    let t = trim_range(line, 0, line.len());
    assert(line@.subrange(0, line@.len() as int) =~= line@);
    let alias = chars_of("alias ");
    let export = chars_of("export ");
    if starts_with_chars(&t, &alias) {
        proof { reveal_strlit("alias "); }
        match read_binding(&t, 6) {
            Some((n, v)) => Directive::Alias(n, v),
            None => Directive::Nothing,
        }
    } else if starts_with_chars(&t, &export) {
        proof { reveal_strlit("export "); }
        match read_binding(&t, 7) {
            Some((n, v)) => Directive::Export(n, v),
            None => Directive::Nothing,
        }
    } else {
        Directive::Nothing
    }
}

fn starts_with_chars(s: &Vec<char>, p: &Vec<char>) -> (r: bool)
    ensures
        r == starts_with(s@, p@),
{
    if p.len() > s.len() {
        return false;
    }
    let mut i: usize = 0;
    while i < p.len()
        invariant
            p@.len() <= s@.len(),
            i <= p@.len(),
            forall|j: int| 0 <= j < i ==> s@[j] == p@[j],
        decreases p@.len() - i,
    {
        if s[i] != p[i] {
            assert(s@.subrange(0, p@.len() as int)[i as int] != p@[i as int]);
            return false;
        }
        i = i + 1;
    }
    assert(s@.subrange(0, p@.len() as int) =~= p@);
    true
}


/// The alias bindings of these lines, later ones replacing earlier ones.
pub open spec fn rc_aliases(ls: Seq<Seq<char>>) -> Map<Seq<char>, Seq<char>>
    decreases ls.len(),
{
    if ls.len() == 0 {
        Map::empty()
    } else {
        match directive_of(trim(ls.last())) {
            Some((true, n, v)) => rc_aliases(ls.drop_last()).insert(n, v),
            _ => rc_aliases(ls.drop_last()),
        }
    }
}

/// The export bindings of these lines, in order.
pub open spec fn rc_exports(ls: Seq<Seq<char>>) -> Seq<(Seq<char>, Seq<char>)>
    decreases ls.len(),
{
    if ls.len() == 0 {
        Seq::empty()
    } else {
        match directive_of(trim(ls.last())) {
            Some((false, n, v)) => rc_exports(ls.drop_last()).push((n, v)),
            _ => rc_exports(ls.drop_last()),
        }
    }
}

/// What the start-up file sets up: aliases, and environment variables to
/// export, in file order.
pub struct RcConfig {
    pub aliases: AliasTable,
    pub exports: Vec<(String, String)>,
}

/// Splits `s` at its line breaks.
pub fn split_lines(s: &Vec<char>) -> (r: Vec<Vec<char>>)
    ensures
        r@.map_values(|t: Vec<char>| t@) == lines(s@),
{
    let mut done: Vec<Vec<char>> = Vec::new();
    let mut cur: Vec<char> = Vec::new();
    let mut i: usize = 0;
    while i < s.len()
        invariant
            i <= s@.len(),
            (done@.map_values(|t: Vec<char>| t@), cur@) == lines_acc(s@.subrange(0, i as int)),
        decreases s@.len() - i,
    {
        let c = s[i];
        proof {
            assert(s@.subrange(0, i as int + 1).drop_last() =~= s@.subrange(0, i as int));
        }
        let ghost old_done = done@.map_values(|t: Vec<char>| t@);
        if c == '\n' {
            done.push(cur);
            assert(done@.map_values(|t: Vec<char>| t@) =~= old_done.push(cur@));
            cur = Vec::new();
        } else {
            cur.push(c);
        }
        i = i + 1;
    }
    assert(s@.subrange(0, s@.len() as int) =~= s@);
    let ghost old_done = done@.map_values(|t: Vec<char>| t@);
    done.push(cur);
    assert(done@.map_values(|t: Vec<char>| t@) =~= old_done.push(cur@));
    done
}

/// Reads the start-up file's text.
pub fn parse_config(content: &str) -> (r: RcConfig)
    ensures
        r.aliases@ == rc_aliases(lines(content@)),
        r.exports@.map_values(|e: (String, String)| (e.0@, e.1@)) == rc_exports(lines(content@)),
{
    let ls = split_lines(&chars_of(content));
    let ghost lv = ls@.map_values(|t: Vec<char>| t@);
    let mut aliases = AliasTable::new();
    let mut exports: Vec<(String, String)> = Vec::new();
    let mut i: usize = 0;
    while i < ls.len()
        invariant
            i <= ls@.len(),
            lv == ls@.map_values(|t: Vec<char>| t@),
            aliases@ == rc_aliases(lv.take(i as int)),
            exports@.map_values(|e: (String, String)| (e.0@, e.1@)) == rc_exports(lv.take(i as int)),
        decreases ls@.len() - i,
    {
        proof {
            assert(lv.take(i as int + 1).drop_last() =~= lv.take(i as int));
            assert(lv.take(i as int + 1).last() == ls@[i as int]@);
        }
        let ghost before = exports@.map_values(|e: (String, String)| (e.0@, e.1@));
        match read_directive(&ls[i]) {
            Directive::Alias(n, v) => {
                aliases.insert(n, v);
            },
            Directive::Export(n, v) => {
                let ghost nv = (n@, v@);
                exports.push((n, v));
                assert(exports@.map_values(|e: (String, String)| (e.0@, e.1@)) =~= before.push(nv));
            },
            Directive::Nothing => {},
        }
        i = i + 1;
    }
    assert(lv.take(ls@.len() as int) =~= lv);
    RcConfig { aliases, exports }
}

} // verus!

//! Directory entries as plain values, and the order in which a listing
//! shows them.

use vstd::prelude::*;
use vstd::multiset::Multiset;
use crate::text::chars_of;

verus! {

broadcast use vstd::seq_lib::group_to_multiset_ensures;

/// What a directory entry is.
#[derive(Clone, Copy, Debug, PartialEq, Eq)]
pub enum EntryKind {
    File,
    Directory,
    Symlink,
}

/// One directory entry, as a snapshot of its metadata. `executable` tells
/// whether the file it leads to has an execute bit set; `modified` is the
/// modification time in whole seconds since the Unix epoch, when the system
/// gives one.
pub struct Entry {
    pub name: String,
    pub kind: EntryKind,
    pub mode: u32,
    pub uid: u32,
    pub gid: u32,
    pub size: u64,
    pub modified: Option<i64>,
    pub executable: bool,
}

/// Code-point order on names: `a` comes strictly before `b`.
pub open spec fn name_lt(a: Seq<char>, b: Seq<char>) -> bool
    decreases a.len(),
{
    if a.len() == 0 {
        b.len() > 0
    } else if b.len() == 0 {
        false
    } else if a[0] != b[0] {
        a[0] < b[0]
    } else {
        name_lt(a.drop_first(), b.drop_first())
    }
}

pub proof fn lemma_name_lt_trans(a: Seq<char>, b: Seq<char>, c: Seq<char>)
    requires
        name_lt(a, b),
        name_lt(b, c),
    ensures
        name_lt(a, c),
    decreases a.len(),
{
    if a.len() > 0 && b.len() > 0 && c.len() > 0 && a[0] == b[0] && b[0] == c[0] {
        lemma_name_lt_trans(a.drop_first(), b.drop_first(), c.drop_first());
    }
}

pub proof fn lemma_name_lt_total(a: Seq<char>, b: Seq<char>)
    ensures
        a != b ==> name_lt(a, b) || name_lt(b, a),
        !(name_lt(a, b) && name_lt(b, a)),
    decreases a.len(),
{
    if a.len() > 0 && b.len() > 0 {
        if a[0] == b[0] {
            lemma_name_lt_total(a.drop_first(), b.drop_first());
            if a.drop_first() == b.drop_first() {
                assert(a =~= seq![a[0]] + a.drop_first());
                assert(b =~= seq![b[0]] + b.drop_first());
            }
        }
    } else if a.len() == 0 && b.len() == 0 {
        assert(a =~= b);
    }
}

/// Compares two names in code-point order: whether `a` comes before `b`.
pub fn name_before(a: &Vec<char>, b: &Vec<char>) -> (r: bool)
    ensures
        r == name_lt(a@, b@),
{
    let mut i: usize = 0;
    assert(a@.skip(0) =~= a@);
    assert(b@.skip(0) =~= b@);
    while i < a.len() && i < b.len() && a[i] == b[i]
        invariant
            i <= a@.len(),
            i <= b@.len(),
            name_lt(a@, b@) == name_lt(a@.skip(i as int), b@.skip(i as int)),
        decreases a@.len() - i,
    {
        assert(a@.skip(i as int).drop_first() =~= a@.skip(i as int + 1));
        assert(b@.skip(i as int).drop_first() =~= b@.skip(i as int + 1));
        i = i + 1;
    }
    if i == a.len() {
        i < b.len()
    } else if i == b.len() {
        false
    } else {
        a[i] < b[i]
    }
}

/// A name that starts with a dot.
pub open spec fn is_hidden(e: Entry) -> bool {
    e.name@.len() > 0 && e.name@[0] == '.'
}

/// In name order: no entry comes after a later one.
pub open spec fn sorted_by_name(s: Seq<Entry>) -> bool {
    forall|i: int, j: int| 0 <= i < j < s.len() ==> !name_lt(s[j].name@, s[i].name@)
}

/// What a listing of `entries` shows: each entry as often as it is given,
/// but hidden ones only when `show_hidden` is set; in name order.
pub open spec fn is_listing(entries: Seq<Entry>, show_hidden: bool, r: Seq<Entry>) -> bool {
    &&& sorted_by_name(r)
    &&& forall|e: Entry| #[trigger]
        r.to_multiset().count(e) == if show_hidden || !is_hidden(e) {
            entries.to_multiset().count(e)
        } else {
            0
        }
}

fn hidden_name(e: &Entry) -> (r: bool)
    ensures
        r == is_hidden(*e),
{
    let cs = chars_of(e.name.as_str());
    cs.len() > 0 && cs[0] == '.'
}

/// The entries to show, hidden ones left out unless `show_hidden` is set,
/// sorted by name.
pub fn list_entries(entries: Vec<Entry>, show_hidden: bool) -> (r: Vec<Entry>)
    ensures
        is_listing(entries@, show_hidden, r@),
{
    let ghost orig = entries@;
    let mut src: Vec<Entry> = Vec::new();
    let mut rest = entries;
    // keep the entries to show
    while rest.len() > 0
        invariant
            forall|e: Entry|
                show_hidden || !is_hidden(e) ==> #[trigger] orig.to_multiset().count(e)
                    == rest@.to_multiset().count(e) + src@.to_multiset().count(e),
            forall|e: Entry| !show_hidden && is_hidden(e) ==> #[trigger] src@.to_multiset().count(e)
                == 0,
        decreases rest@.len(),
    {
        let ghost before = rest@;
        let ghost before_src = src@;
        let e = rest.remove(0);
        assert(before.remove(0).to_multiset() == before.to_multiset().remove(before[0]));
        let keep = show_hidden || !hidden_name(&e);
        if keep {
            src.push(e);
        }
        proof {
            assert forall|x: Entry| show_hidden || !is_hidden(x) implies #[trigger]
                orig.to_multiset().count(x) == rest@.to_multiset().count(x)
                    + src@.to_multiset().count(x) by {
                assert(before[0] == e);
                assert(rest@.to_multiset() == before.to_multiset().remove(e));
                assert(before.to_multiset().count(e) > 0);
                assert(before.to_multiset().count(x) == rest@.to_multiset().count(x) + (if x
                    == e {
                    1nat
                } else {
                    0nat
                }));
                assert(orig.to_multiset().count(x) == before.to_multiset().count(x)
                    + before_src.to_multiset().count(x));
                if keep {
                    assert(src@ == before_src.push(e));
                    assert(src@.to_multiset().count(x) == before_src.to_multiset().count(x) + (if x
                        == e {
                        1nat
                    } else {
                        0nat
                    }));
                } else {
                    assert(src@ == before_src);
                }
            }
        }
    }
    assert(rest@ =~= Seq::<Entry>::empty());
    assert(rest@.to_multiset() =~= Multiset::<Entry>::empty());
    let ghost pool = src@;
    let mut out: Vec<Entry> = Vec::new();
    while src.len() > 0
        invariant
            forall|e: Entry| #[trigger]
                pool.to_multiset().count(e) == out@.to_multiset().count(e)
                    + src@.to_multiset().count(e),
            sorted_by_name(out@),
            forall|e: Entry|
                show_hidden || !is_hidden(e) ==> #[trigger] orig.to_multiset().count(e)
                    == pool.to_multiset().count(e),
            forall|e: Entry| !show_hidden && is_hidden(e) ==> #[trigger] pool.to_multiset().count(e)
                == 0,
            forall|i: int, j: int|
                0 <= i < out@.len() && 0 <= j < src@.len() ==> !name_lt(
                    src@[j].name@,
                    out@[i].name@,
                ),
        decreases src@.len(),
    {
        let mut best: usize = 0;
        let mut best_name = chars_of(src[0].name.as_str());
        let mut j: usize = 1;
        proof {
            lemma_name_lt_total(src@[0].name@, src@[0].name@);
        }
        while j < src.len()
            invariant
                1 <= j <= src@.len(),
                best < src@.len(),
                best_name@ == src@[best as int].name@,
                forall|k: int| 0 <= k < j ==> !name_lt(src@[k].name@, src@[best as int].name@),
            decreases src@.len() - j,
        {
            let cand = chars_of(src[j].name.as_str());
            if name_before(&cand, &best_name) {
                proof {
                    assert forall|k: int| 0 <= k < j implies !name_lt(
                        src@[k].name@,
                        src@[j as int].name@,
                    ) by {
                        if name_lt(src@[k].name@, src@[j as int].name@) {
                            lemma_name_lt_trans(
                                src@[k].name@,
                                src@[j as int].name@,
                                src@[best as int].name@,
                            );
                        }
                    }
                    lemma_name_lt_total(src@[j as int].name@, src@[j as int].name@);
                }
                best = j;
                best_name = cand;
            }
            j = j + 1;
        }
        let ghost before_src = src@;
        let ghost before_out = out@;
        let e = src.remove(best);
        assert(before_src.remove(best as int).to_multiset() == before_src.to_multiset().remove(
            before_src[best as int],
        ));
        out.push(e);
        proof {
            assert forall|i: int, k: int|
                0 <= i < out@.len() && 0 <= k < src@.len() implies !name_lt(
                src@[k].name@,
                out@[i].name@,
            ) by {
                let kk = if k < best { k } else { k + 1 };
                assert(src@[k] == before_src[kk]);
                if i < before_out.len() {
                    assert(out@[i] == before_out[i]);
                }
            }
            assert forall|i: int, k: int| 0 <= i < k < out@.len() implies !name_lt(
                out@[k].name@,
                out@[i].name@,
            ) by {
                if k < before_out.len() {
                    assert(out@[k] == before_out[k]);
                }
                assert(out@[i] == before_out[i]);
            }
        }
    }
    assert(src@ =~= Seq::<Entry>::empty());
    assert(src@.to_multiset() =~= Multiset::<Entry>::empty());
    assert forall|e: Entry| #[trigger]
        out@.to_multiset().count(e) == (if show_hidden || !is_hidden(e) {
            orig.to_multiset().count(e)
        } else {
            0
        }) by {
        assert(pool.to_multiset().count(e) == out@.to_multiset().count(e)
            + src@.to_multiset().count(e));
    }
    out
}


/// No two entries of `s` share a name, as in one directory.
pub open spec fn distinct_names(s: Seq<Entry>) -> bool {
    forall|i: int, j: int| 0 <= i < s.len() && 0 <= j < s.len() && s[i].name@ == s[j].name@ ==> i == j
}

proof fn lemma_sorted_unique(r1: Seq<Entry>, r2: Seq<Entry>)
    requires
        r1.to_multiset() == r2.to_multiset(),
        sorted_by_name(r1),
        sorted_by_name(r2),
        forall|x: Entry, y: Entry| r1.contains(x) && r1.contains(y) && x.name@ == y.name@ ==> x == y,
    ensures
        r1 == r2,
    decreases r1.len(),
{
    vstd::seq_lib::to_multiset_len(r1);
    vstd::seq_lib::to_multiset_len(r2);
    if r1.len() == 0 {
        assert(r1 =~= r2);
    } else {
        let x = r1[0];
        let y = r2[0];
        vstd::seq_lib::to_multiset_contains(r1, y);
        vstd::seq_lib::to_multiset_contains(r2, y);
        vstd::seq_lib::to_multiset_contains(r1, x);
        vstd::seq_lib::to_multiset_contains(r2, x);
        assert(r2.contains(y));
        assert(r1.contains(x));
        let j = choose|j: int| 0 <= j < r1.len() && r1[j] == y;
        let k = choose|k: int| 0 <= k < r2.len() && r2[k] == x;
        lemma_name_lt_total(x.name@, y.name@);
        if j > 0 {
            assert(!name_lt(y.name@, x.name@));
        }
        if k > 0 {
            assert(!name_lt(x.name@, y.name@));
        }
        assert(x.name@ == y.name@);
        assert(x == y);
        let t1 = r1.drop_first();
        let t2 = r2.drop_first();
        assert(r1.remove(0) =~= t1);
        assert(r2.remove(0) =~= t2);
        vstd::seq_lib::to_multiset_remove(r1, 0);
        vstd::seq_lib::to_multiset_remove(r2, 0);
        assert forall|u: Entry, v: Entry| t1.contains(u) && t1.contains(v) && u.name@ == v.name@ implies u == v by {
            let a = choose|a: int| 0 <= a < t1.len() && t1[a] == u;
            let b = choose|b: int| 0 <= b < t1.len() && t1[b] == v;
            assert(r1[a + 1] == u);
            assert(r1[b + 1] == v);
            assert(r1.contains(u));
            assert(r1.contains(v));
        }
        lemma_sorted_unique(t1, t2);
        assert(r1 =~= seq![x] + t1);
        assert(r2 =~= seq![y] + t2);
    }
}

/// A listing does not depend on the order in which the directory gave its
/// entries: two orders of the same entries, whose names are distinct, list
/// alike.
pub proof fn lemma_listing_order_invariant(
    a: Seq<Entry>,
    b: Seq<Entry>,
    show_hidden: bool,
    r1: Seq<Entry>,
    r2: Seq<Entry>,
)
    requires
        a.to_multiset() == b.to_multiset(),
        distinct_names(a),
        is_listing(a, show_hidden, r1),
        is_listing(b, show_hidden, r2),
    ensures
        r1 == r2,
{
    assert(r1.to_multiset() =~= r2.to_multiset()) by {
        assert forall|e: Entry| #[trigger] r1.to_multiset().count(e) == r2.to_multiset().count(e) by {
            assert(a.to_multiset().count(e) == b.to_multiset().count(e));
        }
    }
    assert forall|x: Entry, y: Entry| r1.contains(x) && r1.contains(y) && x.name@ == y.name@ implies x == y by {
        vstd::seq_lib::to_multiset_contains(r1, x);
        vstd::seq_lib::to_multiset_contains(r1, y);
        vstd::seq_lib::to_multiset_contains(a, x);
        vstd::seq_lib::to_multiset_contains(a, y);
        assert(r1.to_multiset().count(x) > 0);
        assert(a.contains(x));
        assert(a.contains(y));
        let i = choose|i: int| 0 <= i < a.len() && a[i] == x;
        let j = choose|j: int| 0 <= j < a.len() && a[j] == y;
    }
    lemma_sorted_unique(r1, r2);
}

/// The listing of one directory, whose names are distinct, is in strictly
/// increasing name order.
pub proof fn lemma_listing_strictly_sorted(entries: Seq<Entry>, show_hidden: bool, r: Seq<Entry>)
    requires
        is_listing(entries, show_hidden, r),
        distinct_names(entries),
    ensures
        forall|i: int, j: int| 0 <= i < j < r.len() ==> name_lt(r[i].name@, r[j].name@),
{
    assert(entries.no_duplicates());
    entries.lemma_multiset_has_no_duplicates();
    assert forall|i: int, j: int| 0 <= i < j < r.len() implies name_lt(r[i].name@, r[j].name@) by {
        let x = r[i];
        let y = r[j];
        lemma_name_lt_total(x.name@, y.name@);
        if x.name@ == y.name@ {
            vstd::seq_lib::to_multiset_contains(r, x);
            vstd::seq_lib::to_multiset_contains(r, y);
            assert(r.contains(x));
            assert(r.contains(y));
            vstd::seq_lib::to_multiset_contains(entries, x);
            vstd::seq_lib::to_multiset_contains(entries, y);
            assert(entries.to_multiset().count(x) > 0);
            assert(entries.to_multiset().count(y) > 0);
            let a = choose|a: int| 0 <= a < entries.len() && entries[a] == x;
            let b = choose|b: int| 0 <= b < entries.len() && entries[b] == y;
            assert(a == b);
            assert(x == y);
            let rest = r.remove(j);
            assert(rest[i] == x);
            assert(rest.contains(x));
            vstd::seq_lib::to_multiset_contains(rest, x);
            vstd::seq_lib::to_multiset_remove(r, j);
            assert(r.to_multiset().count(x) >= 2);
            assert(entries.to_multiset().count(x) == 1);
            assert(false);
        }
    }
}

/// Hidden entries are listed only when asked for.
pub proof fn lemma_hidden_excluded(entries: Seq<Entry>, r: Seq<Entry>, e: Entry)
    requires
        is_listing(entries, false, r),
        is_hidden(e),
    ensures
        !r.contains(e),
{
    vstd::seq_lib::to_multiset_contains(r, e);
}

} // verus!

//! Command chains: splitting a line on `&&`, alias expansion, and the
//! short-circuit order in which the segments run.

use vstd::prelude::*;
use crate::text::{
    chars_of, split_words, string_of, trim, trim_range, words,
};

verus! {

/// The pieces of `s[i..]` between non-overlapping `&&` separators, found from
/// the left.
pub open spec fn pieces_from(s: Seq<char>, i: int) -> Seq<Seq<char>>
    decreases s.len() - i,
{
    if i >= s.len() {
        seq![Seq::empty()]
    } else if i + 1 < s.len() && s[i] == '&' && s[i + 1] == '&' {
        seq![Seq::<char>::empty()] + pieces_from(s, i + 2)
    } else {
        prefixed(seq![s[i]], pieces_from(s, i + 1))
    }
}

/// `p` with `pre` put before its first piece.
pub open spec fn prefixed(pre: Seq<char>, p: Seq<Seq<char>>) -> Seq<Seq<char>> {
    if p.len() == 0 {
        p
    } else {
        p.update(0, pre + p[0])
    }
}

/// The trimmed pieces that are not empty, in order.
pub open spec fn kept(ps: Seq<Seq<char>>) -> Seq<Seq<char>>
    decreases ps.len(),
{
    if ps.len() == 0 {
        Seq::empty()
    } else if trim(ps.last()).len() > 0 {
        kept(ps.drop_last()).push(trim(ps.last()))
    } else {
        kept(ps.drop_last())
    }
}

/// The command segments of an input line.
pub open spec fn segments(line: Seq<char>) -> Seq<Seq<char>> {
    kept(pieces_from(line, 0))
}

proof fn lemma_pieces_nonempty(s: Seq<char>, i: int)
    ensures
        pieces_from(s, i).len() >= 1,
    decreases s.len() - i,
{
    if i < s.len() {
        if !(i + 1 < s.len() && s[i] == '&' && s[i + 1] == '&') {
            lemma_pieces_nonempty(s, i + 1);
        }
    }
}

/// Splits `s` on `&&`, keeping empty pieces.
pub fn split_pieces(s: &Vec<char>) -> (r: Vec<Vec<char>>)
    ensures
        r@.map_values(|t: Vec<char>| t@) == pieces_from(s@, 0),
{
    let mut out: Vec<Vec<char>> = Vec::new();
    let mut cur: Vec<char> = Vec::new();
    let mut i: usize = 0;
    proof {
        lemma_pieces_nonempty(s@, 0);
    }
    while i < s.len()
        invariant
            i <= s@.len(),
            pieces_from(s@, 0) == out@.map_values(|t: Vec<char>| t@) + prefixed(
                cur@,
                pieces_from(s@, i as int),
            ),
        decreases s@.len() - i,
    {
        let ghost old_out = out@.map_values(|t: Vec<char>| t@);
        let ghost old_cur = cur@;
        proof {
            lemma_pieces_nonempty(s@, i as int + 1);
            lemma_pieces_nonempty(s@, i as int + 2);
        }
        if i + 1 < s.len() && s[i] == '&' && s[i + 1] == '&' {
            let ghost rest = pieces_from(s@, i as int + 2);
            out.push(cur);
            cur = Vec::new();
            proof {
                assert(out@.map_values(|t: Vec<char>| t@) =~= old_out.push(old_cur));
                assert(prefixed(old_cur, seq![Seq::<char>::empty()] + rest) =~= seq![old_cur]
                    + rest);
                assert(prefixed(cur@, rest) =~= rest);
                assert(old_out + prefixed(old_cur, seq![Seq::<char>::empty()] + rest)
                    =~= old_out.push(old_cur) + rest);
            }
            i = i + 2;
        } else {
            let ghost rest = pieces_from(s@, i as int + 1);
            let c = s[i];
            cur.push(c);
            proof {
                assert(old_cur + (seq![c] + rest[0]) =~= cur@ + rest[0]);
                assert(prefixed(old_cur, prefixed(seq![c], rest)) =~= prefixed(cur@, rest));
            }
            i = i + 1;
        }
    }
    let ghost before = out@.map_values(|t: Vec<char>| t@);
    out.push(cur);
    proof {
        assert(prefixed(cur@, seq![Seq::<char>::empty()]) =~= seq![cur@]);
        assert(out@.map_values(|t: Vec<char>| t@) =~= before.push(cur@));
    }
    out
}

/// Splits an input line into its command segments: the pieces between `&&`
/// separators, trimmed, with the empty ones dropped.
pub fn split_chain(line: &str) -> (r: Vec<String>)
    ensures
        r@.map_values(|t: String| t@) == segments(line@),
{
    let cs = chars_of(line);
    let ps = split_pieces(&cs);
    let ghost pv = ps@.map_values(|t: Vec<char>| t@);
    let mut out: Vec<String> = Vec::new();
    let mut i: usize = 0;
    while i < ps.len()
        invariant
            i <= ps@.len(),
            pv == ps@.map_values(|t: Vec<char>| t@),
            out@.map_values(|t: String| t@) == kept(pv.take(i as int)),
        decreases ps@.len() - i,
    {
        let p = &ps[i];
        let t = trim_range(p, 0, p.len());
        let ghost before = out@.map_values(|t: String| t@);
        proof {
            assert(pv.take(i as int + 1).drop_last() =~= pv.take(i as int));
            assert(p@.subrange(0, p@.len() as int) =~= p@);
        }
        if t.len() > 0 {
            out.push(string_of(t.as_slice()));
            assert(out@.map_values(|t: String| t@) =~= before.push(t@));
        }
        i = i + 1;
    }
    assert(pv.take(ps@.len() as int) =~= pv);
    out
}


/// The last binding of `k` among `es`.
pub open spec fn lookup(es: Seq<(Seq<char>, Seq<char>)>, k: Seq<char>) -> Option<Seq<char>>
    decreases es.len(),
{
    if es.len() == 0 {
        None
    } else if es.last().0 == k {
        Some(es.last().1)
    } else {
        lookup(es.drop_last(), k)
    }
}

/// Shortcut names and their expansions. A later binding of a name replaces
/// an earlier one.
pub struct AliasTable {
    entries: Vec<(String, String)>,
}

impl AliasTable {
    pub closed spec fn bindings(&self) -> Seq<(Seq<char>, Seq<char>)> {
        self.entries@.map_values(|e: (String, String)| (e.0@, e.1@))
    }
}

impl View for AliasTable {
    type V = Map<Seq<char>, Seq<char>>;

    closed spec fn view(&self) -> Map<Seq<char>, Seq<char>> {
        Map::new(
            |k: Seq<char>| lookup(self.bindings(), k) is Some,
            |k: Seq<char>| lookup(self.bindings(), k)->0,
        )
    }
}

impl AliasTable {
    pub fn new() -> (r: AliasTable)
        ensures
            r@ == Map::<Seq<char>, Seq<char>>::empty(),
    {
        let r = AliasTable { entries: Vec::new() };
        assert(r.bindings() =~= Seq::empty());
        assert(r@ =~= Map::<Seq<char>, Seq<char>>::empty());
        r
    }

    /// Binds `name` to `value`, replacing any earlier binding of `name`.
    pub fn insert(&mut self, name: String, value: String)
        ensures
            final(self)@ == old(self)@.insert(name@, value@),
    {
        let ghost before = self.bindings();
        self.entries.push((name, value));
        proof {
            assert(self.bindings() =~= before.push((name@, value@)));
            assert(self.bindings().drop_last() =~= before);
            assert(final(self)@ =~= old(self)@.insert(name@, value@));
        }
    }

    /// The expansion bound to `name`, if any.
    pub fn get(&self, name: &String) -> (r: Option<String>)
        ensures
            r is Some <==> self@.contains_key(name@),
            r is Some ==> r->0@ == self@[name@],
    {
        let mut i: usize = self.entries.len();
        assert(self.bindings().take(i as int) =~= self.bindings());
        while i > 0
            invariant
                i <= self.entries@.len(),
                lookup(self.bindings(), name@) == lookup(self.bindings().take(i as int), name@),
            decreases i,
        {
            let ghost es = self.bindings().take(i as int);
            proof {
                assert(es.drop_last() =~= self.bindings().take(i as int - 1));
            }
            if self.entries[i - 1].0 == *name {
                return Some(self.entries[i - 1].1.clone());
            }
            i = i - 1;
        }
        None
    }

    /// The tokens of a segment with its first token replaced by the tokens of
    /// its expansion, when that token is bound. Later tokens are never expanded.
    pub fn expand_aliases(&self, parts: &Vec<String>) -> (r: Vec<String>)
        ensures
            r@.map_values(|t: String| t@) == expanded(self@, parts@.map_values(|t: String| t@)),
    {
        let ghost ts = parts@.map_values(|t: String| t@);
        if parts.len() == 0 {
            return Vec::new();
        }
        match self.get(&parts[0]) {
            Some(value) => {
                let mut r = tokens_of(value.as_str());
                let mut i: usize = 1;
                let ghost head = r@.map_values(|t: String| t@);
                while i < parts.len()
                    invariant
                        1 <= i <= parts@.len(),
                        ts == parts@.map_values(|t: String| t@),
                        r@.map_values(|t: String| t@) == head + ts.subrange(1, i as int),
                    decreases parts@.len() - i,
                {
                    let ghost prev = r@.map_values(|t: String| t@);
                    let w = parts[i].clone();
                    r.push(w);
                    assert(r@.map_values(|t: String| t@) =~= prev.push(w@));
                    assert(head + ts.subrange(1, i as int + 1) =~= (head + ts.subrange(1, i as int)).push(ts[i as int]));
                    i = i + 1;
                }
                assert(ts.subrange(1, ts.len() as int) =~= ts.drop_first());
                r
            },
            None => {
                let mut r: Vec<String> = Vec::new();
                let mut i: usize = 0;
                while i < parts.len()
                    invariant
                        i <= parts@.len(),
                        ts == parts@.map_values(|t: String| t@),
                        r@.map_values(|t: String| t@) == ts.take(i as int),
                    decreases parts@.len() - i,
                {
                    let ghost prev = r@.map_values(|t: String| t@);
                    let w = parts[i].clone();
                    r.push(w);
                    assert(r@.map_values(|t: String| t@) =~= prev.push(w@));
                    assert(ts.take(i as int + 1) =~= ts.take(i as int).push(ts[i as int]));
                    i = i + 1;
                }
                assert(ts.take(ts.len() as int) =~= ts);
                r
            },
        }
    }
}

/// A segment's tokens after alias expansion of its first token.
pub open spec fn expanded(m: Map<Seq<char>, Seq<char>>, ts: Seq<Seq<char>>) -> Seq<Seq<char>> {
    if ts.len() == 0 {
        ts
    } else if m.contains_key(ts[0]) {
        words(m[ts[0]]) + ts.drop_first()
    } else {
        ts
    }
}

/// The whitespace-separated tokens of `s`.
pub fn tokens_of(s: &str) -> (r: Vec<String>)
    ensures
        r@.map_values(|t: String| t@) == words(s@),
{
    let cs = chars_of(s);
    let ws = split_words(&cs);
    let ghost wv = ws@.map_values(|t: Vec<char>| t@);
    let mut r: Vec<String> = Vec::new();
    let mut i: usize = 0;
    while i < ws.len()
        invariant
            i <= ws@.len(),
            wv == ws@.map_values(|t: Vec<char>| t@),
            r@.map_values(|t: String| t@) == wv.take(i as int),
        decreases ws@.len() - i,
    {
        let ghost prev = r@.map_values(|t: String| t@);
        let w = string_of(ws[i].as_slice());
        r.push(w);
        assert(r@.map_values(|t: String| t@) =~= prev.push(w@));
        assert(wv.take(i as int + 1) =~= wv.take(i as int).push(wv[i as int]));
        i = i + 1;
    }
    assert(wv.take(ws@.len() as int) =~= wv);
    r
}

/// Resolving a segment whose first token is an alias gives the tokens of the
/// expansion followed by the remaining arguments unchanged; a first token that
/// is not an alias leaves the segment as it was.
pub proof fn lemma_alias_resolution(
    table: AliasTable,
    first: Seq<char>,
    rest: Seq<Seq<char>>,
)
    ensures
        table@.contains_key(first) ==> expanded(table@, seq![first] + rest) == words(table@[first])
            + rest,
        !table@.contains_key(first) ==> expanded(table@, seq![first] + rest) == seq![first]
            + rest,
{
    assert((seq![first] + rest)[0] == first);
    assert((seq![first] + rest).drop_first() =~= rest);
}

/// The segments of an input line, each as its tokens after alias expansion.
pub open spec fn resolved_line(m: Map<Seq<char>, Seq<char>>, line: Seq<char>) -> Seq<Seq<Seq<char>>> {
    segments(line).map_values(|seg: Seq<char>| expanded(m, words(seg)))
}

/// Splits a line into segments and resolves each against the alias table.
pub fn resolve_line(table: &AliasTable, line: &str) -> (r: Vec<Vec<String>>)
    ensures
        r@.map_values(|ts: Vec<String>| ts@.map_values(|t: String| t@)) == resolved_line(
            table@,
            line@,
        ),
{
    let segs = split_chain(line);
    let ghost sv = segs@.map_values(|t: String| t@);
    let mut r: Vec<Vec<String>> = Vec::new();
    let mut i: usize = 0;
    while i < segs.len()
        invariant
            i <= segs@.len(),
            sv == segs@.map_values(|t: String| t@),
            sv == segments(line@),
            r@.map_values(|ts: Vec<String>| ts@.map_values(|t: String| t@)) == sv.take(
                i as int,
            ).map_values(|seg: Seq<char>| expanded(table@, words(seg))),
        decreases segs@.len() - i,
    {
        let ts = tokens_of(segs[i].as_str());
        let e = table.expand_aliases(&ts);
        let ghost prev = r@.map_values(|ts: Vec<String>| ts@.map_values(|t: String| t@));
        let ghost ev = e@.map_values(|t: String| t@);
        r.push(e);
        assert(r@.map_values(|ts: Vec<String>| ts@.map_values(|t: String| t@)) =~= prev.push(ev));
        assert(sv.take(i as int + 1).map_values(|seg: Seq<char>| expanded(table@, words(seg)))
            =~= sv.take(i as int).map_values(|seg: Seq<char>| expanded(table@, words(seg))).push(
            expanded(table@, words(sv[i as int]))));
        i = i + 1;
    }
    assert(sv.take(segs@.len() as int) =~= sv);
    r
}


/// Progress through a chain of `len` segments: the next segment to run, and
/// whether a failure has stopped the chain.
#[derive(Clone, Copy, Debug, PartialEq, Eq)]
pub struct ChainRun {
    pub len: usize,
    pub pos: usize,
    pub halted: bool,
}

/// The segment that runs next, if any.
pub open spec fn next_of(s: ChainRun) -> Option<nat> {
    if s.halted || s.pos >= s.len {
        None
    } else {
        Some(s.pos as nat)
    }
}

/// The state after the running segment reported `ok`.
pub open spec fn after(s: ChainRun, ok: bool) -> ChainRun {
    ChainRun { len: s.len, pos: (s.pos + 1) as usize, halted: !ok }
}

/// The segments that run from state `s`, in order, when segment `i` reports
/// `outcomes[i]`.
pub open spec fn trace(s: ChainRun, outcomes: Seq<bool>) -> Seq<nat>
    decreases s.len - s.pos,
{
    if s.halted || s.pos >= s.len {
        Seq::empty()
    } else {
        seq![s.pos as nat] + trace(after(s, outcomes[s.pos as int]), outcomes)
    }
}

impl ChainRun {
    /// A chain of `len` segments, none run yet.
    pub fn new(len: usize) -> (r: ChainRun)
        ensures
            r == (ChainRun { len, pos: 0, halted: false }),
    {
        ChainRun { len, pos: 0, halted: false }
    }

    /// The index of the segment to run now, or `None` once the chain is over.
    pub fn next_index(&self) -> (r: Option<usize>)
        ensures
            r matches Some(i) ==> next_of(*self) == Some(i as nat),
            r is None ==> next_of(*self) is None,
    {
        if self.halted || self.pos >= self.len {
            None
        } else {
            Some(self.pos)
        }
    }

    /// Records the outcome of the segment that `next_index` gave.
    pub fn report(&mut self, ok: bool)
        requires
            next_of(*old(self)) is Some,
        ensures
            *final(self) == after(*old(self), ok),
    {
        self.pos = self.pos + 1;
        self.halted = !ok;
    }
}

proof fn lemma_trace_all_succeed(s: ChainRun, outcomes: Seq<bool>)
    requires
        !s.halted,
        s.pos <= s.len,
        outcomes.len() == s.len,
        forall|i: int| 0 <= i < outcomes.len() ==> outcomes[i],
    ensures
        trace(s, outcomes) == Seq::new((s.len - s.pos) as nat, |i: int| (s.pos + i) as nat),
    decreases s.len - s.pos,
{
    if s.pos < s.len {
        let t = after(s, outcomes[s.pos as int]);
        lemma_trace_all_succeed(t, outcomes);
        assert(trace(s, outcomes) =~= Seq::new((s.len - s.pos) as nat, |i: int| (s.pos + i) as nat));
    } else {
        assert(trace(s, outcomes) =~= Seq::new((s.len - s.pos) as nat, |i: int| (s.pos + i) as nat));
    }
}

proof fn lemma_trace_from(s: ChainRun, outcomes: Seq<bool>, k: int)
    requires
        !s.halted,
        s.pos <= k < s.len,
        outcomes.len() == s.len,
        !outcomes[k],
        forall|i: int| s.pos <= i < k ==> outcomes[i],
    ensures
        trace(s, outcomes) == Seq::new((k + 1 - s.pos) as nat, |i: int| (s.pos + i) as nat),
    decreases s.len - s.pos,
{
    let t = after(s, outcomes[s.pos as int]);
    if s.pos < k {
        lemma_trace_from(t, outcomes, k);
    } else {
        assert(trace(t, outcomes) == Seq::<nat>::empty());
    }
    assert(trace(s, outcomes) =~= Seq::new((k + 1 - s.pos) as nat, |i: int| (s.pos + i) as nat));
}

/// In a fresh chain, the segments that run are those up to and including the
/// first that fails, in order.
pub proof fn lemma_chain_runs_to_first_failure(n: usize, outcomes: Seq<bool>, k: int)
    requires
        outcomes.len() == n,
        0 <= k < n,
        !outcomes[k],
        forall|i: int| 0 <= i < k ==> outcomes[i],
    ensures
        trace(ChainRun { len: n, pos: 0, halted: false }, outcomes) == Seq::new(
            (k + 1) as nat,
            |i: int| i as nat,
        ),
{
    let s = ChainRun { len: n, pos: 0, halted: false };
    lemma_trace_from(s, outcomes, k);
    assert(Seq::new((k + 1 - s.pos) as nat, |i: int| (s.pos + i) as nat) =~= Seq::new(
        (k + 1) as nat,
        |i: int| i as nat,
    ));
}

/// Where a run from segment `pos` stops: just after the first failure, or
/// at the end.
pub open spec fn run_end(outcomes: Seq<bool>, pos: int, len: int) -> int
    decreases len - pos,
{
    if pos >= len {
        len
    } else if !outcomes[pos] {
        pos + 1
    } else {
        run_end(outcomes, pos + 1, len)
    }
}

proof fn lemma_trace_shape(s: ChainRun, outcomes: Seq<bool>)
    requires
        !s.halted,
        s.pos <= s.len,
        outcomes.len() == s.len,
    ensures
        s.pos <= run_end(outcomes, s.pos as int, s.len as int) <= s.len,
        trace(s, outcomes) == Seq::new(
            (run_end(outcomes, s.pos as int, s.len as int) - s.pos) as nat,
            |i: int| (s.pos + i) as nat,
        ),
    decreases s.len - s.pos,
{
    let m = run_end(outcomes, s.pos as int, s.len as int);
    if s.pos < s.len {
        let t = after(s, outcomes[s.pos as int]);
        if outcomes[s.pos as int] {
            lemma_trace_shape(t, outcomes);
        } else {
            assert(trace(t, outcomes) == Seq::<nat>::empty());
        }
    }
    assert(trace(s, outcomes) =~= Seq::new((m - s.pos) as nat, |i: int| (s.pos + i) as nat));
}

proof fn lemma_run_end_iff(outcomes: Seq<bool>, pos: int, len: int, k: int)
    requires
        0 <= pos <= k < len,
        outcomes.len() == len,
    ensures
        k < run_end(outcomes, pos, len) <==> forall|j: int| pos <= j < k ==> outcomes[j],
    decreases len - pos,
{
    lemma_run_end_ge(outcomes, pos, len);
    if pos < k {
        lemma_run_end_iff(outcomes, pos + 1, len, k);
        if outcomes[pos] {
            assert(run_end(outcomes, pos, len) == run_end(outcomes, pos + 1, len));
            if forall|j: int| pos + 1 <= j < k ==> outcomes[j] {
                assert forall|j: int| pos <= j < k implies outcomes[j] by {
                    if j > pos {
                        assert(pos + 1 <= j < k);
                    }
                }
            }
        } else {
            assert(run_end(outcomes, pos, len) == pos + 1);
        }
    }
}

proof fn lemma_run_end_ge(outcomes: Seq<bool>, pos: int, len: int)
    requires
        pos < len,
    ensures
        pos < run_end(outcomes, pos, len),
    decreases len - pos,
{
    if outcomes[pos] {
        if pos + 1 < len {
            lemma_run_end_ge(outcomes, pos + 1, len);
        } else {
            assert(run_end(outcomes, pos + 1, len) == len);
        }
    }
}

/// Every segment before `k` succeeded.
pub open spec fn all_succeeded_before(outcomes: Seq<bool>, k: int) -> bool {
    forall|j: int| 0 <= j < k ==> outcomes[j]
}

/// In a fresh chain of `n` segments, segments run in order, each at most
/// once, and segment `k` runs exactly when every segment before it
/// succeeded.
pub proof fn lemma_chain_order(n: usize, outcomes: Seq<bool>)
    requires
        outcomes.len() == n,
    ensures
        ({
            let t = trace(ChainRun { len: n, pos: 0, halted: false }, outcomes);
            &&& t == Seq::new(t.len(), |i: int| i as nat)
            &&& forall|k: int|
                0 <= k < n ==> (t.contains(k as nat) <==> #[trigger] all_succeeded_before(outcomes, k))
        }),
{
    let s = ChainRun { len: n, pos: 0, halted: false };
    lemma_trace_shape(s, outcomes);
    let m = run_end(outcomes, 0, n as int);
    let t = trace(s, outcomes);
    assert(t =~= Seq::new(t.len(), |i: int| i as nat));
    assert forall|k: int| 0 <= k < n implies (t.contains(k as nat) <==> #[trigger] all_succeeded_before(
        outcomes,
        k,
    )) by {
        lemma_run_end_iff(outcomes, 0, n as int, k);
        if k < m {
            assert(t[k] == k as nat);
        }
        if t.contains(k as nat) {
            let i = choose|i: int| 0 <= i < t.len() && t[i] == k as nat;
            assert(t[i] == i as nat);
        }
    }
}

/// Short-circuit order: in a fresh chain of `n` segments, when the first
/// segment fails nothing after it runs, and when every segment succeeds each
/// runs exactly once, in order.
pub proof fn lemma_chain_short_circuit(n: usize, outcomes: Seq<bool>)
    requires
        outcomes.len() == n,
    ensures
        n > 0 && !outcomes[0] ==> trace(ChainRun { len: n, pos: 0, halted: false }, outcomes)
            == seq![0nat],
        (forall|i: int| 0 <= i < n ==> outcomes[i]) ==> trace(
            ChainRun { len: n, pos: 0, halted: false },
            outcomes,
        ) == Seq::new(n as nat, |i: int| i as nat),
{
    let s = ChainRun { len: n, pos: 0, halted: false };
    if n > 0 && !outcomes[0] {
        assert(trace(after(s, false), outcomes) == Seq::<nat>::empty());
        assert(trace(s, outcomes) =~= seq![0nat]);
    }
    if forall|i: int| 0 <= i < n ==> outcomes[i] {
        lemma_trace_all_succeed(s, outcomes);
        assert(trace(s, outcomes) =~= Seq::new(n as nat, |i: int| i as nat));
    }
}


/// Whether an input line holds anything besides whitespace.
pub fn has_input(line: &str) -> (r: bool)
    ensures
        r == (trim(line@).len() > 0),
{
    let cs = chars_of(line);
    let t = trim_range(&cs, 0, cs.len());
    assert(cs@.subrange(0, cs@.len() as int) =~= cs@);
    t.len() > 0
}

/// Whether `line` is not yet among the history's entries.
pub fn is_new_entry(history: &Vec<String>, line: &String) -> (r: bool)
    ensures
        r == !history@.map_values(|h: String| h@).contains(line@),
{
    let ghost hv = history@.map_values(|h: String| h@);
    let mut i: usize = 0;
    while i < history.len()
        invariant
            i <= history@.len(),
            hv == history@.map_values(|h: String| h@),
            forall|j: int| 0 <= j < i ==> hv[j] != line@,
        decreases history@.len() - i,
    {
        if history[i] == *line {
            assert(hv[i as int] == line@);
            return false;
        }
        i = i + 1;
    }
    true
}

} // verus!

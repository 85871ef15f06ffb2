//! Crash recovery: which effects of a log are still open.

use super::{EffectRecord, EffectState, EffectView};
use crate::text;
use vstd::hash_map::StringHashMap;
use vstd::hash_set::StringHashSet;
use vstd::prelude::*;

verus! {

/// Whether some record of this key has a known outcome.
pub open spec fn is_resolved(records: Seq<EffectView>, key: Seq<char>) -> bool {
    exists|i: int|
        0 <= i < records.len() && (#[trigger] records[i]).key == key && records[i].state.terminal()
}

/// The keys with a known outcome.
pub open spec fn resolved_keys(records: Seq<EffectView>) -> Set<Seq<char>>
    decreases records.len(),
{
    if records.len() == 0 {
        Set::empty()
    } else if records.last().state.terminal() {
        resolved_keys(records.drop_last()).insert(records.last().key)
    } else {
        resolved_keys(records.drop_last())
    }
}

/// Whether the list has a record of this key.
pub open spec fn has_key(list: Seq<EffectView>, key: Seq<char>) -> bool {
    exists|i: int| 0 <= i < list.len() && (#[trigger] list[i]).key == key
}

/// The position of the record of a key.
pub open spec fn key_at(list: Seq<EffectView>, key: Seq<char>) -> int {
    choose|i: int| 0 <= i < list.len() && (#[trigger] list[i]).key == key
}

/// Whether no key occurs twice.
pub open spec fn distinct(list: Seq<EffectView>) -> bool {
    forall|i: int, j: int| 0 <= i < j < list.len() ==> (#[trigger] list[i]).key != (
    #[trigger] list[j]).key
}

/// The list with a record put in the place of the one with its key, or at the
/// end.
pub open spec fn put(list: Seq<EffectView>, r: EffectView) -> Seq<EffectView> {
    if has_key(list, r.key) {
        list.update(key_at(list, r.key), r)
    } else {
        list.push(r)
    }
}

/// The list with records put into it one after the other, leaving out those of
/// the given keys.
pub open spec fn put_all(
    list: Seq<EffectView>,
    records: Seq<EffectView>,
    dropped: Set<Seq<char>>,
) -> Seq<EffectView>
    decreases records.len(),
{
    if records.len() == 0 {
        list
    } else {
        let before = put_all(list, records.drop_last(), dropped);
        if dropped.contains(records.last().key) {
            before
        } else {
            put(before, records.last())
        }
    }
}

/// What is still open: for every key without a known outcome its latest record,
/// in the order in which the keys first occur.
pub open spec fn open_effects(records: Seq<EffectView>) -> Seq<EffectView> {
    put_all(Seq::empty(), records, resolved_keys(records))
}

/// What a recovery found.
#[derive(Debug)]
pub struct RecoverySummary {
    /// How many keys had a known outcome and are no longer needed.
    pub compacted: usize,
    /// What is still open.
    pub unresolved: Vec<EffectRecord>,
}

/// The contents of a [`RecoverySummary`].
#[verifier::ext_equal]
pub struct SummaryView {
    pub compacted: nat,
    pub unresolved: Seq<EffectView>,
}

impl View for RecoverySummary {
    type V = SummaryView;

    open spec fn view(&self) -> SummaryView {
        SummaryView { compacted: self.compacted as nat, unresolved: text::views(self.unresolved@) }
    }
}

/// What a recovery finds in these records.
pub open spec fn recovered(records: Seq<EffectView>) -> SummaryView {
    SummaryView {
        compacted: resolved_keys(records).len(),
        unresolved: open_effects(records),
    }
}

impl Default for RecoverySummary {
    fn default() -> (r: Self)
        ensures
            r@ == recovered(Seq::empty()),
    {
        let r: RecoverySummary = RecoverySummary { compacted: 0, unresolved: Vec::new() };
        assert(r@ =~= recovered(Seq::empty()));
        r
    }
}

proof fn lemma_put_keeps_distinct(list: Seq<EffectView>, r: EffectView)
    requires
        distinct(list),
    ensures
        distinct(put(list, r)),
{
    let next = put(list, r);
    if has_key(list, r.key) {
        let at = key_at(list, r.key);
        assert forall|i: int, j: int| 0 <= i < j < next.len() implies (#[trigger] next[i]).key != (
        #[trigger] next[j]).key by {
            assert(list[i].key != list[j].key);
            assert(next[i].key == list[i].key);
            assert(next[j].key == list[j].key);
        }
    } else {
        assert forall|i: int, j: int| 0 <= i < j < next.len() implies (#[trigger] next[i]).key != (
        #[trigger] next[j]).key by {
            assert(next[i] == list[i]);
            if j < list.len() {
                assert(next[j] == list[j]);
            } else {
                assert(list[i].key != r.key);
            }
        }
    }
}

proof fn lemma_put_all_keeps_distinct(
    list: Seq<EffectView>,
    records: Seq<EffectView>,
    dropped: Set<Seq<char>>,
)
    requires
        distinct(list),
    ensures
        distinct(put_all(list, records, dropped)),
    decreases records.len(),
{
    if records.len() > 0 {
        lemma_put_all_keeps_distinct(list, records.drop_last(), dropped);
        lemma_put_keeps_distinct(
            put_all(list, records.drop_last(), dropped),
            records.last(),
        );
    }
}

proof fn lemma_resolved(records: Seq<EffectView>)
    ensures
        forall|k: Seq<char>| #[trigger] resolved_keys(records).contains(k) == is_resolved(records, k),
    decreases records.len(),
{
    if records.len() > 0 {
        let t = records.drop_last();
        lemma_resolved(t);
        assert forall|k: Seq<char>| #[trigger] resolved_keys(records).contains(k) == is_resolved(
            records,
            k,
        ) by {
            assert(resolved_keys(t).contains(k) == is_resolved(t, k));
            if is_resolved(t, k) {
                let i = choose|i: int|
                    0 <= i < t.len() && (#[trigger] t[i]).key == k && t[i].state.terminal();
                assert(records[i] == t[i]);
            }
            if is_resolved(records, k) {
                let i = choose|i: int|
                    0 <= i < records.len() && (#[trigger] records[i]).key == k
                        && records[i].state.terminal();
                if i < t.len() {
                    assert(t[i] == records[i]);
                }
            }
            if records.last().state.terminal() && records.last().key == k {
                assert(records[records.len() - 1].key == k);
            }
        }
    }
}

/// Finds what is still open in a log.
pub fn compact(records: &Vec<EffectRecord>) -> (r: RecoverySummary)
    ensures
        r@ == recovered(text::views(records@)),
{
    let ghost all = text::views(records@);
    let mut resolved: StringHashSet = StringHashSet::new();
    let mut i: usize = 0;
    assert(all.take(0) =~= Seq::empty());
    while i < records.len()
        invariant
            i <= records@.len(),
            all == text::views(records@),
            resolved@ == resolved_keys(all.take(i as int)),
        decreases records.len() - i,
    {
        proof {
            assert(all.take(i + 1).drop_last() =~= all.take(i as int));
            assert(all.take(i + 1).last() == records@[i as int]@);
        }
        if records[i].state.is_terminal() {
            resolved.insert(records[i].key.clone());
        }
        i += 1;
    }
    assert(all.take(i as int) =~= all);

    let ghost dropped = resolved_keys(all);
    let mut unresolved: Vec<EffectRecord> = Vec::new();
    let mut pos: StringHashMap<usize> = StringHashMap::new();
    let mut j: usize = 0;
    proof {
        assert(all.take(0) =~= Seq::empty());
        assert(text::views(unresolved@) =~= Seq::empty());
    }
    while j < records.len()
        invariant
            j <= records@.len(),
            all == text::views(records@),
            dropped == resolved@,
            text::views(unresolved@) == put_all(Seq::empty(), all.take(j as int), dropped),
            distinct(text::views(unresolved@)),
            forall|k: Seq<char>| #[trigger]
                pos@.contains_key(k) ==> pos@[k] < unresolved@.len()
                    && unresolved@[pos@[k] as int]@.key == k,
            forall|n: int|
                0 <= n < unresolved@.len() ==> pos@.contains_key((#[trigger] unresolved@[n])@.key),
        decreases records.len() - j,
    {
        broadcast use text::lemma_views_push;

        let ghost list = text::views(unresolved@);
        let ghost rec = records@[j as int]@;
        proof {
            assert(all.take(j + 1).drop_last() =~= all.take(j as int));
            assert(all.take(j + 1).last() == rec);
            lemma_put_keeps_distinct(list, rec);
        }
        if !resolved.contains(records[j].key.as_str()) {
            let at: Option<usize> = match pos.get(records[j].key.as_str()) {
                Some(n) => Some(*n),
                None => None,
            };
            match at {
                Some(n) => {
                    proof {
                        assert(list[n as int].key == rec.key);
                        let m = key_at(list, rec.key);
                        assert(list[m].key == rec.key);
                        assert(m == n);
                    }
                    unresolved.set(n, records[j].clone());
                    assert(text::views(unresolved@) =~= list.update(n as int, rec));
                },
                None => {
                    proof {
                        assert forall|n: int| 0 <= n < list.len() implies (#[trigger] list[n]).key
                            != rec.key by {
                            assert(list[n] == unresolved@[n]@);
                        }
                    }
                    pos.insert(records[j].key.clone(), unresolved.len());
                    unresolved.push(records[j].clone());
                },
            }
            proof {
                assert(text::views(unresolved@) == put(list, rec));
                assert forall|n: int| 0 <= n < unresolved@.len() implies pos@.contains_key(
                    (#[trigger] unresolved@[n])@.key,
                ) by {
                    assert(text::views(unresolved@)[n] == unresolved@[n]@);
                    if n < list.len() {
                        assert(list[n].key == text::views(unresolved@)[n].key);
                    }
                }
                assert forall|k: Seq<char>| #[trigger] pos@.contains_key(k) implies pos@[k]
                    < unresolved@.len() && unresolved@[pos@[k] as int]@.key == k by {
                    let n = pos@[k] as int;
                    assert(text::views(unresolved@)[n] == unresolved@[n]@);
                }
            }
        }
        j += 1;
    }
    assert(all.take(j as int) =~= all);
    RecoverySummary { compacted: resolved.len(), unresolved }
}

/// The list without the records of the given keys.
pub open spec fn leaving_out(list: Seq<EffectView>, dropped: Set<Seq<char>>) -> Seq<EffectView>
    decreases list.len(),
{
    if list.len() == 0 {
        Seq::empty()
    } else if dropped.contains(list.last().key) {
        leaving_out(list.drop_last(), dropped)
    } else {
        leaving_out(list.drop_last(), dropped).push(list.last())
    }
}

/// The open effects for which the answers name no outcome.
pub open spec fn still_unknown(open: Seq<EffectView>, answers: Seq<EffectState>) -> Seq<EffectView>
    decreases answers.len(),
{
    if answers.len() == 0 {
        Seq::empty()
    } else {
        let n = answers.len() - 1;
        let rest = still_unknown(open, answers.drop_last());
        if answers.last().terminal() {
            rest
        } else {
            rest.push(open[n])
        }
    }
}

/// The records that the answers add to the log.
pub open spec fn outcomes(open: Seq<EffectView>, answers: Seq<EffectState>) -> Seq<EffectView>
    decreases answers.len(),
{
    if answers.len() == 0 {
        Seq::empty()
    } else {
        let n = answers.len() - 1;
        let rest = outcomes(open, answers.drop_last());
        if answers.last().terminal() {
            rest.push(EffectView { state: answers.last(), ..open[n] })
        } else {
            rest
        }
    }
}

/// A sweep over the open effects, asking about one after the other.
#[derive(Debug)]
pub struct Sweep {
    open: Vec<EffectRecord>,
    at: usize,
    still_unknown: Vec<EffectRecord>,
    resolved_any: bool,
}

/// The contents of a [`Sweep`].
#[verifier::ext_equal]
pub struct SweepView {
    pub open: Seq<EffectView>,
    pub at: nat,
    pub still_unknown: Seq<EffectView>,
    pub resolved_any: bool,
}

impl View for Sweep {
    type V = SweepView;

    closed spec fn view(&self) -> SweepView {
        SweepView {
            open: text::views(self.open@),
            at: self.at as nat,
            still_unknown: text::views(self.still_unknown@),
            resolved_any: self.resolved_any,
        }
    }
}

/// A sweep that has asked about nothing.
pub open spec fn sweep_over(open: Seq<EffectView>) -> SweepView {
    SweepView { open, at: 0, still_unknown: Seq::empty(), resolved_any: false }
}

/// A sweep after one more answer.
pub open spec fn answered(s: SweepView, answer: EffectState) -> SweepView {
    SweepView {
        at: s.at + 1,
        still_unknown: if answer.terminal() {
            s.still_unknown
        } else {
            s.still_unknown.push(s.open[s.at as int])
        },
        resolved_any: s.resolved_any || answer.terminal(),
        ..s
    }
}

/// What a sweep comes to.
#[derive(Debug)]
pub struct Swept {
    /// The effects left for a later sweep, in order.
    pub still_unknown: Vec<EffectRecord>,
    /// Whether outcomes were appended, so that the log is to be compacted again.
    pub compact_again: bool,
}

impl Sweep {
    /// A sweep over these effects.
    pub fn new(open: Vec<EffectRecord>) -> (r: Self)
        ensures
            r@ == sweep_over(text::views(open@)),
    {
        let r: Sweep = Sweep { open, at: 0, still_unknown: Vec::new(), resolved_any: false };
        assert(r@.still_unknown =~= Seq::empty());
        r
    }

    /// The effect to ask about next.
    pub fn current(&self) -> (r: Option<&EffectRecord>)
        ensures
            match r {
                Some(e) => self@.at < self@.open.len() && e@ == self@.open[self@.at as int],
                None => self@.at >= self@.open.len(),
            },
    {
        if self.at < self.open.len() {
            Some(&self.open[self.at])
        } else {
            None
        }
    }

    /// Takes the answer about the current effect. A known outcome is to be
    /// appended to the log, as the record that is returned; any other answer
    /// leaves the effect for a later sweep.
    pub fn answer(&mut self, answer: EffectState) -> (r: Option<EffectRecord>)
        requires
            old(self)@.at < old(self)@.open.len(),
        ensures
            final(self)@ == answered(old(self)@, answer),
            match r {
                Some(e) => answer.terminal() && e@ == (EffectView {
                    state: answer,
                    ..old(self)@.open[old(self)@.at as int]
                }),
                None => !answer.terminal(),
            },
    {
        broadcast use text::lemma_views_push;

        let ghost before = self@;
        let record: EffectRecord = self.open[self.at].clone();
        let r: Option<EffectRecord> = if answer.is_terminal() {
            self.resolved_any = true;
            Some(record.into_state(answer))
        } else {
            self.still_unknown.push(record);
            None
        };
        assert(self.at < self.open.len());
        self.at = self.at + 1;
        assert(self@ =~= answered(before, answer));
        r
    }

    /// What the sweep comes to.
    pub fn finish(self) -> (r: Swept)
        ensures
            text::views(r.still_unknown@) == self@.still_unknown,
            r.compact_again == self@.resolved_any,
    {
        Swept { still_unknown: self.still_unknown, compact_again: self.resolved_any }
    }
}

/// A sweep after all of these answers.
pub open spec fn answered_all(s: SweepView, answers: Seq<EffectState>) -> SweepView
    decreases answers.len(),
{
    if answers.len() == 0 {
        s
    } else {
        answered(answered_all(s, answers.drop_last()), answers.last())
    }
}

/// A sweep misses no effect: after an answer about each, it leaves exactly those
/// without a known outcome, in order, and compacts again exactly where it appended
/// an outcome.
pub proof fn sweep_asks_about_everything(open: Seq<EffectView>, answers: Seq<EffectState>)
    requires
        answers.len() <= open.len(),
    ensures
        answered_all(sweep_over(open), answers) == (SweepView {
            open,
            at: answers.len(),
            still_unknown: still_unknown(open, answers),
            resolved_any: outcomes(open, answers).len() > 0,
        }),
    decreases answers.len(),
{
    if answers.len() > 0 {
        sweep_asks_about_everything(open, answers.drop_last());
    }
    assert(answered_all(sweep_over(open), answers) =~= (SweepView {
        open,
        at: answers.len(),
        still_unknown: still_unknown(open, answers),
        resolved_any: outcomes(open, answers).len() > 0,
    }));
}

proof fn lemma_put_all_concat(
    list: Seq<EffectView>,
    a: Seq<EffectView>,
    b: Seq<EffectView>,
    dropped: Set<Seq<char>>,
)
    ensures
        put_all(list, a + b, dropped) == put_all(put_all(list, a, dropped), b, dropped),
    decreases b.len(),
{
    if b.len() == 0 {
        assert(a + b =~= a);
    } else {
        assert((a + b).drop_last() =~= a + b.drop_last());
        assert((a + b).last() == b.last());
        lemma_put_all_concat(list, a, b.drop_last(), dropped);
    }
}

proof fn lemma_resolved_concat(a: Seq<EffectView>, b: Seq<EffectView>)
    ensures
        resolved_keys(a + b) == resolved_keys(a).union(resolved_keys(b)),
    decreases b.len(),
{
    if b.len() == 0 {
        assert(a + b =~= a);
        assert(resolved_keys(a).union(resolved_keys(b)) =~= resolved_keys(a));
    } else {
        assert((a + b).drop_last() =~= a + b.drop_last());
        assert((a + b).last() == b.last());
        lemma_resolved_concat(a, b.drop_last());
        assert(resolved_keys(a + b) =~= resolved_keys(a).union(resolved_keys(b)));
    }
}

proof fn lemma_leaving_out_members(list: Seq<EffectView>, dropped: Set<Seq<char>>)
    ensures
        forall|i: int|
            0 <= i < leaving_out(list, dropped).len() ==> list.contains(
                #[trigger] leaving_out(list, dropped)[i],
            ) && !dropped.contains(leaving_out(list, dropped)[i].key),
        forall|i: int|
            0 <= i < list.len() && !dropped.contains((#[trigger] list[i]).key) ==> leaving_out(
                list,
                dropped,
            ).contains(list[i]),
    decreases list.len(),
{
    if list.len() > 0 {
        let t = list.drop_last();
        let f = leaving_out(list, dropped);
        let g = leaving_out(t, dropped);
        lemma_leaving_out_members(t, dropped);
        assert forall|i: int| 0 <= i < f.len() implies list.contains(#[trigger] f[i])
            && !dropped.contains(f[i].key) by {
            if i < g.len() {
                assert(f[i] == g[i]);
                let k = choose|k: int| 0 <= k < t.len() && t[k] == g[i];
                assert(list[k] == g[i]);
            } else {
                assert(list[list.len() - 1] == f[i]);
            }
        }
        assert forall|i: int| 0 <= i < list.len() && !dropped.contains(
            (#[trigger] list[i]).key,
        ) implies f.contains(list[i]) by {
            if i < t.len() {
                assert(t[i] == list[i]);
                let k = choose|k: int| 0 <= k < g.len() && g[k] == t[i];
                assert(f[k] == list[i]);
            } else {
                assert(f[f.len() - 1] == list[i]);
            }
        }
    }
}

proof fn lemma_leaving_out_keeps_distinct(list: Seq<EffectView>, dropped: Set<Seq<char>>)
    requires
        distinct(list),
    ensures
        distinct(leaving_out(list, dropped)),
    decreases list.len(),
{
    if list.len() > 0 {
        let t = list.drop_last();
        let g = leaving_out(t, dropped);
        let f = leaving_out(list, dropped);
        assert(distinct(t)) by {
            assert forall|i: int, j: int| 0 <= i < j < t.len() implies (#[trigger] t[i]).key != (
            #[trigger] t[j]).key by {
                assert(t[i] == list[i] && t[j] == list[j]);
            }
        }
        lemma_leaving_out_keeps_distinct(t, dropped);
        lemma_leaving_out_members(t, dropped);
        assert forall|i: int, j: int| 0 <= i < j < f.len() implies (#[trigger] f[i]).key != (
        #[trigger] f[j]).key by {
            assert(f[i] == g[i]);
            if j < g.len() {
                assert(f[j] == g[j]);
            } else {
                let k = choose|k: int| 0 <= k < t.len() && t[k] == g[i];
                assert(list[k].key != list[list.len() - 1].key);
            }
        }
    }
}

proof fn lemma_leaving_out_push(list: Seq<EffectView>, r: EffectView, dropped: Set<Seq<char>>)
    ensures
        leaving_out(list.push(r), dropped) == if dropped.contains(r.key) {
            leaving_out(list, dropped)
        } else {
            leaving_out(list, dropped).push(r)
        },
{
    assert(list.push(r).drop_last() =~= list);
}

proof fn lemma_leaving_out_update(
    list: Seq<EffectView>,
    at: int,
    r: EffectView,
    dropped: Set<Seq<char>>,
)
    requires
        distinct(list),
        0 <= at < list.len(),
        list[at].key == r.key,
    ensures
        dropped.contains(r.key) ==> leaving_out(list.update(at, r), dropped) == leaving_out(
            list,
            dropped,
        ),
        !dropped.contains(r.key) ==> leaving_out(list.update(at, r), dropped) == put(
            leaving_out(list, dropped),
            r,
        ),
    decreases list.len(),
{
    let t = list.drop_last();
    let u = list.update(at, r);
    assert(distinct(t)) by {
        assert forall|i: int, j: int| 0 <= i < j < t.len() implies (#[trigger] t[i]).key != (
        #[trigger] t[j]).key by {
            assert(t[i] == list[i] && t[j] == list[j]);
        }
    }
    let g = leaving_out(t, dropped);
    let f = leaving_out(list, dropped);
    lemma_leaving_out_members(t, dropped);
    lemma_leaving_out_members(list, dropped);
    lemma_leaving_out_keeps_distinct(list, dropped);
    lemma_leaving_out_keeps_distinct(t, dropped);
    if at == list.len() - 1 {
        assert(u.drop_last() =~= t);
        if !dropped.contains(r.key) {
            assert(f[f.len() - 1].key == r.key);
            let m = key_at(f, r.key);
            assert(f[m].key == r.key);
            assert(m == f.len() - 1);
            assert(put(f, r) =~= g.push(r));
        }
    } else {
        assert(u.drop_last() =~= t.update(at, r));
        assert(u.last() == list.last());
        lemma_leaving_out_update(t, at, r, dropped);
        if !dropped.contains(r.key) {
            assert(t[at] == list[at]);
            assert(g.contains(t[at]));
            let m = choose|m: int| 0 <= m < g.len() && g[m] == t[at];
            assert(g[m].key == r.key);
            assert(has_key(g, r.key));
            let n = key_at(g, r.key);
            assert(g[n].key == r.key);
            assert(n == m);
            if !dropped.contains(list.last().key) {
                assert(f == g.push(list.last()));
                assert(f[m].key == r.key);
                let q = key_at(f, r.key);
                assert(f[q].key == r.key);
                assert(q == m);
                assert(put(f, r) =~= put(g, r).push(list.last()));
            }
        }
    }
}

proof fn lemma_leaving_out_put(list: Seq<EffectView>, r: EffectView, dropped: Set<Seq<char>>)
    requires
        distinct(list),
    ensures
        leaving_out(put(list, r), dropped) == if dropped.contains(r.key) {
            leaving_out(list, dropped)
        } else {
            put(leaving_out(list, dropped), r)
        },
{
    lemma_leaving_out_members(list, dropped);
    if has_key(list, r.key) {
        let at = key_at(list, r.key);
        assert(list[at].key == r.key);
        lemma_leaving_out_update(list, at, r, dropped);
    } else {
        lemma_leaving_out_push(list, r, dropped);
        let f = leaving_out(list, dropped);
        assert forall|i: int| 0 <= i < f.len() implies (#[trigger] f[i]).key != r.key by {
            let k = choose|k: int| 0 <= k < list.len() && list[k] == f[i];
            assert(list[k].key != r.key);
        }
    }
}

proof fn lemma_drop_later(records: Seq<EffectView>, first: Set<Seq<char>>, more: Set<Seq<char>>)
    ensures
        leaving_out(put_all(Seq::empty(), records, first), more) == put_all(
            Seq::empty(),
            records,
            first.union(more),
        ),
    decreases records.len(),
{
    if records.len() > 0 {
        let t = records.drop_last();
        lemma_drop_later(t, first, more);
        lemma_put_all_keeps_distinct(Seq::empty(), t, first);
        lemma_leaving_out_put(put_all(Seq::empty(), t, first), records.last(), more);
    }
}

proof fn lemma_put_all_of_distinct(list: Seq<EffectView>, dropped: Set<Seq<char>>)
    requires
        distinct(list),
    ensures
        put_all(Seq::empty(), list, dropped) == leaving_out(list, dropped),
    decreases list.len(),
{
    if list.len() > 0 {
        let t = list.drop_last();
        assert(distinct(t)) by {
            assert forall|i: int, j: int| 0 <= i < j < t.len() implies (#[trigger] t[i]).key != (
            #[trigger] t[j]).key by {
                assert(t[i] == list[i] && t[j] == list[j]);
            }
        }
        lemma_put_all_of_distinct(t, dropped);
        lemma_leaving_out_members(t, dropped);
        let g = leaving_out(t, dropped);
        assert forall|i: int| 0 <= i < g.len() implies (#[trigger] g[i]).key != list.last().key by {
            let k = choose|k: int| 0 <= k < t.len() && t[k] == g[i];
            assert(list[k].key != list[list.len() - 1].key);
        }
    }
}

proof fn lemma_put_all_ignores(
    list: Seq<EffectView>,
    records: Seq<EffectView>,
    a: Set<Seq<char>>,
    b: Set<Seq<char>>,
)
    requires
        forall|i: int|
            0 <= i < records.len() ==> a.contains((#[trigger] records[i]).key) == b.contains(
                records[i].key,
            ),
    ensures
        put_all(list, records, a) == put_all(list, records, b),
    decreases records.len(),
{
    if records.len() > 0 {
        let t = records.drop_last();
        assert forall|i: int| 0 <= i < t.len() implies a.contains((#[trigger] t[i]).key)
            == b.contains(t[i].key) by {
            assert(t[i] == records[i]);
        }
        assert(records[records.len() - 1] == records.last());
        lemma_put_all_ignores(list, t, a, b);
    }
}

proof fn lemma_put_all_members(records: Seq<EffectView>, dropped: Set<Seq<char>>)
    ensures
        forall|i: int|
            0 <= i < put_all(Seq::empty(), records, dropped).len() ==> !dropped.contains(
                (#[trigger] put_all(Seq::empty(), records, dropped)[i]).key,
            ) && is_latest(records, put_all(Seq::empty(), records, dropped)[i]),
        forall|k: Seq<char>| #[trigger]
            has_key(put_all(Seq::empty(), records, dropped), k) == (has_key(records, k)
                && !dropped.contains(k)),
    decreases records.len(),
{
    let out = put_all(Seq::empty(), records, dropped);
    if records.len() == 0 {
        assert forall|k: Seq<char>| !#[trigger] has_key(out, k) && !has_key(records, k) by {}
    } else {
        let t = records.drop_last();
        let r = records.last();
        let mid = put_all(Seq::empty(), t, dropped);
        lemma_put_all_members(t, dropped);
        lemma_put_all_keeps_distinct(Seq::empty(), t, dropped);
        assert(records[records.len() - 1] == r);
        assert forall|i: int| 0 <= i < out.len() implies !dropped.contains((#[trigger] out[i]).key)
            && is_latest(records, out[i]) by {
            if !dropped.contains(r.key) && out[i] == r {
                assert(records[records.len() - 1] == out[i]);
            } else {
                assert(i < mid.len() && out[i] == mid[i]);
                let j = choose|j: int|
                    0 <= j < t.len() && t[j] == mid[i] && forall|m: int|
                        j < m < t.len() ==> (#[trigger] t[m]).key != mid[i].key;
                assert(records[j] == out[i]);
                if dropped.contains(r.key) {
                    assert(r.key != out[i].key);
                } else if has_key(mid, r.key) {
                    let at = key_at(mid, r.key);
                    assert(mid[at].key == r.key);
                    assert(i != at);
                    if i < at {
                        assert(mid[i].key != mid[at].key);
                    } else {
                        assert(mid[at].key != mid[i].key);
                    }
                }
                assert forall|m: int| j < m < records.len() implies (#[trigger] records[m]).key
                    != out[i].key by {
                    if m < t.len() {
                        assert(t[m] == records[m]);
                    }
                }
            }
        }
        assert forall|k: Seq<char>| #[trigger] has_key(out, k) == (has_key(records, k)
            && !dropped.contains(k)) by {
            assert(has_key(mid, k) == (has_key(t, k) && !dropped.contains(k)));
            if has_key(t, k) {
                let i = choose|i: int| 0 <= i < t.len() && (#[trigger] t[i]).key == k;
                assert(records[i].key == k);
            }
            if has_key(records, k) && k != r.key {
                let i = choose|i: int| 0 <= i < records.len() && (#[trigger] records[i]).key == k;
                assert(t[i].key == k);
            }
            if has_key(mid, k) {
                let i = choose|i: int| 0 <= i < mid.len() && (#[trigger] mid[i]).key == k;
                assert(out[i].key == k) by {
                    if !dropped.contains(r.key) && has_key(mid, r.key) {
                        assert(mid[key_at(mid, r.key)].key == r.key);
                    }
                }
            }
            if k == r.key && !dropped.contains(k) {
                if has_key(mid, k) {
                } else {
                    assert(out[mid.len() as int].key == k);
                }
            }
            if has_key(out, k) {
                let i = choose|i: int| 0 <= i < out.len() && (#[trigger] out[i]).key == k;
                if i < mid.len() && out[i] == mid[i] {
                    assert(mid[i].key == k);
                }
            }
        }
    }
}

/// Whether `r` is the last record of its key.
pub open spec fn is_latest(records: Seq<EffectView>, r: EffectView) -> bool {
    exists|j: int|
        0 <= j < records.len() && #[trigger] records[j] == r && forall|m: int|
            j < m < records.len() ==> (#[trigger] records[m]).key != r.key
}

/// Recovery keeps exactly the effects without a known outcome: no key occurs
/// twice, a key is kept if and only if it occurs and none of its records has a
/// known outcome, and what is kept of it is its latest record.
pub proof fn recovery_keeps_exactly_the_open_effects(records: Seq<EffectView>)
    ensures
        distinct(open_effects(records)),
        forall|k: Seq<char>| #[trigger]
            has_key(open_effects(records), k) == (has_key(records, k) && !is_resolved(records, k)),
        forall|i: int|
            0 <= i < open_effects(records).len() ==> is_latest(
                records,
                #[trigger] open_effects(records)[i],
            ),
{
    lemma_resolved(records);
    lemma_put_all_members(records, resolved_keys(records));
    lemma_put_all_keeps_distinct(Seq::empty(), records, resolved_keys(records));
}

proof fn lemma_open_is_unresolved(records: Seq<EffectView>)
    ensures
        resolved_keys(open_effects(records)) == Set::<Seq<char>>::empty(),
{
    let open = open_effects(records);
    lemma_resolved(records);
    lemma_resolved(open);
    lemma_put_all_members(records, resolved_keys(records));
    assert forall|k: Seq<char>| !#[trigger] resolved_keys(open).contains(k) by {
        if is_resolved(open, k) {
            let i = choose|i: int|
                0 <= i < open.len() && (#[trigger] open[i]).key == k && open[i].state.terminal();
            let j = choose|j: int|
                0 <= j < records.len() && #[trigger] records[j] == open[i] && forall|m: int|
                    j < m < records.len() ==> (#[trigger] records[m]).key != open[i].key;
            assert(is_resolved(records, k));
            assert(!resolved_keys(records).contains(open[i].key));
        }
    }
    assert(resolved_keys(open) =~= Set::<Seq<char>>::empty());
}

/// Recovery is idempotent: a second sweep over what the first kept finds the
/// same open effects and nothing to compact.
pub proof fn recovery_is_idempotent(records: Seq<EffectView>)
    ensures
        recovered(open_effects(records)) == (SummaryView {
            compacted: 0,
            unresolved: open_effects(records),
        }),
{
    let open = open_effects(records);
    lemma_open_is_unresolved(records);
    lemma_put_all_keeps_distinct(Seq::empty(), records, resolved_keys(records));
    lemma_put_all_of_distinct(open, Set::empty());
    lemma_leaving_nothing_out(open);
}

proof fn lemma_leaving_nothing_out(list: Seq<EffectView>)
    ensures
        leaving_out(list, Set::empty()) == list,
    decreases list.len(),
{
    if list.len() > 0 {
        lemma_leaving_nothing_out(list.drop_last());
        assert(list.drop_last().push(list.last()) =~= list);
    } else {
        assert(leaving_out(list, Set::empty()) =~= list);
    }
}

/// Compacting a log in the middle of its life changes nothing: what is open
/// after further records is the same with and without it, as long as no key
/// whose outcome was known is used again.
pub proof fn compaction_is_transparent(before: Seq<EffectView>, after: Seq<EffectView>)
    requires
        forall|i: int|
            0 <= i < after.len() ==> !is_resolved(before, (#[trigger] after[i]).key),
    ensures
        open_effects(open_effects(before) + after) == open_effects(before + after),
{
    let ra = resolved_keys(before);
    let rb = resolved_keys(after);
    let open = open_effects(before);
    let none = Seq::<EffectView>::empty();
    lemma_resolved(before);
    lemma_open_is_unresolved(before);
    lemma_resolved_concat(open, after);
    lemma_resolved_concat(before, after);
    assert(resolved_keys(open + after) =~= rb);
    lemma_put_all_concat(none, open, after, rb);
    lemma_put_all_keeps_distinct(none, before, ra);
    lemma_put_all_of_distinct(open, rb);
    lemma_drop_later(before, ra, rb);
    lemma_put_all_ignores(put_all(none, before, ra.union(rb)), after, rb, ra.union(rb));
    lemma_put_all_concat(none, before, after, ra.union(rb));
}

proof fn lemma_outcomes(open: Seq<EffectView>, answers: Seq<EffectState>)
    requires
        distinct(open),
        answers.len() <= open.len(),
    ensures
        forall|k: Seq<char>| #[trigger]
            resolved_keys(outcomes(open, answers)).contains(k) <==> exists|i: int|
                0 <= i < answers.len() && (#[trigger] open[i]).key == k && answers[i].terminal(),
        forall|i: int|
            0 <= i < outcomes(open, answers).len() ==> resolved_keys(
                outcomes(open, answers),
            ).contains((#[trigger] outcomes(open, answers)[i]).key),
    decreases answers.len(),
{
    let out = outcomes(open, answers);
    if answers.len() > 0 {
        let n = answers.len() - 1;
        let t = answers.drop_last();
        let mid = outcomes(open, t);
        lemma_outcomes(open, t);
        if answers.last().terminal() {
            assert(out.drop_last() =~= mid);
        }
        assert(answers[n] == answers.last());
        assert forall|k: Seq<char>| #[trigger] resolved_keys(out).contains(k) <==> exists|i: int|
            0 <= i < answers.len() && (#[trigger] open[i]).key == k && answers[i].terminal() by {
            if resolved_keys(mid).contains(k) {
                let i = choose|i: int|
                    0 <= i < t.len() && (#[trigger] open[i]).key == k && t[i].terminal();
                assert(answers[i] == t[i]);
                assert(open[i].key == k && answers[i].terminal());
            }
            if exists|i: int|
                0 <= i < answers.len() && (#[trigger] open[i]).key == k && answers[i].terminal() {
                let i = choose|i: int|
                    0 <= i < answers.len() && (#[trigger] open[i]).key == k
                        && answers[i].terminal();
                if i < n {
                    assert(t[i] == answers[i]);
                    assert(resolved_keys(mid).contains(k));
                }
            }
            if resolved_keys(out).contains(k) && !resolved_keys(mid).contains(k) {
                assert(open[n].key == k);
            }
        }
        assert forall|i: int| 0 <= i < out.len() implies resolved_keys(out).contains(
            (#[trigger] out[i]).key,
        ) by {
            if i < mid.len() {
                assert(out[i] == mid[i]);
            }
        }
    }
}

proof fn lemma_still_unknown(
    open: Seq<EffectView>,
    answers: Seq<EffectState>,
    dropped: Set<Seq<char>>,
)
    requires
        answers.len() <= open.len(),
        forall|i: int|
            0 <= i < answers.len() ==> dropped.contains((#[trigger] open[i]).key)
                == answers[i].terminal(),
    ensures
        still_unknown(open, answers) == leaving_out(open.take(answers.len() as int), dropped),
    decreases answers.len(),
{
    if answers.len() > 0 {
        let n = answers.len() - 1;
        let t = answers.drop_last();
        assert forall|i: int| 0 <= i < t.len() implies dropped.contains((#[trigger] open[i]).key)
            == t[i].terminal() by {
            assert(t[i] == answers[i]);
        }
        lemma_still_unknown(open, t, dropped);
        assert(open.take(answers.len() as int).drop_last() =~= open.take(n));
        assert(open.take(answers.len() as int).last() == open[n]);
        assert(answers[n] == answers.last());
    } else {
        assert(open.take(0) =~= Seq::empty());
    }
}

/// Reconciling settles exactly what was answered: once the outcomes that a sweep
/// learned are appended, recovery finds open precisely the effects that are
/// still unknown, in their order.
pub proof fn reconciling_leaves_the_unknown(records: Seq<EffectView>, answers: Seq<EffectState>)
    requires
        answers.len() == open_effects(records).len(),
    ensures
        open_effects(open_effects(records) + outcomes(open_effects(records), answers))
            == still_unknown(open_effects(records), answers),
{
    let open = open_effects(records);
    let extra = outcomes(open, answers);
    let none = Seq::<EffectView>::empty();
    let dropped = resolved_keys(extra);
    lemma_put_all_keeps_distinct(none, records, resolved_keys(records));
    lemma_open_is_unresolved(records);
    lemma_resolved_concat(open, extra);
    assert(resolved_keys(open + extra) =~= dropped);
    lemma_outcomes(open, answers);
    lemma_put_all_concat(none, open, extra, dropped);
    lemma_put_all_of_distinct(open, dropped);
    lemma_put_all_of_dropped(leaving_out(open, dropped), extra, dropped);
    assert forall|i: int| 0 <= i < answers.len() implies dropped.contains((#[trigger] open[i]).key)
        == answers[i].terminal() by {
        if dropped.contains(open[i].key) {
            let j = choose|j: int|
                0 <= j < answers.len() && (#[trigger] open[j]).key == open[i].key
                    && answers[j].terminal();
            if i < j {
                assert(open[i].key != open[j].key);
            } else if j < i {
                assert(open[j].key != open[i].key);
            }
        }
    }
    lemma_still_unknown(open, answers, dropped);
    assert(open.take(answers.len() as int) =~= open);
}

proof fn lemma_put_all_of_dropped(
    list: Seq<EffectView>,
    records: Seq<EffectView>,
    dropped: Set<Seq<char>>,
)
    requires
        forall|i: int| 0 <= i < records.len() ==> dropped.contains((#[trigger] records[i]).key),
    ensures
        put_all(list, records, dropped) == list,
    decreases records.len(),
{
    if records.len() > 0 {
        let t = records.drop_last();
        assert forall|i: int| 0 <= i < t.len() implies dropped.contains((#[trigger] t[i]).key) by {
            assert(t[i] == records[i]);
        }
        assert(records[records.len() - 1] == records.last());
        lemma_put_all_of_dropped(list, t, dropped);
    }
}

/// Where a key first occurs, or the number of records.
pub open spec fn first_seen(records: Seq<EffectView>, key: Seq<char>) -> int
    decreases records.len(),
{
    if records.len() == 0 {
        0
    } else if has_key(records.drop_last(), key) || records.last().key != key {
        first_seen(records.drop_last(), key)
    } else {
        records.len() - 1
    }
}

proof fn lemma_first_seen(records: Seq<EffectView>, key: Seq<char>)
    requires
        has_key(records, key),
    ensures
        0 <= first_seen(records, key) < records.len(),
        records[first_seen(records, key)].key == key,
        forall|i: int|
            0 <= i < first_seen(records, key) ==> (#[trigger] records[i]).key != key,
    decreases records.len(),
{
    let t = records.drop_last();
    if has_key(t, key) {
        lemma_first_seen(t, key);
        let at = first_seen(t, key);
        assert(records[at] == t[at]);
        assert forall|i: int| 0 <= i < at implies (#[trigger] records[i]).key != key by {
            assert(t[i] == records[i]);
        }
    } else {
        let i = choose|i: int| 0 <= i < records.len() && (#[trigger] records[i]).key == key;
        if i < t.len() {
            assert(t[i].key == key);
        }
        assert forall|j: int| 0 <= j < t.len() implies (#[trigger] records[j]).key != key by {
            assert(t[j] == records[j]);
        }
    }
}

/// What recovery keeps is in the order in which the keys first occur.
pub proof fn recovery_keeps_first_seen_order(records: Seq<EffectView>)
    ensures
        forall|i: int, j: int|
            0 <= i < j < open_effects(records).len() ==> first_seen(
                records,
                (#[trigger] open_effects(records)[i]).key,
            ) < first_seen(records, (#[trigger] open_effects(records)[j]).key),
{
    lemma_order(records, resolved_keys(records));
}

proof fn lemma_order(records: Seq<EffectView>, dropped: Set<Seq<char>>)
    ensures
        forall|i: int, j: int|
            0 <= i < j < put_all(Seq::empty(), records, dropped).len() ==> first_seen(
                records,
                (#[trigger] put_all(Seq::empty(), records, dropped)[i]).key,
            ) < first_seen(
                records,
                (#[trigger] put_all(Seq::empty(), records, dropped)[j]).key,
            ),
    decreases records.len(),
{
    if records.len() > 0 {
        let t = records.drop_last();
        let r = records.last();
        let mid = put_all(Seq::empty(), t, dropped);
        let out = put_all(Seq::empty(), records, dropped);
        lemma_order(t, dropped);
        lemma_put_all_members(t, dropped);
        assert forall|i: int| 0 <= i < mid.len() implies first_seen(
            records,
            (#[trigger] mid[i]).key,
        ) == first_seen(t, mid[i].key) && first_seen(t, mid[i].key) < t.len() by {
            assert(has_key(mid, mid[i].key));
            lemma_first_seen(t, mid[i].key);
        }
        if !dropped.contains(r.key) && has_key(mid, r.key) {
            assert(mid[key_at(mid, r.key)].key == r.key);
        }
        assert forall|i: int, j: int| 0 <= i < j < out.len() implies first_seen(
            records,
            (#[trigger] out[i]).key,
        ) < first_seen(records, (#[trigger] out[j]).key) by {
            assert(mid[i].key == out[i].key);
            if j < mid.len() {
                assert(mid[j].key == out[j].key);
                assert(first_seen(t, mid[i].key) < first_seen(t, mid[j].key));
            } else {
                assert(!has_key(mid, r.key));
                assert(!has_key(t, r.key));
            }
        }
    }
}

/// A key is settled exactly where some record of it is confirmed or rejected, and the
/// settled keys are what a recovery counts as no longer needed.
pub proof fn settled_keys_are_counted(records: Seq<EffectView>, key: Seq<char>)
    ensures
        is_resolved(records, key) == exists|i: int|
            0 <= i < records.len() && (#[trigger] records[i]).key == key && (records[i].state
                == EffectState::Confirmed || records[i].state == EffectState::Rejected),
        resolved_keys(records).contains(key) == is_resolved(records, key),
        recovered(records).compacted == resolved_keys(records).len(),
        recovered(records).unresolved == open_effects(records),
{
    lemma_resolved(records);
    if is_resolved(records, key) {
        let i = choose|i: int|
            0 <= i < records.len() && (#[trigger] records[i]).key == key
                && records[i].state.terminal();
        assert(records[i].key == key && (records[i].state == EffectState::Confirmed
            || records[i].state == EffectState::Rejected));
    }
    if exists|i: int|
        0 <= i < records.len() && (#[trigger] records[i]).key == key && (records[i].state
            == EffectState::Confirmed || records[i].state == EffectState::Rejected) {
        let i = choose|i: int|
            0 <= i < records.len() && (#[trigger] records[i]).key == key && (records[i].state
                == EffectState::Confirmed || records[i].state == EffectState::Rejected);
        assert(records[i].key == key && records[i].state.terminal());
    }
}

/// What is open of a key that was recorded and never settled is the last record of it;
/// nothing is open of any other key.
pub proof fn the_last_record_of_an_open_key_is_kept(records: Seq<EffectView>, at: int)
    requires
        0 <= at < records.len(),
        forall|m: int| at < m < records.len() ==> (#[trigger] records[m]).key != records[at].key,
    ensures
        open_effects(records).contains(records[at]) == forall|i: int|
            0 <= i < records.len() && (#[trigger] records[i]).key == records[at].key ==> records[i].state
                != EffectState::Confirmed && records[i].state != EffectState::Rejected,
        forall|j: int|
            0 <= j < open_effects(records).len() ==> records.contains(
                #[trigger] open_effects(records)[j],
            ),
{
    let key = records[at].key;
    let open = open_effects(records);
    recovery_keeps_exactly_the_open_effects(records);
    settled_keys_are_counted(records, key);
    assert(has_key(records, key));
    assert(has_key(open, key) == !is_resolved(records, key));
    assert forall|j: int| 0 <= j < open.len() implies records.contains(#[trigger] open[j]) by {
        assert(is_latest(records, open[j]));
    }
    if has_key(open, key) {
        let j = choose|j: int| 0 <= j < open.len() && (#[trigger] open[j]).key == key;
        assert(is_latest(records, open[j]));
        let m = choose|m: int|
            0 <= m < records.len() && #[trigger] records[m] == open[j] && forall|n: int|
                m < n < records.len() ==> (#[trigger] records[n]).key != open[j].key;
        if m < at {
            assert(records[at].key != open[j].key);
        }
        if at < m {
            assert(records[m].key != key);
        }
        assert(open[j] == records[at]);
    } else if open.contains(records[at]) {
        let j = choose|j: int| 0 <= j < open.len() && open[j] == records[at];
        assert(open[j].key == key);
    }
}

/// A list has a key exactly where one of its records has it; where no key occurs twice,
/// two records of one key are one; and the first place of a key that occurs is of that
/// key, with no earlier record of it.
pub proof fn keys_are_found_where_they_stand(
    list: Seq<EffectView>,
    key: Seq<char>,
    i: int,
    j: int,
)
    ensures
        has_key(list, key) == exists|n: int| 0 <= n < list.len() && (#[trigger] list[n]).key == key,
        distinct(list) && 0 <= i < list.len() && 0 <= j < list.len() && list[i].key == list[j].key
            ==> i == j,
        has_key(list, key) ==> 0 <= first_seen(list, key) < list.len() && list[first_seen(
            list,
            key,
        )].key == key,
        has_key(list, key) && 0 <= i < first_seen(list, key) ==> list[i].key != key,
{
    if has_key(list, key) {
        lemma_first_seen(list, key);
    }
}

/// One more answer is put down either as an outcome or as unknown, and never as both:
/// a confirmation or a rejection is appended to the log as the effect in that state,
/// and any other answer leaves the effect for later, as it was.
pub proof fn an_answer_settles_or_leaves_its_effect(
    open: Seq<EffectView>,
    answers: Seq<EffectState>,
    answer: EffectState,
)
    ensures
        still_unknown(open, Seq::empty()).len() == 0,
        outcomes(open, Seq::empty()).len() == 0,
        ({
            let e = open[answers.len() as int];
            let unknown = still_unknown(open, answers.push(answer));
            let settled = outcomes(open, answers.push(answer));
            match answer {
                EffectState::Confirmed | EffectState::Rejected => unknown == still_unknown(
                    open,
                    answers,
                ) && settled == outcomes(open, answers).push(EffectView { state: answer, ..e }),
                EffectState::Prepared | EffectState::Unknown => unknown == still_unknown(
                    open,
                    answers,
                ).push(e) && settled == outcomes(open, answers),
            }
        }),
{
    assert(answers.push(answer).drop_last() =~= answers);
}

/// A sweep starts with nothing asked, and an answer is about the effect that was asked
/// about. The next question is about the effect behind it.
pub proof fn a_sweep_goes_one_by_one(s: SweepView, answer: EffectState)
    ensures
        sweep_over(s.open).at == 0,
        sweep_over(s.open).open == s.open,
        sweep_over(s.open).still_unknown.len() == 0,
        !sweep_over(s.open).resolved_any,
        answered(s, answer).at == s.at + 1,
        answered(s, answer).open == s.open,
        answer == EffectState::Confirmed || answer == EffectState::Rejected ==> answered(
            s,
            answer,
        ).still_unknown == s.still_unknown && answered(s, answer).resolved_any,
        answer == EffectState::Prepared || answer == EffectState::Unknown ==> answered(
            s,
            answer,
        ).still_unknown == s.still_unknown.push(s.open[s.at as int]) && answered(
            s,
            answer,
        ).resolved_any == s.resolved_any,
{
}

} // verus!

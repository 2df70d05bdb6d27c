use vstd::prelude::*;
use crate::message::{
    complete, missing_field, CollectedMessage, Field, MessageView, ReadError, ReceivedMessage,
    ReceivedView,
};
use crate::table::{
    table_contents, table_insert, table_into_entries, table_len, table_new, MessageTable,
};

verus! {

/// How long, in seconds, a received message stays hidden from other readers
/// when the run will delete what it collects.
pub const LEASE_SECONDS: u32 = 60;

/// Why polling stopped.
#[derive(Clone, Copy, Debug, PartialEq, Eq, Structural)]
pub enum StopReason {
    /// The target number of distinct messages was collected.
    Satisfied,
    /// A poll without blocking came back empty before the target was met.
    Starved,
}

/// What the caller does next for the collector.
#[derive(Clone, Copy, Debug, PartialEq, Eq, Structural)]
pub enum CollectAction {
    /// Receive at most one message, hiding it for this many seconds.
    Receive { visibility_timeout: u32 },
    /// Stop polling.
    Stop(StopReason),
}

/// The polling state of one run: the target, the blocking and drain choices,
/// and the distinct messages seen so far.
pub struct Collector {
    pub target: u32,
    pub blocking: bool,
    pub drain: bool,
    pub table: MessageTable,
    pub starved: bool,
}

/// The mathematical value of a collector.
pub struct CollectorView {
    pub target: nat,
    pub blocking: bool,
    pub drain: bool,
    pub collected: Map<Seq<char>, MessageView>,
    pub starved: bool,
}

impl View for Collector {
    type V = CollectorView;

    open spec fn view(&self) -> CollectorView {
        CollectorView {
            target: self.target as nat,
            blocking: self.blocking,
            drain: self.drain,
            collected: table_contents(self.table),
            starved: self.starved,
        }
    }
}

pub open spec fn views(b: Seq<ReceivedMessage>) -> Seq<ReceivedView> {
    b.map_values(|m: ReceivedMessage| m@)
}

/// The field that the first incomplete delivery of a batch lacks.
pub open spec fn first_missing(b: Seq<ReceivedView>) -> Option<Field>
    decreases b.len(),
{
    if b.len() == 0 {
        None
    } else {
        match missing_field(b[0]) {
            Some(f) => Some(f),
            None => first_missing(b.drop_first()),
        }
    }
}

/// Folds deliveries into the table in order: the later delivery of an
/// identity replaces the earlier one.
pub open spec fn absorb(m: Map<Seq<char>, MessageView>, b: Seq<MessageView>) -> Map<Seq<char>, MessageView>
    decreases b.len(),
{
    if b.len() == 0 {
        m
    } else {
        absorb(m.insert(b[0].id, b[0]), b.drop_first())
    }
}

/// Polling is over: the target is met, or a poll without blocking came back
/// empty.
pub open spec fn finished(s: CollectorView) -> bool {
    s.starved || s.collected.len() >= s.target
}

/// The state after one receive that returned the complete deliveries `b`.
pub open spec fn step(s: CollectorView, b: Seq<ReceivedView>) -> CollectorView {
    if b.len() == 0 {
        CollectorView { starved: !s.blocking, ..s }
    } else {
        CollectorView { collected: absorb(s.collected, b.map_values(|r: ReceivedView| complete(r))), ..s }
    }
}

/// Every entry is stored under its own identity, and there are finitely many.
pub open spec fn keyed_by_id(m: Map<Seq<char>, MessageView>) -> bool {
    &&& m.dom().finite()
    &&& forall|k: Seq<char>| #[trigger] m.contains_key(k) ==> m[k].id == k
}

/// The visibility timeout that each receive asks for.
pub open spec fn lease_of(drain: bool) -> u32 {
    if drain {
        LEASE_SECONDS
    } else {
        0
    }
}

/// The action that a collector in state `s` asks for.
pub open spec fn action_of(s: CollectorView) -> CollectAction {
    if !finished(s) {
        CollectAction::Receive { visibility_timeout: lease_of(s.drain) }
    } else if s.collected.len() >= s.target {
        CollectAction::Stop(StopReason::Satisfied)
    } else {
        CollectAction::Stop(StopReason::Starved)
    }
}

/// The state of a collector that has seen nothing yet.
pub open spec fn initial(target: nat, blocking: bool, drain: bool) -> CollectorView {
    CollectorView { target, blocking, drain, collected: Map::empty(), starved: false }
}

/// The state after one receive for each delivery of `ds`, each receive
/// returning that delivery alone.
pub open spec fn receive_each(s: CollectorView, ds: Seq<ReceivedView>) -> CollectorView
    decreases ds.len(),
{
    if ds.len() == 0 {
        s
    } else {
        receive_each(step(s, seq![ds[0]]), ds.drop_first())
    }
}

/// The state where polling stands after the receives return the batches
/// `bs` in turn; batches left over once polling is finished are never asked for.
pub open spec fn run(s: CollectorView, bs: Seq<Seq<ReceivedView>>) -> CollectorView
    decreases bs.len(),
{
    if bs.len() == 0 || finished(s) {
        s
    } else {
        run(step(s, bs[0]), bs.drop_first())
    }
}

/// How many receives polling makes while the queue returns the batches `bs`.
pub open spec fn polls(s: CollectorView, bs: Seq<Seq<ReceivedView>>) -> nat
    decreases bs.len(),
{
    if bs.len() == 0 || finished(s) {
        0
    } else {
        1 + polls(step(s, bs[0]), bs.drop_first())
    }
}

/// A queue that hands out distinct, complete messages one at a time (none
/// of them already collected in `s`) and otherwise comes back empty.
pub open spec fn distinct_singles(s: CollectorView, bs: Seq<Seq<ReceivedView>>) -> bool {
    &&& forall|i: int| 0 <= i < bs.len() ==> (#[trigger] bs[i]).len() <= 1
    &&& forall|i: int| 0 <= i < bs.len() && (#[trigger] bs[i]).len() == 1 ==> {
        &&& missing_field(bs[i][0]) is None
        &&& !s.collected.contains_key(bs[i][0].id->Some_0)
    }
    &&& forall|i: int, j: int| 0 <= i < j < bs.len() && (#[trigger] bs[i]).len() == 1 && (#[trigger] bs[j]).len() == 1 ==>
        bs[i][0].id != bs[j][0].id
}

proof fn lemma_absorb_grows(m: Map<Seq<char>, MessageView>, b: Seq<MessageView>)
    ensures
        m.dom().subset_of(absorb(m, b).dom()),
        forall|i: int| 0 <= i < b.len() ==> absorb(m, b).contains_key(#[trigger] b[i].id),
    decreases b.len(),
{
    if b.len() > 0 {
        let m1 = m.insert(b[0].id, b[0]);
        lemma_absorb_grows(m1, b.drop_first());
        assert forall|i: int| 0 <= i < b.len() implies absorb(m, b).contains_key(#[trigger] b[i].id) by {
            if i > 0 {
                assert(b[i] == b.drop_first()[i - 1]);
            }
        }
    }
}

/// Polling never forgets a message: every identity collected before a
/// receive is still collected after it, along with every identity that the
/// receive delivered.
pub proof fn lemma_collected_only_grows(s: CollectorView, b: Seq<ReceivedView>)
    ensures
        s.collected.dom().subset_of(step(s, b).collected.dom()),
        forall|i: int| 0 <= i < b.len() ==> step(s, b).collected.contains_key(#[trigger] b[i].id->Some_0),
{
    if b.len() > 0 {
        let cb = b.map_values(|r: ReceivedView| complete(r));
        lemma_absorb_grows(s.collected, cb);
        assert forall|i: int| 0 <= i < b.len() implies step(s, b).collected.contains_key(#[trigger] b[i].id->Some_0) by {
            assert(cb[i].id == b[i].id->Some_0);
        }
    }
}

/// Delivering one identity again and again, one receive per delivery,
/// leaves a single entry for it, holding the last delivery and so its
/// receipt handle.
pub proof fn lemma_redelivery_collapses(s: CollectorView, id: Seq<char>, ds: Seq<ReceivedView>)
    requires
        ds.len() > 0,
        forall|i: int| 0 <= i < ds.len() ==> missing_field(#[trigger] ds[i]) is None && ds[i].id == Some(id),
    ensures
        receive_each(s, ds).collected == s.collected.insert(id, complete(ds.last())),
        receive_each(s, ds).collected.dom() == s.collected.dom().insert(id),
        receive_each(s, ds).collected[id].receipt == ds.last().receipt->Some_0,
    decreases ds.len(),
{
    let d = ds[0];
    let b = seq![d];
    let cb = b.map_values(|r: ReceivedView| complete(r));
    assert(cb.drop_first() =~= Seq::<MessageView>::empty());
    assert(cb[0] == complete(d));
    assert(absorb(s.collected.insert(cb[0].id, cb[0]), cb.drop_first()) == s.collected.insert(cb[0].id, cb[0]));
    assert(absorb(s.collected, cb) == s.collected.insert(id, complete(d)));
    let s1 = step(s, b);
    assert(s1.collected == s.collected.insert(id, complete(d)));
    if ds.len() == 1 {
        assert(ds.drop_first() =~= Seq::<ReceivedView>::empty());
        assert(ds.last() == d);
    } else {
        let rest = ds.drop_first();
        assert(rest.last() == ds.last());
        assert forall|i: int| 0 <= i < rest.len() implies missing_field(#[trigger] rest[i]) is None && rest[i].id == Some(id) by {
            assert(rest[i] == ds[i + 1]);
        }
        lemma_redelivery_collapses(s1, id, rest);
        assert(s.collected.insert(id, complete(d)).insert(id, complete(ds.last())) =~= s.collected.insert(id, complete(ds.last())));
    }
    assert(s.collected.insert(id, complete(ds.last())).dom() =~= s.collected.dom().insert(id));
}

proof fn lemma_singles_stop(s: CollectorView, bs: Seq<Seq<ReceivedView>>)
    requires
        !s.blocking,
        s.collected.dom().finite(),
        s.collected.len() <= s.target,
        distinct_singles(s, bs),
    ensures
        polls(s, bs) <= s.target - s.collected.len() + 1,
        bs.len() >= s.target - s.collected.len() + 1 ==> finished(run(s, bs)),
    decreases bs.len(),
{
    if bs.len() == 0 || finished(s) {
    } else {
        let b = bs[0];
        let rest = bs.drop_first();
        let s1 = step(s, b);
        if b.len() == 0 {
            assert(finished(s1));
            assert(polls(s1, rest) == 0);
            assert(run(s1, rest) == s1);
        } else {
            let d = b[0];
            let id = d.id->Some_0;
            let cb = b.map_values(|r: ReceivedView| complete(r));
            assert(b.len() == 1);
            assert(cb.drop_first() =~= Seq::<MessageView>::empty());
            assert(cb[0].id == id);
            assert(absorb(s.collected.insert(cb[0].id, cb[0]), cb.drop_first()) == s.collected.insert(cb[0].id, cb[0]));
            assert(absorb(s.collected, cb) == s.collected.insert(id, cb[0]));
            assert(!s.collected.contains_key(id));
            assert(s1.collected == s.collected.insert(id, cb[0]));
            assert(s1.collected.len() == s.collected.len() + 1);
            assert forall|i: int| 0 <= i < rest.len() && (#[trigger] rest[i]).len() == 1 implies {
                &&& missing_field(rest[i][0]) is None
                &&& !s1.collected.contains_key(rest[i][0].id->Some_0)
            } by {
                assert(rest[i] == bs[i + 1]);
                assert(bs[0].len() == 1);
                assert(bs[0][0].id != bs[i + 1][0].id);
            }
            assert forall|i: int, j: int| 0 <= i < j < rest.len() && (#[trigger] rest[i]).len() == 1 && (#[trigger] rest[j]).len() == 1 implies
                rest[i][0].id != rest[j][0].id by {
                assert(rest[i] == bs[i + 1] && rest[j] == bs[j + 1]);
            }
            assert forall|i: int| 0 <= i < rest.len() implies (#[trigger] rest[i]).len() <= 1 by {
                assert(rest[i] == bs[i + 1]);
            }
            lemma_singles_stop(s1, rest);
        }
    }
}

/// Without blocking, a queue that yields distinct messages until it runs
/// dry and then comes back empty is polled at most `target + 1` times, and
/// polling is over once that many receives have been answered.
pub proof fn lemma_nonblocking_terminates(target: nat, drain: bool, bs: Seq<Seq<ReceivedView>>)
    requires
        distinct_singles(initial(target, false, drain), bs),
    ensures
        polls(initial(target, false, drain), bs) <= target + 1,
        bs.len() >= target + 1 ==> finished(run(initial(target, false, drain), bs)),
{
    let s = initial(target, false, drain);
    assert(s.collected.dom() =~= Set::<Seq<char>>::empty());
    lemma_singles_stop(s, bs);
}

proof fn lemma_blocking_waits(s: CollectorView, bs: Seq<Seq<ReceivedView>>)
    requires
        s.blocking,
        !finished(s),
        forall|i: int| 0 <= i < bs.len() ==> (#[trigger] bs[i]).len() == 0,
    ensures
        run(s, bs) == s,
        polls(s, bs) == bs.len(),
    decreases bs.len(),
{
    if bs.len() > 0 {
        let rest = bs.drop_first();
        assert(bs[0].len() == 0);
        assert(step(s, bs[0]) == s);
        assert forall|i: int| 0 <= i < rest.len() implies (#[trigger] rest[i]).len() == 0 by {
            assert(rest[i] == bs[i + 1]);
        }
        lemma_blocking_waits(s, rest);
    }
}

/// With blocking, a queue that never yields a message keeps the collector
/// polling: after any number of empty receives it is not finished, and
/// every one of them was asked for.
pub proof fn lemma_blocking_never_gives_up(target: nat, drain: bool, bs: Seq<Seq<ReceivedView>>)
    requires
        target > 0,
        forall|i: int| 0 <= i < bs.len() ==> (#[trigger] bs[i]).len() == 0,
    ensures
        !finished(run(initial(target, true, drain), bs)),
        polls(initial(target, true, drain), bs) == bs.len(),
{
    let s = initial(target, true, drain);
    assert(s.collected.dom() =~= Set::<Seq<char>>::empty());
    assert(s.collected.len() == 0);
    lemma_blocking_waits(s, bs);
}

impl Collector {
    pub open spec fn wf(&self) -> bool {
        keyed_by_id(self@.collected)
    }

    /// A collector that has seen nothing yet.
    pub fn new(target: u32, blocking: bool, drain: bool) -> (r: Collector)
        ensures
            r.wf(),
            r@ == (CollectorView {
                target: target as nat,
                blocking,
                drain,
                collected: Map::empty(),
                starved: false,
            }),
    {
        let table = table_new();
        Collector { target, blocking, drain, table, starved: false }
    }

    /// The number of distinct messages collected so far.
    pub fn collected_len(&self) -> (r: usize)
        ensures
            r == self@.collected.len(),
    {
        table_len(&self.table)
    }

    /// Whether polling is over.
    pub fn is_finished(&self) -> (r: bool)
        ensures
            r == finished(self@),
    {
        self.starved || table_len(&self.table) >= self.target as usize
    }

    /// What to do next: receive once more, or stop and say why.
    pub fn next_action(&self) -> (r: CollectAction)
        ensures
            r == action_of(self@),
    {
        let len = table_len(&self.table);
        if !self.starved && len < self.target as usize {
            CollectAction::Receive { visibility_timeout: if self.drain { LEASE_SECONDS } else { 0 } }
        } else if len >= self.target as usize {
            CollectAction::Stop(StopReason::Satisfied)
        } else {
            CollectAction::Stop(StopReason::Starved)
        }
    }

    /// Takes in what one receive returned. A batch with an incomplete
    /// delivery is refused whole, naming the field that the first such
    /// delivery lacks, and leaves the collector as it was.
    pub fn record_receive(&mut self, batch: Vec<ReceivedMessage>) -> (r: Result<(), ReadError>)
        requires
            old(self).wf(),
            !finished(old(self)@),
        ensures
            final(self).wf(),
            match first_missing(views(batch@)) {
                Some(f) => r == Err::<(), ReadError>(ReadError::MissingField(f)) && final(self)@ == old(self)@,
                None => r is Ok && final(self)@ == step(old(self)@, views(batch@)),
            },
    {
        let ghost orig = views(batch@);
        let mut rest = batch;
        let mut ready: Vec<CollectedMessage> = Vec::new();
        assert(orig.subrange(0, orig.len() as int) =~= orig);
        while rest.len() > 0
            invariant
                self@ == old(self)@,
                self.wf(),
                orig == views(batch@),
                ready@.len() <= orig.len(),
                views(rest@) =~= orig.subrange(ready@.len() as int, orig.len() as int),
                first_missing(orig) == first_missing(orig.subrange(ready@.len() as int, orig.len() as int)),
                forall|j: int| 0 <= j < ready@.len() ==> (#[trigger] ready@[j])@ == complete(orig[j]),
            decreases rest@.len(),
        {
            let ghost k = ready@.len() as int;
            let ghost tail = orig.subrange(k, orig.len() as int);
            let m = rest.remove(0);
            assert(tail[0] == m@);
            assert(tail.drop_first() =~= orig.subrange(k + 1, orig.len() as int));
            assert(views(rest@) =~= orig.subrange(k + 1, orig.len() as int));
            match m.into_collected() {
                Err(f) => {
                    assert(tail.len() > 0 && missing_field(tail[0]) == Some(f));
                    assert(first_missing(tail) == Some(f));
                    return Err(ReadError::MissingField(f));
                },
                Ok(c) => {
                    ready.push(c);
                },
            }
        }
        assert(orig.subrange(orig.len() as int, orig.len() as int) =~= Seq::<ReceivedView>::empty());
        assert(ready@.len() == orig.len());
        let ghost cm = orig.map_values(|r: ReceivedView| complete(r));
        if ready.len() == 0 {
            if !self.blocking {
                self.starved = true;
            }
            return Ok(());
        }
        let ghost start = self@.collected;
        let mut j: usize = 0;
        let ghost n = ready@.len();
        let ghost all = ready@;
        assert(cm.subrange(0, n as int) =~= cm);
        assert(all.subrange(0, n as int) =~= all);
        while ready.len() > 0
            invariant
                n == cm.len(),
                n == all.len(),
                orig == views(batch@),
                cm == orig.map_values(|r: ReceivedView| complete(r)),
                start == old(self)@.collected,
                n <= usize::MAX,
                j + ready@.len() == n,
                ready@ =~= all.subrange(j as int, n as int),
                forall|i: int| 0 <= i < n ==> (#[trigger] all[i])@ == cm[i],
                absorb(start, cm) == absorb(table_contents(self.table), cm.subrange(j as int, n as int)),
                keyed_by_id(table_contents(self.table)),
                self.target == old(self).target,
                self.blocking == old(self).blocking,
                self.drain == old(self).drain,
                self.starved == old(self).starved,
            decreases ready@.len(),
        {
            let c = ready.remove(0);
            let key = c.message_id.clone();
            let ghost cur = table_contents(self.table);
            assert(cm.subrange(j as int, n as int).drop_first() =~= cm.subrange(j + 1, n as int));
            assert(cm.subrange(j as int, n as int)[0] == c@);
            table_insert(&mut self.table, key, c);
            assert(table_contents(self.table) == cur.insert(c@.id, c@));
            j = j + 1;
        }
        assert(cm.subrange(n as int, n as int) =~= Seq::<MessageView>::empty());
        assert(cm.subrange(0, n as int) =~= cm);
        Ok(())
    }

    /// Hands out the collected messages, each distinct identity once, in no
    /// particular order.
    pub fn into_messages(self) -> (r: Vec<CollectedMessage>)
        requires
            self.wf(),
        ensures
            r@.len() == self@.collected.len(),
            forall|i: int| 0 <= i < r@.len() ==> {
                &&& self@.collected.contains_key((#[trigger] r@[i])@.id)
                &&& self@.collected[r@[i]@.id] == r@[i]@
            },
            forall|i: int, j: int| 0 <= i < j < r@.len() ==> r@[i]@.id != r@[j]@.id,
    {
        let ghost m = self@.collected;
        let mut entries = table_into_entries(self.table);
        let ghost e = entries@;
        let mut out: Vec<CollectedMessage> = Vec::new();
        while entries.len() > 0
            invariant
                out@.len() + entries@.len() == e.len(),
                entries@ =~= e.subrange(out@.len() as int, e.len() as int),
                forall|i: int| 0 <= i < out@.len() ==> (#[trigger] out@[i])@ == e[i].1@,
            decreases entries@.len(),
        {
            let ghost k = out@.len() as int;
            let (_key, c) = entries.remove(0);
            assert(e.subrange(k, e.len() as int).drop_first() =~= e.subrange(k + 1, e.len() as int));
            out.push(c);
        }
        assert forall|i: int| 0 <= i < out@.len() implies m.contains_key((#[trigger] out@[i])@.id) && m[out@[i]@.id] == out@[i]@ by {
            assert(m.contains_key(e[i].0@));
        }
        out
    }
}

} // verus!

//! The timer wheel: a ring of buckets, one of which is due each second, the
//! ceiling that bounds how many connections are held, and the pass that writes
//! to every connection of the due bucket.

use vstd::arithmetic::div_mod::{
    lemma_fundamental_div_mod, lemma_mod_bound, lemma_mod_multiples_vanish, lemma_small_mod,
};
use vstd::prelude::*;
use vstd::seq_lib::to_multiset_build;
use crate::banner::{fragment, fragment_of};
use crate::connection::{Connection, Verdict, WriteOutcome};
use crate::elapsed::Elapsed;
use crate::error::Error;
use crate::peer_addr::PeerAddr;
use crate::seq_facts::{lemma_front_multiset, lemma_swap_remove_tail};

verus! {

/// The number of connections that the buckets `slots` hold together.
pub open spec fn held<S>(slots: Seq<Seq<Connection<S>>>) -> nat
    decreases slots.len(),
{
    if slots.len() == 0 {
        0
    } else {
        held(slots.drop_last()) + slots.last().len()
    }
}

/// The bucket index that follows `tick` on a ring of `delay` buckets.
pub open spec fn next_tick(tick: int, delay: int) -> int {
    (tick + 1) % delay
}

/// The counters of a tarpit, as they are reported.
#[derive(Debug, Clone, Copy, PartialEq, Eq, Structural)]
pub struct Stats {
    /// Connections held now.
    pub clients: usize,
    /// Connections ever admitted.
    pub total: u64,
    /// Bytes ever written.
    pub bytes: u64,
}

/// A connection that was given up, and why.
#[derive(Debug, PartialEq, Eq)]
pub struct Evicted<S> {
    pub connection: Connection<S>,
    pub cause: Error,
}

/// The bytes that one outcome reports as written.
pub open spec fn bytes_of(outcome: WriteOutcome) -> nat {
    match outcome {
        WriteOutcome::Written(n) => n as nat,
        _ => 0,
    }
}

/// The bytes that `outcomes` report as written, all together.
pub open spec fn written(outcomes: Seq<WriteOutcome>) -> nat
    decreases outcomes.len(),
{
    if outcomes.len() == 0 {
        0
    } else {
        written(outcomes.drop_last()) + bytes_of(outcomes.last())
    }
}

/// The connections of `bucket` that stay when connection `i` meets outcome
/// `i`, each as its write attempt left it.
pub open spec fn survivors<S>(
    bucket: Seq<Connection<S>>,
    outcomes: Seq<WriteOutcome>,
    delay: int,
    timeout: int,
) -> Seq<Connection<S>>
    decreases bucket.len(),
{
    if bucket.len() == 0 || outcomes.len() == 0 {
        Seq::empty()
    } else {
        let rest = survivors(bucket.drop_first(), outcomes.drop_first(), delay, timeout);
        match bucket[0].verdict(outcomes[0], delay, timeout) {
            Verdict::Retain => seq![bucket[0].settled(outcomes[0])] + rest,
            Verdict::Evict(_) => rest,
        }
    }
}

/// The connections of `bucket` that are given up when connection `i` meets
/// outcome `i`, each as its write attempt left it and with the cause.
pub open spec fn casualties<S>(
    bucket: Seq<Connection<S>>,
    outcomes: Seq<WriteOutcome>,
    delay: int,
    timeout: int,
) -> Seq<Evicted<S>>
    decreases bucket.len(),
{
    if bucket.len() == 0 || outcomes.len() == 0 {
        Seq::empty()
    } else {
        let rest = casualties(bucket.drop_first(), outcomes.drop_first(), delay, timeout);
        match bucket[0].verdict(outcomes[0], delay, timeout) {
            Verdict::Retain => rest,
            Verdict::Evict(cause) => seq![
                Evicted { connection: bucket[0].settled(outcomes[0]), cause },
            ] + rest,
        }
    }
}

/// The state of a tarpit, as contracts see it.
pub struct Wheel<S> {
    /// The text that is trickled to every connection.
    pub banner: Seq<u8>,
    /// The ring: one bucket for each second of the delay.
    pub slots: Seq<Seq<Connection<S>>>,
    /// Where the ticker stands.
    pub tick: int,
    /// The bucket that was due most recently.
    pub last_tick: int,
    /// The ceiling on held connections.
    pub max_clients: int,
    /// Seconds between two writes to one connection.
    pub delay: int,
    /// Seconds of backpressure after which a connection is given up.
    pub timeout: int,
    /// Connections held now.
    pub num_clients: int,
    /// Connections ever admitted.
    pub total_clients: int,
    /// Bytes ever written.
    pub total_bytes: int,
}

impl<S> Wheel<S> {
    /// A tarpit that has not ticked yet and holds nobody.
    pub open spec fn fresh(banner: Seq<u8>, max_clients: int, delay: int, timeout: int) -> Wheel<
        S,
    > {
        Wheel {
            banner,
            slots: Seq::new(delay as nat, |b: int| Seq::empty()),
            tick: delay - 1,
            last_tick: 0,
            max_clients,
            delay,
            timeout,
            num_clients: 0,
            total_clients: 0,
            total_bytes: 0,
        }
    }

    /// The bucket that is due.
    pub open spec fn active(self) -> Seq<Connection<S>> {
        self.slots[self.last_tick]
    }

    /// Whether one more connection may be admitted.
    pub open spec fn accepting(self) -> bool {
        self.num_clients < self.max_clients
    }

    /// What holds of the state between any two operations.
    pub open spec fn wf(self) -> bool {
        &&& self.banner.len() > 0
        &&& self.delay >= 1
        &&& self.slots.len() == self.delay
        &&& 0 <= self.tick < self.delay
        &&& 0 <= self.last_tick < self.delay
        &&& 0 <= self.num_clients <= self.max_clients
        &&& self.num_clients == held(self.slots)
        &&& self.num_clients <= self.total_clients
        &&& 0 <= self.total_bytes
        &&& forall|b: int, i: int|
            0 <= b < self.slots.len() && 0 <= i < self.slots[b].len() ==> self.keeps(
                #[trigger] self.slots[b][i],
            )
    }

    /// What holds of every connection that is held: its bytes are part of
    /// the total, and its run of backpressure has not used up the budget.
    pub open spec fn keeps(self, c: Connection<S>) -> bool {
        &&& c.bytes_sent <= self.total_bytes
        &&& c.within_budget(self.delay, self.timeout)
    }

    /// The state after the ticker has fired once.
    pub open spec fn advanced(self) -> Wheel<S> {
        Wheel {
            tick: next_tick(self.tick, self.delay),
            last_tick: next_tick(self.tick, self.delay),
            ..self
        }
    }

    /// The state after `c` has been admitted: it joins the bucket that is
    /// due now.
    pub open spec fn admitted(self, c: Connection<S>) -> Wheel<S> {
        Wheel {
            slots: self.slots.update(self.last_tick, self.active().push(c)),
            num_clients: self.num_clients + 1,
            total_clients: self.total_clients + 1,
            ..self
        }
    }

    /// The state after the ticker has fired `k` times.
    pub open spec fn advanced_by(self, k: nat) -> Wheel<S>
        decreases k,
    {
        if k == 0 {
            self
        } else {
            self.advanced_by((k - 1) as nat).advanced()
        }
    }

    /// The number of firings of the ticker after which bucket `b` is next
    /// due.
    pub open spec fn wait_for(self, b: int) -> int {
        if b > self.tick {
            b - self.tick
        } else {
            b - self.tick + self.delay
        }
    }

    /// `after` and `evicted` are what a pass over the due bucket leaves when
    /// its connection `i` met outcome `i`: the survivors are in the bucket
    /// and the casualties outside, in whatever order; every other bucket
    /// is as it was; the counters have followed.
    pub open spec fn settles_to(
        self,
        outcomes: Seq<WriteOutcome>,
        after: Wheel<S>,
        evicted: Seq<Evicted<S>>,
    ) -> bool {
        &&& after == (Wheel {
            slots: after.slots,
            num_clients: self.num_clients - evicted.len(),
            total_bytes: self.total_bytes + written(outcomes),
            ..self
        })
        &&& after.slots.len() == self.slots.len()
        &&& forall|b: int|
            0 <= b < self.slots.len() && b != self.last_tick ==> #[trigger] after.slots[b]
                == self.slots[b]
        &&& after.active().to_multiset() == survivors(
            self.active(),
            outcomes,
            self.delay,
            self.timeout,
        ).to_multiset()
        &&& evicted.to_multiset() == casualties(
            self.active(),
            outcomes,
            self.delay,
            self.timeout,
        ).to_multiset()
    }
}

/// A pass settles every connection of the bucket exactly once: each one is
/// either among the survivors or among the casualties, and nobody else is.
pub proof fn lemma_pass_settles_each_once<S>(
    bucket: Seq<Connection<S>>,
    outcomes: Seq<WriteOutcome>,
    delay: int,
    timeout: int,
)
    requires
        outcomes.len() == bucket.len(),
    ensures
        survivors(bucket, outcomes, delay, timeout).len() + casualties(
            bucket,
            outcomes,
            delay,
            timeout,
        ).len() == bucket.len(),
    decreases bucket.len(),
{
    if bucket.len() > 0 {
        lemma_pass_settles_each_once(bucket.drop_first(), outcomes.drop_first(), delay, timeout);
    }
}

/// Replacing one bucket changes the number of held connections by the
/// difference of the two lengths.
pub proof fn lemma_held_update<S>(
    slots: Seq<Seq<Connection<S>>>,
    b: int,
    bucket: Seq<Connection<S>>,
)
    requires
        0 <= b < slots.len(),
    ensures
        held(slots.update(b, bucket)) == held(slots) - slots[b].len() + bucket.len(),
    decreases slots.len(),
{
    let after = slots.update(b, bucket);
    if b == slots.len() - 1 {
        assert(after.drop_last() =~= slots.drop_last());
    } else {
        lemma_held_update(slots.drop_last(), b, bucket);
        assert(after.drop_last() =~= slots.drop_last().update(b, bucket));
    }
}

/// A ring of empty buckets holds nobody.
pub proof fn lemma_held_empty<S>(slots: Seq<Seq<Connection<S>>>)
    requires
        forall|b: int| 0 <= b < slots.len() ==> (#[trigger] slots[b]).len() == 0,
    ensures
        held(slots) == 0,
    decreases slots.len(),
{
    if slots.len() > 0 {
        lemma_held_empty(slots.drop_last());
    }
}

/// Firing the ticker moves no connection: after `k` firings the ticker
/// stands `k` buckets further round the ring, and everything else is as it
/// was.
pub proof fn lemma_advanced_by<S>(w: Wheel<S>, k: nat)
    requires
        w.wf(),
    ensures
        w.advanced_by(k).wf(),
        w.advanced_by(k) == (Wheel {
            tick: w.advanced_by(k).tick,
            last_tick: w.advanced_by(k).last_tick,
            ..w
        }),
        w.advanced_by(k).tick == (w.tick + k) % w.delay,
        k >= 1 ==> w.advanced_by(k).last_tick == (w.tick + k) % w.delay,
    decreases k,
{
    let d = w.delay;
    if k == 0 {
        assert(w.tick % d == w.tick) by (nonlinear_arith)
            requires
                0 <= w.tick < d,
        ;
    } else {
        lemma_advanced_by(w, (k - 1) as nat);
        let t = w.tick;
        assert(((t + (k - 1)) % d + 1) % d == (t + k) % d) by (nonlinear_arith)
            requires
                d >= 1,
        ;
        assert(0 <= (t + k) % d < d) by (nonlinear_arith)
            requires
                d >= 1,
        ;
    }
}

/// The timer wheel's schedule: bucket `b` is due for the first time after
/// at least one and at most `delay` firings of the ticker, and from then on
/// after every `delay` firings, and at no other time. A connection joins
/// the bucket that is due when it is admitted and never leaves it for
/// another, so this is when it is written to.
pub proof fn lemma_visit_schedule<S>(w: Wheel<S>, b: int, k: nat)
    requires
        w.wf(),
        0 <= b < w.delay,
        k >= 1,
    ensures
        1 <= w.wait_for(b) <= w.delay,
        w.advanced_by(k).last_tick == b <==> k >= w.wait_for(b) && (k - w.wait_for(b)) % w.delay
            == 0,
{
    lemma_advanced_by(w, k);
    lemma_ring_arrival(w.delay, w.tick, b, k as int);
}

/// On a ring of `d` positions, `k` steps from position `t` end on position
/// `b` exactly when `k` is the number of steps to the next arrival at `b`, or
/// that number and whole rounds more.
pub proof fn lemma_ring_arrival(d: int, t: int, b: int, k: int)
    requires
        d >= 1,
        0 <= t < d,
        0 <= b < d,
        k >= 1,
    ensures
        ({
            let first = if b > t {
                b - t
            } else {
                b - t + d
            };
            ((t + k) % d == b) <==> (k >= first && (k - first) % d == 0)
        }),
{
    let first = if b > t {
        b - t
    } else {
        b - t + d
    };
    let m = k - first;
    let q = m / d;
    let r = m % d;
    lemma_fundamental_div_mod(m, d);
    if b <= t {
        lemma_mod_multiples_vanish(1, b + m, d);
    }
    lemma_mod_multiples_vanish(q, b + r, d);
    if b + r < d {
        lemma_small_mod((b + r) as nat, d as nat);
    } else {
        lemma_mod_multiples_vanish(1, b + r - d, d);
        lemma_small_mod((b + r - d) as nat, d as nat);
    }
    if m < 0 {
        lemma_mod_multiples_vanish(-1, m + d, d);
        lemma_small_mod((m + d) as nat, d as nat);
    }
}

/// The ceiling on admission: never more connections are held than it
/// allows; a connection may be admitted exactly while fewer are held;
/// admitting one then keeps the state sound; and a pass that gives up at
/// least one connection leaves room for another.
pub proof fn lemma_admission_ceiling<S>(
    w: Wheel<S>,
    c: Connection<S>,
    outcomes: Seq<WriteOutcome>,
    after: Wheel<S>,
    evicted: Seq<Evicted<S>>,
)
    requires
        w.wf(),
    ensures
        w.num_clients <= w.max_clients,
        w.accepting() <==> w.num_clients != w.max_clients,
        w.accepting() && c.bytes_sent == 0 && c.backpressure_count == 0 ==> w.admitted(c).wf()
            && w.admitted(c).num_clients <= w.max_clients,
        w.settles_to(outcomes, after, evicted) && evicted.len() > 0 ==> after.accepting(),
{
    if w.accepting() && c.bytes_sent == 0 && c.backpressure_count == 0 {
        let next = w.admitted(c);
        lemma_held_update(w.slots, w.last_tick, w.active().push(c));
    }
}

/// When a connection that is admitted now will be written to: it joins the
/// bucket that is due now, that bucket is next due after at least one and at
/// most `delay` firings of the ticker, and after that exactly every `delay`
/// firings. Firing the ticker does not move it.
pub proof fn lemma_admitted_schedule<S>(w: Wheel<S>, c: Connection<S>, k: nat)
    requires
        w.wf(),
        w.accepting(),
        c.bytes_sent == 0,
        c.backpressure_count == 0,
        k >= 1,
    ensures
        w.admitted(c).wf(),
        w.admitted(c).active().last() == c,
        1 <= w.admitted(c).wait_for(w.last_tick) <= w.delay,
        w.admitted(c).advanced_by(k).slots == w.admitted(c).slots,
        w.admitted(c).advanced_by(k).last_tick == w.last_tick <==> k >= w.admitted(c).wait_for(
            w.last_tick,
        ) && (k - w.admitted(c).wait_for(w.last_tick)) % w.delay == 0,
{
    lemma_admission_ceiling(w, c, Seq::empty(), w, Seq::empty());
    lemma_advanced_by(w.admitted(c), k);
    lemma_visit_schedule(w.admitted(c), w.last_tick, k);
}

/// A tarpit: the connections it holds, spread over a ring of buckets, and
/// its counters.
pub struct Tarpit<S> {
    banner: Vec<u8>,
    slots: Vec<Vec<Connection<S>>>,
    tick: usize,
    last_tick: usize,
    max_clients: usize,
    delay: u16,
    timeout: u16,
    num_clients: usize,
    total_clients: u64,
    total_bytes: u64,
}

impl<S> View for Tarpit<S> {
    type V = Wheel<S>;

    closed spec fn view(&self) -> Wheel<S> {
        Wheel {
            banner: self.banner@,
            slots: Seq::new(self.slots@.len(), |b: int| self.slots@[b]@),
            tick: self.tick as int,
            last_tick: self.last_tick as int,
            max_clients: self.max_clients as int,
            delay: self.delay as int,
            timeout: self.timeout as int,
            num_clients: self.num_clients as int,
            total_clients: self.total_clients as int,
            total_bytes: self.total_bytes as int,
        }
    }
}

impl<S> Tarpit<S> {
    /// A tarpit that trickles `banner`, holds at most `max_clients`
    /// connections, writes to each every `delay` seconds and gives one up
    /// after `timeout` seconds of backpressure. There is none for an empty
    /// banner or a delay of zero.
    pub fn new(banner: Vec<u8>, max_clients: usize, delay: u16, timeout: u16) -> (made: Option<
        Tarpit<S>,
    >)
        ensures
            made is Some <==> banner@.len() > 0 && delay >= 1,
            made matches Some(tarpit) ==> {
                &&& tarpit@ == Wheel::<S>::fresh(
                    banner@,
                    max_clients as int,
                    delay as int,
                    timeout as int,
                )
                &&& tarpit@.wf()
            },
    {
        if banner.len() == 0 || delay == 0 {
            return None;
        }
        let mut slots: Vec<Vec<Connection<S>>> = Vec::new();
        let mut b: u16 = 0;
        while b < delay
            invariant
                b <= delay,
                slots@.len() == b,
                forall|k: int| 0 <= k < b ==> (#[trigger] slots@[k])@.len() == 0,
            decreases delay - b,
        {
            slots.push(Vec::new());
            b = b + 1;
        }
        let tarpit = Tarpit {
            banner,
            slots,
            tick: (delay - 1) as usize,
            last_tick: 0,
            max_clients,
            delay,
            timeout,
            num_clients: 0,
            total_clients: 0,
            total_bytes: 0,
        };
        proof {
            assert(tarpit@.slots =~~= Wheel::<S>::fresh(
                banner@,
                max_clients as int,
                delay as int,
                timeout as int,
            ).slots);
            lemma_held_empty(tarpit@.slots);
        }
        Some(tarpit)
    }

    /// Whether one more connection may be admitted: the number held is
    /// below the ceiling.
    pub fn accepting(&self) -> (open: bool)
        ensures
            open == self@.accepting(),
    {
        self.num_clients < self.max_clients
    }

    /// Connections held now.
    pub fn num_clients(&self) -> (n: usize)
        ensures
            n == self@.num_clients,
    {
        self.num_clients
    }

    /// Connections ever admitted.
    pub fn total_clients(&self) -> (n: u64)
        ensures
            n == self@.total_clients,
    {
        self.total_clients
    }

    /// Bytes ever written.
    pub fn total_bytes(&self) -> (n: u64)
        ensures
            n == self@.total_bytes,
    {
        self.total_bytes
    }

    /// The ceiling on held connections.
    pub fn max_clients(&self) -> (n: usize)
        ensures
            n == self@.max_clients,
    {
        self.max_clients
    }

    /// Seconds between two writes to one connection.
    pub fn delay(&self) -> (secs: u16)
        ensures
            secs == self@.delay,
    {
        self.delay
    }

    /// Seconds of backpressure after which a connection is given up.
    pub fn timeout(&self) -> (secs: u16)
        ensures
            secs == self@.timeout,
    {
        self.timeout
    }

    /// The bucket that was due most recently.
    pub fn last_tick(&self) -> (bucket: usize)
        ensures
            bucket == self@.last_tick,
    {
        self.last_tick
    }

    /// Admits a connection if fewer are held than the ceiling allows: it
    /// joins the bucket that is due now, with nothing sent and no
    /// backpressure. At the ceiling nothing changes and the socket is handed
    /// back.
    pub fn accept(&mut self, sock: S, peer: PeerAddr, start: Elapsed) -> (refused: Result<(), S>)
        requires
            old(self)@.wf(),
            old(self)@.total_clients < u64::MAX,
        ensures
            final(self)@.wf(),
            old(self)@.accepting() ==> refused is Ok && final(self)@ == old(self)@.admitted(
                Connection { sock, peer, start, bytes_sent: 0, backpressure_count: 0 },
            ),
            !old(self)@.accepting() ==> refused == Err::<(), S>(sock) && final(self)@ == old(
                self,
            )@,
    {
        if self.num_clients >= self.max_clients {
            return Err(sock);
        }
        let connection = Connection::new(sock, peer, start);
        let t: usize = self.last_tick;
        proof {
            lemma_held_update(self@.slots, t as int, self@.active().push(connection));
        }
        self.slots[t].push(connection);
        self.num_clients = self.num_clients + 1;
        self.total_clients = self.total_clients + 1;
        assert(self@.slots =~= old(self)@.admitted(connection).slots);
        Ok(())
    }

    /// Fires the ticker: the next bucket of the ring becomes due. Gives its
    /// index.
    pub fn advance(&mut self) -> (due: usize)
        requires
            old(self)@.wf(),
        ensures
            final(self)@ == old(self)@.advanced(),
            final(self)@.wf(),
            due == final(self)@.last_tick,
    {
        let next: usize = if self.tick + 1 >= self.delay as usize {
            0
        } else {
            self.tick + 1
        };
        assert(next == next_tick(self.tick as int, self.delay as int)) by (nonlinear_arith)
            requires
                0 <= self.tick < self.delay,
                next == (if self.tick + 1 >= self.delay {
                    0
                } else {
                    self.tick + 1
                }),
        ;
        self.tick = next;
        self.last_tick = next;
        next
    }

    /// The number of connections in the bucket that is due.
    pub fn due(&self) -> (n: usize)
        requires
            self@.wf(),
        ensures
            n == self@.active().len(),
    {
        self.slots[self.last_tick].len()
    }

    /// Connection `i` of the bucket that is due.
    pub fn connection(&self, i: usize) -> (c: &Connection<S>)
        requires
            self@.wf(),
            i < self@.active().len(),
        ensures
            *c == self@.active()[i as int],
    {
        &self.slots[self.last_tick][i]
    }

    /// What to write to connection `i` of the bucket that is due: the rest
    /// of the banner line that it has reached.
    pub fn offer(&self, i: usize) -> (frag: &[u8])
        requires
            self@.wf(),
            i < self@.active().len(),
        ensures
            frag@ == fragment_of(self@.banner, self@.active()[i as int].bytes_sent as int),
    {
        fragment(self.banner.as_slice(), self.slots[self.last_tick][i].bytes_sent)
    }

    /// Ends the pass over the bucket that is due: connection `i` of it met
    /// `outcomes[i]`. Each connection is settled once. Those that are given
    /// up leave the bucket, the number of held connections falls by one for
    /// each, and they are handed out with the cause. No other bucket is
    /// touched.
    pub fn settle(&mut self, outcomes: Vec<WriteOutcome>) -> (evicted: Vec<Evicted<S>>)
        requires
            old(self)@.wf(),
            outcomes@.len() == old(self)@.active().len(),
            old(self)@.total_bytes + written(outcomes@) <= u64::MAX,
        ensures
            final(self)@.wf(),
            old(self)@.settles_to(outcomes@, final(self)@, evicted@),
    {
        let mut pending = outcomes;
        let mut evicted: Vec<Evicted<S>> = Vec::new();
        let t: usize = self.last_tick;
        let delay: u16 = self.delay;
        let timeout: u16 = self.timeout;
        let ghost start = self@;
        let ghost outs = pending@;
        let ghost origin = self.slots@[t as int]@;
        let ghost n = outs.len() as int;
        let mut i: usize = pending.len();
        proof {
            assert(origin.subrange(0, n) =~= origin);
            assert(origin.subrange(n, n) =~= Seq::<Connection<S>>::empty());
        }
        while i > 0
            invariant
                self@.wf(),
                start.wf(),
                self@ == (Wheel {
                    slots: self@.slots,
                    num_clients: self@.num_clients,
                    total_bytes: self@.total_bytes,
                    ..start
                }),
                t == start.last_tick,
                delay == start.delay,
                timeout == start.timeout,
                origin == start.slots[t as int],
                n == outs.len() == origin.len(),
                0 <= i <= n,
                pending@ == outs.subrange(0, i as int),
                forall|b: int|
                    0 <= b < start.slots.len() && b != t ==> #[trigger] self@.slots[b]
                        == start.slots[b],
                i <= self@.slots[t as int].len(),
                self@.slots[t as int].subrange(0, i as int) == origin.subrange(0, i as int),
                self@.slots[t as int].subrange(
                    i as int,
                    self@.slots[t as int].len() as int,
                ).to_multiset() == survivors(
                    origin.subrange(i as int, n),
                    outs.subrange(i as int, n),
                    delay as int,
                    timeout as int,
                ).to_multiset(),
                evicted@.to_multiset() == casualties(
                    origin.subrange(i as int, n),
                    outs.subrange(i as int, n),
                    delay as int,
                    timeout as int,
                ).to_multiset(),
                self@.total_bytes + written(outs.subrange(0, i as int)) == start.total_bytes
                    + written(outs),
                start.total_bytes + written(outs) <= u64::MAX,
                self@.num_clients + evicted@.len() == start.num_clients,
            decreases i,
        {
            let ghost prev = self@;
            let ghost cur = self@.slots[t as int];
            let ghost gone = evicted@;
            i = i - 1;
            let outcome = pending.pop().unwrap();
            let gained: u64 = match &outcome {
                WriteOutcome::Written(taken) => *taken as u64,
                _ => 0,
            };
            proof {
                assert(outs.subrange(0, i + 1).drop_last() =~= outs.subrange(0, i as int));
                assert(cur[i as int] == cur.subrange(0, i + 1)[i as int]);
                let count = cur[i as int].backpressure_count;
                assert(count < u16::MAX) by (nonlinear_arith)
                    requires
                        count == 0 || delay * count < timeout,
                        delay >= 1,
                        timeout <= 0xffff,
                        count >= 0,
                ;
            }
            let ghost before = cur[i as int];
            let ghost settled = before.settled(outcome);
            let ghost fate = before.verdict(outcome, delay as int, timeout as int);
            let verdict = self.slots[t][i].settle(outcome, delay, timeout);
            self.total_bytes = self.total_bytes + gained;
            let ghost mid = cur.update(i as int, settled);
            proof {
                lemma_held_update(prev.slots, t as int, Seq::<Connection<S>>::empty());
            }
            match verdict {
                Verdict::Retain => {},
                Verdict::Evict(cause) => {
                    let connection = self.slots[t].swap_remove(i);
                    self.num_clients = self.num_clients - 1;
                    evicted.push(Evicted { connection, cause });
                },
            }
            proof {
                let now = self@.slots[t as int];
                let tail_origin = origin.subrange(i as int, n);
                let tail_outs = outs.subrange(i as int, n);
                assert(tail_origin.drop_first() =~= origin.subrange(i + 1, n));
                assert(tail_outs.drop_first() =~= outs.subrange(i + 1, n));
                let rest_alive = survivors(
                    origin.subrange(i + 1, n),
                    outs.subrange(i + 1, n),
                    delay as int,
                    timeout as int,
                );
                let rest_gone = casualties(
                    origin.subrange(i + 1, n),
                    outs.subrange(i + 1, n),
                    delay as int,
                    timeout as int,
                );
                assert(mid.subrange(i + 1, mid.len() as int) =~= cur.subrange(
                    i + 1,
                    cur.len() as int,
                ));
                match fate {
                    Verdict::Retain => {
                        assert(mid.subrange(i as int, mid.len() as int) =~= seq![settled]
                            + mid.subrange(i + 1, mid.len() as int));
                        lemma_front_multiset(settled, mid.subrange(i + 1, mid.len() as int));
                        lemma_front_multiset(settled, rest_alive);
                    },
                    Verdict::Evict(cause) => {
                        lemma_swap_remove_tail(mid, i as int);
                        to_multiset_build(gone, Evicted { connection: settled, cause });
                        lemma_front_multiset(Evicted { connection: settled, cause }, rest_gone);
                    },
                }
                assert(prev.slots.update(t as int, now) =~= self@.slots);
                lemma_held_update(prev.slots, t as int, now);
            }
        }
        proof {
            let left = self@.slots[t as int];
            assert(left.subrange(0, left.len() as int) =~= left);
        }
        evicted
    }

    /// The counters, all at once.
    pub fn stats(&self) -> (stats: Stats)
        ensures
            stats.clients == self@.num_clients,
            stats.total == self@.total_clients,
            stats.bytes == self@.total_bytes,
    {
        Stats { clients: self.num_clients, total: self.total_clients, bytes: self.total_bytes }
    }
}

} // verus!

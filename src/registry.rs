use vstd::prelude::*;

verus! {

/// What a drain hands back: the topic's running total of delivered messages
/// (or `-1` for a topic that is not subscribed) and the freshest payload.
pub struct Response {
    pub count: i64,
    pub data: Vec<u8>,
}

/// One live subscription: the bus-side handle, and how many messages the bus
/// has delivered on it so far.
pub struct Subscription<S> {
    pub topic: String,
    pub handle: S,
    pub count: i64,
}

/// Topic name to subscription. `S` is the bus-side subscription handle,
/// which the registry owns but never looks into.
pub struct Registry<S> {
    subs: Vec<Subscription<S>>,
}

/// The count that a drain of `n` messages leaves behind, given the count
/// before it. It saturates at `i64::MAX`.
pub open spec fn advanced_count(count: int, n: int) -> int {
    if count + n > i64::MAX as int {
        i64::MAX as int
    } else {
        count + n
    }
}

/// The payload a drain surfaces: the last of the drained messages, or
/// nothing when none was drained.
pub open spec fn latest_of(msgs: Seq<Seq<u8>>) -> Seq<u8> {
    if msgs.len() == 0 {
        Seq::empty()
    } else {
        msgs.last()
    }
}

/// One drain of `topic` on a registry whose subscriptions are `subs`, when the
/// bus delivered `msgs` on it since the previous drain: the registry after it,
/// the count reported and the payload surfaced.
pub open spec fn drain_step(subs: Map<Seq<char>, int>, topic: Seq<char>, msgs: Seq<Seq<u8>>) -> (Map<Seq<char>, int>, int, Seq<u8>) {
    if subs.contains_key(topic) {
        let n = advanced_count(subs[topic], msgs.len() as int);
        (subs.insert(topic, n), n, latest_of(msgs))
    } else {
        (subs, -1, Seq::empty())
    }
}

impl<S> Registry<S> {
    /// Topics are unique and every count is non-negative.
    pub closed spec fn wf(&self) -> bool {
        &&& forall|i: int, j: int|
            0 <= i < j < self.subs@.len() ==> self.subs@[i].topic@ != self.subs@[j].topic@
        &&& forall|i: int| 0 <= i < self.subs@.len() ==> self.subs@[i].count >= 0
    }

    spec fn has_at(&self, t: Seq<char>, i: int) -> bool {
        0 <= i < self.subs@.len() && self.subs@[i].topic@ == t
    }

    /// Each subscribed topic with its count of delivered messages.
    pub closed spec fn view(&self) -> Map<Seq<char>, int> {
        Map::new(
            |t: Seq<char>| exists|i: int| self.has_at(t, i),
            |t: Seq<char>| self.subs@[choose|i: int| self.has_at(t, i)].count as int,
        )
    }

    /// Each subscribed topic with its bus-side handle.
    pub closed spec fn handles(&self) -> Map<Seq<char>, S> {
        Map::new(
            |t: Seq<char>| exists|i: int| self.has_at(t, i),
            |t: Seq<char>| self.subs@[choose|i: int| self.has_at(t, i)].handle,
        )
    }

    /// The topics that have a handle are the subscribed ones.
    pub proof fn lemma_handles_dom(&self)
        ensures
            self.handles().dom() == self@.dom(),
    {
        assert(self.handles().dom() =~= self@.dom());
    }

    proof fn lemma_view_at(&self, i: int)
        requires
            self.wf(),
            0 <= i < self.subs@.len(),
        ensures
            self@.contains_key(self.subs@[i].topic@),
            self@[self.subs@[i].topic@] == self.subs@[i].count as int,
            self.handles().contains_key(self.subs@[i].topic@),
            self.handles()[self.subs@[i].topic@] == self.subs@[i].handle,
    {
        let t = self.subs@[i].topic@;
        assert(self.has_at(t, i));
        let j = choose|j: int| self.has_at(t, j);
        assert(i == j);
    }

    /// Every count in a registry lies between zero and `i64::MAX`, so a
    /// subscribed topic never reports the `-1` of an unknown one.
    pub proof fn lemma_counts_in_range(&self)
        requires
            self.wf(),
        ensures
            forall|t: Seq<char>| #[trigger] self@.contains_key(t) ==> 0 <= self@[t] <= i64::MAX,
    {
        assert forall|t: Seq<char>| #[trigger] self@.contains_key(t) implies 0 <= self@[t] <= i64::MAX by {
            let j = choose|j: int| self.has_at(t, j);
            self.lemma_view_at(j);
        }
    }

    /// An empty registry.
    pub fn new() -> (r: Self)
        ensures
            r.wf(),
            r@ == Map::<Seq<char>, int>::empty(),
            r.handles() == Map::<Seq<char>, S>::empty(),
    {
        let r = Registry { subs: Vec::new() };
        assert(r@ =~= Map::<Seq<char>, int>::empty());
        assert(r.handles() =~= Map::<Seq<char>, S>::empty());
        r
    }

    fn position(&self, topic: &String) -> (r: Option<usize>)
        ensures
            match r {
                Some(i) => self.has_at(topic@, i as int),
                None => forall|i: int| !self.has_at(topic@, i),
            },
    {
        let mut i: usize = 0;
        while i < self.subs.len()
            invariant
                i <= self.subs@.len(),
                forall|j: int| 0 <= j < i ==> !self.has_at(topic@, j),
            decreases self.subs@.len() - i,
        {
            if self.subs[i].topic == *topic {
                return Some(i);
            }
            i = i + 1;
        }
        None
    }

    /// Whether `topic` is subscribed.
    pub fn is_subscribed(&self, topic: &String) -> (r: bool)
        requires
            self.wf(),
        ensures
            r == self@.contains_key(topic@),
    {
        match self.position(topic) {
            Some(i) => {
                proof { self.lemma_view_at(i as int); }
                true
            },
            None => false,
        }
    }

    /// The number of messages delivered on `topic` so far, if it is subscribed.
    pub fn count_of(&self, topic: &String) -> (r: Option<i64>)
        requires
            self.wf(),
        ensures
            match r {
                Some(c) => self@.contains_key(topic@) && self@[topic@] == c as int,
                None => !self@.contains_key(topic@),
            },
    {
        match self.position(topic) {
            Some(i) => {
                proof { self.lemma_view_at(i as int); }
                Some(self.subs[i].count)
            },
            None => None,
        }
    }

    /// The bus-side handle of `topic`, if it is subscribed.
    pub fn handle_of(&self, topic: &String) -> (r: Option<&S>)
        requires
            self.wf(),
        ensures
            r is Some <==> self@.contains_key(topic@),
            r matches Some(h) ==> *h == self.handles()[topic@],
    {
        match self.position(topic) {
            Some(i) => {
                proof { self.lemma_view_at(i as int); }
                Some(&self.subs[i].handle)
            },
            None => None,
        }
    }

    /// Subscribes `topic` with its bus-side `handle` and a count of zero.
    /// A topic that is already subscribed is refused with status `1` and the
    /// registry is left as it was, so that its count is not lost; otherwise
    /// the status is `0`.
    pub fn add_subscriber_on_topic(&mut self, topic: String, handle: S) -> (r: i32)
        requires
            old(self).wf(),
        ensures
            final(self).wf(),
            old(self)@.contains_key(topic@) ==> r == 1 && final(self)@ == old(self)@
                && final(self).handles() == old(self).handles(),
            !old(self)@.contains_key(topic@) ==> r == 0 && final(self)@ == old(self)@.insert(topic@, 0)
                && final(self).handles() == old(self).handles().insert(topic@, handle),
    {
        match self.position(&topic) {
            Some(i) => {
                proof { self.lemma_view_at(i as int); }
                1
            },
            None => {
                let ghost before = *self;
                let ghost t = topic@;
                let ghost h = handle;
                self.subs.push(Subscription { topic, handle, count: 0 });
                proof {
                    let n = before.subs@.len() as int;
                    assert(self.subs@[n].topic@ == t);
                    assert forall|k: int| 0 <= k < n implies self.subs@[k] == before.subs@[k] by {}
                    assert forall|k: int| 0 <= k < n implies self.subs@[k].topic@ != t by {
                        assert(!before.has_at(t, k));
                    }
                    assert(self.wf());
                    assert forall|u: Seq<char>| #[trigger] self@.contains_key(u) <==> before@.insert(t, 0).contains_key(u) by {
                        if u != t && self@.contains_key(u) {
                            let j = choose|j: int| self.has_at(u, j);
                            assert(before.has_at(u, j));
                        }
                        if before@.contains_key(u) {
                            let j = choose|j: int| before.has_at(u, j);
                            assert(self.has_at(u, j));
                        }
                        if u == t {
                            assert(self.has_at(u, n));
                        }
                    }
                    assert forall|u: Seq<char>| #[trigger] self@.contains_key(u) implies self@[u] == before@.insert(t, 0)[u] by {
                        let j = choose|j: int| self.has_at(u, j);
                        self.lemma_view_at(j);
                        if j < n {
                            before.lemma_view_at(j);
                        }
                    }
                    assert(self@ =~= before@.insert(t, 0));
                    self.lemma_handles_dom();
                    before.lemma_handles_dom();
                    assert forall|u: Seq<char>| #[trigger] self.handles().contains_key(u) implies self.handles()[u] == before.handles().insert(t, h)[u] by {
                        let j = choose|j: int| self.has_at(u, j);
                        self.lemma_view_at(j);
                        if j < n {
                            before.lemma_view_at(j);
                        }
                    }
                    assert(self.handles() =~= before.handles().insert(t, h));
                }
                0
            },
        }
    }

    /// Unsubscribes `topic`: its count and its undrained messages are gone,
    /// and its bus-side handle is handed back for release. A topic that is
    /// not subscribed leaves the registry as it was.
    pub fn remove_subscriber_on_topic(&mut self, topic: String) -> (r: Option<S>)
        requires
            old(self).wf(),
        ensures
            final(self).wf(),
            final(self)@ == old(self)@.remove(topic@),
            final(self).handles() == old(self).handles().remove(topic@),
            r is Some <==> old(self)@.contains_key(topic@),
            r matches Some(h) ==> h == old(self).handles()[topic@],
    {
        match self.position(&topic) {
            Some(i) => {
                let ghost before = *self;
                proof { before.lemma_view_at(i as int); }
                let sub = self.subs.remove(i);
                proof {
                    let t = topic@;
                    let ii = i as int;
                    assert forall|u: Seq<char>| #[trigger] self@.contains_key(u) <==> before@.remove(t).contains_key(u) by {
                        if self@.contains_key(u) {
                            let j = choose|j: int| self.has_at(u, j);
                            if j < ii {
                                assert(before.has_at(u, j));
                            } else {
                                assert(before.has_at(u, j + 1));
                            }
                        }
                        if u != t && before@.contains_key(u) {
                            let j = choose|j: int| before.has_at(u, j);
                            if j < ii {
                                assert(self.has_at(u, j));
                            } else {
                                assert(self.has_at(u, j - 1));
                            }
                        }
                    }
                    assert forall|u: Seq<char>| #[trigger] self@.contains_key(u) implies self@[u] == before@.remove(t)[u] by {
                        let j = choose|j: int| self.has_at(u, j);
                        self.lemma_view_at(j);
                        if j < ii {
                            before.lemma_view_at(j);
                        } else {
                            before.lemma_view_at(j + 1);
                        }
                    }
                    assert(self@ =~= before@.remove(t));
                    self.lemma_handles_dom();
                    before.lemma_handles_dom();
                    assert forall|u: Seq<char>| #[trigger] self.handles().contains_key(u) implies self.handles()[u] == before.handles().remove(t)[u] by {
                        let j = choose|j: int| self.has_at(u, j);
                        self.lemma_view_at(j);
                        if j < ii {
                            before.lemma_view_at(j);
                        } else {
                            before.lemma_view_at(j + 1);
                        }
                    }
                    assert(self.handles() =~= before.handles().remove(t));
                }
                Some(sub.handle)
            },
            None => {
                proof {
                    assert forall|u: Seq<char>| self@.contains_key(u) implies u != topic@ by {
                        let j = choose|j: int| self.has_at(u, j);
                    }
                    assert(self@ =~= self@.remove(topic@));
                    self.lemma_handles_dom();
                    assert(self.handles() =~= self.handles().remove(topic@));
                }
                None
            },
        }
    }

    /// Records a drain of `topic`: `msgs` are the messages that the bus
    /// delivered on it since the previous drain, oldest first. The topic's
    /// count grows by their number (saturating at `i64::MAX`); the response
    /// carries that new count and the last message. For a topic that is not
    /// subscribed the response is `-1` with no payload, and nothing changes.
    pub fn get_latest_data_from_subscriber(&mut self, topic: String, msgs: Vec<Vec<u8>>) -> (r: Response)
        requires
            old(self).wf(),
        ensures
            final(self).wf(),
            final(self).handles() == old(self).handles(),
            (final(self)@, r.count as int, r.data@) == drain_step(old(self)@, topic@, msgs@.map_values(|m: Vec<u8>| m@)),
            !old(self)@.contains_key(topic@) ==> {
                &&& r.count == -1
                &&& r.data@ == Seq::<u8>::empty()
                &&& final(self)@ == old(self)@
            },
            old(self)@.contains_key(topic@) ==> {
                let n = advanced_count(old(self)@[topic@], msgs@.len() as int);
                &&& r.count as int == n
                &&& r.data@ == latest_of(msgs@.map_values(|m: Vec<u8>| m@))
                &&& final(self)@ == old(self)@.insert(topic@, n)
            },
    {
        match self.position(&topic) {
            None => {
                proof {
                    assert forall|u: Seq<char>| self@.contains_key(u) implies u != topic@ by {
                        let j = choose|j: int| self.has_at(u, j);
                    }
                }
                Response { count: -1, data: Vec::new() }
            },
            Some(i) => {
                let ghost before = *self;
                proof { before.lemma_view_at(i as int); }
                let old_count = self.subs[i].count;
                let n = msgs.len();
                let count: i64 = if n as u64 > (i64::MAX - old_count) as u64 {
                    i64::MAX
                } else {
                    old_count + n as i64
                };
                let mut sub = self.subs.remove(i);
                sub.count = count;
                self.subs.insert(i, sub);
                let mut msgs = msgs;
                let data = match msgs.pop() {
                    Some(m) => m,
                    None => Vec::new(),
                };
                proof {
                    let t = topic@;
                    let ii = i as int;
                    let nn = advanced_count(before@[t], n as int);
                    assert forall|k: int| 0 <= k < self.subs@.len() implies self.subs@[k].topic@ == before.subs@[k].topic@ && (k != ii ==> self.subs@[k].count == before.subs@[k].count) by {}
                    assert forall|u: Seq<char>| #[trigger] self@.contains_key(u) <==> before@.contains_key(u) by {
                        if self@.contains_key(u) {
                            let j = choose|j: int| self.has_at(u, j);
                            assert(before.has_at(u, j));
                        }
                        if before@.contains_key(u) {
                            let j = choose|j: int| before.has_at(u, j);
                            assert(self.has_at(u, j));
                        }
                    }
                    assert forall|u: Seq<char>| #[trigger] self@.contains_key(u) implies self@[u] == before@.insert(t, nn)[u] by {
                        let j = choose|j: int| self.has_at(u, j);
                        self.lemma_view_at(j);
                        before.lemma_view_at(j);
                    }
                    assert(self@ =~= before@.insert(t, nn));
                    self.lemma_handles_dom();
                    before.lemma_handles_dom();
                    assert forall|u: Seq<char>| #[trigger] self.handles().contains_key(u) implies self.handles()[u] == before.handles()[u] by {
                        let j = choose|j: int| self.has_at(u, j);
                        self.lemma_view_at(j);
                        before.lemma_view_at(j);
                    }
                    assert(self.handles() =~= before.handles());
                }
                Response { count, data }
            },
        }
    }
}

/// Latest-value draining: a drain of messages delivered in order surfaces the
/// last of them and adds their number to the count; a drain right after it,
/// with nothing delivered in between, reports the same count and no payload.
pub proof fn lemma_drain_latest_value(subs: Map<Seq<char>, int>, topic: Seq<char>, msgs: Seq<Seq<u8>>)
    requires
        subs.contains_key(topic),
        0 <= subs[topic],
        subs[topic] + msgs.len() <= i64::MAX,
        msgs.len() > 0,
    ensures
        ({
            let (after, count, data) = drain_step(subs, topic, msgs);
            let (again, count2, data2) = drain_step(after, topic, Seq::empty());
            &&& count == subs[topic] + msgs.len()
            &&& data == msgs.last()
            &&& count2 == count
            &&& data2 == Seq::<u8>::empty()
            &&& again == after
        }),
{
    let (after, count, data) = drain_step(subs, topic, msgs);
    assert(after.insert(topic, count) =~= after);
}

/// A drain of a topic that is not subscribed reports `-1` with no payload and
/// changes nothing, while a subscribed topic with nothing new reports its
/// count, which is never `-1`.
pub proof fn lemma_unknown_topic(subs: Map<Seq<char>, int>, topic: Seq<char>, msgs: Seq<Seq<u8>>)
    ensures
        !subs.contains_key(topic) ==> drain_step(subs, topic, msgs) == (subs, -1int, Seq::<u8>::empty()),
        subs.contains_key(topic) && 0 <= subs[topic] <= i64::MAX ==> drain_step(subs, topic, Seq::empty()).1 == subs[topic],
{
}

/// Removing a topic twice is the same as removing it once, removing a topic
/// that was never subscribed changes nothing, and neither touches any other
/// subscription.
pub proof fn lemma_remove_idempotent(subs: Map<Seq<char>, int>, topic: Seq<char>, other: Seq<char>)
    requires
        other != topic,
    ensures
        subs.remove(topic).remove(topic) == subs.remove(topic),
        !subs.contains_key(topic) ==> subs.remove(topic) == subs,
        subs.remove(topic).contains_key(other) == subs.contains_key(other),
        subs.contains_key(other) ==> subs.remove(topic)[other] == subs[other],
{
    assert(subs.remove(topic).remove(topic) =~= subs.remove(topic));
    if !subs.contains_key(topic) {
        assert(subs.remove(topic) =~= subs);
    }
}

/// Drains of two distinct topics are independent: a drain of one leaves the
/// other's subscription as it was, and the two drains give the same
/// responses and the same registry in either order.
pub proof fn lemma_independent_drains(
    subs: Map<Seq<char>, int>,
    a: Seq<char>,
    b: Seq<char>,
    msgs_a: Seq<Seq<u8>>,
    msgs_b: Seq<Seq<u8>>,
)
    requires
        a != b,
    ensures
        ({
            let (after_a, count_a, data_a) = drain_step(subs, a, msgs_a);
            let (after_ab, count_b, data_b) = drain_step(after_a, b, msgs_b);
            let (after_b, count_b2, data_b2) = drain_step(subs, b, msgs_b);
            let (after_ba, count_a2, data_a2) = drain_step(after_b, a, msgs_a);
            &&& after_a.contains_key(b) == subs.contains_key(b)
            &&& subs.contains_key(b) ==> after_a[b] == subs[b]
            &&& count_a == count_a2 && data_a == data_a2
            &&& count_b == count_b2 && data_b == data_b2
            &&& after_ab == after_ba
        }),
{
    let (after_a, count_a, data_a) = drain_step(subs, a, msgs_a);
    let (after_ab, count_b, data_b) = drain_step(after_a, b, msgs_b);
    let (after_b, count_b2, data_b2) = drain_step(subs, b, msgs_b);
    let (after_ba, count_a2, data_a2) = drain_step(after_b, a, msgs_a);
    assert(after_ab =~= after_ba);
}

} // verus!

//! The consumer registry behind a stream producer: which consumers a sample
//! goes to, when latency is forwarded to them, and when a keyframe is asked
//! for.
use vstd::prelude::*;
use crate::text::same_text;

verus! {

/// One attached consumer.
#[derive(Debug)]
pub struct ConsumerState {
    pub id: String,
    /// Whether a latency was pushed to this consumer yet.
    pub forwarded_latency: bool,
    /// Whether no sample was pushed to this consumer yet.
    pub first_buffer: bool,
}

/// What one consumer gets with a sample.
#[derive(Debug)]
pub struct Delivery {
    pub consumer_id: String,
    /// A latency to set on the consumer before the sample is pushed.
    pub latency: Option<u64>,
}

/// How a sample is dispatched.
#[derive(Debug)]
pub struct SampleDispatch {
    /// The consumers the sample is pushed to, with what goes first.
    pub deliveries: Vec<Delivery>,
    /// Whether a keyframe is to be requested upstream before the pushes.
    pub request_keyframe: bool,
}

/// The state of a producer's consumers.
#[derive(Debug)]
pub struct StreamConsumers {
    /// The latency last reported downstream, in nanoseconds.
    pub current_latency: Option<u64>,
    /// Whether that latency changed since the last dispatched sample.
    pub latency_updated: bool,
    /// The attached consumers, each id at most once.
    pub consumers: Vec<ConsumerState>,
    /// Whether samples are dropped rather than dispatched.
    pub discard: bool,
}

/// Something that happens to a producer.
pub enum ProducerEvent {
    Attach(Seq<char>),
    Detach(Seq<char>),
    Forward,
    Latency(u64),
    Sample,
}

/// What decides where a producer's samples go.
pub struct ProducerModel {
    pub forwarding: bool,
    pub attached: Set<Seq<char>>,
}

impl ProducerModel {
    pub open spec fn initial() -> ProducerModel {
        ProducerModel { forwarding: false, attached: Set::empty() }
    }

    pub open spec fn step(self, e: ProducerEvent) -> ProducerModel {
        match e {
            ProducerEvent::Attach(k) => ProducerModel { attached: self.attached.insert(k), ..self },
            ProducerEvent::Detach(k) => ProducerModel { attached: self.attached.remove(k), ..self },
            ProducerEvent::Forward => ProducerModel { forwarding: true, ..self },
            _ => self,
        }
    }

    /// Whether a sample emitted now reaches consumer `k`.
    pub open spec fn delivers_to(self, k: Seq<char>) -> bool {
        self.forwarding && self.attached.contains(k)
    }
}

/// The model after a sequence of events, starting from a new producer.
pub open spec fn run(events: Seq<ProducerEvent>) -> ProducerModel
    decreases events.len(),
{
    if events.len() == 0 {
        ProducerModel::initial()
    } else {
        run(events.drop_last()).step(events.last())
    }
}

/// `forward` happened among `events`.
pub open spec fn forwarded(events: Seq<ProducerEvent>) -> bool {
    exists|j: int| 0 <= j < events.len() && events[j] is Forward
}

/// `k` was attached among `events` and not detached since.
pub open spec fn attached_since(events: Seq<ProducerEvent>, k: Seq<char>) -> bool {
    exists|j: int|
        0 <= j < events.len() && events[j] == ProducerEvent::Attach(k) && forall|m: int|
            j < m < events.len() ==> events[m] != ProducerEvent::Detach(k)
}

/// A sample reaches consumer `k` exactly when it is emitted after the
/// producer started forwarding and after `k` was attached, and `k` was not
/// detached in between.
pub proof fn lemma_delivery(events: Seq<ProducerEvent>, k: Seq<char>)
    ensures
        run(events).delivers_to(k) <==> forwarded(events) && attached_since(events, k),
        run(events).forwarding <==> forwarded(events),
        run(events).attached.contains(k) <==> attached_since(events, k),
    decreases events.len(),
{
    if events.len() > 0 {
        let init = events.drop_last();
        let e = events.last();
        let n = events.len() - 1;
        lemma_delivery(init, k);
        assert(forwarded(events) <==> forwarded(init) || e is Forward) by {
            if forwarded(events) && !(e is Forward) {
                let j = choose|j: int| 0 <= j < events.len() && events[j] is Forward;
                assert(init[j] == events[j]);
            }
            if forwarded(init) {
                let j = choose|j: int| 0 <= j < init.len() && init[j] is Forward;
                assert(events[j] == init[j]);
            }
        }
        if e == ProducerEvent::Attach(k) {
            assert(attached_since(events, k)) by {
                assert(events[n] == ProducerEvent::Attach(k));
            }
        } else if e == ProducerEvent::Detach(k) {
            assert(!attached_since(events, k)) by {
                if attached_since(events, k) {
                    let j = choose|j: int|
                        0 <= j < events.len() && events[j] == ProducerEvent::Attach(k) && forall|
                            m: int,
                        | j < m < events.len() ==> events[m] != ProducerEvent::Detach(k);
                    assert(j != n);
                }
            }
        } else {
            assert(attached_since(events, k) <==> attached_since(init, k)) by {
                if attached_since(events, k) {
                    let j = choose|j: int|
                        0 <= j < events.len() && events[j] == ProducerEvent::Attach(k) && forall|
                            m: int,
                        | j < m < events.len() ==> events[m] != ProducerEvent::Detach(k);
                    assert(j != n);
                    assert(init[j] == events[j]);
                    assert forall|m: int| j < m < init.len() implies init[m]
                        != ProducerEvent::Detach(k) by {
                        assert(init[m] == events[m]);
                    }
                }
                if attached_since(init, k) {
                    let j = choose|j: int|
                        0 <= j < init.len() && init[j] == ProducerEvent::Attach(k) && forall|m: int|
                            j < m < init.len() ==> init[m] != ProducerEvent::Detach(k);
                    assert(events[j] == init[j]);
                    assert forall|m: int| j < m < events.len() implies events[m]
                        != ProducerEvent::Detach(k) by {
                        if m < n {
                            assert(init[m] == events[m]);
                        }
                    }
                }
            }
        }
    }
}

/// `r` is how `before` dispatches a sample, leaving `after`.
pub open spec fn dispatched(before: StreamConsumers, after: StreamConsumers, r: SampleDispatch) -> bool {
    &&& before.discard ==> r.deliveries@.len() == 0 && !r.request_keyframe && after == before
    &&& !before.discard ==> {
        &&& r.deliveries@.len() == before.consumers@.len()
        &&& forall|i: int|
            0 <= i < r.deliveries@.len() ==> {
                &&& (#[trigger] r.deliveries@[i]).consumer_id@ == before.consumers@[i].id@
                &&& r.deliveries@[i].latency == before.latency_for(before.consumers@[i])
            }
        &&& r.request_keyframe == exists|i: int|
            0 <= i < before.consumers@.len() && #[trigger] before.consumers@[i].first_buffer
        &&& after.consumers@.len() == before.consumers@.len()
        &&& forall|i: int|
            0 <= i < after.consumers@.len() ==> #[trigger] after.consumers@[i] == before.after_push(
                before.consumers@[i],
            )
        &&& !after.latency_updated
        &&& after.current_latency == before.current_latency
        &&& after.discard == before.discard
    }
}

/// A consumer gets exactly one keyframe request, with its first sample: a
/// dispatched sample that reaches a consumer which never got one comes with
/// a request upstream, after which the consumer counts as served; a
/// consumer already served stays so, and a dropped sample changes nothing.
pub proof fn lemma_first_push_keyframe(
    before: StreamConsumers,
    after: StreamConsumers,
    r: SampleDispatch,
    i: int,
)
    requires
        dispatched(before, after, r),
        0 <= i < before.consumers@.len(),
    ensures
        !before.discard && before.consumers@[i].first_buffer ==> r.request_keyframe
            && r.deliveries@[i].consumer_id@ == before.consumers@[i].id@,
        !before.discard ==> !after.consumers@[i].first_buffer,
        !before.consumers@[i].first_buffer ==> !after.consumers@[i].first_buffer,
        before.discard ==> after == before && !r.request_keyframe,
{
    if !before.discard {
        assert(after.consumers@[i] == before.after_push(before.consumers@[i]));
    }
}

impl StreamConsumers {
    /// Consumer ids are unique.
    pub open spec fn wf(&self) -> bool {
        forall|i: int, j: int|
            0 <= i < j < self.consumers@.len() ==> self.consumers@[i].id@
                != self.consumers@[j].id@
    }

    /// Whether a consumer with id `k` is attached.
    pub open spec fn has(&self, k: Seq<char>) -> bool {
        exists|i: int| 0 <= i < self.consumers@.len() && self.consumers@[i].id@ == k
    }

    pub open spec fn model(&self) -> ProducerModel {
        ProducerModel { forwarding: !self.discard, attached: Set::new(|k: Seq<char>| self.has(k)) }
    }

    /// A registry with no consumer, dropping samples until `forward`.
    pub fn new() -> (r: StreamConsumers)
        ensures
            r.wf(),
            r.model() == ProducerModel::initial(),
            r.current_latency is None,
            !r.latency_updated,
    {
        let r = StreamConsumers {
            current_latency: None,
            latency_updated: false,
            consumers: Vec::new(),
            discard: true,
        };
        assert(r.model().attached =~= Set::<Seq<char>>::empty());
        r
    }

    /// The position of consumer `id`, if attached.
    pub fn find(&self, id: &str) -> (r: Option<usize>)
        requires
            self.wf(),
        ensures
            r is None <==> !self.has(id@),
            r matches Some(i) ==> i < self.consumers@.len() && self.consumers@[i as int].id@
                == id@,
    {
        let mut i: usize = 0;
        while i < self.consumers.len()
            invariant
                i <= self.consumers@.len(),
                forall|j: int| 0 <= j < i ==> self.consumers@[j].id@ != id@,
            decreases self.consumers@.len() - i,
        {
            if same_text(self.consumers[i].id.as_str(), id) {
                return Some(i);
            }
            i = i + 1;
        }
        None
    }

    /// Attaches consumer `consumer_id`; does nothing and returns false where
    /// that id is attached already.
    pub fn add_consumer(&mut self, consumer_id: &str) -> (added: bool)
        requires
            old(self).wf(),
        ensures
            final(self).wf(),
            added == !old(self).has(consumer_id@),
            final(self).model() == old(self).model().step(ProducerEvent::Attach(consumer_id@)),
            added ==> final(self).consumers@ == old(self).consumers@.push(
                ConsumerState {
                    id: final(self).consumers@.last().id,
                    forwarded_latency: false,
                    first_buffer: true,
                },
            ) && final(self).consumers@.last().id@ == consumer_id@,
            !added ==> final(self).consumers@ == old(self).consumers@,
            final(self).discard == old(self).discard,
            final(self).current_latency == old(self).current_latency,
            final(self).latency_updated == old(self).latency_updated,
    {
        if self.find(consumer_id).is_some() {
            assert(self.model().attached =~= self.model().attached.insert(consumer_id@));
            return false;
        }
        let ghost before = *self;
        self.consumers.push(
            ConsumerState { id: consumer_id.to_owned(), forwarded_latency: false, first_buffer: true },
        );
        proof {
            assert forall|k: Seq<char>| self.has(k) <==> before.has(k) || k == consumer_id@ by {
                if self.has(k) && k != consumer_id@ {
                    let i = choose|i: int| 0 <= i < self.consumers@.len() && self.consumers@[i].id@ == k;
                    assert(before.consumers@[i] == self.consumers@[i]);
                }
                if before.has(k) {
                    let i = choose|i: int| 0 <= i < before.consumers@.len() && before.consumers@[i].id@ == k;
                    assert(before.consumers@[i] == self.consumers@[i]);
                }
                if k == consumer_id@ {
                    assert(self.consumers@[self.consumers@.len() - 1].id@ == k);
                }
            }
            assert(self.model().attached =~= before.model().attached.insert(consumer_id@));
        }
        true
    }

    /// Detaches consumer `consumer_id`; returns whether it was attached.
    pub fn remove_consumer(&mut self, consumer_id: &str) -> (removed: bool)
        requires
            old(self).wf(),
        ensures
            final(self).wf(),
            removed == old(self).has(consumer_id@),
            final(self).model() == old(self).model().step(ProducerEvent::Detach(consumer_id@)),
            final(self).discard == old(self).discard,
            final(self).current_latency == old(self).current_latency,
            final(self).latency_updated == old(self).latency_updated,
    {
        match self.find(consumer_id) {
            None => {
                assert(self.model().attached =~= self.model().attached.remove(consumer_id@));
                false
            },
            Some(i) => {
                let ghost before = *self;
                self.consumers.remove(i);
                proof {
                    assert forall|k: Seq<char>| self.has(k) <==> before.has(k) && k != consumer_id@ by {
                        if self.has(k) {
                            let j = choose|j: int| 0 <= j < self.consumers@.len() && self.consumers@[j].id@ == k;
                            if j < i {
                                assert(self.consumers@[j] == before.consumers@[j]);
                            } else {
                                assert(self.consumers@[j] == before.consumers@[j + 1]);
                            }
                        }
                        if before.has(k) && k != consumer_id@ {
                            let j = choose|j: int| 0 <= j < before.consumers@.len() && before.consumers@[j].id@ == k;
                            if j < i {
                                assert(self.consumers@[j] == before.consumers@[j]);
                            } else {
                                assert(j != i);
                                assert(self.consumers@[j - 1] == before.consumers@[j]);
                            }
                        }
                    }
                    assert(self.model().attached =~= before.model().attached.remove(consumer_id@));
                    assert forall|a: int, b: int| 0 <= a < b < self.consumers@.len() implies
                        self.consumers@[a].id@ != self.consumers@[b].id@ by {
                        let a0 = if a < i { a } else { a + 1 };
                        let b0 = if b < i { b } else { b + 1 };
                        assert(self.consumers@[a] == before.consumers@[a0]);
                        assert(self.consumers@[b] == before.consumers@[b0]);
                    }
                }
                true
            },
        }
    }

    /// Stops dropping samples: from now on they are dispatched.
    pub fn forward(&mut self)
        ensures
            final(self).model() == old(self).model().step(ProducerEvent::Forward),
            !final(self).discard,
            final(self).consumers == old(self).consumers,
            final(self).current_latency == old(self).current_latency,
            final(self).latency_updated == old(self).latency_updated,
    {
        let ghost before = *self;
        self.discard = false;
        assert forall|k: Seq<char>| self.has(k) == before.has(k) by {
            assert(self.consumers@ == before.consumers@);
        }
        assert(self.model().attached =~= before.model().attached);
    }

    /// Records a latency reported downstream, to be forwarded with the next
    /// sample.
    pub fn update_latency(&mut self, latency: u64)
        ensures
            final(self).model() == old(self).model().step(ProducerEvent::Latency(latency)),
            final(self).current_latency == Some(latency),
            final(self).latency_updated,
            final(self).consumers == old(self).consumers,
            final(self).discard == old(self).discard,
    {
        let ghost before = *self;
        self.current_latency = Some(latency);
        self.latency_updated = true;
        assert forall|k: Seq<char>| self.has(k) == before.has(k) by {
            assert(self.consumers@ == before.consumers@);
        }
        assert(self.model().attached =~= before.model().attached);
    }

    /// The latency pushed to consumer `c` with the next dispatched sample.
    pub open spec fn latency_for(&self, c: ConsumerState) -> Option<u64> {
        if self.current_latency is Some && (!c.forwarded_latency || self.latency_updated) {
            self.current_latency
        } else {
            None
        }
    }

    /// Consumer `c` once a sample was pushed to it.
    pub open spec fn after_push(&self, c: ConsumerState) -> ConsumerState {
        ConsumerState {
            id: c.id,
            forwarded_latency: c.forwarded_latency || self.current_latency is Some,
            first_buffer: false,
        }
    }

    /// Dispatches a new sample.
    ///
    /// While discarding, the sample goes nowhere and nothing changes.
    /// Otherwise it goes to every attached consumer, each preceded by the
    /// known latency where that consumer never got one or the latency changed
    /// since the last sample; one keyframe request goes upstream exactly when
    /// some consumer is about to get its first sample.
    pub fn new_sample(&mut self) -> (r: SampleDispatch)
        requires
            old(self).wf(),
        ensures
            final(self).wf(),
            final(self).model() == old(self).model().step(ProducerEvent::Sample),
            dispatched(*old(self), *final(self), r),
    {
        if self.discard {
            return SampleDispatch { deliveries: Vec::new(), request_keyframe: false };
        }
        let ghost before = *self;
        let mut deliveries: Vec<Delivery> = Vec::new();
        let mut updated: Vec<ConsumerState> = Vec::new();
        let mut request_keyframe = false;
        let n = self.consumers.len();
        let mut i: usize = 0;
        while i < n
            invariant
                *self == before,
                n == before.consumers@.len(),
                i <= n,
                deliveries@.len() == i,
                updated@.len() == i,
                forall|j: int|
                    0 <= j < i ==> {
                        &&& (#[trigger] deliveries@[j]).consumer_id@ == before.consumers@[j].id@
                        &&& deliveries@[j].latency == before.latency_for(before.consumers@[j])
                    },
                forall|j: int|
                    0 <= j < i ==> #[trigger] updated@[j] == before.after_push(before.consumers@[j]),
                request_keyframe == exists|j: int| 0 <= j < i && #[trigger] before.consumers@[j].first_buffer,
            decreases n - i,
        {
            let c = &self.consumers[i];
            let latency = if self.current_latency.is_some() && (!c.forwarded_latency
                || self.latency_updated) {
                self.current_latency
            } else {
                None
            };
            if c.first_buffer {
                request_keyframe = true;
            }
            deliveries.push(Delivery { consumer_id: c.id.clone(), latency });
            updated.push(
                ConsumerState {
                    id: c.id.clone(),
                    forwarded_latency: c.forwarded_latency || self.current_latency.is_some(),
                    first_buffer: false,
                },
            );
            i = i + 1;
        }
        self.consumers = updated;
        self.latency_updated = false;
        proof {
            assert forall|a: int, b: int| 0 <= a < b < self.consumers@.len() implies
                self.consumers@[a].id@ != self.consumers@[b].id@ by {
                assert(self.consumers@[a] == before.after_push(before.consumers@[a]));
                assert(self.consumers@[b] == before.after_push(before.consumers@[b]));
            }
            assert forall|k: Seq<char>| self.has(k) == before.has(k) by {
                if self.has(k) {
                    let j = choose|j: int| 0 <= j < self.consumers@.len() && self.consumers@[j].id@ == k;
                    assert(self.consumers@[j] == before.after_push(before.consumers@[j]));
                }
                if before.has(k) {
                    let j = choose|j: int| 0 <= j < before.consumers@.len() && before.consumers@[j].id@ == k;
                    assert(self.consumers@[j] == before.after_push(before.consumers@[j]));
                }
            }
            assert(self.model().attached =~= before.model().attached);
        }
        SampleDispatch { deliveries, request_keyframe }
    }

    /// The ids of the attached consumers.
    pub fn get_consumer_ids(&self) -> (r: Vec<String>)
        ensures
            r@.len() == self.consumers@.len(),
            forall|i: int| 0 <= i < r@.len() ==> #[trigger] r@[i]@ == self.consumers@[i].id@,
    {
        let mut r: Vec<String> = Vec::new();
        let mut i: usize = 0;
        while i < self.consumers.len()
            invariant
                i <= self.consumers@.len(),
                r@.len() == i,
                forall|j: int| 0 <= j < i ==> #[trigger] r@[j]@ == self.consumers@[j].id@,
            decreases self.consumers@.len() - i,
        {
            r.push(self.consumers[i].id.clone());
            i = i + 1;
        }
        r
    }
}

} // verus!

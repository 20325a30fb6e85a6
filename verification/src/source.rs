use vstd::prelude::*;

use crate::capture::kept;
use crate::channel::{channel_unbounded, Consumer, Producer, TryRead};
use crate::format::SampleFormat;
use crate::{reads_of, AudioError, AudioSink, AudioSource};

verus! {

/// Something that can hand out an audio source.
///
/// `available` says whether a request will be served. A provider that owns
/// a single stream hands it out once and refuses afterwards.
pub trait IntoAudioSource {
    /// The sample representation of the source.
    type Format: SampleFormat;

    /// The source that is handed out.
    type Source: AudioSource<Format = Self::Format>;

    /// Whether a source is there to be handed out.
    spec fn available(&self) -> bool;

    /// Hands out a source, or fails with `SourceTaken` where none is left.
    fn into_audio_source(&mut self) -> (r: Result<Self::Source, AudioError>)
        ensures
            r is Ok <==> old(self).available(),
            r matches Err(e) ==> e == AudioError::SourceTaken,
    ;
}


/// What a stretch of deliveries comes to, seen from outside: `before` and
/// `after` give, for each active subscriber, the samples delivered to it so
/// far. No subscriber was added, and every subscriber that is still active
/// afterwards has received exactly the samples of `run`, in their order,
/// behind what it had.
pub open spec fn delivered_since<F>(
    before: Map<nat, Seq<F>>,
    run: Seq<F>,
    after: Map<nat, Seq<F>>,
) -> bool {
    &&& after.dom().subset_of(before.dom())
    &&& forall|id: nat| #[trigger] after.dom().contains(id) ==> after[id] == before[id] + run
}

/// One delivery pass: a stretch of the one sample.
pub open spec fn delivery_pass<F>(
    before: Map<nat, Seq<F>>,
    sample: F,
    after: Map<nat, Seq<F>>,
) -> bool {
    delivered_since(before, seq![sample], after)
}

/// A run of delivery passes, one for each sample of `samples` in order:
/// `states` holds the subscribers' records before the first pass, between
/// the passes and after the last.
pub open spec fn delivery_run<F>(states: Seq<Map<nat, Seq<F>>>, samples: Seq<F>) -> bool {
    &&& states.len() == samples.len() + 1
    &&& forall|k: int|
        0 <= k < samples.len() ==> #[trigger] delivery_pass(states[k], samples[k], states[k + 1])
}

/// Fidelity of the fan-out: a subscriber that is still active after a run
/// was there from its start and has received, behind what it had, every
/// sample of the run in the order of the run. What became of the other
/// subscribers, whether they read or went away, has no part in it.
pub proof fn lemma_fan_out_fidelity<F>(states: Seq<Map<nat, Seq<F>>>, samples: Seq<F>)
    requires
        delivery_run(states, samples),
    ensures
        delivered_since(states[0], samples, states.last()),
    decreases samples.len(),
{
    let first = states[0];
    if samples.len() == 0 {
        assert forall|id: nat| #[trigger] first.dom().contains(id) implies first[id] == first[id]
            + samples by {
            assert(first[id] + samples =~= first[id]);
        }
    } else {
        let last = samples.len() - 1;
        let earlier = states.drop_last();
        let shorter = samples.drop_last();
        assert(delivery_run(earlier, shorter)) by {
            assert forall|k: int| 0 <= k < last implies #[trigger] delivery_pass(
                earlier[k],
                shorter[k],
                earlier[k + 1],
            ) by {
                assert(delivery_pass(states[k], samples[k], states[k + 1]));
            }
        }
        lemma_fan_out_fidelity(earlier, shorter);
        assert(delivery_pass(states[last], samples[last], states[last + 1]));
        assert forall|id: nat| #[trigger] states.last().dom().contains(id) implies states.last()[id]
            == first[id] + samples by {
            assert(states[last].dom().contains(id));
            assert((first[id] + shorter) + seq![samples[last]] =~= first[id] + samples);
        }
    }
}

/// Two subscribers that were registered with nothing delivered yet, and
/// that are both still active after a run, have received the same samples
/// in the same order: those of the run.
pub proof fn lemma_subscribers_agree<F>(
    states: Seq<Map<nat, Seq<F>>>,
    samples: Seq<F>,
    first: nat,
    second: nat,
)
    requires
        delivery_run(states, samples),
        states.last().dom().contains(first),
        states.last().dom().contains(second),
        states[0].dom().contains(first) ==> states[0][first] == Seq::<F>::empty(),
        states[0].dom().contains(second) ==> states[0][second] == Seq::<F>::empty(),
    ensures
        states.last()[first] == samples,
        states.last()[second] == samples,
{
    lemma_fan_out_fidelity(states, samples);
    assert(Seq::<F>::empty() + samples =~= samples);
}

/// A subscriber that a pass removed stays away: it is in no later state of
/// the run.
pub proof fn lemma_removed_stays_removed<F>(
    states: Seq<Map<nat, Seq<F>>>,
    samples: Seq<F>,
    id: nat,
    k: int,
)
    requires
        delivery_run(states, samples),
        0 <= k < states.len(),
        !states[k].dom().contains(id),
    ensures
        forall|j: int| k <= j < states.len() ==> !(#[trigger] states[j]).dom().contains(id),
    decreases states.len() - k,
{
    if k + 1 < states.len() {
        assert(delivery_pass(states[k], samples[k], states[k + 1]));
        lemma_removed_stays_removed(states, samples, id, k + 1);
    }
}

/// Whether a pass spares the subscriber `id`: wherever it stands in
/// `order`, its send succeeded.
pub open spec fn spared(order: Seq<nat>, sent: Seq<bool>, id: nat) -> bool {
    forall|i: int| 0 <= i < order.len() && #[trigger] order[i] == id ==> sent[i]
}

/// The subscribers that are left of `order` after a run of passes, in
/// their order: `sents` holds, for each pass, what each send of that pass
/// came to.
pub open spec fn survivors(order: Seq<nat>, sents: Seq<Seq<bool>>) -> Seq<nat>
    decreases sents.len(),
{
    if sents.len() == 0 {
        order
    } else {
        kept(survivors(order, sents.drop_last()), sents.last())
    }
}

/// Whether `sents` fits a run of passes that starts from `order`: each
/// pass has one outcome for each subscriber that the passes before it left.
pub open spec fn fits_run(order: Seq<nat>, sents: Seq<Seq<bool>>) -> bool {
    forall|k: int|
        0 <= k < sents.len() ==> (#[trigger] sents[k]).len() == survivors(order, sents.take(k)).len()
}

/// A pass keeps what stands before and what stands behind apart: the
/// survivors of two stretches, one behind the other, are the survivors of
/// the first followed by those of the second. So a pass never reorders.
pub proof fn lemma_kept_concat<T>(a: Seq<T>, s: Seq<bool>, b: Seq<T>, t: Seq<bool>)
    requires
        a.len() == s.len(),
        b.len() == t.len(),
    ensures
        kept(a + b, s + t) == kept(a, s) + kept(b, t),
    decreases b.len(),
{
    if b.len() == 0 {
        assert(a + b =~= a);
        assert(s + t =~= s);
        assert(kept(a, s) + kept(b, t) =~= kept(a, s));
    } else {
        assert((a + b).drop_last() =~= a + b.drop_last());
        assert((s + t).drop_last() =~= s + t.drop_last());
        lemma_kept_concat(a, s, b.drop_last(), t.drop_last());
        if t.last() {
            assert((kept(a, s) + kept(b.drop_last(), t.drop_last())).push(b.last()) =~= kept(a, s)
                + kept(b.drop_last(), t.drop_last()).push(b.last()));
        }
    }
}

/// Who stays and who leaves in one pass: a member of what is kept is a
/// member of what was there whose send succeeded, and no other.
pub proof fn lemma_kept_members<T>(order: Seq<T>, sent: Seq<bool>)
    requires
        order.len() == sent.len(),
    ensures
        kept(order, sent).len() <= order.len(),
        forall|i: int| 0 <= i < order.len() && sent[i] ==> kept(order, sent).contains(#[trigger] order[i]),
        forall|x: T|
            kept(order, sent).contains(x) ==> exists|i: int|
                0 <= i < order.len() && sent[i] && #[trigger] order[i] == x,
    decreases order.len(),
{
    if order.len() > 0 {
        let front = order.drop_last();
        let flags = sent.drop_last();
        let last = order.len() - 1;
        lemma_kept_members(front, flags);
        let rest = kept(front, flags);
        let all = kept(order, sent);
        assert forall|i: int| 0 <= i < order.len() && sent[i] implies all.contains(
            #[trigger] order[i],
        ) by {
            if i < last {
                assert(front[i] == order[i] && flags[i] == sent[i]);
                let j = choose|j: int| 0 <= j < rest.len() && rest[j] == front[i];
                assert(all[j] == order[i]);
            } else {
                assert(all[all.len() - 1] == order[i]);
            }
        }
        assert forall|x: T| all.contains(x) implies exists|i: int|
            0 <= i < order.len() && sent[i] && #[trigger] order[i] == x by {
            let j = choose|j: int| 0 <= j < all.len() && all[j] == x;
            if j < rest.len() {
                assert(rest[j] == x);
                assert(rest.contains(x));
                let i = choose|i: int| 0 <= i < front.len() && flags[i] && #[trigger] front[i] == x;
                assert(order[i] == x && sent[i]);
            } else {
                assert(order[last] == x && sent[last]);
            }
        }
    }
}

/// A pass in which every send succeeds leaves the set as it was.
pub proof fn lemma_kept_all_sent<T>(order: Seq<T>, sent: Seq<bool>)
    requires
        order.len() == sent.len(),
        forall|i: int| 0 <= i < sent.len() ==> sent[i],
    ensures
        kept(order, sent) == order,
    decreases order.len(),
{
    if order.len() > 0 {
        lemma_kept_all_sent(order.drop_last(), sent.drop_last());
        assert(order.drop_last().push(order.last()) =~= order);
    }
}

/// No live subscriber is removed and no dropped one survives: a subscriber
/// whose send succeeded is in the set after the pass, and one whose send
/// failed is not.
pub proof fn lemma_pass_removes_the_failed_only(order: Seq<nat>, sent: Seq<bool>, id: nat)
    requires
        order.len() == sent.len(),
        order.no_duplicates(),
        order.contains(id),
    ensures
        kept(order, sent).contains(id) <==> spared(order, sent, id),
{
    lemma_kept_members(order, sent);
    let at = choose|i: int| 0 <= i < order.len() && order[i] == id;
    if spared(order, sent, id) {
        assert(sent[at]);
    }
    if kept(order, sent).contains(id) {
        let i = choose|i: int| 0 <= i < order.len() && sent[i] && #[trigger] order[i] == id;
        assert forall|j: int| 0 <= j < order.len() && #[trigger] order[j] == id implies sent[j] by {
            assert(j == i);
        }
    }
}

/// What is kept of the first `n` subscribers is those of them that the
/// pass spares, in their order.
proof fn lemma_kept_is_the_spared_up_to(
    order: Seq<nat>,
    sent: Seq<bool>,
    pred: spec_fn(nat) -> bool,
    n: int,
)
    requires
        order.len() == sent.len(),
        order.no_duplicates(),
        0 <= n <= order.len(),
        forall|id: nat| #[trigger] pred(id) == spared(order, sent, id),
    ensures
        kept(order.take(n), sent.take(n)) == order.take(n).filter(pred),
    decreases n,
{
    reveal(Seq::filter);
    if n > 0 {
        lemma_kept_is_the_spared_up_to(order, sent, pred, n - 1);
        assert(order.take(n).drop_last() =~= order.take(n - 1));
        assert(sent.take(n).drop_last() =~= sent.take(n - 1));
        let id = order[n - 1];
        assert(order.take(n).last() == id);
        assert(sent.take(n).last() == sent[n - 1]);
        assert(pred(id) == sent[n - 1]) by {
            if sent[n - 1] {
                assert forall|i: int| 0 <= i < order.len() && #[trigger] order[i] == id implies sent[i] by {
                    assert(i == n - 1);
                }
            }
        }
    }
}

/// The set after a pass is the set before without the subscribers whose
/// send failed, the rest in the same order: no subscriber whose send
/// failed survives the pass, and none whose send succeeded is removed.
pub proof fn lemma_pass_leaves_the_rest_in_order(order: Seq<nat>, sent: Seq<bool>)
    requires
        order.len() == sent.len(),
        order.no_duplicates(),
    ensures
        kept(order, sent) == order.filter(|id: nat| spared(order, sent, id)),
{
    let pred = |id: nat| spared(order, sent, id);
    lemma_kept_is_the_spared_up_to(order, sent, pred, order.len() as int);
    assert(order.take(order.len() as int) =~= order);
    assert(sent.take(order.len() as int) =~= sent);
}

/// A subscriber that every pass of a run spares is in the set after the
/// run.
pub proof fn lemma_spared_throughout_stays(order: Seq<nat>, sents: Seq<Seq<bool>>, id: nat)
    requires
        order.contains(id),
        fits_run(order, sents),
        forall|k: int|
            0 <= k < sents.len() ==> spared(survivors(order, sents.take(k)), #[trigger] sents[k], id),
    ensures
        survivors(order, sents).contains(id),
    decreases sents.len(),
{
    if sents.len() > 0 {
        let last = sents.len() - 1;
        let earlier = sents.drop_last();
        assert(earlier =~= sents.take(last));
        assert forall|k: int| 0 <= k < earlier.len() implies (#[trigger] earlier[k]).len()
            == survivors(order, earlier.take(k)).len() && spared(
            survivors(order, earlier.take(k)),
            earlier[k],
            id,
        ) by {
            assert(earlier.take(k) =~= sents.take(k));
            assert(earlier[k] == sents[k]);
        }
        lemma_spared_throughout_stays(order, earlier, id);
        let left = survivors(order, earlier);
        assert(sents[last].len() == left.len());
        assert(spared(left, sents[last], id));
        let at = choose|i: int| 0 <= i < left.len() && left[i] == id;
        assert(sents[last][at]);
        lemma_kept_members(left, sents[last]);
    }
}

/// Fidelity of the fan-out, by the outcomes of the sends: a subscriber of
/// the set before a run, to which every send of the run succeeded, is in
/// the set after the run and has received, behind what it had, every
/// sample of the run in the order of the run. Two such subscribers that
/// had nothing before the run have received the same.
pub proof fn lemma_spared_subscriber_receives_all<F>(
    order: Seq<nat>,
    before: Map<nat, Seq<F>>,
    stream: Seq<F>,
    sents: Seq<Seq<bool>>,
    after: Map<nat, Seq<F>>,
    id: nat,
)
    requires
        order.contains(id),
        fits_run(order, sents),
        forall|k: int|
            0 <= k < sents.len() ==> spared(survivors(order, sents.take(k)), #[trigger] sents[k], id),
        after.dom() == survivors(order, sents).to_set(),
        delivered_since(before, stream, after),
    ensures
        after.dom().contains(id),
        after[id] == before[id] + stream,
{
    lemma_spared_throughout_stays(order, sents, id);
    assert(survivors(order, sents).to_set().contains(id));
    assert(after.dom().contains(id));
}

/// Where nothing stands twice, each member is found at its own place.
proof fn lemma_index_of_position(ids: Seq<nat>, k: int)
    requires
        ids.no_duplicates(),
        0 <= k < ids.len(),
    ensures
        ids.contains(ids[k]),
        ids.index_of(ids[k]) == k,
{
    assert(ids.contains(ids[k]));
    let i = ids.index_of(ids[k]);
    assert(0 <= i < ids.len() && ids[i] == ids[k]);
}

/// What is kept of two rows of one length, by the same outcomes, is of one
/// length.
proof fn lemma_kept_lengths<A, B>(a: Seq<A>, b: Seq<B>, sent: Seq<bool>)
    requires
        a.len() == sent.len(),
        b.len() == sent.len(),
    ensures
        kept(a, sent).len() == kept(b, sent).len(),
    decreases a.len(),
{
    if a.len() > 0 {
        lemma_kept_lengths(a.drop_last(), b.drop_last(), sent.drop_last());
    }
}

/// A pass keeps two rows that stand side by side aligned: what is kept of
/// the one and of the other at a place came from one and the same place,
/// whose send succeeded.
proof fn lemma_kept_aligned<A, B>(a: Seq<A>, b: Seq<B>, sent: Seq<bool>, j: int) -> (i: int)
    requires
        a.len() == sent.len(),
        b.len() == sent.len(),
        0 <= j < kept(a, sent).len(),
    ensures
        0 <= i < a.len(),
        sent[i],
        j < kept(b, sent).len(),
        a[i] == kept(a, sent)[j],
        b[i] == kept(b, sent)[j],
    decreases a.len(),
{
    lemma_kept_lengths(a, b, sent);
    let front = kept(a.drop_last(), sent.drop_last());
    lemma_kept_lengths(a.drop_last(), b.drop_last(), sent.drop_last());
    if j < front.len() {
        lemma_kept_aligned(a.drop_last(), b.drop_last(), sent.drop_last(), j)
    } else {
        a.len() - 1
    }
}

/// The fan-out broadcaster: the set of subscribers of one stream.
///
/// Every subscriber has a channel of its own, without bound, so that one
/// that reads slowly or not at all holds up neither the broadcaster nor the
/// others. A subscriber leaves the set when a delivery to it fails, which
/// is how the broadcaster learns that its consumer was dropped.
///
/// The broadcaster keeps, for each active subscriber, the samples that the
/// passes delivered to it. Beside that account stand the records of the
/// subscriber's own producer: what was offered to its channel and what the
/// channel took.
#[verifier::reject_recursive_types(F)]
pub struct AudioSourceFanOut<F> {
    subscribers: Vec<Producer<F>>,
    ids: Ghost<Seq<nat>>,
    logs: Ghost<Map<nat, Seq<F>>>,
    issued: Ghost<nat>,
}

impl<F: SampleFormat> AudioSourceFanOut<F> {
    /// The records agree with the set: one identity for each subscriber,
    /// none twice, each with its record, and all of them issued before.
    pub closed spec fn wf(&self) -> bool {
        &&& self.ids@.len() == self.subscribers@.len()
        &&& self.ids@.no_duplicates()
        &&& forall|i: int| 0 <= i < self.ids@.len() ==> #[trigger] self.ids@[i] < self.issued@
        &&& forall|id: nat| self.logs@.dom().contains(id) <==> self.ids@.contains(id)
    }

    /// For each active subscriber, by the number under which it was
    /// registered, the samples delivered to it so far, oldest first.
    pub closed spec fn delivered(&self) -> Map<nat, Seq<F>> {
        self.logs@
    }

    /// How many subscribers were ever registered; the next one gets this
    /// number.
    pub closed spec fn issued(&self) -> nat {
        self.issued@
    }

    /// The active subscribers by their numbers, in the order in which they
    /// were registered.
    pub closed spec fn order(&self) -> Seq<nat> {
        self.ids@
    }

    /// How many subscribers are active.
    pub open spec fn active(&self) -> nat {
        self.order().len()
    }

    /// The samples that were offered to the channel of the subscriber `id`,
    /// taken or not, oldest first: the record of its producer.
    pub closed spec fn offered_to(&self, id: nat) -> Seq<F> {
        if self.ids@.contains(id) {
            self.subscribers@[self.ids@.index_of(id)].offered()
        } else {
            Seq::empty()
        }
    }

    /// The samples that the channel of the subscriber `id` took, oldest
    /// first: the record of its producer.
    pub closed spec fn taken_by(&self, id: nat) -> Seq<F> {
        if self.ids@.contains(id) {
            self.subscribers@[self.ids@.index_of(id)].accepted()
        } else {
            Seq::empty()
        }
    }

    /// What offering `sample` to every subscriber comes to, from the set as
    /// it was to the set as it is with the sends made: nobody has joined or
    /// left yet, each subscriber's channel was offered the sample once, and
    /// it took the sample exactly where `sent` says so.
    pub open spec fn offering(before: Self, sample: F, sent: Seq<bool>, after: Self) -> bool {
        &&& sent.len() == before.active()
        &&& after.wf()
        &&& after.order() == before.order()
        &&& after.issued() == before.issued()
        &&& after.delivered() == before.delivered()
        &&& forall|k: int|
            #![trigger before.order()[k]]
            0 <= k < sent.len() ==> {
                &&& after.offered_to(before.order()[k]) == before.offered_to(
                    before.order()[k],
                ).push(sample)
                &&& after.taken_by(before.order()[k]) == if sent[k] {
                    before.taken_by(before.order()[k]).push(sample)
                } else {
                    before.taken_by(before.order()[k])
                }
            }
    }

    /// One delivery pass, from the set as it was to the set as it is: the
    /// sample was offered to the channel of every subscriber, and the set
    /// that is left holds those whose channel took it, in their order. A
    /// subscriber leaves only when its channel turned the sample down.
    pub open spec fn delivery(before: Self, sample: F, after: Self) -> bool {
        exists|offered: Self, sent: Seq<bool>|
            {
                &&& #[trigger] Self::offering(before, sample, sent, offered)
                &&& after.order() == kept(offered.order(), sent)
            }
    }

    /// A run of delivery passes, one for each sample of `stream` in order:
    /// `states` holds the set before the first pass, between the passes and
    /// after the last.
    pub open spec fn deliveries(states: Seq<Self>, stream: Seq<F>) -> bool {
        &&& states.len() == stream.len() + 1
        &&& forall|k: int|
            0 <= k < stream.len() ==> #[trigger] Self::delivery(states[k], stream[k], states[k + 1])
    }

    /// What a well-formed set is made of: no subscriber stands twice in
    /// the order, each was issued its number before, and the records are
    /// those of the subscribers in the order and of no others.
    pub proof fn lemma_set_is_consistent(&self)
        requires
            self.wf(),
        ensures
            self.order().no_duplicates(),
            forall|i: int| 0 <= i < self.order().len() ==> #[trigger] self.order()[i] < self.issued(),
            self.delivered().dom() == self.order().to_set(),
    {
        assert(self.logs@.dom() =~= self.ids@.to_set());
    }

    /// Takes the upstream source out of its provider and sets up an empty
    /// subscriber set for it. The provider stays with the caller, who keeps
    /// it for as long as the stream is to run, and who reads the source and
    /// hands each sample to `deliver`.
    pub fn new<K: IntoAudioSource<Format = F>>(k: &mut K) -> (r: Result<(Self, K::Source), AudioError>)
        ensures
            r is Ok <==> old(k).available(),
            r matches Err(e) ==> e == AudioError::SourceTaken,
            r matches Ok(pair) ==> {
                &&& pair.0.wf()
                &&& pair.0.issued() == 0
                &&& pair.0.active() == 0
                &&& pair.0.order() == Seq::<nat>::empty()
                &&& pair.0.delivered() == Map::<nat, Seq<F>>::empty()
            },
    {
        match k.into_audio_source() {
            Ok(source) => {
                let fan_out = AudioSourceFanOut {
                    subscribers: Vec::new(),
                    ids: Ghost(Seq::empty()),
                    logs: Ghost(Map::empty()),
                    issued: Ghost(0),
                };
                Ok((fan_out, source))
            },
            Err(e) => Err(e),
        }
    }

    /// The number of active subscribers.
    pub fn subscriber_count(&self) -> (n: usize)
        requires
            self.wf(),
        ensures
            n == self.active(),
            n == self.order().len(),
    {
        self.subscribers.len()
    }

    /// Registers a subscriber and returns the reading end of its channel.
    /// The subscriber joins with nothing delivered and gets every sample
    /// from the next pass on.
    pub fn subscribe(&mut self) -> (consumer: Consumer<F>)
        requires
            old(self).wf(),
        ensures
            final(self).wf(),
            final(self).issued() == old(self).issued() + 1,
            final(self).active() == old(self).active() + 1,
            final(self).order() == old(self).order().push(old(self).issued()),
            !old(self).delivered().dom().contains(old(self).issued()),
            final(self).delivered() == old(self).delivered().insert(
                old(self).issued(),
                Seq::<F>::empty(),
            ),
            final(self).offered_to(old(self).issued()) == Seq::<F>::empty(),
            final(self).taken_by(old(self).issued()) == Seq::<F>::empty(),
            forall|id: nat| #[trigger]
                old(self).delivered().dom().contains(id) ==> {
                    &&& final(self).offered_to(id) == old(self).offered_to(id)
                    &&& final(self).taken_by(id) == old(self).taken_by(id)
                },
            consumer.answers() == Seq::<TryRead<F>>::empty(),
    {
        let (tx, rx) = channel_unbounded::<F>();
        let ghost id = self.issued@;
        let ghost before = self.ids@;
        proof {
            if before.contains(id) {
                let i = choose|i: int| 0 <= i < before.len() && before[i] == id;
                assert(before[i] < id);
            }
        }
        self.subscribers.push(Producer::wrap(tx));
        self.ids = Ghost(before.push(id));
        self.logs = Ghost(self.logs@.insert(id, Seq::empty()));
        self.issued = Ghost(id + 1);
        proof {
            assert forall|a: nat| self.logs@.dom().contains(a) <==> self.ids@.contains(a) by {
                if before.contains(a) {
                    let i = choose|i: int| 0 <= i < before.len() && before[i] == a;
                    assert(self.ids@[i] == a);
                }
                if a == id {
                    assert(self.ids@[before.len() as int] == a);
                }
                if self.ids@.contains(a) {
                    let i = choose|i: int| 0 <= i < self.ids@.len() && self.ids@[i] == a;
                    if i < before.len() {
                        assert(before[i] == a);
                    }
                }
            }
            assert forall|i: int, j: int|
                0 <= i < self.ids@.len() && 0 <= j < self.ids@.len() && i != j implies self.ids@[i]
                != self.ids@[j] by {
                if i < before.len() && j < before.len() {
                    assert(before[i] != before[j]);
                } else if i < before.len() {
                    assert(before[i] < id);
                } else {
                    assert(before[j] < id);
                }
            }
            lemma_index_of_position(self.ids@, before.len() as int);
            assert forall|a: nat| #[trigger] old(self).logs@.dom().contains(a) implies self.offered_to(
                a,
            ) == old(self).offered_to(a) && self.taken_by(a) == old(self).taken_by(a) by {
                assert(before.contains(a));
                let k = before.index_of(a);
                lemma_index_of_position(before, k);
                assert(self.ids@[k] == a);
                lemma_index_of_position(self.ids@, k);
            }
        }
        Consumer::wrap(rx)
    }

    /// Offers `sample` to the channel of every subscriber, in the order of
    /// the set, and says of each whether the channel took it. The set stays
    /// as it is.
    fn offer(&mut self, sample: F) -> (sent: Vec<bool>)
        requires
            old(self).wf(),
        ensures
            final(self).wf(),
            final(self).ids@ == old(self).ids@,
            final(self).logs@ == old(self).logs@,
            final(self).issued@ == old(self).issued@,
            sent@.len() == old(self).ids@.len(),
            final(self).subscribers@.len() == old(self).subscribers@.len(),
            forall|k: int|
                0 <= k < sent@.len() ==> {
                    let was = old(self).subscribers@[k];
                    let is = #[trigger] final(self).subscribers@[k];
                    &&& is.offered() == was.offered().push(sample)
                    &&& sent@[k] ==> is.accepted() == was.accepted().push(sample)
                    &&& !sent@[k] ==> is.accepted() == was.accepted()
                },
            Self::offering(*old(self), sample, sent@, *final(self)),
    {
        let mut sent: Vec<bool> = Vec::new();
        let mut i: usize = 0;
        assert(self.subscribers.len() == self.ids@.len());
        while i < self.subscribers.len()
            invariant
                self.wf(),
                self.ids@ == old(self).ids@,
                self.logs@ == old(self).logs@,
                self.issued@ == old(self).issued@,
                self.subscribers@.len() == old(self).subscribers@.len(),
                0 <= i <= self.subscribers@.len(),
                sent@.len() == i,
                forall|k: int| i <= k < self.subscribers@.len() ==> self.subscribers@[k] == old(
                    self
                ).subscribers@[k],
                forall|k: int|
                    0 <= k < i ==> {
                        let was = old(self).subscribers@[k];
                        let is = #[trigger] self.subscribers@[k];
                        &&& is.offered() == was.offered().push(sample)
                        &&& sent@[k] ==> is.accepted() == was.accepted().push(sample)
                        &&& !sent@[k] ==> is.accepted() == was.accepted()
                    },
            decreases self.subscribers@.len() - i,
        {
            let outcome = self.subscribers[i].audio_write(sample);
            sent.push(outcome.is_ok());
            i = i + 1;
        }
        proof {
            let order = old(self).ids@;
            assert forall|k: int|
                #![trigger order[k]]
                0 <= k < sent@.len() implies {
                &&& self.offered_to(order[k]) == old(self).offered_to(order[k]).push(sample)
                &&& self.taken_by(order[k]) == if sent@[k] {
                    old(self).taken_by(order[k]).push(sample)
                } else {
                    old(self).taken_by(order[k])
                }
            } by {
                lemma_index_of_position(order, k);
                assert(self.subscribers@[k].offered() == old(self).subscribers@[k].offered().push(
                    sample,
                ));
            }
        }
        sent
    }

    /// One delivery pass, given what each send came to: `sent` says of each
    /// subscriber, in the order of the set, whether its channel took the
    /// sample. The subscribers whose send failed leave the set; the others
    /// stay, in their order, each with the sample behind what it had
    /// received. Returns how many left.
    pub fn settle(&mut self, sample: F, sent: &Vec<bool>) -> (dropped: usize)
        requires
            old(self).wf(),
            sent@.len() == old(self).active(),
        ensures
            final(self).wf(),
            final(self).issued() == old(self).issued(),
            final(self).order() == kept(old(self).order(), sent@),
            final(self).delivered().dom() == final(self).order().to_set(),
            forall|id: nat| #[trigger]
                final(self).delivered().dom().contains(id) ==> {
                    &&& final(self).delivered()[id] == old(self).delivered()[id].push(sample)
                    &&& final(self).offered_to(id) == old(self).offered_to(id)
                    &&& final(self).taken_by(id) == old(self).taken_by(id)
                },
            delivery_pass(old(self).delivered(), sample, final(self).delivered()),
            final(self).active() + dropped == old(self).active(),
    {
        let n = sent.len();
        let mut seen: usize = 0;
        let mut at: usize = 0;
        let mut dropped: usize = 0;
        proof {
            assert(self.subscribers.len() == self.ids@.len());
            assert(kept(self.ids@.take(0), sent@.take(0)) + self.ids@.skip(0) =~= self.ids@);
            assert(kept(self.subscribers@.take(0), sent@.take(0)) + self.subscribers@.skip(0)
                =~= self.subscribers@);
        }
        while seen < n
            invariant
                self.wf(),
                old(self).wf(),
                n == sent@.len(),
                n == old(self).ids@.len(),
                self.issued@ == old(self).issued@,
                0 <= seen <= n,
                at + dropped == seen,
                at == kept(old(self).ids@.take(seen as int), sent@.take(seen as int)).len(),
                self.ids@ == kept(old(self).ids@.take(seen as int), sent@.take(seen as int)) + old(
                    self
                ).ids@.skip(seen as int),
                self.subscribers@ == kept(
                    old(self).subscribers@.take(seen as int),
                    sent@.take(seen as int),
                ) + old(self).subscribers@.skip(seen as int),
                self.logs@.dom().subset_of(old(self).logs@.dom()),
                forall|k: int|
                    0 <= k < at ==> self.logs@[#[trigger] self.ids@[k]] == old(self).logs@[self.ids@[
                        k
                    ]].push(sample),
                forall|k: int|
                    at <= k < self.ids@.len() ==> self.logs@[#[trigger] self.ids@[k]] == old(
                        self
                    ).logs@[self.ids@[k]],
            decreases n - seen,
        {
            let ghost ids = self.ids@;
            let ghost logs = self.logs@;
            let ghost id = ids[at as int];
            let ghost origin = old(self).ids@;
            let ghost front = kept(origin.take(seen as int), sent@.take(seen as int));
            let ghost handles = old(self).subscribers@;
            let ghost standing = self.subscribers@;
            let ghost held = kept(handles.take(seen as int), sent@.take(seen as int));
            proof {
                lemma_kept_lengths(
                    origin.take(seen as int),
                    handles.take(seen as int),
                    sent@.take(seen as int),
                );
                assert(held.len() == at);
                assert(standing[at as int] == handles[seen as int]);
                assert(handles.take(seen + 1).drop_last() =~= handles.take(seen as int));
                assert(handles.take(seen + 1).last() == handles[seen as int]);
                assert(ids.contains(id));
                assert(id == origin[seen as int]);
                assert(origin.take(seen + 1).drop_last() =~= origin.take(seen as int));
                assert(sent@.take(seen + 1).drop_last() =~= sent@.take(seen as int));
                assert(origin.take(seen + 1).last() == id);
                assert(sent@.take(seen + 1).last() == sent@[seen as int]);
            }
            if sent[seen] {
                self.logs = Ghost(logs.insert(id, logs[id].push(sample)));
                proof {
                    assert(ids =~= front.push(id) + origin.skip(seen + 1));
                    assert(standing =~= held.push(handles[seen as int]) + handles.skip(seen + 1));
                    assert forall|a: nat| self.logs@.dom().contains(a) <==> ids.contains(a) by {}
                    assert forall|k: int| 0 <= k < at + 1 implies self.logs@[#[trigger] ids[k]]
                        == old(self).logs@[ids[k]].push(sample) by {
                        if k < at {
                            assert(ids[k] != ids[at as int]);
                        }
                    }
                    assert forall|k: int| at + 1 <= k < ids.len() implies self.logs@[#[trigger] ids[k]]
                        == old(self).logs@[ids[k]] by {
                        assert(ids[k] != ids[at as int]);
                    }
                }
                at = at + 1;
            } else {
                self.subscribers.remove(at);
                self.ids = Ghost(ids.remove(at as int));
                self.logs = Ghost(logs.remove(id));
                dropped = dropped + 1;
                proof {
                    let rest = self.ids@;
                    assert(rest =~= front + origin.skip(seen + 1));
                    assert(self.subscribers@ =~= held + handles.skip(seen + 1));
                    assert forall|k: int| 0 <= k < rest.len() implies #[trigger] rest[k] == ids[if k
                        < at {
                        k
                    } else {
                        k + 1
                    }] by {}
                    assert forall|a: int, b: int|
                        0 <= a < rest.len() && 0 <= b < rest.len() && a != b implies rest[a]
                        != rest[b] by {
                        let a2 = if a < at {
                            a
                        } else {
                            a + 1
                        };
                        let b2 = if b < at {
                            b
                        } else {
                            b + 1
                        };
                        assert(ids[a2] != ids[b2]);
                    }
                    assert forall|a: nat| rest.contains(a) implies self.logs@.dom().contains(a) by {
                        let k = choose|k: int| 0 <= k < rest.len() && rest[k] == a;
                        let k2 = if k < at {
                            k
                        } else {
                            k + 1
                        };
                        assert(ids[k2] == a);
                        assert(ids[k2] != ids[at as int]);
                        assert(ids.contains(a));
                        assert(logs.dom().contains(a));
                    }
                    assert forall|a: nat| self.logs@.dom().contains(a) implies rest.contains(a) by {
                        assert(logs.dom().contains(a) && a != id);
                        assert(ids.contains(a));
                        let k = choose|k: int| 0 <= k < ids.len() && ids[k] == a;
                        let k2 = if k < at {
                            k
                        } else {
                            k - 1
                        };
                        assert(rest[k2] == a);
                    }
                    assert forall|k: int| 0 <= k < at implies self.logs@[#[trigger] rest[k]] == old(
                        self
                    ).logs@[rest[k]].push(sample) by {
                        assert(rest[k] == ids[k]);
                        assert(ids[k] != ids[at as int]);
                    }
                    assert forall|k: int| at <= k < rest.len() implies self.logs@[#[trigger] rest[k]]
                        == old(self).logs@[rest[k]] by {
                        assert(rest[k] == ids[k + 1]);
                        assert(ids[k + 1] != ids[at as int]);
                    }
                }
            }
            seen = seen + 1;
        }
        proof {
            let origin = old(self).ids@;
            assert(origin.take(n as int) =~= origin);
            assert(sent@.take(n as int) =~= sent@);
            let handles = old(self).subscribers@;
            assert(handles.take(n as int) =~= handles);
            assert(self.ids@ =~= kept(origin, sent@));
            assert(self.subscribers@ =~= kept(handles, sent@));
            assert(self.logs@.dom() =~= self.ids@.to_set());
            assert forall|id: nat| #[trigger]
                self.logs@.dom().contains(id) implies {
                &&& self.logs@[id] == old(self).logs@[id].push(sample)
                &&& self.logs@[id] == old(self).logs@[id] + seq![sample]
                &&& self.offered_to(id) == old(self).offered_to(id)
                &&& self.taken_by(id) == old(self).taken_by(id)
            } by {
                assert(self.ids@.contains(id));
                let k = self.ids@.index_of(id);
                lemma_index_of_position(self.ids@, k);
                assert(self.logs@[self.ids@[k]] == old(self).logs@[self.ids@[k]].push(sample));
                assert(old(self).logs@[id].push(sample) =~= old(self).logs@[id] + seq![sample]);
                let i = lemma_kept_aligned(origin, handles, sent@, k);
                lemma_index_of_position(origin, i);
            }
        }
        dropped
    }

    /// One delivery pass: offers `sample` to every subscriber in the order
    /// in which they were registered, then removes the subscribers whose
    /// channel turned it down, as `settle` says for the outcomes of the
    /// sends. Every subscriber that stays was offered the sample once, and
    /// its channel took it. Returns how many were removed.
    pub fn deliver(&mut self, sample: F) -> (dropped: usize)
        requires
            old(self).wf(),
        ensures
            final(self).wf(),
            final(self).issued() == old(self).issued(),
            exists|sent: Seq<bool>|
                sent.len() == old(self).active() && final(self).order() == #[trigger] kept(
                    old(self).order(),
                    sent,
                ),
            final(self).delivered().dom() == final(self).order().to_set(),
            forall|id: nat| #[trigger]
                final(self).delivered().dom().contains(id) ==> {
                    &&& final(self).delivered()[id] == old(self).delivered()[id].push(sample)
                    &&& final(self).offered_to(id) == old(self).offered_to(id).push(sample)
                    &&& final(self).taken_by(id) == old(self).taken_by(id).push(sample)
                },
            delivery_pass(old(self).delivered(), sample, final(self).delivered()),
            Self::delivery(*old(self), sample, *final(self)),
            final(self).active() + dropped == old(self).active(),
    {
        let sent = self.offer(sample);
        let ghost offered = *self;
        let dropped = self.settle(sample, &sent);
        proof {
            let order = old(self).ids@;
            assert(Self::offering(*old(self), sample, sent@, offered) && self.order() == kept(
                offered.order(),
                sent@,
            ));
            assert(sent@.len() == old(self).active() && self.order() == kept(
                old(self).order(),
                sent@,
            ));
            lemma_kept_members(order, sent@);
            assert forall|id: nat| #[trigger] self.logs@.dom().contains(id) implies self.offered_to(
                id,
            ) == old(self).offered_to(id).push(sample) && self.taken_by(id) == old(self).taken_by(
                id,
            ).push(sample) by {
                assert(self.ids@.to_set().contains(id));
                assert(kept(order, sent@).contains(id));
                let i = choose|i: int| 0 <= i < order.len() && sent@[i] && #[trigger] order[i] == id;
                lemma_index_of_position(order, i);
                assert(offered.subscribers@[i].offered() == old(self).subscribers@[i].offered().push(
                    sample,
                ));
            }
        }
        dropped
    }

    /// Reads a source to its end and delivers every sample, one pass each.
    /// This is the broadcaster's loop for a source whose stream is known to
    /// end; a live source is read by the caller, who calls `deliver` for
    /// each sample. The set that is left is what the passes left, one after
    /// the other, and every subscriber in it has received the whole stream
    /// behind what it had.
    pub fn drain<S: AudioSource<Format = F>>(&mut self, source: &mut S) -> (dropped: usize)
        requires
            old(self).wf(),
            old(source).pending() is Some,
        ensures
            final(self).wf(),
            final(self).issued() == old(self).issued(),
            final(source).pending() == Some(Seq::<F>::empty()),
            final(source).yielded() == old(source).yielded() + reads_of(
                old(source).pending()->0,
            ).push(None),
            exists|states: Seq<Self>|
                {
                    &&& #[trigger] Self::deliveries(states, old(source).pending()->0)
                    &&& states[0] == *old(self)
                    &&& states.last() == *final(self)
                },
            exists|sents: Seq<Seq<bool>>|
                {
                    &&& sents.len() == old(source).pending()->0.len()
                    &&& fits_run(old(self).order(), sents)
                    &&& final(self).order() == #[trigger] survivors(old(self).order(), sents)
                },
            final(self).delivered().dom() == final(self).order().to_set(),
            delivered_since(
                old(self).delivered(),
                old(source).pending()->0,
                final(self).delivered(),
            ),
            forall|id: nat| #[trigger]
                final(self).delivered().dom().contains(id) ==> {
                    &&& final(self).offered_to(id) == old(self).offered_to(id) + old(
                        source
                    ).pending()->0
                    &&& final(self).taken_by(id) == old(self).taken_by(id) + old(
                        source
                    ).pending()->0
                },
            final(self).active() + dropped == old(self).active(),
    {
        let ghost all = source.pending()->0;
        let ghost start = self.delivered();
        let ghost origin = self.order();
        let ghost mut done: Seq<F> = Seq::empty();
        let ghost mut sents: Seq<Seq<bool>> = Seq::empty();
        let ghost mut states: Seq<Self> = seq![*self];
        let mut dropped: usize = 0;
        proof {
            assert(self.subscribers.len() == self.active());
            assert(old(source).yielded() + reads_of(done) =~= old(source).yielded());
            assert forall|id: nat| #[trigger] start.dom().contains(id) implies start[id] == start[id]
                + done && self.offered_to(id) == self.offered_to(id) + done && self.taken_by(id)
                == self.taken_by(id) + done by {
                assert(start[id] + done =~= start[id]);
                assert(self.offered_to(id) + done =~= self.offered_to(id));
                assert(self.taken_by(id) + done =~= self.taken_by(id));
            }
            assert(self.logs@.dom() =~= self.ids@.to_set());
        }
        loop
            invariant_except_break
                source.yielded() == old(source).yielded() + reads_of(done),
            invariant
                self.wf(),
                start == old(self).delivered(),
                origin == old(self).order(),
                old(self).active() <= usize::MAX,
                self.issued() == old(self).issued(),
                source.pending() is Some,
                done + source.pending()->0 == all,
                Self::deliveries(states, done),
                states[0] == *old(self),
                states.last() == *self,
                sents.len() == done.len(),
                fits_run(origin, sents),
                self.order() == survivors(origin, sents),
                self.delivered().dom() == self.order().to_set(),
                delivered_since(start, done, self.delivered()),
                forall|id: nat| #[trigger]
                    self.delivered().dom().contains(id) ==> {
                        &&& self.offered_to(id) == old(self).offered_to(id) + done
                        &&& self.taken_by(id) == old(self).taken_by(id) + done
                    },
                self.active() + dropped == old(self).active(),
            ensures
                self.wf(),
                self.issued() == old(self).issued(),
                source.pending() == Some(Seq::<F>::empty()),
                source.yielded() == old(source).yielded() + reads_of(done).push(None),
                Self::deliveries(states, done),
                states[0] == *old(self),
                states.last() == *self,
                done == all,
                sents.len() == done.len(),
                fits_run(origin, sents),
                self.order() == survivors(origin, sents),
                self.delivered().dom() == self.order().to_set(),
                delivered_since(start, done, self.delivered()),
                forall|id: nat| #[trigger]
                    self.delivered().dom().contains(id) ==> {
                        &&& self.offered_to(id) == old(self).offered_to(id) + done
                        &&& self.taken_by(id) == old(self).taken_by(id) + done
                    },
                self.active() + dropped == old(self).active(),
            decreases source.pending()->0.len(),
        {
            let ghost rest = source.pending()->0;
            let ghost before = self.delivered();
            let ghost standing = self.order();
            let ghost pass = *self;
            match source.audio_read() {
                Some(sample) => {
                    let gone = self.deliver(sample);
                    dropped = dropped + gone;
                    proof {
                        let sent = choose|sent: Seq<bool>|
                            sent.len() == standing.len() && self.order() == #[trigger] kept(
                                standing,
                                sent,
                            );
                        let so_far = done;
                        let earlier = sents;
                        let passed = states;
                        done = so_far.push(sample);
                        sents = earlier.push(sent);
                        states = passed.push(*self);
                        assert(reads_of(so_far).push(Some(sample)) =~= reads_of(done));
                        assert forall|k: int| 0 <= k < done.len() implies #[trigger] Self::delivery(
                            states[k],
                            done[k],
                            states[k + 1],
                        ) by {
                            if k < so_far.len() {
                                assert(Self::delivery(passed[k], so_far[k], passed[k + 1]));
                            }
                        }
                        assert(sents.drop_last() =~= earlier);
                        assert(done + rest.drop_first() =~= so_far + rest);
                        assert forall|k: int| 0 <= k < sents.len() implies (#[trigger] sents[k]).len()
                            == survivors(origin, sents.take(k)).len() by {
                            if k < earlier.len() {
                                assert(sents.take(k) =~= earlier.take(k));
                                assert(sents[k] == earlier[k]);
                            } else {
                                assert(sents.take(k) =~= earlier);
                            }
                        }
                        assert forall|id: nat| #[trigger]
                            self.delivered().dom().contains(id) implies self.delivered()[id]
                            == start[id] + done && self.offered_to(id) == old(self).offered_to(id)
                            + done && self.taken_by(id) == old(self).taken_by(id) + done by {
                            assert(before.dom().contains(id));
                            assert((start[id] + so_far).push(sample) =~= start[id] + done);
                            let offered = old(self).offered_to(id);
                            let taken = old(self).taken_by(id);
                            assert((offered + so_far).push(sample) =~= offered + done);
                            assert((taken + so_far).push(sample) =~= taken + done);
                        }
                    }
                },
                None => {
                    proof {
                        assert(done + rest =~= done);
                    }
                    break ;
                },
            }
        }
        dropped
    }
}

} // verus!

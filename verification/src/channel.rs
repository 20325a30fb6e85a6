use vstd::prelude::*;

use crate::format::SampleFormat;
use crate::source::IntoAudioSource;
use crate::{AudioError, AudioSink, AudioSource};

verus! {

/// `crossbeam_channel::Sender`, the sending side of a channel, carried as
/// an opaque value.
#[verifier::external_type_specification]
#[verifier::external_body]
#[verifier::reject_recursive_types(T)]
pub struct ExSender<T>(crossbeam_channel::Sender<T>);

/// `crossbeam_channel::Receiver`, the receiving side of a channel, carried
/// as an opaque value.
#[verifier::external_type_specification]
#[verifier::external_body]
#[verifier::reject_recursive_types(T)]
pub struct ExReceiver<T>(crossbeam_channel::Receiver<T>);

/// The largest capacity ever asked of a bounded channel.
const MAX_CHANNEL_CAPACITY: usize = 0x1000_0000;

/// How many samples a sample channel holds before a write has to wait.
pub const AUDIO_CHANNEL_CAPACITY: usize = 64;

/// What one attempt to take a sample without waiting came back with.
#[derive(Debug, PartialEq, Eq)]
pub enum TryRead<T> {
    /// A sample was waiting.
    Sample(T),
    /// Nothing is waiting, but a producer may still send.
    Empty,
    /// Nothing is waiting and every producer is gone.
    Disconnected,
}

/// `crossbeam_channel::bounded`: a fresh channel that holds at most `cap`
/// messages, as its two ends. Nothing is claimed of the ends. The capacity
/// is kept small enough for the channel's index arithmetic, which panics
/// on a capacity near the top of `usize`.
#[verifier::external_body]
fn channel_bounded<T>(cap: usize) -> (ends: (
    crossbeam_channel::Sender<T>,
    crossbeam_channel::Receiver<T>,
))
    requires
        cap <= MAX_CHANNEL_CAPACITY,
{
    crossbeam_channel::bounded(cap)
}

/// `crossbeam_channel::unbounded`: a fresh channel that holds any number of
/// messages, as its two ends. Nothing is claimed of the ends.
#[verifier::external_body]
pub(crate) fn channel_unbounded<T>() -> (ends: (crossbeam_channel::Sender<T>, crossbeam_channel::Receiver<T>)) {
    crossbeam_channel::unbounded()
}

/// `Sender::send`: waits for room and hands the message over, or fails
/// because every receiver is gone. Which of the two happens is decided by
/// the other end; all that is claimed is that a failure gives back the very
/// message that was offered.
#[verifier::external_body]
fn channel_send<T>(tx: &crossbeam_channel::Sender<T>, msg: T) -> (r: Result<(), T>)
    ensures
        r matches Err(back) ==> back == msg,
{
    match tx.send(msg) {
        Ok(()) => Ok(()),
        Err(crossbeam_channel::SendError(back)) => Err(back),
    }
}

/// `Receiver::recv`: waits for a message, or reports that the channel is
/// empty with every sender gone. Nothing is claimed of what comes back.
#[verifier::external_body]
fn channel_recv<T>(rx: &crossbeam_channel::Receiver<T>) -> (r: Option<T>) {
    rx.recv().ok()
}

/// `Receiver::try_recv`: takes a waiting message without blocking, or says
/// whether the empty channel still has a sender. Nothing is claimed of what
/// comes back.
#[verifier::external_body]
fn channel_try_recv<T>(rx: &crossbeam_channel::Receiver<T>) -> (r: TryRead<T>) {
    match rx.try_recv() {
        Ok(sample) => TryRead::Sample(sample),
        Err(crossbeam_channel::TryRecvError::Empty) => TryRead::Empty,
        Err(crossbeam_channel::TryRecvError::Disconnected) => TryRead::Disconnected,
    }
}

/// `Sender::clone`: another handle on the same channel. Nothing is claimed
/// of it.
#[verifier::external_body]
fn channel_sender_clone<T>(tx: &crossbeam_channel::Sender<T>) -> (r: crossbeam_channel::Sender<T>) {
    tx.clone()
}

/// `Receiver::clone`: another handle on the same channel. Nothing is
/// claimed of it.
#[verifier::external_body]
fn channel_receiver_clone<T>(rx: &crossbeam_channel::Receiver<T>) -> (r:
    crossbeam_channel::Receiver<T>) {
    rx.clone()
}

/// The writing end of a sample channel.
///
/// Producers may be duplicated, and each duplicate keeps a record of its
/// own. Once every consumer of the channel is dropped, writes fail.
#[verifier::reject_recursive_types(T)]
pub struct Producer<T> {
    tx: crossbeam_channel::Sender<T>,
    tried: Ghost<Seq<T>>,
    log: Ghost<Seq<T>>,
}

/// The reading end of a sample channel.
///
/// Once every producer of the channel is dropped and the channel is
/// drained, reads report the end of the stream. A consumer keeps a record
/// of what the channel answered to each of its reads, and of which of them
/// it asked for in the way that waits.
#[verifier::reject_recursive_types(T)]
pub struct Consumer<T> {
    rx: crossbeam_channel::Receiver<T>,
    record: Ghost<Seq<TryRead<T>>>,
    blocking: Ghost<Seq<bool>>,
    reads: Ghost<Seq<Option<T>>>,
}

/// A blocking read as an answer of the channel: a sample, or the end.
pub open spec fn answer_of<T>(read: Option<T>) -> TryRead<T> {
    match read {
        Some(sample) => TryRead::Sample(sample),
        None => TryRead::Disconnected,
    }
}

impl<T: SampleFormat> Producer<T> {
    /// The producer that writes into the given end of a channel.
    pub(crate) fn wrap(tx: crossbeam_channel::Sender<T>) -> (r: Self)
        ensures
            r.offered() == Seq::<T>::empty(),
            r.accepted() == Seq::<T>::empty(),
    {
        Producer { tx, tried: Ghost(Seq::empty()), log: Ghost(Seq::empty()) }
    }

    /// Another handle on the same channel, with empty records.
    pub fn duplicate(&self) -> (r: Self)
        ensures
            r.offered() == Seq::<T>::empty(),
            r.accepted() == Seq::<T>::empty(),
    {
        Producer {
            tx: channel_sender_clone(&self.tx),
            tried: Ghost(Seq::empty()),
            log: Ghost(Seq::empty()),
        }
    }
}

impl<T: SampleFormat> AudioSink for Producer<T> {
    type Format = T;

    closed spec fn offered(&self) -> Seq<T> {
        self.tried@
    }

    closed spec fn accepted(&self) -> Seq<T> {
        self.log@
    }

    open spec fn room(&self) -> Option<nat> {
        None
    }

    open spec fn failure(&self) -> AudioError {
        AudioError::ChannelClosed
    }

    /// Sends one sample, waiting while a bounded channel is full. Fails
    /// with `ChannelClosed` once no consumer is left; the sample is lost.
    fn audio_write(&mut self, d: T) -> (r: Result<(), AudioError>) {
        self.tried = Ghost(self.tried@.push(d));
        match channel_send(&self.tx, d) {
            Ok(()) => {
                self.log = Ghost(self.log@.push(d));
                Ok(())
            },
            Err(_) => Err(AudioError::ChannelClosed),
        }
    }
}

impl<T: SampleFormat> Consumer<T> {
    /// What the channel answered to the reads through this handle, oldest
    /// first.
    pub closed spec fn answers(&self) -> Seq<TryRead<T>> {
        self.record@
    }

    /// For each read through this handle, oldest first, whether it was one
    /// that waits for the channel: `true` for `audio_read`, `false` for
    /// `try_read`.
    pub closed spec fn waited(&self) -> Seq<bool> {
        self.blocking@
    }

    /// The consumer that reads from the given end of a channel.
    pub(crate) fn wrap(rx: crossbeam_channel::Receiver<T>) -> (r: Self)
        ensures
            r.answers() == Seq::<TryRead<T>>::empty(),
            r.waited() == Seq::<bool>::empty(),
            r.yielded() == Seq::<Option<T>>::empty(),
    {
        Consumer {
            rx,
            record: Ghost(Seq::empty()),
            blocking: Ghost(Seq::empty()),
            reads: Ghost(Seq::empty()),
        }
    }

    /// Takes a waiting sample without blocking. The answer joins the
    /// record, as one that was not waited for.
    pub fn try_read(&mut self) -> (r: TryRead<T>)
        ensures
            final(self).answers() == old(self).answers().push(r),
            final(self).waited() == old(self).waited().push(false),
            final(self).yielded() == old(self).yielded(),
    {
        let answer = channel_try_recv(&self.rx);
        self.record = Ghost(self.record@.push(answer));
        self.blocking = Ghost(self.blocking@.push(false));
        answer
    }

    /// Another handle on the same channel, with empty records. The two
    /// share the stream: each sample goes to one of them.
    pub fn duplicate(&self) -> (r: Self)
        ensures
            r.answers() == Seq::<TryRead<T>>::empty(),
            r.waited() == Seq::<bool>::empty(),
            r.yielded() == Seq::<Option<T>>::empty(),
    {
        Consumer {
            rx: channel_receiver_clone(&self.rx),
            record: Ghost(Seq::empty()),
            blocking: Ghost(Seq::empty()),
            reads: Ghost(Seq::empty()),
        }
    }
}

impl<T: SampleFormat> AudioSource for Consumer<T> {
    type Format = T;

    open spec fn pending(&self) -> Option<Seq<T>> {
        None
    }

    closed spec fn yielded(&self) -> Seq<Option<T>> {
        self.reads@
    }

    /// Waits for the next sample. `None` means that the channel is drained
    /// and every producer is gone. The answer joins the record, as one that
    /// was waited for.
    fn audio_read(&mut self) -> (r: Option<T>)
        ensures
            final(self).answers() == old(self).answers().push(answer_of(r)),
            final(self).waited() == old(self).waited().push(true),
    {
        let read = channel_recv(&self.rx);
        self.record = Ghost(self.record@.push(answer_of(read)));
        self.blocking = Ghost(self.blocking@.push(true));
        self.reads = Ghost(self.reads@.push(read));
        read
    }
}

impl<T: SampleFormat> IntoAudioSource for Consumer<T> {
    type Format = T;

    type Source = Consumer<T>;

    open spec fn available(&self) -> bool {
        true
    }

    /// A consumer can be turned into a source any number of times: each
    /// source is a further handle on the same channel.
    fn into_audio_source(&mut self) -> (r: Result<Consumer<T>, AudioError>)
        ensures
            final(self).answers() == old(self).answers(),
            final(self).waited() == old(self).waited(),
            final(self).yielded() == old(self).yielded(),
            r matches Ok(source) ==> {
                &&& source.answers() == Seq::<TryRead<T>>::empty()
                &&& source.waited() == Seq::<bool>::empty()
                &&& source.yielded() == Seq::<Option<T>>::empty()
            },
    {
        Ok(self.duplicate())
    }
}

/// The sample channel of the pipeline with its two ends. It is bounded, so
/// that a producer which runs ahead of its consumer waits rather than
/// piling samples up. Nothing was sent through the producer yet.
pub fn new_audio_channel<T: SampleFormat>() -> (ends: (Producer<T>, Consumer<T>))
    ensures
        ends.0.offered() == Seq::<T>::empty(),
        ends.0.accepted() == Seq::<T>::empty(),
        ends.1.answers() == Seq::<TryRead<T>>::empty(),
        ends.1.waited() == Seq::<bool>::empty(),
        ends.1.yielded() == Seq::<Option<T>>::empty(),
{
    let (tx, rx) = channel_bounded(AUDIO_CHANNEL_CAPACITY);
    (Producer::wrap(tx), Consumer::wrap(rx))
}

} // verus!

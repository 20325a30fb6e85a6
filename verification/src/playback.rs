use std::time::Duration;
use vstd::prelude::*;

use crate::channel::{new_audio_channel, Consumer, Producer, TryRead};
use crate::config::{SampleType, StreamConfigQuery};
use crate::format::SampleFormat;
use crate::AudioSink;

verus! {

/// A playback output is always mono.
pub const PLAYBACK_CHANNELS: u16 = 1;

/// The buffer size, in frames, that playback asks an output device for.
pub const PLAYBACK_BUFFER_SIZE: u32 = 128;

/// What playback asks of an output device: mono float samples at the given
/// rate, with the playback buffer size among those the device accepts.
pub fn playback_query(sample_rate: u32) -> (q: StreamConfigQuery)
    ensures
        q == (StreamConfigQuery {
            sample_format: SampleType::F32,
            channels: PLAYBACK_CHANNELS,
            buffer_size: Some(PLAYBACK_BUFFER_SIZE),
            sample_rate,
        }),
{
    StreamConfigQuery {
        sample_format: SampleType::F32,
        channels: PLAYBACK_CHANNELS,
        buffer_size: Some(PLAYBACK_BUFFER_SIZE),
        sample_rate,
    }
}

/// What a pull yields for each thing that the channel can answer: a sample
/// that waits is played, an empty channel is covered by silence, and only a
/// channel that every producer has left ends the stream.
pub open spec fn pulled<F>(outcome: TryRead<F>, silence: F) -> Option<F> {
    match outcome {
        TryRead::Sample(sample) => Some(sample),
        TryRead::Empty => Some(silence),
        TryRead::Disconnected => None,
    }
}

/// What a run of pulls yields, one after the other, for the channel's
/// answers to them.
pub open spec fn playback<F>(answers: Seq<TryRead<F>>, silence: F) -> Seq<Option<F>> {
    answers.map_values(|answer: TryRead<F>| pulled(answer, silence))
}

/// The channel's answers while nothing waits and a producer is there.
pub open spec fn underrun<F>(pulls: nat) -> Seq<TryRead<F>> {
    Seq::new(pulls, |i: int| TryRead::Empty)
}

/// The channel's answers while the given samples wait, one for each.
pub open spec fn supply<F>(samples: Seq<F>) -> Seq<TryRead<F>> {
    samples.map_values(|sample: F| TryRead::Sample(sample))
}

/// An underrun is played as silence and does not end the stream: a pull
/// yields the sample that waited, or silence where none did, and it ends
/// the stream exactly when the channel is drained with every producer gone.
pub proof fn lemma_underrun_is_silence<F>(outcome: TryRead<F>, silence: F)
    ensures
        outcome is Empty ==> pulled(outcome, silence) == Some(silence),
        outcome matches TryRead::Sample(sample) ==> pulled(outcome, silence) == Some(sample),
        pulled(outcome, silence) is None <==> outcome is Disconnected,
{
}

/// Pulls before any data, through the data and after it: while the channel
/// has nothing every pull yields silence, then the samples that were sent
/// come out in their order, and once they are drained every pull yields
/// silence again. No pull of such a run ends the stream.
pub proof fn lemma_silence_around_data<F>(before: nat, samples: Seq<F>, after: nat, silence: F)
    ensures
        playback(underrun::<F>(before) + supply(samples) + underrun::<F>(after), silence)
            == Seq::new(before, |i: int| Some(silence)) + samples.map_values(|sample: F| Some(sample))
            + Seq::new(after, |i: int| Some(silence)),
{
}

/// Turns the channel's answer to one pull into what is played.
pub fn playback_sample<F: SampleFormat>(outcome: TryRead<F>, silence: F) -> (r: Option<F>)
    ensures
        r == pulled(outcome, silence),
{
    match outcome {
        TryRead::Sample(sample) => Some(sample),
        TryRead::Empty => Some(silence),
        TryRead::Disconnected => None,
    }
}

/// A source of samples for an output device to pull from, fed through a
/// channel by whoever holds its producer. A pull never waits.
#[verifier::reject_recursive_types(F)]
pub struct AudioPlaybackOutput<F> {
    sample_rate: u32,
    silence: F,
    rx: Consumer<F>,
}

impl<F: SampleFormat> AudioPlaybackOutput<F> {
    /// The rate, in samples per second, that the output declares.
    pub closed spec fn rate(&self) -> u32 {
        self.sample_rate
    }

    /// The sample that is played while nothing waits.
    pub closed spec fn silence(&self) -> F {
        self.silence
    }

    /// What the channel answered to the pulls so far, oldest first.
    pub closed spec fn answers(&self) -> Seq<TryRead<F>> {
        self.rx.answers()
    }

    /// For each pull so far, oldest first, whether it waited for the
    /// channel.
    pub closed spec fn waited(&self) -> Seq<bool> {
        self.rx.waited()
    }

    /// A playback output with the producer that feeds it. `silence` is the
    /// zero value of the sample type.
    pub fn new(sample_rate: u32, silence: F) -> (r: (Producer<F>, Self))
        ensures
            r.0.offered() == Seq::<F>::empty(),
            r.0.accepted() == Seq::<F>::empty(),
            r.1.rate() == sample_rate,
            r.1.silence() == silence,
            r.1.answers() == Seq::<TryRead<F>>::empty(),
            r.1.waited() == Seq::<bool>::empty(),
    {
        let (tx, rx) = new_audio_channel::<F>();
        (tx, AudioPlaybackOutput { sample_rate, silence, rx })
    }

    /// The stream has no frame boundaries.
    pub fn current_frame_len(&self) -> (r: Option<usize>)
        ensures
            r is None,
    {
        None
    }

    /// The number of channels, which is one.
    pub fn channels(&self) -> (r: u16)
        ensures
            r == PLAYBACK_CHANNELS,
    {
        PLAYBACK_CHANNELS
    }

    /// The declared sample rate.
    pub fn sample_rate(&self) -> (r: u32)
        ensures
            r == self.rate(),
    {
        self.sample_rate
    }

    /// The stream is open-ended: it has no total duration.
    pub fn total_duration(&self) -> (r: Option<Duration>)
        ensures
            r is None,
    {
        None
    }

    /// One pull of the output device. Asks the channel once, in the way
    /// that does not wait, and plays what `pulled` says for its answer,
    /// which joins the record; the declared rate and the silence stay as
    /// they are.
    pub fn next(&mut self) -> (r: Option<F>)
        ensures
            final(self).rate() == old(self).rate(),
            final(self).silence() == old(self).silence(),
            final(self).answers().len() == old(self).answers().len() + 1,
            final(self).answers().drop_last() == old(self).answers(),
            final(self).waited() == old(self).waited().push(false),
            r == pulled(final(self).answers().last(), old(self).silence()),
    {
        let outcome = self.rx.try_read();
        playback_sample(outcome, self.silence)
    }
}

} // verus!

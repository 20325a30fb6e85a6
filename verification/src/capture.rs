use std::collections::VecDeque;
use vstd::prelude::*;

use crate::config::{ResolvedStreamConfig, SampleType};
use crate::channel::{new_audio_channel, Consumer, Producer};
use crate::format::SampleFormat;
use crate::source::IntoAudioSource;
use crate::{AudioError, AudioSink};

verus! {

/// The size, in samples, of the blocks that the capture stage asks its
/// resampler to work on.
pub const RESAMPLER_CHUNK: usize = 1024;

/// How the frames of a capture device are laid out.
#[derive(Clone, Copy, Debug, PartialEq, Eq, Structural)]
pub enum ChannelLayout {
    /// One sample per frame, passed through as it is.
    Mono,
    /// Left and right interleaved, mixed down to one sample per frame.
    Stereo,
}

/// What a capture was set up to do: fixed once, before any sample flows.
#[derive(Clone, Copy, Debug, PartialEq, Eq)]
pub struct CapturePlan {
    pub layout: ChannelLayout,
    pub input_rate: u32,
    pub output_rate: u32,
}

impl CapturePlan {
    /// The plan for the given device format and target rate, where there is
    /// one: float samples only, and one or two channels.
    pub open spec fn planned(
        format: SampleType,
        channels: u16,
        input_rate: u32,
        output_rate: u32,
    ) -> Result<CapturePlan, AudioError> {
        if format != SampleType::F32 {
            Err(AudioError::UnsupportedSampleFormat(format))
        } else if channels == 1 {
            Ok(CapturePlan { layout: ChannelLayout::Mono, input_rate, output_rate })
        } else if channels == 2 {
            Ok(CapturePlan { layout: ChannelLayout::Stereo, input_rate, output_rate })
        } else {
            Err(AudioError::UnsupportedChannelCount(channels))
        }
    }

    /// Decides at setup what the capture will do with each block. A device
    /// whose samples are not 32-bit floats is refused, and so is any channel
    /// count other than one or two.
    pub fn new(format: SampleType, channels: u16, input_rate: u32, output_rate: u32) -> (r: Result<
        CapturePlan,
        AudioError,
    >)
        ensures
            r == Self::planned(format, channels, input_rate, output_rate),
    {
        if format != SampleType::F32 {
            Err(AudioError::UnsupportedSampleFormat(format))
        } else if channels == 1 {
            Ok(CapturePlan { layout: ChannelLayout::Mono, input_rate, output_rate })
        } else if channels == 2 {
            Ok(CapturePlan { layout: ChannelLayout::Stereo, input_rate, output_rate })
        } else {
            Err(AudioError::UnsupportedChannelCount(channels))
        }
    }

    /// The plan for a configuration that was negotiated with the device.
    pub fn for_config(config: &ResolvedStreamConfig, output_rate: u32) -> (r: Result<
        CapturePlan,
        AudioError,
    >)
        ensures
            r == Self::planned(
                config.sample_format,
                config.channels,
                config.sample_rate,
                output_rate,
            ),
    {
        Self::new(config.sample_format, config.channels, config.sample_rate, output_rate)
    }

    /// Whether the samples have to pass through a resampler: exactly when
    /// the device's rate is not the rate asked for.
    pub fn needs_resampling(&self) -> (r: bool)
        ensures
            r == (self.input_rate != self.output_rate),
    {
        self.input_rate != self.output_rate
    }
}

/// The mean of two PCM16 samples, rounded toward zero.
pub open spec fn pcm16_mean(left: i16, right: i16) -> int {
    let sum = left + right;
    if sum >= 0 {
        sum / 2
    } else {
        -((-sum) / 2)
    }
}

/// Averages a left and a right PCM16 sample into one.
pub fn mean_pcm16(left: i16, right: i16) -> (r: i16)
    ensures
        r == pcm16_mean(left, right),
{
    let sum: i32 = left as i32 + right as i32;
    if sum >= 0 {
        (sum / 2) as i16
    } else {
        (-((-sum) / 2)) as i16
    }
}

/// Whether `mono` is `input` mixed down pair by pair: one sample for each
/// complete left-right pair, each a result of `mix` on that pair. A last
/// sample without a partner has no part in it.
pub open spec fn is_stereo_mix<T, M: Fn(T, T) -> T>(input: Seq<T>, mono: Seq<T>, mix: M) -> bool {
    &&& mono.len() == input.len() / 2
    &&& forall|i: int|
        0 <= i < mono.len() ==> call_ensures(mix, (input[2 * i], input[2 * i + 1]), #[trigger] mono[i])
}

/// Whether `mono` is what a block `input` of the given layout comes to.
pub open spec fn is_downmix<T, M: Fn(T, T) -> T>(
    layout: ChannelLayout,
    input: Seq<T>,
    mono: Seq<T>,
    mix: M,
) -> bool {
    match layout {
        ChannelLayout::Mono => mono == input,
        ChannelLayout::Stereo => is_stereo_mix(input, mono, mix),
    }
}

/// Mixes interleaved stereo down to mono, pair by pair, with `mix` giving
/// the one sample that stands for a left and a right one.
pub fn stereo_to_mono<T: SampleFormat, M: Fn(T, T) -> T>(input: &[T], mix: M) -> (mono: Vec<T>)
    requires
        forall|l: T, r: T| call_requires(mix, (l, r)),
    ensures
        is_stereo_mix(input@, mono@, mix),
{
    let pairs: usize = input.len() / 2;
    let mut mono: Vec<T> = Vec::new();
    let mut i: usize = 0;
    while i < pairs
        invariant
            pairs == input@.len() / 2,
            0 <= i <= pairs,
            mono@.len() == i,
            forall|l: T, r: T| call_requires(mix, (l, r)),
            forall|k: int|
                0 <= k < i ==> call_ensures(mix, (input@[2 * k], input@[2 * k + 1]), #[trigger] mono@[k]),
        decreases pairs - i,
    {
        let left = input[2 * i];
        let right = input[2 * i + 1];
        let mixed = mix(left, right);
        mono.push(mixed);
        i = i + 1;
    }
    mono
}

/// Brings one block from the device to mono: a mono block is copied, a
/// stereo block is mixed down.
pub fn downmix<T: SampleFormat, M: Fn(T, T) -> T>(layout: ChannelLayout, input: &[T], mix: M) -> (mono:
    Vec<T>)
    requires
        forall|l: T, r: T| call_requires(mix, (l, r)),
    ensures
        is_downmix(layout, input@, mono@, mix),
{
    match layout {
        ChannelLayout::Mono => {
            let mut mono: Vec<T> = Vec::new();
            let mut i: usize = 0;
            while i < input.len()
                invariant
                    0 <= i <= input@.len(),
                    mono@ == input@.take(i as int),
                decreases input@.len() - i,
            {
                mono.push(input[i]);
                i = i + 1;
            }
            assert(mono@ =~= input@);
            mono
        },
        ChannelLayout::Stereo => stereo_to_mono(input, mix),
    }
}


/// The full frames of `n` samples each that `s` holds, cut from the front.
pub open spec fn frames_of<T>(s: Seq<T>, n: nat) -> Seq<Seq<T>>
    decreases s.len(),
{
    if n == 0 || s.len() < n {
        Seq::empty()
    } else {
        seq![s.take(n as int)] + frames_of(s.skip(n as int), n)
    }
}

/// What is left of `s` once its full frames of `n` samples are cut off.
pub open spec fn leftover<T>(s: Seq<T>, n: nat) -> Seq<T>
    decreases s.len(),
{
    if n == 0 || s.len() < n {
        s
    } else {
        leftover(s.skip(n as int), n)
    }
}

/// The frames of a vector of frames, each as the sequence of its samples.
pub open spec fn frames_view<T>(frames: Seq<Vec<T>>) -> Seq<Seq<T>> {
    frames.map_values(|frame: Vec<T>| frame@)
}

/// Cutting into frames loses nothing and reorders nothing: the frames laid
/// end to end, followed by what is left over, are the samples that went in.
/// Every frame is full, and less than one frame is left.
pub proof fn lemma_frames_keep_every_sample<T>(s: Seq<T>, n: nat)
    requires
        n > 0,
    ensures
        frames_of(s, n).flatten() + leftover(s, n) == s,
        frames_of(s, n).len() == s.len() / n,
        leftover(s, n).len() == s.len() % n,
        forall|i: int| 0 <= i < frames_of(s, n).len() ==> (#[trigger] frames_of(s, n)[i]).len() == n,
    decreases s.len(),
{
    if s.len() < n {
        assert(frames_of(s, n).flatten() =~= Seq::<T>::empty());
        assert(Seq::<T>::empty() + s =~= s);
        assert(s.len() / n == 0 && s.len() % n == s.len()) by (nonlinear_arith)
            requires
                0 <= s.len() < n,
        ;
    } else {
        let head = s.take(n as int);
        let rest = s.skip(n as int);
        lemma_frames_keep_every_sample(rest, n);
        let tail = frames_of(rest, n);
        assert(frames_of(s, n) == seq![head] + tail);
        vstd::seq_lib::lemma_flatten_concat(seq![head], tail);
        seq![head].lemma_flatten_one_element();
        assert((head + tail.flatten()) + leftover(rest, n) =~= head + (tail.flatten() + leftover(
            rest,
            n,
        )));
        assert(head + rest =~= s);
        assert(s.len() / n == (s.len() - n) / (n as int) + 1 && s.len() % n == (s.len() - n) % (
        n as int)) by (nonlinear_arith)
            requires
                n > 0,
                s.len() >= n,
        ;
        assert forall|i: int| 0 <= i < frames_of(s, n).len() implies (#[trigger] frames_of(
            s,
            n,
        )[i]).len() == n by {
            if i > 0 {
                assert(frames_of(s, n)[i] == tail[i - 1]);
            }
        }
    }
}

/// The buffer in front of a resampler: samples go in as they arrive and
/// come out in frames of the one size that the resampler works on.
pub struct FrameQueue<T> {
    pending: VecDeque<T>,
    frame_len: usize,
}

impl<T: SampleFormat> FrameQueue<T> {
    /// The samples that wait for a frame to fill, oldest first.
    pub closed spec fn buffered(&self) -> Seq<T> {
        self.pending@
    }

    /// The number of samples in one frame.
    pub closed spec fn frame_size(&self) -> nat {
        self.frame_len as nat
    }

    /// A queue can cut frames only if a frame holds at least one sample.
    pub open spec fn wf(&self) -> bool {
        self.frame_size() > 0
    }

    /// An empty queue for frames of `frame_len` samples, or `None` where a
    /// frame would hold nothing.
    pub fn new(frame_len: usize) -> (r: Option<Self>)
        ensures
            r is Some <==> frame_len > 0,
            r matches Some(q) ==> q.wf() && q.frame_size() == frame_len && q.buffered()
                == Seq::<T>::empty(),
    {
        if frame_len == 0 {
            None
        } else {
            Some(FrameQueue { pending: VecDeque::new(), frame_len })
        }
    }

    /// The number of samples that wait in the queue.
    pub fn len(&self) -> (r: usize)
        ensures
            r == self.buffered().len(),
    {
        self.pending.len()
    }

    /// Appends a block of samples behind those that wait.
    pub fn extend(&mut self, samples: &Vec<T>)
        requires
            old(self).wf(),
        ensures
            final(self).wf(),
            final(self).frame_size() == old(self).frame_size(),
            final(self).buffered() == old(self).buffered() + samples@,
    {
        let mut i: usize = 0;
        while i < samples.len()
            invariant
                0 <= i <= samples@.len(),
                self.frame_len == old(self).frame_len,
                self.pending@ == old(self).pending@ + samples@.take(i as int),
            decreases samples@.len() - i,
        {
            self.pending.push_back(samples[i]);
            i = i + 1;
            assert(self.pending@ =~= old(self).pending@ + samples@.take(i as int));
        }
        assert(samples@.take(samples@.len() as int) =~= samples@);
    }

    /// Cuts the oldest frame off the queue, once a full one has gathered.
    pub fn next_frame(&mut self) -> (r: Option<Vec<T>>)
        requires
            old(self).wf(),
        ensures
            final(self).wf(),
            final(self).frame_size() == old(self).frame_size(),
            r is Some <==> old(self).buffered().len() >= old(self).frame_size(),
            r matches Some(frame) ==> {
                &&& frame@ == old(self).buffered().take(old(self).frame_size() as int)
                &&& final(self).buffered() == old(self).buffered().skip(
                    old(self).frame_size() as int,
                )
            },
            r is None ==> final(self).buffered() == old(self).buffered(),
    {
        if self.pending.len() < self.frame_len {
            return None;
        }
        let mut frame: Vec<T> = Vec::new();
        while frame.len() < self.frame_len
            invariant
                self.frame_len == old(self).frame_len,
                frame@.len() <= self.frame_len,
                frame@ + self.pending@ == old(self).pending@,
                old(self).pending@.len() >= self.frame_len,
            decreases self.frame_len - frame@.len(),
        {
            let ghost before = self.pending@;
            match self.pending.pop_front() {
                Some(sample) => {
                    frame.push(sample);
                    assert(frame@ + self.pending@ =~= frame@.drop_last() + before);
                },
                None => {
                    assert(false);
                },
            }
        }
        assert(frame@ =~= old(self).pending@.take(self.frame_len as int));
        assert(self.pending@ =~= old(self).pending@.skip(self.frame_len as int));
        Some(frame)
    }

    /// Cuts every full frame off the queue, oldest first. Less than one
    /// frame stays behind for the samples to come.
    pub fn take_frames(&mut self) -> (frames: Vec<Vec<T>>)
        requires
            old(self).wf(),
        ensures
            final(self).wf(),
            final(self).frame_size() == old(self).frame_size(),
            frames_view(frames@) == frames_of(old(self).buffered(), old(self).frame_size()),
            final(self).buffered() == leftover(old(self).buffered(), old(self).frame_size()),
    {
        let mut frames: Vec<Vec<T>> = Vec::new();
        let ghost n = self.frame_size();
        let ghost all = self.buffered();
        assert(frames_view(frames@) =~= Seq::<Seq<T>>::empty());
        assert(Seq::<Seq<T>>::empty() + frames_of(all, n) =~= frames_of(all, n));
        loop
            invariant
                self.wf(),
                self.frame_size() == n,
                n > 0,
                frames_view(frames@) + frames_of(self.buffered(), n) == frames_of(all, n),
                leftover(self.buffered(), n) == leftover(all, n),
            ensures
                self.wf(),
                self.frame_size() == n,
                frames_view(frames@) == frames_of(all, n),
                self.buffered() == leftover(all, n),
            decreases self.buffered().len(),
        {
            let ghost before = self.buffered();
            let ghost cut = frames_view(frames@);
            match self.next_frame() {
                Some(frame) => {
                    frames.push(frame);
                    assert(frames_view(frames@) =~= cut.push(frame@));
                    assert(cut.push(frame@) + frames_of(self.buffered(), n) =~= cut + (seq![
                        frame@,
                    ] + frames_of(self.buffered(), n)));
                },
                None => {
                    assert(frames_of(before, n) =~= Seq::<Seq<T>>::empty());
                    assert(cut + Seq::<Seq<T>>::empty() =~= cut);
                    break ;
                },
            }
        }
        frames
    }
}

/// What the capture stage hands on after one block from the device.
#[derive(Debug, PartialEq, Eq)]
pub enum CaptureOutput<T> {
    /// Mono samples at the rate asked for, ready to be sent as they are.
    Direct(Vec<T>),
    /// Full frames for the resampler, oldest first; what it makes of each
    /// is sent, and a frame that it rejects is dropped.
    Frames(Vec<Vec<T>>),
}

/// The state that a capture keeps from one block of the device to the next.
pub struct CaptureStage<T> {
    layout: ChannelLayout,
    queue: Option<FrameQueue<T>>,
}

impl<T: SampleFormat> CaptureStage<T> {
    /// A stage that resamples cuts frames of at least one sample.
    pub open spec fn wf(&self) -> bool {
        self.resamples() ==> self.frame_size() > 0
    }

    /// How the blocks of the device are laid out.
    pub closed spec fn layout(&self) -> ChannelLayout {
        self.layout
    }

    /// Whether the samples pass through a resampler.
    pub closed spec fn resamples(&self) -> bool {
        self.queue is Some
    }

    /// The size of the resampler's frames; meaningful where it resamples.
    pub closed spec fn frame_size(&self) -> nat {
        match self.queue {
            Some(q) => q.frame_size(),
            None => 0,
        }
    }

    /// The mono samples that wait for a frame to fill, oldest first.
    pub closed spec fn buffered(&self) -> Seq<T> {
        match self.queue {
            Some(q) => q.buffered(),
            None => Seq::empty(),
        }
    }

    /// The stage for a plan. `frame_len` is the number of samples that the
    /// resampler takes at a time; it is looked at only where the plan needs
    /// a resampler, and then a frame of no samples is refused.
    pub fn new(plan: CapturePlan, frame_len: usize) -> (r: Result<Self, AudioError>)
        ensures
            r is Err <==> plan.input_rate != plan.output_rate && frame_len == 0,
            r matches Err(e) ==> e == AudioError::EmptyResamplerFrame,
            r matches Ok(stage) ==> {
                &&& stage.wf()
                &&& stage.layout() == plan.layout
                &&& stage.resamples() == (plan.input_rate != plan.output_rate)
                &&& stage.resamples() ==> stage.frame_size() == frame_len && stage.frame_size() > 0
                &&& stage.buffered() == Seq::<T>::empty()
            },
    {
        if plan.needs_resampling() {
            match FrameQueue::new(frame_len) {
                Some(queue) => Ok(CaptureStage { layout: plan.layout, queue: Some(queue) }),
                None => Err(AudioError::EmptyResamplerFrame),
            }
        } else {
            Ok(CaptureStage { layout: plan.layout, queue: None })
        }
    }

    /// Takes one block from the device. The block is brought to mono.
    /// Without a resampler the mono samples are handed on at once. With one
    /// they join the samples that wait, every full frame is cut off and
    /// handed on, and the rest waits for the next block.
    pub fn accept<M: Fn(T, T) -> T>(&mut self, data: &[T], mix: M) -> (out: CaptureOutput<T>)
        requires
            old(self).wf(),
            forall|l: T, r: T| call_requires(mix, (l, r)),
        ensures
            final(self).wf(),
            final(self).layout() == old(self).layout(),
            final(self).resamples() == old(self).resamples(),
            final(self).frame_size() == old(self).frame_size(),
            final(self).resamples() ==> final(self).frame_size() > 0,
            exists|mono: Seq<T>|
                {
                    &&& is_downmix(old(self).layout(), data@, mono, mix)
                    &&& match out {
                        CaptureOutput::Direct(samples) => {
                            &&& !old(self).resamples()
                            &&& samples@ == mono
                            &&& final(self).buffered() == old(self).buffered()
                        },
                        CaptureOutput::Frames(frames) => {
                            &&& old(self).resamples()
                            &&& frames_view(frames@) == frames_of(
                                old(self).buffered() + mono,
                                old(self).frame_size(),
                            )
                            &&& final(self).buffered() == leftover(
                                old(self).buffered() + mono,
                                old(self).frame_size(),
                            )
                        },
                    }
                },
    {
        let mono = downmix(self.layout, data, mix);
        match &mut self.queue {
            Some(queue) => {
                queue.extend(&mono);
                let frames = queue.take_frames();
                CaptureOutput::Frames(frames)
            },
            None => CaptureOutput::Direct(mono),
        }
    }
}

/// The samples of `samples` that were taken, in their order: `taken` says
/// of each position whether the sample there was.
pub open spec fn kept<T>(samples: Seq<T>, taken: Seq<bool>) -> Seq<T>
    recommends
        taken.len() == samples.len(),
    decreases samples.len(),
{
    if samples.len() == 0 {
        Seq::empty()
    } else {
        let before = kept(samples.drop_last(), taken.drop_last());
        if taken.last() {
            before.push(samples.last())
        } else {
            before
        }
    }
}

/// What sending the run `samples` to a sink comes to, from the sink as it
/// was to the sink as it is. Every sample of the run was offered, in order
/// and once, whether or not an earlier one was turned down. Those that the
/// sink took, `delivered` of them, stand behind what it had, in the order
/// of the run. A sink of known room took as many as fit and no more.
pub open spec fn emission<K: AudioSink>(
    before: K,
    samples: Seq<K::Format>,
    after: K,
    delivered: nat,
) -> bool {
    &&& delivered <= samples.len()
    &&& after.offered() == before.offered() + samples
    &&& exists|taken: Seq<bool>|
        {
            &&& taken.len() == samples.len()
            &&& #[trigger] kept(samples, taken).len() == delivered
            &&& after.accepted() == before.accepted() + kept(samples, taken)
        }
    &&& after.failure() == before.failure()
    &&& before.room() is None ==> after.room() is None
    &&& before.room() matches Some(n) ==> {
        let fit = if n <= samples.len() {
            n as int
        } else {
            samples.len() as int
        };
        &&& delivered == fit
        &&& after.accepted() == before.accepted() + samples.take(fit)
        &&& after.room() == Some((n - fit) as nat)
    }
}

/// Sends a run of samples to a sink, one after the other. A sample that the
/// sink rejects is dropped and the run goes on with the next, so the stream
/// may get a gap but is never reordered. Returns how many were taken.
pub fn emit_samples<K: AudioSink>(sink: &mut K, samples: &Vec<K::Format>) -> (delivered: usize)
    ensures
        emission(*old(sink), samples@, *final(sink), delivered as nat),
{
    let mut delivered: usize = 0;
    let mut i: usize = 0;
    let ghost mut taken: Seq<bool> = Seq::empty();
    assert(old(sink).accepted() + kept(samples@.take(0), taken) =~= old(sink).accepted());
    assert(old(sink).accepted() + samples@.take(0) =~= old(sink).accepted());
    assert(old(sink).offered() + samples@.take(0) =~= old(sink).offered());
    while i < samples.len()
        invariant
            0 <= i <= samples@.len(),
            delivered <= i,
            taken.len() == i,
            kept(samples@.take(i as int), taken).len() == delivered,
            sink.accepted() == old(sink).accepted() + kept(samples@.take(i as int), taken),
            sink.offered() == old(sink).offered() + samples@.take(i as int),
            sink.failure() == old(sink).failure(),
            old(sink).room() is None ==> sink.room() is None,
            old(sink).room() matches Some(n) ==> {
                let fit = if n <= i {
                    n as int
                } else {
                    i as int
                };
                &&& delivered == fit
                &&& sink.accepted() == old(sink).accepted() + samples@.take(fit)
                &&& sink.room() == Some((n - fit) as nat)
            },
        decreases samples@.len() - i,
    {
        let ghost before = sink.accepted();
        let ghost prefix = samples@.take(i as int);
        let ghost flags = taken;
        let sample = samples[i];
        let outcome = sink.audio_write(sample);
        proof {
            let next = samples@.take(i + 1);
            assert(next.drop_last() =~= prefix);
            assert(next.last() == sample);
            assert(prefix.push(sample) =~= next);
            taken = flags.push(outcome is Ok);
            assert(taken.drop_last() =~= flags);
            if outcome is Ok {
                assert(before.push(sample) =~= old(sink).accepted() + kept(prefix, flags).push(
                    sample,
                ));
                if old(sink).room() is Some {
                    assert(before.push(sample) =~= old(sink).accepted() + samples@.take(i + 1));
                }
            }
        }
        if outcome.is_ok() {
            delivered = delivered + 1;
        }
        i = i + 1;
    }
    proof {
        assert(samples@.take(samples@.len() as int) =~= samples@);
        assert(kept(samples@, taken).len() == delivered);
    }
    delivered
}

/// Sends on what a resampler made of one frame. `resampled` is its result:
/// the samples that it produced, or `None` where it rejected the frame. A
/// rejected frame is dropped, nothing is offered to the sink for it, and
/// the stream goes on with a gap. Returns how many samples were taken.
pub fn emit_resampled<K: AudioSink>(sink: &mut K, resampled: Option<Vec<K::Format>>) -> (delivered:
    usize)
    ensures
        match resampled {
            Some(samples) => emission(*old(sink), samples@, *final(sink), delivered as nat),
            None => {
                &&& delivered == 0
                &&& final(sink).offered() == old(sink).offered()
                &&& final(sink).accepted() == old(sink).accepted()
                &&& final(sink).room() == old(sink).room()
                &&& final(sink).failure() == old(sink).failure()
            },
        },
{
    match resampled {
        Some(samples) => emit_samples(sink, &samples),
        None => 0,
    }
}

/// The handle on a running capture: it keeps the capture's channel open
/// and holds the reading end until someone asks for it.
#[verifier::reject_recursive_types(T)]
pub struct AudioCapture<T> {
    _tx: Producer<T>,
    rx: Option<Consumer<T>>,
}

impl<T: SampleFormat> AudioCapture<T> {
    /// A fresh capture channel. The producer is for the device's callback
    /// to write into; the handle holds the reading end, not yet taken.
    pub fn new() -> (r: (Producer<T>, AudioCapture<T>))
        ensures
            r.0.offered() == Seq::<T>::empty(),
            r.0.accepted() == Seq::<T>::empty(),
            r.1.available(),
    {
        let (tx, rx) = new_audio_channel::<T>();
        let writer = tx.duplicate();
        (writer, AudioCapture { _tx: tx, rx: Some(rx) })
    }
}

impl<T: SampleFormat> IntoAudioSource for AudioCapture<T> {
    type Format = T;

    type Source = Consumer<T>;

    closed spec fn available(&self) -> bool {
        self.rx is Some
    }

    /// Hands out the reading end of the capture, once. A second request is
    /// refused with `SourceTaken`.
    fn into_audio_source(&mut self) -> (r: Result<Consumer<T>, AudioError>)
        ensures
            !final(self).available(),
    {
        match self.rx.take() {
            Some(source) => Ok(source),
            None => Err(AudioError::SourceTaken),
        }
    }
}

} // verus!

//! A streaming pipeline for audio samples: configuration negotiation, the
//! capture stage, a fan-out broadcaster, a pull-based playback output, a
//! PCM16 byte codec and a blocking pipe between a source and a sink.
pub mod buffer;
pub mod capture;
pub mod channel;
pub mod config;
pub mod convert;
pub mod format;
pub mod pipe;
pub mod playback;
pub mod source;

use vstd::prelude::*;

pub use crate::buffer::{Buffer, BufferIter, BufferWriter, Recorder};
pub use crate::capture::{
    downmix, emit_resampled, emit_samples, mean_pcm16, stereo_to_mono, AudioCapture,
    CaptureOutput, CapturePlan, CaptureStage, ChannelLayout, FrameQueue, RESAMPLER_CHUNK,
};
pub use crate::channel::{new_audio_channel, Consumer, Producer, TryRead, AUDIO_CHANNEL_CAPACITY};
pub use crate::config::{
    find_best_config, supported_input_config, supported_output_config, CapabilityRange,
    ResolvedStreamConfig, SampleType, StreamConfigQuery, SupportedBufferSize,
};
pub use crate::convert::{convert_bytes_to_pcm16, convert_pcm16_to_bytes};
pub use crate::format::{FormatPCM16, SampleFormat};
pub use crate::pipe::{audio_pipe, audio_pipe_step, PipeStep};
pub use crate::playback::{
    playback_query, playback_sample, AudioPlaybackOutput, PLAYBACK_BUFFER_SIZE, PLAYBACK_CHANNELS,
};
pub use crate::source::{AudioSourceFanOut, IntoAudioSource};

verus! {

/// Why an operation of the pipeline failed.
#[derive(Clone, Copy, Debug, PartialEq, Eq)]
pub enum AudioError {
    /// No entry of a capability list serves the query, which is handed back.
    ConfigNegotiationFailed(crate::config::StreamConfigQuery),
    /// A capture device delivers samples of a type other than 32-bit floats.
    UnsupportedSampleFormat(crate::config::SampleType),
    /// A capture device delivers frames of neither one nor two channels.
    UnsupportedChannelCount(u16),
    /// A resampler asks for frames of no samples at all.
    EmptyResamplerFrame,
    /// The peer of a channel was dropped, so nothing can be sent to it.
    ChannelClosed,
    /// An in-memory sink has no room left for another sample.
    SinkFull,
    /// The source of a capture was handed out before.
    SourceTaken,
}

/// Something that takes samples one at a time.
///
/// `offered` is the record of every sample that was offered to the sink
/// through this handle, taken or not, oldest first, and `accepted` is the
/// record of those that it took. `room` says how many more samples the sink is
/// known to take before it starts rejecting them; it is `None` where that is
/// decided elsewhere, as for a channel whose reader may go away at any time.
/// `failure` is the one error with which the sink rejects a sample.
pub trait AudioSink: Send {
    /// The sample representation that the sink takes.
    type Format: SampleFormat;

    /// The samples offered so far, oldest first, whether taken or not.
    spec fn offered(&self) -> Seq<Self::Format>;

    /// The samples taken so far, oldest first.
    spec fn accepted(&self) -> Seq<Self::Format>;

    /// How many more samples will be taken, where that is known.
    spec fn room(&self) -> Option<nat>;

    /// The error that a rejected sample comes back with.
    spec fn failure(&self) -> AudioError;

    /// Offers one sample. A sample that is taken is appended to the record
    /// of what was taken; one that is rejected leaves that record as it was
    /// and is lost. Either way it joins the record of what was offered.
    fn audio_write(&mut self, d: Self::Format) -> (r: Result<(), AudioError>)
        ensures
            final(self).offered() == old(self).offered().push(d),
            r is Ok ==> final(self).accepted() == old(self).accepted().push(d),
            r is Err ==> final(self).accepted() == old(self).accepted(),
            r matches Err(e) ==> e == old(self).failure(),
            final(self).failure() == old(self).failure(),
            old(self).room() is None ==> final(self).room() is None,
            old(self).room() matches Some(n) ==> {
                &&& r is Ok <==> n > 0
                &&& final(self).room() == Some(if n > 0 { (n - 1) as nat } else { 0 })
            },
    ;
}

/// Something that yields samples one at a time until its stream ends.
///
/// `pending` is the rest of the stream where it is known in advance: the
/// samples still to come, in order, after which the source reports the end.
/// It is `None` for a live source, whose samples are decided elsewhere while
/// it is being read. `yielded` is the record of every read through this
/// handle, oldest first: the sample that it gave, or `None` for the end.
pub trait AudioSource: Sync + Send {
    /// The sample representation that the source yields.
    type Format: SampleFormat;

    /// The samples still to come, in order, where they are known.
    spec fn pending(&self) -> Option<Seq<Self::Format>>;

    /// What each read so far came back with, oldest first.
    spec fn yielded(&self) -> Seq<Option<Self::Format>>;

    /// Takes the next sample, or `None` at the end of the stream. What it
    /// returns joins the record of the reads.
    fn audio_read(&mut self) -> (r: Option<Self::Format>)
        ensures
            final(self).yielded() == old(self).yielded().push(r),
            old(self).pending() is None ==> final(self).pending() is None,
            old(self).pending() matches Some(s) ==> {
                &&& s.len() > 0 ==> r == Some(s[0]) && final(self).pending() == Some(s.drop_first())
                &&& s.len() == 0 ==> r is None && final(self).pending() == Some(s)
            },
    ;
}

/// A run of reads that gave the samples of `samples`, one each.
pub open spec fn reads_of<F>(samples: Seq<F>) -> Seq<Option<F>> {
    samples.map_values(|sample: F| Some(sample))
}

} // verus!

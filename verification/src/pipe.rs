use vstd::prelude::*;

use crate::{reads_of, AudioError, AudioSink, AudioSource};

verus! {

/// What one step of a pipe did.
#[derive(Debug, PartialEq, Eq)]
pub enum PipeStep<F> {
    /// The source gave this sample and the sink took it.
    Forwarded(F),
    /// The source was at its end; nothing was written.
    Finished,
    /// The source gave a sample and the sink turned it down with this
    /// error. The sample is lost.
    Failed(AudioError),
}

/// What the source's one read of a step came back with, told from the step
/// and from the sink after it: the sample that was forwarded, the end, or
/// the sample that the sink was offered last and turned down.
pub open spec fn read_of_step<K: AudioSink>(step: PipeStep<K::Format>, sink: K) -> Option<
    K::Format,
> {
    match step {
        PipeStep::Forwarded(d) => Some(d),
        PipeStep::Finished => None,
        PipeStep::Failed(_) => Some(sink.offered().last()),
    }
}

/// One step of a pipe: pulls one sample from the source, with exactly one
/// read, and pushes it to the sink. A live source, whose length nobody
/// knows, is piped by calling this for as long as it answers `Forwarded`.
pub fn audio_pipe_step<S: AudioSource, K: AudioSink<Format = S::Format>>(
    source: &mut S,
    sink: &mut K,
) -> (step: PipeStep<S::Format>)
    ensures
        final(source).yielded() == old(source).yielded().push(read_of_step(step, *final(sink))),
        old(source).pending() is None ==> final(source).pending() is None,
        old(source).pending() matches Some(s) ==> {
            &&& step is Finished <==> s.len() == 0
            &&& s.len() == 0 ==> final(source).pending() == Some(s)
            &&& s.len() > 0 ==> final(source).pending() == Some(s.drop_first())
            &&& step matches PipeStep::Forwarded(d) ==> d == s[0]
        },
        match step {
            PipeStep::Forwarded(d) => {
                &&& final(sink).accepted() == old(sink).accepted().push(d)
                &&& final(sink).offered() == old(sink).offered().push(d)
            },
            PipeStep::Finished => {
                &&& final(sink).accepted() == old(sink).accepted()
                &&& final(sink).offered() == old(sink).offered()
                &&& final(sink).room() == old(sink).room()
            },
            PipeStep::Failed(e) => {
                &&& final(sink).accepted() == old(sink).accepted()
                &&& final(sink).offered().len() == old(sink).offered().len() + 1
                &&& final(sink).offered().drop_last() == old(sink).offered()
                &&& e == old(sink).failure()
            },
        },
        old(source).pending() matches Some(s) ==> {
            s.len() > 0 ==> final(sink).offered() == old(sink).offered().push(s[0])
        },
        final(sink).failure() == old(sink).failure(),
        old(sink).room() is None ==> final(sink).room() is None,
        old(sink).room() matches Some(n) ==> {
            &&& step is Forwarded ==> n > 0 && final(sink).room() == Some((n - 1) as nat)
            &&& step is Failed ==> n == 0 && final(sink).room() == Some(0nat)
        },
{
    match source.audio_read() {
        Some(d) => match sink.audio_write(d) {
            Ok(()) => PipeStep::Forwarded(d),
            Err(e) => PipeStep::Failed(e),
        },
        None => PipeStep::Finished,
    }
}

/// Copies a source to a sink, sample by sample, to the end of the source.
///
/// Returns `Ok` when the source has reported its end: every one of its
/// samples was then taken by the sink, in order. Stops at the first sample
/// that the sink turns down and returns the sink's error: the samples
/// before it were taken, it is lost, and those behind it are still in the
/// source. Nothing is retried and nothing is held back.
///
/// The source has to be one whose stream is known to end; a live source is
/// piped with `audio_pipe_step`.
pub fn audio_pipe<S: AudioSource, K: AudioSink<Format = S::Format>>(
    source: &mut S,
    sink: &mut K,
) -> (r: Result<(), AudioError>)
    requires
        old(source).pending() is Some,
    ensures
        final(source).pending() is Some,
        r is Ok ==> {
            &&& final(source).pending()->0.len() == 0
            &&& final(source).yielded() == old(source).yielded() + reads_of(
                old(source).pending()->0,
            ).push(None)
            &&& final(sink).accepted() == old(sink).accepted() + old(source).pending()->0
            &&& final(sink).offered() == old(sink).offered() + old(source).pending()->0
        },
        r is Err ==> exists|k: int|
            {
                &&& 0 <= k < old(source).pending()->0.len()
                &&& final(sink).accepted() == old(sink).accepted() + (#[trigger] old(
                    source
                ).pending()->0.take(k))
                &&& final(sink).offered() == old(sink).offered() + old(source).pending()->0.take(
                    k + 1,
                )
                &&& final(source).pending()->0 == old(source).pending()->0.skip(k + 1)
                &&& final(source).yielded() == old(source).yielded() + reads_of(
                    old(source).pending()->0.take(k + 1),
                )
            },
        r matches Err(e) ==> e == old(sink).failure(),
        final(sink).failure() == old(sink).failure(),
        old(sink).room() is None ==> final(sink).room() is None,
        old(sink).room() matches Some(n) ==> {
            let len = old(source).pending()->0.len();
            let fit = if n <= len {
                n as int
            } else {
                len as int
            };
            &&& r is Ok <==> len <= n
            &&& final(sink).accepted() == old(sink).accepted() + old(source).pending()->0.take(fit)
            &&& final(sink).room() == Some((n - fit) as nat)
            &&& r is Err ==> final(source).pending()->0 == old(source).pending()->0.skip(fit + 1)
        },
{
    let ghost all = source.pending()->0;
    let ghost mut done: int = 0;
    loop
        invariant
            0 <= done <= all.len(),
            all == old(source).pending()->0,
            source.pending() == Some(all.skip(done)),
            source.yielded() == old(source).yielded() + reads_of(all.take(done)),
            sink.accepted() == old(sink).accepted() + all.take(done),
            sink.offered() == old(sink).offered() + all.take(done),
            sink.failure() == old(sink).failure(),
            old(sink).room() is None ==> sink.room() is None,
            old(sink).room() matches Some(n) ==> done <= n && sink.room() == Some((n - done) as nat),
        decreases all.len() - done,
    {
        match audio_pipe_step(source, sink) {
            PipeStep::Forwarded(d) => {
                proof {
                    done = done + 1;
                }
            },
            PipeStep::Finished => {
                return Ok(());
            },
            PipeStep::Failed(e) => {
                return Err(e);
            },
        }
    }
}

} // verus!

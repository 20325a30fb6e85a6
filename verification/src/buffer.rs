use vstd::prelude::*;

use crate::format::SampleFormat;
use crate::{AudioError, AudioSink, AudioSource};

verus! {

/// A block of samples held in memory, in playing order.
pub struct Buffer<T>(Vec<T>);

impl<T> View for Buffer<T> {
    type V = Seq<T>;

    closed spec fn view(&self) -> Seq<T> {
        self.0@
    }
}

impl<T: SampleFormat> Buffer<T> {
    /// The buffer that holds `data`.
    pub fn new(data: Vec<T>) -> (r: Self)
        ensures
            r@ == data@,
    {
        Buffer(data)
    }

    /// The number of samples in the buffer.
    pub fn len(&self) -> (n: usize)
        ensures
            n == self@.len(),
    {
        self.0.len()
    }

    /// The sample at position `i`, where there is one.
    pub fn get(&self, i: usize) -> (r: Option<T>)
        ensures
            r == if i < self@.len() {
                Some(self@[i as int])
            } else {
                None
            },
    {
        if i < self.0.len() {
            Some(self.0[i])
        } else {
            None
        }
    }

    /// A reader that starts at the first sample and yields each in turn.
    pub fn iter(&self) -> (r: BufferIter<'_, T>)
        ensures
            r.pending() == Some(self@),
            r.yielded() == Seq::<Option<T>>::empty(),
    {
        BufferIter { buffer: self, pos: 0, reads: Ghost(Seq::empty()) }
    }
}

/// A reader over a buffer: a source whose whole stream is known.
pub struct BufferIter<'a, T> {
    buffer: &'a Buffer<T>,
    pos: usize,
    reads: Ghost<Seq<Option<T>>>,
}

impl<'a, T: SampleFormat> AudioSource for BufferIter<'a, T> {
    type Format = T;

    closed spec fn pending(&self) -> Option<Seq<T>> {
        if self.pos <= self.buffer@.len() {
            Some(self.buffer@.skip(self.pos as int))
        } else {
            Some(Seq::empty())
        }
    }

    closed spec fn yielded(&self) -> Seq<Option<T>> {
        self.reads@
    }

    fn audio_read(&mut self) -> (r: Option<T>) {
        if self.pos < self.buffer.len() {
            let sample = self.buffer.0[self.pos];
            self.pos = self.pos + 1;
            self.reads = Ghost(self.reads@.push(Some(sample)));
            Some(sample)
        } else {
            self.reads = Ghost(self.reads@.push(None));
            None
        }
    }
}

/// A sink that records what it is given, up to a fixed number of samples.
/// A recorder that is full turns every further sample down.
pub struct Recorder<T> {
    samples: Vec<T>,
    capacity: usize,
    tried: Ghost<Seq<T>>,
}

impl<T: SampleFormat> Recorder<T> {
    /// The most samples that the recorder holds.
    pub closed spec fn limit(&self) -> nat {
        self.capacity as nat
    }

    /// An empty recorder with room for `capacity` samples.
    pub fn new(capacity: usize) -> (r: Self)
        ensures
            r.limit() == capacity,
            r.offered() == Seq::<T>::empty(),
            r.accepted() == Seq::<T>::empty(),
            r.room() == Some(capacity as nat),
    {
        Recorder { samples: Vec::new(), capacity, tried: Ghost(Seq::empty()) }
    }

    /// What was recorded so far, oldest first.
    pub fn samples(&self) -> (r: &Vec<T>)
        ensures
            r@ == self.accepted(),
    {
        &self.samples
    }

    /// Hands the recording over as a buffer.
    pub fn into_buffer(self) -> (r: Buffer<T>)
        ensures
            r@ == self.accepted(),
    {
        Buffer(self.samples)
    }
}

impl<T: SampleFormat> AudioSink for Recorder<T> {
    type Format = T;

    closed spec fn offered(&self) -> Seq<T> {
        self.tried@
    }

    closed spec fn accepted(&self) -> Seq<T> {
        self.samples@
    }

    closed spec fn room(&self) -> Option<nat> {
        if self.samples@.len() <= self.capacity {
            Some((self.capacity - self.samples@.len()) as nat)
        } else {
            Some(0)
        }
    }

    open spec fn failure(&self) -> AudioError {
        AudioError::SinkFull
    }

    /// Records one sample, or fails with `SinkFull` where no room is left.
    fn audio_write(&mut self, d: T) -> (r: Result<(), AudioError>)
        ensures
            final(self).limit() == old(self).limit(),
    {
        self.tried = Ghost(self.tried@.push(d));
        if self.samples.len() < self.capacity {
            self.samples.push(d);
            Ok(())
        } else {
            Err(AudioError::SinkFull)
        }
    }
}

/// Writing a whole buffer to a sink, which every sink can do.
pub trait BufferWriter<T: SampleFormat>: AudioSink<Format = T> {
    /// Writes the samples of `buffer` in order and stops at the first that
    /// the sink turns down, whose error is returned. The samples before it
    /// were taken; it was offered and lost; those behind it were not
    /// offered.
    fn audio_write_buffer(&mut self, buffer: &Buffer<T>) -> (r: Result<(), AudioError>)
        ensures
            r is Ok ==> {
                &&& final(self).accepted() == old(self).accepted() + buffer@
                &&& final(self).offered() == old(self).offered() + buffer@
            },
            r is Err ==> exists|k: int|
                {
                    &&& 0 <= k < buffer@.len()
                    &&& final(self).accepted() == old(self).accepted() + #[trigger] buffer@.take(k)
                    &&& final(self).offered() == old(self).offered() + buffer@.take(k + 1)
                },
            r matches Err(e) ==> e == old(self).failure(),
            final(self).failure() == old(self).failure(),
            old(self).room() is None ==> final(self).room() is None,
            old(self).room() matches Some(n) ==> {
                let fit = if n <= buffer@.len() {
                    n as int
                } else {
                    buffer@.len() as int
                };
                &&& r is Ok <==> buffer@.len() <= n
                &&& final(self).accepted() == old(self).accepted() + buffer@.take(fit)
                &&& final(self).room() == Some((n - fit) as nat)
            },
    ;
}

impl<F: SampleFormat, K: AudioSink<Format = F>> BufferWriter<F> for K {
    fn audio_write_buffer(&mut self, buffer: &Buffer<F>) -> (r: Result<(), AudioError>) {
        let mut i: usize = 0;
        while i < buffer.len()
            invariant
                0 <= i <= buffer@.len(),
                self.accepted() == old(self).accepted() + buffer@.take(i as int),
                self.offered() == old(self).offered() + buffer@.take(i as int),
                self.failure() == old(self).failure(),
                old(self).room() is None ==> self.room() is None,
                old(self).room() matches Some(n) ==> i <= n && self.room() == Some((n - i) as nat),
            decreases buffer@.len() - i,
        {
            let sample = buffer.0[i];
            match self.audio_write(sample) {
                Ok(()) => {},
                Err(e) => {
                    return Err(e);
                },
            }
            i = i + 1;
        }
        Ok(())
    }
}

} // verus!

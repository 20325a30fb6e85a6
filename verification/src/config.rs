use vstd::prelude::*;

use crate::AudioError;

verus! {

/// The machine representation in which a device moves its samples.
#[derive(Clone, Copy, Debug, PartialEq, Eq, Structural)]
pub enum SampleType {
    I8,
    I16,
    I32,
    I64,
    U8,
    U16,
    U32,
    U64,
    F32,
    F64,
}

/// The buffer sizes, in frames, that a device accepts for a configuration.
#[derive(Clone, Copy, Debug, PartialEq, Eq)]
pub enum SupportedBufferSize {
    /// Every size from `min` to `max`, both included.
    Range { min: u32, max: u32 },
    /// The device does not tell before a stream is opened.
    Unknown,
}

/// One entry of a device's capability list: a sample type and a channel
/// count, with the range of sample rates and the buffer sizes on offer.
#[derive(Clone, Copy, Debug, PartialEq, Eq)]
pub struct CapabilityRange {
    pub channels: u16,
    pub min_sample_rate: u32,
    pub max_sample_rate: u32,
    pub buffer_size: SupportedBufferSize,
    pub sample_format: SampleType,
}

/// What a caller wants of a stream. `buffer_size` is a bound that the
/// device has to be known to accept; without one any entry will do.
#[derive(Clone, Copy, Debug, PartialEq, Eq)]
pub struct StreamConfigQuery {
    pub sample_format: SampleType,
    pub channels: u16,
    pub buffer_size: Option<u32>,
    pub sample_rate: u32,
}

/// A concrete configuration drawn from one entry of a capability list.
#[derive(Clone, Copy, Debug, PartialEq, Eq)]
pub struct ResolvedStreamConfig {
    pub channels: u16,
    pub sample_rate: u32,
    pub buffer_size: SupportedBufferSize,
    pub sample_format: SampleType,
}

impl SupportedBufferSize {
    /// Whether a device with these buffer sizes is known to accept `bound`.
    /// With no bound asked for, every device does.
    pub open spec fn admits(self, bound: Option<u32>) -> bool {
        match bound {
            None => true,
            Some(b) => match self {
                SupportedBufferSize::Range { min, max } => min <= b && b <= max,
                SupportedBufferSize::Unknown => false,
            },
        }
    }

    /// Decides `admits`.
    pub fn accepts(&self, bound: Option<u32>) -> (r: bool)
        ensures
            r == self.admits(bound),
    {
        match bound {
            None => true,
            Some(b) => match self {
                SupportedBufferSize::Range { min, max } => *min <= b && b <= *max,
                SupportedBufferSize::Unknown => false,
            },
        }
    }
}

impl CapabilityRange {
    /// The configuration that this entry gives at `sample_rate`.
    pub open spec fn at_rate(self, sample_rate: u32) -> ResolvedStreamConfig {
        ResolvedStreamConfig {
            channels: self.channels,
            sample_rate,
            buffer_size: self.buffer_size,
            sample_format: self.sample_format,
        }
    }

    /// Whether `sample_rate` lies in the entry's range, ends included.
    pub open spec fn contains_rate(self, sample_rate: u32) -> bool {
        self.min_sample_rate <= sample_rate && sample_rate <= self.max_sample_rate
    }

    /// Whether the entry can serve `query`: same sample type, same channel
    /// count, the buffer bound admitted and the exact rate in range.
    pub open spec fn satisfies(self, query: StreamConfigQuery) -> bool {
        &&& self.sample_format == query.sample_format
        &&& self.channels == query.channels
        &&& self.buffer_size.admits(query.buffer_size)
        &&& self.contains_rate(query.sample_rate)
    }

    /// Instantiates the entry at exactly `sample_rate`. There is no rounding
    /// and no nearest rate: a rate outside the range gives `None`.
    pub fn try_with_sample_rate(&self, sample_rate: u32) -> (r: Option<ResolvedStreamConfig>)
        ensures
            r == if self.contains_rate(sample_rate) {
                Some(self.at_rate(sample_rate))
            } else {
                None
            },
    {
        if self.min_sample_rate <= sample_rate && sample_rate <= self.max_sample_rate {
            Some(
                ResolvedStreamConfig {
                    channels: self.channels,
                    sample_rate,
                    buffer_size: self.buffer_size,
                    sample_format: self.sample_format,
                },
            )
        } else {
            None
        }
    }

    /// Decides `satisfies` for one entry.
    pub fn serves(&self, query: &StreamConfigQuery) -> (r: bool)
        ensures
            r == self.satisfies(*query),
    {
        self.sample_format == query.sample_format && self.channels == query.channels
            && self.buffer_size.accepts(query.buffer_size) && self.min_sample_rate
            <= query.sample_rate && query.sample_rate <= self.max_sample_rate
    }
}

/// The position of the first entry of `capabilities` that serves `query`,
/// in the order in which the device reported them.
pub open spec fn first_match(capabilities: Seq<CapabilityRange>, query: StreamConfigQuery) -> Option<
    int,
>
    decreases capabilities.len(),
{
    if capabilities.len() == 0 {
        None
    } else if capabilities[0].satisfies(query) {
        Some(0int)
    } else {
        match first_match(capabilities.drop_first(), query) {
            Some(i) => Some(i + 1),
            None => None,
        }
    }
}

/// The outcome of a negotiation: the first entry that serves the query,
/// taken at the query's rate, or the query handed back in the error.
pub open spec fn negotiated(capabilities: Seq<CapabilityRange>, query: StreamConfigQuery) -> Result<
    ResolvedStreamConfig,
    AudioError,
> {
    match first_match(capabilities, query) {
        Some(i) => Ok(capabilities[i].at_rate(query.sample_rate)),
        None => Err(AudioError::ConfigNegotiationFailed(query)),
    }
}

/// `first_match` finds an entry that serves the query and that no earlier
/// entry precedes; it finds none only where no entry serves.
pub proof fn lemma_first_match(capabilities: Seq<CapabilityRange>, query: StreamConfigQuery)
    ensures
        match first_match(capabilities, query) {
            Some(i) => {
                &&& 0 <= i < capabilities.len()
                &&& capabilities[i].satisfies(query)
                &&& forall|j: int| 0 <= j < i ==> !(#[trigger] capabilities[j]).satisfies(query)
            },
            None => forall|j: int|
                0 <= j < capabilities.len() ==> !(#[trigger] capabilities[j]).satisfies(query),
        },
    decreases capabilities.len(),
{
    if capabilities.len() > 0 && !capabilities[0].satisfies(query) {
        let rest = capabilities.drop_first();
        lemma_first_match(rest, query);
        match first_match(rest, query) {
            Some(i) => {
                assert forall|j: int| 0 <= j < i + 1 implies !(#[trigger] capabilities[j]).satisfies(
                    query,
                ) by {
                    if j > 0 {
                        assert(capabilities[j] == rest[j - 1]);
                    }
                }
            },
            None => {
                assert forall|j: int| 0 <= j < capabilities.len() implies !(
                #[trigger] capabilities[j]).satisfies(query) by {
                    if j > 0 {
                        assert(capabilities[j] == rest[j - 1]);
                    }
                }
            },
        }
    }
}

/// An entry that serves the query and has no serving entry before it is the
/// one that `first_match` finds.
pub proof fn lemma_first_match_is(
    capabilities: Seq<CapabilityRange>,
    query: StreamConfigQuery,
    i: int,
)
    requires
        0 <= i < capabilities.len(),
        capabilities[i].satisfies(query),
        forall|j: int| 0 <= j < i ==> !(#[trigger] capabilities[j]).satisfies(query),
    ensures
        first_match(capabilities, query) == Some(i),
{
    lemma_first_match(capabilities, query);
}

/// Where no entry serves the query, `first_match` finds none.
pub proof fn lemma_no_match(capabilities: Seq<CapabilityRange>, query: StreamConfigQuery)
    requires
        forall|j: int|
            0 <= j < capabilities.len() ==> !(#[trigger] capabilities[j]).satisfies(query),
    ensures
        first_match(capabilities, query) is None,
{
    lemma_first_match(capabilities, query);
}

/// Selects a configuration for `query` from a device's capability list.
///
/// The entries are tried in the order given. The first whose sample type
/// and channel count equal the query's, whose buffer sizes admit the
/// query's bound and whose rate range contains the query's rate is taken
/// at that rate. Where none does, the query comes back in the error.
pub fn find_best_config(query: StreamConfigQuery, source: &Vec<CapabilityRange>) -> (r: Result<
    ResolvedStreamConfig,
    AudioError,
>)
    ensures
        r == negotiated(source@, query),
        r is Ok <==> exists|i: int| 0 <= i < source@.len() && (#[trigger] source@[i]).satisfies(query),
        r matches Ok(config) ==> exists|i: int|
            {
                &&& 0 <= i < source@.len()
                &&& (#[trigger] source@[i]).satisfies(query)
                &&& config == source@[i].at_rate(query.sample_rate)
                &&& forall|j: int| 0 <= j < i ==> !(#[trigger] source@[j]).satisfies(query)
            },
        r matches Err(e) ==> e == AudioError::ConfigNegotiationFailed(query),
{
    proof {
        lemma_negotiation_picks_first(source@, query);
    }
    let mut i: usize = 0;
    while i < source.len()
        invariant
            0 <= i <= source.len(),
            forall|j: int| 0 <= j < i ==> !(#[trigger] source@[j]).satisfies(query),
        decreases source.len() - i,
    {
        let entry = &source[i];
        if entry.serves(&query) {
            proof {
                lemma_first_match_is(source@, query, i as int);
            }
            match entry.try_with_sample_rate(query.sample_rate) {
                Some(found) => {
                    return Ok(found);
                },
                None => {},
            }
        }
        i = i + 1;
    }
    proof {
        lemma_no_match(source@, query);
    }
    Err(AudioError::ConfigNegotiationFailed(query))
}

/// Negotiates an input configuration against the capability list that an
/// input device reported.
pub fn supported_input_config(capabilities: &Vec<CapabilityRange>, q: StreamConfigQuery) -> (r:
    Result<ResolvedStreamConfig, AudioError>)
    ensures
        r == negotiated(capabilities@, q),
{
    find_best_config(q, capabilities)
}

/// Negotiates an output configuration against the capability list that an
/// output device reported.
pub fn supported_output_config(capabilities: &Vec<CapabilityRange>, q: StreamConfigQuery) -> (r:
    Result<ResolvedStreamConfig, AudioError>)
    ensures
        r == negotiated(capabilities@, q),
{
    find_best_config(q, capabilities)
}

/// Negotiation is a function of the list and the query alone, so asking
/// twice gives the same answer; and a successful answer is the first
/// serving entry, at the rate asked for.
pub proof fn lemma_negotiation_picks_first(
    capabilities: Seq<CapabilityRange>,
    query: StreamConfigQuery,
)
    ensures
        negotiated(capabilities, query) is Ok <==> exists|i: int|
            0 <= i < capabilities.len() && (#[trigger] capabilities[i]).satisfies(query),
        negotiated(capabilities, query) matches Ok(config) ==> exists|i: int|
            {
                &&& 0 <= i < capabilities.len()
                &&& (#[trigger] capabilities[i]).satisfies(query)
                &&& config == capabilities[i].at_rate(query.sample_rate)
                &&& forall|j: int| 0 <= j < i ==> !(#[trigger] capabilities[j]).satisfies(query)
            },
        negotiated(capabilities, query) matches Err(e) ==> e == AudioError::ConfigNegotiationFailed(
            query,
        ),
{
    lemma_first_match(capabilities, query);
}

/// Where exactly one entry serves the query, taking that entry out of the
/// list leaves nothing to negotiate: the query is refused.
pub proof fn lemma_removing_the_match_fails(
    capabilities: Seq<CapabilityRange>,
    query: StreamConfigQuery,
    i: int,
)
    requires
        0 <= i < capabilities.len(),
        capabilities[i].satisfies(query),
        forall|j: int|
            0 <= j < capabilities.len() && j != i ==> !(#[trigger] capabilities[j]).satisfies(
                query,
            ),
    ensures
        negotiated(capabilities, query) == Ok::<ResolvedStreamConfig, AudioError>(
            capabilities[i].at_rate(query.sample_rate),
        ),
        negotiated(capabilities.remove(i), query) == Err::<ResolvedStreamConfig, AudioError>(
            AudioError::ConfigNegotiationFailed(query),
        ),
{
    lemma_first_match_is(capabilities, query, i);
    let rest = capabilities.remove(i);
    lemma_no_match(rest, query);
}

} // verus!

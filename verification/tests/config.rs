use codewandler_audio::{
    find_best_config, supported_input_config, supported_output_config, AudioError,
    CapabilityRange, ResolvedStreamConfig, SampleType, StreamConfigQuery, SupportedBufferSize,
};

fn entry(format: SampleType, channels: u16, min: u32, max: u32) -> CapabilityRange {
    CapabilityRange {
        channels,
        min_sample_rate: min,
        max_sample_rate: max,
        buffer_size: SupportedBufferSize::Range { min: 64, max: 4096 },
        sample_format: format,
    }
}

fn query(format: SampleType, channels: u16, rate: u32) -> StreamConfigQuery {
    StreamConfigQuery { sample_format: format, channels, buffer_size: Some(1024), sample_rate: rate }
}

#[test]
fn negotiation_takes_the_first_match_in_device_order() {
    let mut second = entry(SampleType::F32, 1, 8_000, 96_000);
    second.buffer_size = SupportedBufferSize::Range { min: 1024, max: 1024 };
    let caps = vec![
        entry(SampleType::I16, 1, 8_000, 48_000),
        entry(SampleType::F32, 2, 8_000, 48_000),
        entry(SampleType::F32, 1, 44_100, 48_000),
        entry(SampleType::F32, 1, 8_000, 48_000),
        second,
    ];
    let q = query(SampleType::F32, 1, 24_000);
    let found = find_best_config(q, &caps);
    assert_eq!(
        found,
        Ok(ResolvedStreamConfig {
            channels: 1,
            sample_rate: 24_000,
            buffer_size: SupportedBufferSize::Range { min: 64, max: 4096 },
            sample_format: SampleType::F32,
        })
    );
}

#[test]
fn negotiation_gives_the_same_answer_twice() {
    let caps = vec![entry(SampleType::F32, 1, 8_000, 48_000), entry(SampleType::F32, 1, 8_000, 96_000)];
    let q = query(SampleType::F32, 1, 48_000);
    let first = find_best_config(q, &caps);
    let second = find_best_config(q, &caps);
    assert!(first.is_ok());
    assert_eq!(first, second);
}

#[test]
fn negotiation_without_the_matching_entry_is_refused() {
    let mut caps = vec![
        entry(SampleType::I16, 1, 8_000, 48_000),
        entry(SampleType::F32, 1, 8_000, 48_000),
        entry(SampleType::F32, 2, 8_000, 48_000),
    ];
    let q = query(SampleType::F32, 1, 24_000);
    assert!(find_best_config(q, &caps).is_ok());
    caps.remove(1);
    assert_eq!(find_best_config(q, &caps), Err(AudioError::ConfigNegotiationFailed(q)));
}

#[test]
fn negotiation_on_an_empty_list_hands_the_query_back() {
    let q = query(SampleType::F32, 2, 44_100);
    assert_eq!(find_best_config(q, &vec![]), Err(AudioError::ConfigNegotiationFailed(q)));
}

#[test]
fn negotiation_wants_the_exact_format_and_channel_count() {
    let caps = vec![entry(SampleType::F64, 1, 8_000, 48_000), entry(SampleType::F32, 2, 8_000, 48_000)];
    let q = query(SampleType::F32, 1, 24_000);
    assert_eq!(find_best_config(q, &caps), Err(AudioError::ConfigNegotiationFailed(q)));
}

#[test]
fn negotiation_has_no_nearest_rate() {
    let caps = vec![entry(SampleType::F32, 1, 44_100, 48_000)];
    let below = query(SampleType::F32, 1, 44_099);
    let above = query(SampleType::F32, 1, 48_001);
    assert_eq!(find_best_config(below, &caps), Err(AudioError::ConfigNegotiationFailed(below)));
    assert_eq!(find_best_config(above, &caps), Err(AudioError::ConfigNegotiationFailed(above)));
    let low = find_best_config(query(SampleType::F32, 1, 44_100), &caps).unwrap();
    let high = find_best_config(query(SampleType::F32, 1, 48_000), &caps).unwrap();
    assert_eq!(low.sample_rate, 44_100);
    assert_eq!(high.sample_rate, 48_000);
}

#[test]
fn negotiation_checks_the_buffer_bound_when_one_is_given() {
    let mut unknown = entry(SampleType::F32, 1, 8_000, 48_000);
    unknown.buffer_size = SupportedBufferSize::Unknown;
    let mut narrow = entry(SampleType::F32, 1, 8_000, 48_000);
    narrow.buffer_size = SupportedBufferSize::Range { min: 128, max: 256 };
    let caps = vec![unknown, narrow];

    let mut q = query(SampleType::F32, 1, 24_000);
    q.buffer_size = Some(128);
    assert_eq!(find_best_config(q, &caps), Ok(narrow.try_with_sample_rate(24_000).unwrap()));
    q.buffer_size = Some(256);
    assert_eq!(find_best_config(q, &caps), Ok(narrow.try_with_sample_rate(24_000).unwrap()));
    q.buffer_size = Some(127);
    assert_eq!(find_best_config(q, &caps), Err(AudioError::ConfigNegotiationFailed(q)));
    q.buffer_size = Some(257);
    assert_eq!(find_best_config(q, &caps), Err(AudioError::ConfigNegotiationFailed(q)));
    q.buffer_size = None;
    let found = find_best_config(q, &caps).unwrap();
    assert_eq!(found.buffer_size, SupportedBufferSize::Unknown);
}

#[test]
fn buffer_sizes_accept_what_they_admit() {
    let range = SupportedBufferSize::Range { min: 10, max: 20 };
    assert!(range.accepts(None));
    assert!(range.accepts(Some(10)));
    assert!(range.accepts(Some(20)));
    assert!(!range.accepts(Some(9)));
    assert!(!range.accepts(Some(21)));
    assert!(SupportedBufferSize::Unknown.accepts(None));
    assert!(!SupportedBufferSize::Unknown.accepts(Some(10)));
}

#[test]
fn an_entry_is_instantiated_only_inside_its_range() {
    let e = entry(SampleType::I16, 2, 16_000, 32_000);
    assert_eq!(e.try_with_sample_rate(15_999), None);
    assert_eq!(e.try_with_sample_rate(32_001), None);
    assert_eq!(
        e.try_with_sample_rate(16_000),
        Some(ResolvedStreamConfig {
            channels: 2,
            sample_rate: 16_000,
            buffer_size: SupportedBufferSize::Range { min: 64, max: 4096 },
            sample_format: SampleType::I16,
        })
    );
    assert!(e.serves(&query(SampleType::I16, 2, 32_000)));
    assert!(!e.serves(&query(SampleType::I16, 1, 32_000)));
}

#[test]
fn input_and_output_negotiation_follow_the_same_rule() {
    let caps = vec![entry(SampleType::F32, 2, 8_000, 48_000), entry(SampleType::F32, 1, 8_000, 48_000)];
    let q = query(SampleType::F32, 1, 24_000);
    let expected = find_best_config(q, &caps);
    assert_eq!(supported_input_config(&caps, q), expected);
    assert_eq!(supported_output_config(&caps, q), expected);
    let none = query(SampleType::U8, 1, 24_000);
    assert_eq!(supported_input_config(&caps, none), Err(AudioError::ConfigNegotiationFailed(none)));
    assert_eq!(supported_output_config(&caps, none), Err(AudioError::ConfigNegotiationFailed(none)));
}

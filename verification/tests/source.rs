use codewandler_audio::{
    AudioCapture, AudioError, AudioSink, AudioSource, AudioSourceFanOut, Buffer, Consumer,
    TryRead,
};

fn fan_out() -> (AudioSourceFanOut<f32>, AudioCapture<f32>) {
    let (_writer, mut capture) = AudioCapture::<f32>::new();
    match AudioSourceFanOut::new(&mut capture) {
        Ok((fan_out, _source)) => (fan_out, capture),
        Err(e) => panic!("no source: {:?}", e),
    }
}

fn read_all(consumer: &mut Consumer<f32>) -> Vec<f32> {
    let mut all = Vec::new();
    while let TryRead::Sample(d) = consumer.try_read() {
        all.push(d);
    }
    all
}

#[test]
fn a_fan_out_takes_the_source_of_its_provider() {
    let (mut writer, mut capture) = AudioCapture::<f32>::new();
    let (mut fan_out, mut source) = match AudioSourceFanOut::new(&mut capture) {
        Ok(pair) => pair,
        Err(e) => panic!("no source: {:?}", e),
    };
    assert_eq!(fan_out.subscriber_count(), 0);
    assert!(matches!(
        AudioSourceFanOut::<f32>::new(&mut capture),
        Err(AudioError::SourceTaken)
    ));

    let mut subscriber = fan_out.subscribe();
    assert_eq!(writer.audio_write(0.5), Ok(()));
    let sample = source.audio_read().unwrap();
    assert_eq!(fan_out.deliver(sample), 0);
    assert_eq!(subscriber.try_read(), TryRead::Sample(0.5));
}

#[test]
fn two_subscribers_receive_the_same_samples_in_the_same_order() {
    let (mut fan_out, _capture) = fan_out();
    let mut first = fan_out.subscribe();
    let mut second = fan_out.subscribe();
    assert_eq!(fan_out.subscriber_count(), 2);
    let input = vec![0.1f32, 0.2, 0.3, 0.4, 0.5];
    for sample in &input {
        assert_eq!(fan_out.deliver(*sample), 0);
        if *sample < 0.3 {
            assert_eq!(first.try_read(), TryRead::Sample(*sample));
        }
    }
    assert_eq!(read_all(&mut first), vec![0.3f32, 0.4, 0.5]);
    assert_eq!(read_all(&mut second), input);
}

#[test]
fn a_subscriber_that_never_reads_holds_nobody_up() {
    let (mut fan_out, _capture) = fan_out();
    let _stalled = fan_out.subscribe();
    let mut reader = fan_out.subscribe();
    let mut expected = Vec::new();
    for i in 0..10_000 {
        let sample = i as f32;
        expected.push(sample);
        assert_eq!(fan_out.deliver(sample), 0);
    }
    assert_eq!(fan_out.subscriber_count(), 2);
    assert_eq!(read_all(&mut reader), expected);
}

#[test]
fn a_dropped_consumer_leaves_the_set_at_the_next_pass() {
    let (mut fan_out, _capture) = fan_out();
    let mut first = fan_out.subscribe();
    let second = fan_out.subscribe();
    let mut third = fan_out.subscribe();
    assert_eq!(fan_out.deliver(1.0), 0);
    drop(second);
    assert_eq!(fan_out.subscriber_count(), 3);
    assert_eq!(fan_out.deliver(2.0), 1);
    assert_eq!(fan_out.subscriber_count(), 2);
    assert_eq!(fan_out.deliver(3.0), 0);
    assert_eq!(read_all(&mut first), vec![1.0f32, 2.0, 3.0]);
    assert_eq!(read_all(&mut third), vec![1.0f32, 2.0, 3.0]);
    drop(first);
    drop(third);
    assert_eq!(fan_out.deliver(4.0), 2);
    assert_eq!(fan_out.subscriber_count(), 0);
    assert_eq!(fan_out.deliver(5.0), 0);
}

#[test]
fn a_late_subscriber_gets_what_comes_after_it_joined() {
    let (mut fan_out, _capture) = fan_out();
    let mut early = fan_out.subscribe();
    assert_eq!(fan_out.deliver(1.0), 0);
    let mut late = fan_out.subscribe();
    assert_eq!(fan_out.deliver(2.0), 0);
    assert_eq!(read_all(&mut early), vec![1.0f32, 2.0]);
    assert_eq!(read_all(&mut late), vec![2.0f32]);
}

#[test]
fn delivering_to_nobody_does_nothing() {
    let (mut fan_out, _capture) = fan_out();
    assert_eq!(fan_out.deliver(1.0), 0);
    assert_eq!(fan_out.subscriber_count(), 0);
}

#[test]
fn draining_a_source_delivers_its_whole_stream() {
    let (mut fan_out, _capture) = fan_out();
    let mut first = fan_out.subscribe();
    let gone = fan_out.subscribe();
    let mut second = fan_out.subscribe();
    drop(gone);
    let buffer = Buffer::new(vec![1.0f32, 2.0, 3.0, 4.0]);
    let mut source = buffer.iter();
    assert_eq!(fan_out.drain(&mut source), 1);
    assert_eq!(source.audio_read(), None);
    assert_eq!(fan_out.subscriber_count(), 2);
    assert_eq!(read_all(&mut first), vec![1.0f32, 2.0, 3.0, 4.0]);
    assert_eq!(read_all(&mut second), vec![1.0f32, 2.0, 3.0, 4.0]);
    drop(fan_out);
    assert_eq!(first.try_read(), TryRead::Disconnected);
    assert_eq!(first.audio_read(), None);
}

#[test]
fn with_the_first_and_third_dropped_the_second_and_fourth_remain() {
    let (mut fan_out, _capture) = fan_out();
    let first = fan_out.subscribe();
    let mut second = fan_out.subscribe();
    let third = fan_out.subscribe();
    let mut fourth = fan_out.subscribe();
    drop(first);
    drop(third);
    assert_eq!(fan_out.deliver(0.5), 2);
    assert_eq!(fan_out.subscriber_count(), 2);
    assert_eq!(read_all(&mut second), vec![0.5f32]);
    assert_eq!(read_all(&mut fourth), vec![0.5f32]);
    assert_eq!(fan_out.deliver(0.25), 0);
    assert_eq!(read_all(&mut second), vec![0.25f32]);
    assert_eq!(read_all(&mut fourth), vec![0.25f32]);
}

#[test]
fn settling_a_pass_removes_exactly_the_failed_sends() {
    let (mut fan_out, _capture) = fan_out();
    let mut first = fan_out.subscribe();
    let mut second = fan_out.subscribe();
    let mut third = fan_out.subscribe();
    let mut fourth = fan_out.subscribe();
    assert_eq!(fan_out.settle(1.0, &vec![false, true, false, true]), 2);
    assert_eq!(fan_out.subscriber_count(), 2);
    assert_eq!(first.try_read(), TryRead::Disconnected);
    assert_eq!(second.try_read(), TryRead::Empty);
    assert_eq!(third.try_read(), TryRead::Disconnected);
    assert_eq!(fourth.try_read(), TryRead::Empty);
    assert_eq!(fan_out.deliver(2.0), 0);
    assert_eq!(read_all(&mut second), vec![2.0f32]);
    assert_eq!(read_all(&mut fourth), vec![2.0f32]);
    assert_eq!(fan_out.settle(3.0, &vec![true, true]), 0);
    assert_eq!(fan_out.subscriber_count(), 2);
    assert_eq!(fan_out.settle(4.0, &vec![false, false]), 2);
    assert_eq!(fan_out.subscriber_count(), 0);
    assert_eq!(fan_out.settle(5.0, &vec![]), 0);
    assert_eq!(second.try_read(), TryRead::Disconnected);
}

#[test]
fn a_subscriber_keeps_receiving_after_another_was_dropped() {
    let (mut fan_out, _capture) = fan_out();
    let first = fan_out.subscribe();
    let mut second = fan_out.subscribe();
    assert_eq!(fan_out.deliver(1.0), 0);
    assert_eq!(fan_out.deliver(2.0), 0);
    drop(first);
    assert_eq!(fan_out.deliver(3.0), 1);
    assert_eq!(fan_out.deliver(4.0), 0);
    assert_eq!(read_all(&mut second), vec![1.0f32, 2.0, 3.0, 4.0]);
}

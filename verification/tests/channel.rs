use codewandler_audio::{
    audio_pipe_step, new_audio_channel, AudioError, AudioSink, AudioSource, Buffer, BufferWriter,
    IntoAudioSource, PipeStep, TryRead, AUDIO_CHANNEL_CAPACITY,
};

#[test]
fn test_channel() {
    let (mut tx1, mut rx1) = new_audio_channel::<f32>();
    let (mut tx2, mut rx2) = new_audio_channel::<f32>();

    tx1.audio_write_buffer(&Buffer::new(vec![1.0, 2.0, 3.0, 4.0, 5.0, 6.0, 7.0, 8.0, 9.0, 10.0]))
        .unwrap();
    drop(tx1);

    let mut forwarded = 0;
    loop {
        match audio_pipe_step(&mut rx1, &mut tx2) {
            PipeStep::Forwarded(_) => forwarded += 1,
            PipeStep::Finished => break,
            PipeStep::Failed(e) => panic!("the sink failed: {:?}", e),
        }
    }
    assert_eq!(forwarded, 10);
    drop(tx2);

    let mut x: Vec<f32> = Vec::new();
    while let Some(d) = rx2.audio_read() {
        x.push(d);
    }
    println!("{:?}", x);
    assert_eq!(x, vec![1.0, 2.0, 3.0, 4.0, 5.0, 6.0, 7.0, 8.0, 9.0, 10.0]);
}

#[test]
fn the_sample_channel_holds_64_samples() {
    assert_eq!(AUDIO_CHANNEL_CAPACITY, 64);
    let (mut tx, mut rx) = new_audio_channel::<i16>();
    for i in 0..64 {
        assert_eq!(tx.audio_write(i), Ok(()));
    }
    for i in 0..64 {
        assert_eq!(rx.try_read(), TryRead::Sample(i));
    }
    assert_eq!(rx.try_read(), TryRead::Empty);
}

#[test]
fn writing_fails_once_the_consumer_is_gone() {
    let (mut tx, rx) = new_audio_channel::<f32>();
    assert_eq!(tx.audio_write(0.25), Ok(()));
    drop(rx);
    assert_eq!(tx.audio_write(0.5), Err(AudioError::ChannelClosed));
    assert_eq!(tx.audio_write(0.75), Err(AudioError::ChannelClosed));
}

#[test]
fn reading_ends_once_every_producer_is_gone() {
    let (mut tx, mut rx) = new_audio_channel::<f32>();
    let mut other = tx.duplicate();
    assert_eq!(tx.audio_write(1.0), Ok(()));
    drop(tx);
    assert_eq!(rx.audio_read(), Some(1.0));
    assert_eq!(rx.try_read(), TryRead::Empty);
    assert_eq!(other.audio_write(2.0), Ok(()));
    drop(other);
    assert_eq!(rx.audio_read(), Some(2.0));
    assert_eq!(rx.audio_read(), None);
    assert_eq!(rx.try_read(), TryRead::Disconnected);
}

#[test]
fn a_consumer_gives_further_handles_on_its_channel() {
    let (mut tx, mut rx) = new_audio_channel::<i16>();
    let mut second = rx.into_audio_source().ok().unwrap();
    let mut third = rx.duplicate();
    assert_eq!(tx.audio_write(1), Ok(()));
    assert_eq!(tx.audio_write(2), Ok(()));
    assert_eq!(tx.audio_write(3), Ok(()));
    assert_eq!(second.audio_read(), Some(1));
    assert_eq!(rx.audio_read(), Some(2));
    assert_eq!(third.audio_read(), Some(3));
    drop(rx);
    drop(second);
    assert_eq!(tx.audio_write(4), Ok(()));
    drop(third);
    assert_eq!(tx.audio_write(5), Err(AudioError::ChannelClosed));
}

#[test]
fn a_pipe_step_reports_a_closed_sink() {
    let (mut tx1, mut rx1) = new_audio_channel::<f32>();
    let (mut tx2, rx2) = new_audio_channel::<f32>();
    assert_eq!(tx1.audio_write(1.0), Ok(()));
    assert_eq!(tx1.audio_write(2.0), Ok(()));
    drop(rx2);
    assert_eq!(audio_pipe_step(&mut rx1, &mut tx2), PipeStep::Failed(AudioError::ChannelClosed));
    assert_eq!(rx1.try_read(), TryRead::Sample(2.0));
}

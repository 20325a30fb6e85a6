use codewandler_audio::{
    downmix, emit_resampled, emit_samples, mean_pcm16, new_audio_channel, stereo_to_mono, AudioCapture,
    AudioError, AudioSink, AudioSource, CaptureOutput, CapturePlan, CaptureStage, ChannelLayout,
    FrameQueue, IntoAudioSource, Recorder, ResolvedStreamConfig, SampleType,
    SupportedBufferSize, TryRead, RESAMPLER_CHUNK,
};

use rubato::{FftFixedInOut, Resampler};

fn average(left: f32, right: f32) -> f32 {
    0.5 * (left + right)
}

#[test]
fn a_plan_takes_float_mono_and_stereo() {
    assert_eq!(
        CapturePlan::new(SampleType::F32, 1, 48_000, 24_000),
        Ok(CapturePlan { layout: ChannelLayout::Mono, input_rate: 48_000, output_rate: 24_000 })
    );
    assert_eq!(
        CapturePlan::new(SampleType::F32, 2, 44_100, 44_100),
        Ok(CapturePlan { layout: ChannelLayout::Stereo, input_rate: 44_100, output_rate: 44_100 })
    );
}

#[test]
fn a_plan_refuses_other_formats_and_channel_counts() {
    assert_eq!(
        CapturePlan::new(SampleType::I16, 1, 48_000, 24_000),
        Err(AudioError::UnsupportedSampleFormat(SampleType::I16))
    );
    assert_eq!(
        CapturePlan::new(SampleType::F64, 7, 48_000, 24_000),
        Err(AudioError::UnsupportedSampleFormat(SampleType::F64))
    );
    assert_eq!(
        CapturePlan::new(SampleType::F32, 0, 48_000, 24_000),
        Err(AudioError::UnsupportedChannelCount(0))
    );
    assert_eq!(
        CapturePlan::new(SampleType::F32, 3, 48_000, 24_000),
        Err(AudioError::UnsupportedChannelCount(3))
    );
}

#[test]
fn a_plan_follows_the_negotiated_configuration() {
    let config = ResolvedStreamConfig {
        channels: 2,
        sample_rate: 48_000,
        buffer_size: SupportedBufferSize::Unknown,
        sample_format: SampleType::F32,
    };
    let plan = CapturePlan::for_config(&config, 24_000).unwrap();
    assert_eq!(plan.layout, ChannelLayout::Stereo);
    assert_eq!(plan.input_rate, 48_000);
    assert_eq!(plan.output_rate, 24_000);
    assert!(plan.needs_resampling());
    let same = CapturePlan::for_config(&config, 48_000).unwrap();
    assert!(!same.needs_resampling());
}

#[test]
fn the_resampler_chunk_is_1024_samples() {
    assert_eq!(RESAMPLER_CHUNK, 1024);
}

#[test]
fn pcm16_mean_rounds_toward_zero() {
    assert_eq!(mean_pcm16(1, 2), 1);
    assert_eq!(mean_pcm16(-1, -2), -1);
    assert_eq!(mean_pcm16(-3, 0), -1);
    assert_eq!(mean_pcm16(3, 0), 1);
    assert_eq!(mean_pcm16(100, 300), 200);
    assert_eq!(mean_pcm16(i16::MAX, i16::MAX), i16::MAX);
    assert_eq!(mean_pcm16(i16::MIN, i16::MIN), i16::MIN);
    assert_eq!(mean_pcm16(i16::MIN, i16::MAX), 0);
}

#[test]
fn stereo_is_averaged_pair_by_pair() {
    let input = [0.0f32, 1.0, 0.5, 0.5, -1.0, 0.0];
    assert_eq!(stereo_to_mono(&input, average), vec![0.5f32, 0.5, -0.5]);
}

#[test]
fn a_sample_without_a_partner_is_left_out() {
    let input = [0.25f32, 0.75, 1.0];
    assert_eq!(stereo_to_mono(&input, average), vec![0.5f32]);
    let none: [f32; 0] = [];
    assert_eq!(stereo_to_mono(&none, average), Vec::<f32>::new());
    assert_eq!(stereo_to_mono(&[7i16], mean_pcm16), Vec::<i16>::new());
}

#[test]
fn downmix_copies_mono_and_mixes_stereo() {
    let input = [10i16, 20, 30, 50];
    assert_eq!(downmix(ChannelLayout::Mono, &input, mean_pcm16), vec![10i16, 20, 30, 50]);
    assert_eq!(downmix(ChannelLayout::Stereo, &input, mean_pcm16), vec![15i16, 40]);
}

#[test]
fn a_frame_queue_needs_a_frame_size() {
    assert!(FrameQueue::<f32>::new(0).is_none());
    assert!(FrameQueue::<f32>::new(1).is_some());
}

#[test]
fn frames_are_cut_from_the_front_and_the_rest_waits() {
    let mut queue: FrameQueue<i16> = FrameQueue::new(3).unwrap();
    assert_eq!(queue.next_frame(), None);
    queue.extend(&vec![1, 2]);
    assert_eq!(queue.len(), 2);
    assert_eq!(queue.next_frame(), None);
    assert_eq!(queue.len(), 2);
    queue.extend(&vec![3, 4, 5, 6, 7, 8]);
    assert_eq!(queue.len(), 8);
    assert_eq!(queue.next_frame(), Some(vec![1, 2, 3]));
    assert_eq!(queue.len(), 5);
    assert_eq!(queue.take_frames(), vec![vec![4i16, 5, 6]]);
    assert_eq!(queue.len(), 2);
    assert_eq!(queue.take_frames(), Vec::<Vec<i16>>::new());
    queue.extend(&vec![9]);
    assert_eq!(queue.take_frames(), vec![vec![7i16, 8, 9]]);
    assert_eq!(queue.len(), 0);
}

#[test]
fn taking_frames_takes_all_of_them() {
    let mut queue: FrameQueue<i16> = FrameQueue::new(2).unwrap();
    queue.extend(&vec![1, 2, 3, 4, 5, 6, 7]);
    assert_eq!(queue.take_frames(), vec![vec![1i16, 2], vec![3, 4], vec![5, 6]]);
    assert_eq!(queue.len(), 1);
}

#[test]
fn a_stage_without_resampling_hands_mono_straight_on() {
    let plan = CapturePlan::new(SampleType::F32, 2, 24_000, 24_000).unwrap();
    let mut stage: CaptureStage<f32> = CaptureStage::new(plan, 0).unwrap();
    let out = stage.accept(&[0.0, 1.0, 1.0, 1.0], average);
    assert_eq!(out, CaptureOutput::Direct(vec![0.5, 1.0]));
    let out = stage.accept(&[], average);
    assert_eq!(out, CaptureOutput::Direct(vec![]));
}

#[test]
fn a_resampling_stage_gathers_full_frames_across_blocks() {
    let plan = CapturePlan::new(SampleType::F32, 1, 48_000, 24_000).unwrap();
    let mut stage: CaptureStage<f32> = CaptureStage::new(plan, 4).unwrap();
    assert_eq!(stage.accept(&[1.0, 2.0, 3.0], average), CaptureOutput::Frames(vec![]));
    assert_eq!(
        stage.accept(&[4.0, 5.0, 6.0, 7.0, 8.0, 9.0], average),
        CaptureOutput::Frames(vec![vec![1.0, 2.0, 3.0, 4.0], vec![5.0, 6.0, 7.0, 8.0]])
    );
    assert_eq!(
        stage.accept(&[10.0, 11.0, 12.0], average),
        CaptureOutput::Frames(vec![vec![9.0, 10.0, 11.0, 12.0]])
    );
}

#[test]
fn a_resampling_stage_mixes_stereo_before_it_frames() {
    let plan = CapturePlan::new(SampleType::F32, 2, 48_000, 16_000).unwrap();
    let mut stage: CaptureStage<f32> = CaptureStage::new(plan, 2).unwrap();
    assert_eq!(
        stage.accept(&[0.0, 1.0, 1.0, 1.0, -1.0, 0.0], average),
        CaptureOutput::Frames(vec![vec![0.5, 1.0]])
    );
    assert_eq!(stage.accept(&[0.5, 0.5], average), CaptureOutput::Frames(vec![vec![-0.5, 0.5]]));
}

#[test]
fn a_resampling_stage_needs_a_frame_size() {
    let resampling = CapturePlan::new(SampleType::F32, 1, 48_000, 24_000).unwrap();
    assert!(matches!(
        CaptureStage::<f32>::new(resampling, 0),
        Err(AudioError::EmptyResamplerFrame)
    ));
    assert!(CaptureStage::<f32>::new(resampling, 1024).is_ok());
    let direct = CapturePlan::new(SampleType::F32, 1, 24_000, 24_000).unwrap();
    assert!(CaptureStage::<f32>::new(direct, 0).is_ok());
}

#[test]
fn emitting_sends_every_sample_in_order() {
    let (mut tx, mut rx) = new_audio_channel::<f32>();
    assert_eq!(emit_samples(&mut tx, &vec![0.1, 0.2, 0.3]), 3);
    assert_eq!(rx.try_read(), TryRead::Sample(0.1));
    assert_eq!(rx.try_read(), TryRead::Sample(0.2));
    assert_eq!(rx.try_read(), TryRead::Sample(0.3));
    assert_eq!(rx.try_read(), TryRead::Empty);
}

#[test]
fn emitting_drops_what_the_sink_turns_down_and_goes_on() {
    let mut sink: Recorder<i16> = Recorder::new(2);
    assert_eq!(emit_samples(&mut sink, &vec![5, 6, 7, 8]), 2);
    assert_eq!(sink.samples(), &vec![5i16, 6]);
    assert_eq!(emit_samples(&mut sink, &vec![9]), 0);
    assert_eq!(sink.samples(), &vec![5i16, 6]);

    let (mut tx, rx) = new_audio_channel::<f32>();
    drop(rx);
    assert_eq!(emit_samples(&mut tx, &vec![0.1, 0.2]), 0);
    assert_eq!(tx.audio_write(0.3), Err(AudioError::ChannelClosed));
}

#[test]
fn a_capture_hands_its_source_out_once() {
    let (mut writer, mut capture) = AudioCapture::<f32>::new();
    let mut source = match capture.into_audio_source() {
        Ok(source) => source,
        Err(e) => panic!("the first request failed: {:?}", e),
    };
    assert!(matches!(capture.into_audio_source(), Err(AudioError::SourceTaken)));
    assert!(matches!(capture.into_audio_source(), Err(AudioError::SourceTaken)));

    assert_eq!(writer.audio_write(0.5), Ok(()));
    assert_eq!(writer.audio_write(-0.5), Ok(()));
    assert_eq!(source.audio_read(), Some(0.5));
    assert_eq!(source.audio_read(), Some(-0.5));
}

#[test]
fn dropping_the_capture_ends_the_stream() {
    let (mut writer, mut capture) = AudioCapture::<f32>::new();
    let mut source = capture.into_audio_source().ok().unwrap();
    assert_eq!(writer.audio_write(1.0), Ok(()));
    drop(writer);
    assert_eq!(source.try_read(), TryRead::Sample(1.0));
    assert_eq!(source.try_read(), TryRead::Empty);
    drop(capture);
    assert_eq!(source.try_read(), TryRead::Disconnected);
    assert_eq!(source.audio_read(), None);
}

#[test]
fn full_frames_pass_through_a_resampler_and_the_rest_waits() {
    let plan = CapturePlan::new(SampleType::F32, 1, 48_000, 24_000).unwrap();
    let mut resampler = FftFixedInOut::<f32>::new(48_000, 24_000, RESAMPLER_CHUNK, 1).unwrap();
    let frame_len = resampler.input_frames_next();
    assert_eq!(frame_len, 1024);
    let mut stage: CaptureStage<f32> = CaptureStage::new(plan, frame_len).unwrap();
    let mut sink: Recorder<f32> = Recorder::new(1 << 20);

    let block: Vec<f32> = (0..2500).map(|i| ((i % 100) as f32) / 100.0).collect();
    let frames = match stage.accept(&block, average) {
        CaptureOutput::Frames(frames) => frames,
        CaptureOutput::Direct(_) => panic!("the plan resamples"),
    };
    assert_eq!(frames.len(), 2);
    assert_eq!(frames[0], block[..1024].to_vec());
    assert_eq!(frames[1], block[1024..2048].to_vec());
    let mut sent = 0;
    for frame in frames {
        let output = resampler.process(&[frame], None).unwrap();
        assert_eq!(output.len(), 1);
        assert_eq!(output[0].len(), 512);
        sent += emit_samples(&mut sink, &output[0]);
    }
    assert_eq!(sent, 1024);
    assert_eq!(sink.samples().len(), 1024);

    let rest: Vec<f32> = vec![0.0; 572];
    match stage.accept(&rest, average) {
        CaptureOutput::Frames(frames) => {
            assert_eq!(frames.len(), 1);
            assert_eq!(frames[0][..452].to_vec(), block[2048..].to_vec());
            assert_eq!(frames[0][452..].to_vec(), vec![0.0f32; 572]);
        }
        CaptureOutput::Direct(_) => panic!("the plan resamples"),
    }
}

#[test]
fn a_rejected_frame_is_dropped_and_a_resampled_one_is_sent() {
    let mut sink: Recorder<f32> = Recorder::new(8);
    assert_eq!(emit_resampled(&mut sink, None), 0);
    assert_eq!(sink.samples(), &Vec::<f32>::new());
    assert_eq!(emit_resampled(&mut sink, Some(vec![0.1, 0.2, 0.3])), 3);
    assert_eq!(emit_resampled(&mut sink, None), 0);
    assert_eq!(emit_resampled(&mut sink, Some(vec![])), 0);
    assert_eq!(emit_resampled(&mut sink, Some(vec![0.4])), 1);
    assert_eq!(sink.samples(), &vec![0.1f32, 0.2, 0.3, 0.4]);

    let (mut tx, mut rx) = new_audio_channel::<f32>();
    assert_eq!(emit_resampled(&mut tx, None), 0);
    assert_eq!(rx.try_read(), TryRead::Empty);
    assert_eq!(emit_resampled(&mut tx, Some(vec![0.5, 0.6])), 2);
    assert_eq!(rx.try_read(), TryRead::Sample(0.5));
    assert_eq!(rx.try_read(), TryRead::Sample(0.6));
    assert_eq!(rx.try_read(), TryRead::Empty);
}

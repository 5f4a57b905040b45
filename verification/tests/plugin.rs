//! The effect as a host drives it.

use polez_vst::rt::detect_worker::{WorkerAction, WorkerEvent};
use polez_vst::rt::ops::{Level, SampleOps, Staged, WindowStage};
use polez_vst::rt::queue::DetectResult;
use polez_vst::rt::window::{AudioWindow, MAX_CHANNELS, RT_WINDOW};
use polez_vst::{
    CleanStrength, Mode, OperationMode, PolezVst, PolezVstParams, ProcessReport, Strength,
};

type Ops = SampleOps<
    fn(&Vec<Vec<u32>>, usize) -> u32,
    fn(&AudioWindow) -> Level,
    fn(&AudioWindow, WindowStage) -> Staged,
    fn(u32, u32, usize, usize) -> u32,
>;

/// Set on every cleaned sample.
const CLEANED: u32 = 0x8000_0000;

fn ops() -> Ops {
    fn mix(channels: &Vec<Vec<u32>>, i: usize) -> u32 {
        channels.iter().map(|c| c[i]).sum()
    }
    fn level(_window: &AudioWindow) -> Level {
        Level { bits: 0, audible: false }
    }
    fn stage(window: &AudioWindow, stage: WindowStage) -> Staged {
        let mark = match stage {
            WindowStage::Clip => CLEANED,
            _ => 0,
        };
        let mut out = AudioWindow::new(window.sample_rate());
        for i in 0..RT_WINDOW {
            for ch in 0..MAX_CHANNELS {
                out.set_sample(i, ch, window.sample(i, ch) | mark);
            }
        }
        Staged { window: out, result: Ok(()) }
    }
    fn blend(_old: u32, new: u32, _i: usize, _n: usize) -> u32 {
        new
    }
    SampleOps { mix, level, stage, blend }
}

fn params(mode: Mode) -> PolezVstParams {
    PolezVstParams { mode, strength: Strength::Standard, paranoid: false }
}

/// Runs 50 ms of a constant through the effect in blocks of 512.
fn drive_constant(mode: Mode, value: f32) -> Vec<f32> {
    let params = params(mode);
    let mut effect = PolezVst::new(&params);
    effect.reset(&params, 44_100, 512);
    let mut rendered = Vec::new();
    let mut left = 44_100 / 20;
    while left > 0 {
        let n = 512.min(left);
        let inputs = vec![vec![value.to_bits(); n]; 2];
        let mut outputs = vec![vec![f32::NAN.to_bits(); n]; 2];
        effect.process(&params, &inputs, &mut outputs, n, &ops());
        for channel in &outputs {
            rendered.extend(channel.iter().map(|b| f32::from_bits(*b)));
        }
        left -= n;
    }
    rendered
}

#[test]
fn driver_passthrough_bypass() {
    let result = drive_constant(Mode::Bypass, 0.25);
    assert!(result.iter().all(|s| !s.is_nan()));
    assert!(result.iter().any(|s| *s != 0.0));
    assert!(result.iter().all(|s| *s == 0.25));
}

#[test]
fn driver_passthrough_detect() {
    let result = drive_constant(Mode::Detect, 0.25);
    assert!(result.iter().all(|s| !s.is_nan()));
    assert!(result.iter().any(|s| *s != 0.0));
    assert!(result.iter().all(|s| *s == 0.25));
}

#[test]
fn parameters_convert() {
    assert_eq!(OperationMode::from(Mode::Bypass), OperationMode::Bypass);
    assert_eq!(OperationMode::from(Mode::Detect), OperationMode::Detect);
    assert_eq!(OperationMode::from(Mode::Clean), OperationMode::Clean);
    assert_eq!(CleanStrength::from(Strength::Fast), CleanStrength::Fast);
    assert_eq!(CleanStrength::from(Strength::Standard), CleanStrength::Standard);
    assert_eq!(CleanStrength::from(Strength::Preserving), CleanStrength::Preserving);
    assert_eq!(CleanStrength::from(Strength::Aggressive), CleanStrength::Aggressive);
}

#[test]
fn latency_follows_the_mode() {
    let mut effect = PolezVst::new(&params(Mode::Clean));
    assert_eq!(effect.latency(), 8192);
    effect.sync_params_if_changed(&params(Mode::Detect));
    assert_eq!(effect.latency(), 0);
}

#[test]
fn empty_block_reports_no_meter() {
    let mut effect = PolezVst::new(&params(Mode::Clean));
    let nothing = ProcessReport { meter: None, wake_worker: false };
    let no_input: Vec<Vec<u32>> = Vec::new();
    let mut outputs = vec![vec![3u32; 4]];
    assert_eq!(effect.process(&params(Mode::Detect), &no_input, &mut outputs, 4, &ops()), nothing);
    assert_eq!(outputs, vec![vec![3u32; 4]]);
    // The parameters were taken over all the same.
    assert_eq!(effect.latency(), 0);
    let mut outputs: Vec<Vec<u32>> = vec![Vec::new()];
    let report = effect.process(&params(Mode::Clean), &vec![Vec::new()], &mut outputs, 0, &ops());
    assert_eq!(report, nothing);
    assert_eq!(effect.latency(), 8192);
}

#[test]
fn outputs_without_an_input_are_left_alone() {
    let mut effect = PolezVst::new(&params(Mode::Bypass));
    let mut outputs = vec![vec![7u32; 3]; 2];
    effect.process(&params(Mode::Bypass), &vec![vec![1, 2, 3]], &mut outputs, 3, &ops());
    assert_eq!(outputs, vec![vec![1, 2, 3], vec![7, 7, 7]]);
}

#[test]
fn detection_listens_to_two_channels_and_passes_all() {
    let params = params(Mode::Detect);
    let mut effect = PolezVst::new(&params);
    effect.reset(&params, 16_384, 8192);
    let inputs = vec![vec![1u32; 8192], vec![10u32; 8192], vec![100u32; 8192]];
    let mut outputs = vec![vec![0u32; 8192]; 3];
    let report = effect.process(&params, &inputs, &mut outputs, 8192, &ops());
    assert_eq!(report, ProcessReport { meter: Some(0), wake_worker: true });
    assert_eq!(outputs, inputs);
    match effect.worker_step(WorkerEvent::Woken) {
        WorkerAction::Analyze(job) => {
            assert_eq!(job.sample_rate, 16_384);
            assert_eq!(job.samples, vec![11u32; 8192]);
        }
        _ => panic!("an analysis was queued"),
    }
    effect.worker_step(WorkerEvent::Analyzed(DetectResult {
        sample_rate: 16_384,
        confidence: 42,
        watermark_count: 1,
    }));
    // The next detecting block polls the result and shows it.
    let inputs = vec![vec![1u32; 4]];
    let mut outputs = vec![vec![0u32; 4]];
    let report = effect.process(&params, &inputs, &mut outputs, 4, &ops());
    assert_eq!(report, ProcessReport { meter: Some(42), wake_worker: false });
}

#[test]
fn two_channels_are_cleaned_together() {
    let params = params(Mode::Clean);
    let mut effect = PolezVst::new(&params);
    effect.reset(&params, 48_000, 8192);
    let inputs = vec![vec![1u32; 8192], vec![2u32; 8192]];
    let mut outputs = vec![vec![0u32; 8192]; 2];
    assert!(effect.accepts_block(&inputs, &outputs));
    effect.process(&params, &inputs, &mut outputs, 8192, &ops());
    assert_eq!(outputs, inputs);
    assert!(effect.accepts_block(&inputs, &outputs));
    effect.process(&params, &inputs, &mut outputs, 8192, &ops());
    assert_eq!(outputs, vec![vec![1 | CLEANED; 8192], vec![2 | CLEANED; 8192]]);
}

#[test]
fn of_many_channels_two_share_one_cleaner() {
    let params = params(Mode::Clean);
    let mut effect = PolezVst::new(&params);
    effect.reset(&params, 48_000, 8192);
    let inputs = vec![vec![1u32; 8192], vec![2u32; 8192], vec![3u32; 8192]];
    let mut outputs = vec![vec![9u32; 8192]; 3];
    assert!(effect.accepts_block(&inputs, &outputs));
    effect.process(&params, &inputs, &mut outputs, 8192, &ops());
    assert_eq!(outputs[0], inputs[0]);
    // The second channel queues up behind the first in the same cleaner.
    assert_eq!(outputs[1], vec![1 | CLEANED; 8192]);
    assert_eq!(outputs[2], vec![9u32; 8192]);
}

#[test]
fn blocks_longer_than_announced_are_cleaned_too() {
    let params = params(Mode::Clean);
    let mut effect = PolezVst::new(&params);
    effect.reset(&params, 48_000, 16);
    let mut rendered = Vec::new();
    for (i, n) in [3000usize, 10, 6144, 16, 5000, 3000].into_iter().enumerate() {
        let inputs = vec![vec![i as u32 + 1; n]];
        let mut outputs = vec![vec![0u32; n]];
        effect.process(&params, &inputs, &mut outputs, n, &ops());
        rendered.extend_from_slice(&outputs[0]);
    }
    let mut expected = vec![1; 3000];
    expected.extend(vec![2; 10]);
    expected.extend(vec![3; 5182]);
    expected.extend(vec![1 | CLEANED; 3000]);
    expected.extend(vec![2 | CLEANED; 10]);
    expected.extend(vec![3 | CLEANED; 17170 - 8192 - 3010]);
    assert_eq!(rendered, expected);
}

#[test]
fn mono_stream_cannot_turn_stereo_midway() {
    let params = params(Mode::Clean);
    let mut effect = PolezVst::new(&params);
    effect.reset(&params, 48_000, 8192);
    let mut outputs = vec![vec![0u32; 8000]];
    effect.process(&params, &vec![vec![1u32; 8000]], &mut outputs, 8000, &ops());
    let stereo = vec![vec![1u32; 500]; 2];
    assert!(!effect.accepts_block(&stereo, &stereo));
    // A reset empties the stream, and stereo is welcome again.
    effect.reset(&params, 48_000, 8192);
    assert!(effect.accepts_block(&stereo, &stereo));
}

#[test]
fn unchanged_parameters_keep_the_stream() {
    let params = params(Mode::Clean);
    let mut effect = PolezVst::new(&params);
    effect.reset(&params, 48_000, 8191);
    let mut outputs = vec![vec![0u32; 8191]];
    effect.process(&params, &vec![vec![1u32; 8191]], &mut outputs, 8191, &ops());
    effect.sync_params_if_changed(&params);
    effect.poll_detect_results();
    let mut outputs = vec![vec![0u32; 2]];
    effect.process(&params, &vec![vec![1u32; 2]], &mut outputs, 2, &ops());
    assert_eq!(outputs, vec![vec![1, 1 | CLEANED]]);
}

#[test]
fn effect_shutdown_sends_the_worker_home() {
    let mut effect = PolezVst::new(&params(Mode::Bypass));
    effect.shutdown();
    assert!(matches!(effect.worker_step(WorkerEvent::Woken), WorkerAction::Exit));
}

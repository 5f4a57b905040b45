//! The parts of the stream on concrete values.

use polez_vst::rt::detect_worker::{
    flush_action, DetectWorker, WorkerAction, WorkerEvent, DETECT_ANALYSIS_SAMPLES,
    POLEZ_MIN_DETECT_SAMPLES,
};
use polez_vst::rt::ops::{
    FingerprintRemovalConfig, Level, RemovalPass, SampleOps, StageError, Staged, WindowStage,
};
use polez_vst::rt::overlap::{overlap_add_into, RT_HOP, RT_OVERLAP};
use polez_vst::rt::processor::{
    detect_analysis_period, host_config_supported, SanitizationMode,
};
use polez_vst::rt::queue::DetectResult;
use polez_vst::rt::ring::MonoRing;
use polez_vst::rt::samples::{copy_at, copy_to_front, drop_front, resize_silent};
use polez_vst::rt::window::{AudioWindow, MAX_CHANNELS, RT_WINDOW};
use polez_vst::{CleanStrength, RealtimeProcessor};

type Ops = SampleOps<
    fn(&Vec<Vec<u32>>, usize) -> u32,
    fn(&AudioWindow) -> Level,
    fn(&AudioWindow, WindowStage) -> Staged,
    fn(u32, u32, usize, usize) -> u32,
>;

/// Integer stand-ins that show which arguments they were given.
fn ops() -> Ops {
    fn mix(channels: &Vec<Vec<u32>>, i: usize) -> u32 {
        channels.iter().map(|c| c[i]).sum()
    }
    fn level(window: &AudioWindow) -> Level {
        let first = window.sample(0, 0);
        Level { bits: first as u64, audible: first != 0 }
    }
    fn stage(window: &AudioWindow, stage: WindowStage) -> Staged {
        let digit = match stage {
            WindowStage::Remove(_) => 1,
            WindowStage::Restore(level) => 100 * level.bits as u32 + 2,
            WindowStage::Clip => 3,
        };
        let mut out = AudioWindow::new(window.sample_rate());
        out.set_sample(0, 0, 10 * window.sample(0, 0) + digit);
        Staged { window: out, result: Ok(()) }
    }
    fn blend(old: u32, new: u32, i: usize, n: usize) -> u32 {
        1_000_000 * old + 100_000 * new + 10 * i as u32 + n as u32
    }
    SampleOps { mix, level, stage, blend }
}

fn tail(ring: &MonoRing, n: usize) -> Vec<u32> {
    let mut out = vec![99; n];
    ring.contiguous_tail(n, &mut out);
    out
}

#[test]
fn ring_keeps_the_newest_samples_in_order() {
    let mut ring = MonoRing::with_capacity(4);
    assert_eq!((ring.capacity(), ring.filled()), (4, 0));
    assert!(ring.as_tail_slice().is_empty());
    for s in 1..=3 {
        ring.push_sample(s);
    }
    assert_eq!(ring.as_tail_slice(), &[1, 2, 3]);
    assert_eq!(tail(&ring, 2), vec![2, 3]);
    ring.push_sample(4);
    // Full: the slice gives up, the tail goes on.
    assert!(ring.as_tail_slice().is_empty());
    assert_eq!(tail(&ring, 4), vec![1, 2, 3, 4]);
    for s in 5..=10 {
        ring.push_sample(s);
    }
    assert_eq!(ring.filled(), 4);
    assert_eq!(tail(&ring, 4), vec![7, 8, 9, 10]);
    assert_eq!(tail(&ring, 1), vec![10]);
    // Only as much as the ring holds is overwritten.
    assert_eq!(tail(&ring, 6), vec![7, 8, 9, 10, 99, 99]);
    ring.reset();
    assert_eq!((ring.capacity(), ring.filled()), (4, 0));
    assert_eq!(tail(&ring, 2), vec![99, 99]);
}

#[test]
fn ring_takes_the_mix_of_all_channels() {
    let mut ring = MonoRing::with_capacity(8);
    let channels = vec![vec![1, 2, 3], vec![10, 20, 30]];
    ring.push_mono_from_channels(&channels, 2, &ops());
    assert_eq!(ring.as_tail_slice(), &[11, 22]);
}

#[test]
fn empty_ring_gives_nothing() {
    let ring = MonoRing::with_capacity(0);
    assert_eq!(ring.filled(), 0);
    assert_eq!(tail(&ring, 2), vec![99, 99]);
}

#[test]
fn sample_helpers_do_what_they_say() {
    let mut v = vec![1, 2, 3, 4];
    drop_front(&mut v, 3);
    assert_eq!(v, vec![4]);
    resize_silent(&mut v, 3);
    assert_eq!(v, vec![4, 0, 0]);
    copy_to_front(&mut v, &[7, 8, 9], 1, 2);
    assert_eq!(v, vec![8, 9, 0]);
    copy_at(&mut v, 1, &[5, 6, 7], 2);
    assert_eq!(v, vec![8, 5, 6]);
    copy_at(&mut v, 9, &[5], 0);
    assert_eq!(v, vec![8, 5, 6]);
    resize_silent(&mut v, 1);
    assert_eq!(v, vec![8]);
}

#[test]
fn analysis_period_is_half_a_second_or_a_window() {
    assert_eq!(detect_analysis_period(48_000), 24_000);
    assert_eq!(detect_analysis_period(44_100), 22_050);
    assert_eq!(detect_analysis_period(44_101), 22_051);
    assert_eq!(detect_analysis_period(u32::MAX), 1 << 31);
    assert_eq!(detect_analysis_period(16_384), 8_192);
    assert_eq!(detect_analysis_period(8_000), DETECT_ANALYSIS_SAMPLES);
    assert_eq!(detect_analysis_period(0), DETECT_ANALYSIS_SAMPLES);
}

fn ramp(from: u32, n: usize) -> Vec<u32> {
    (0..n as u32).map(|i| from + i).collect()
}

fn job(worker: &mut DetectWorker) -> Option<(u32, Vec<u32>)> {
    match worker.step(WorkerEvent::Woken) {
        WorkerAction::Analyze(job) => Some((job.sample_rate, job.samples)),
        WorkerAction::Park => None,
        WorkerAction::Exit => panic!("nobody shut the worker down"),
    }
}

#[test]
fn short_tails_are_not_analysed() {
    let mut worker = DetectWorker::new();
    assert!(!worker.request_analysis(48_000, &ramp(0, POLEZ_MIN_DETECT_SAMPLES - 1), 8192));
    assert!(!worker.request_analysis(48_000, &ramp(0, 8192), POLEZ_MIN_DETECT_SAMPLES - 1));
    assert_eq!(job(&mut worker), None);
    assert!(worker.request_analysis(48_000, &ramp(0, POLEZ_MIN_DETECT_SAMPLES), 8192));
    assert_eq!(job(&mut worker), Some((48_000, ramp(0, POLEZ_MIN_DETECT_SAMPLES))));
}

#[test]
fn worker_gets_the_newest_window_of_the_newest_request() {
    let mut worker = DetectWorker::new();
    worker.reset(48_000, 96_000);
    assert!(worker.request_analysis(44_100, &ramp(0, 9_000), 9_000));
    assert!(worker.request_analysis(48_000, &ramp(50_000, 10_000), 9_000));
    assert_eq!(job(&mut worker), Some((48_000, ramp(50_000 + 1_808, 8_192))));
    assert_eq!(job(&mut worker), None);
}

#[test]
fn finished_analysis_is_polled_once() {
    let mut worker = DetectWorker::new();
    let result = DetectResult { sample_rate: 48_000, confidence: 7, watermark_count: 2 };
    assert_eq!(worker.poll_results(48_000), None);
    assert!(matches!(worker.step(WorkerEvent::Analyzed(result)), WorkerAction::Park));
    assert_eq!(worker.poll_results(48_000), Some(result));
    assert_eq!(worker.poll_results(48_000), None);
}

#[test]
fn result_at_another_rate_is_dropped() {
    let mut worker = DetectWorker::new();
    let result = DetectResult { sample_rate: 48_000, confidence: 7, watermark_count: 2 };
    worker.step(WorkerEvent::Analyzed(result));
    assert_eq!(worker.poll_results(44_100), None);
    assert_eq!(worker.poll_results(48_000), None);
}

#[test]
fn newer_result_replaces_older() {
    let mut worker = DetectWorker::new();
    for confidence in 1..=3 {
        worker.step(WorkerEvent::Analyzed(DetectResult {
            sample_rate: 1,
            confidence,
            watermark_count: 0,
        }));
    }
    assert_eq!(worker.poll_results(1).map(|r| r.confidence), Some(3));
    assert_eq!(worker.poll_results(1), None);
}

#[test]
fn worker_reset_drops_what_is_queued() {
    let mut worker = DetectWorker::new();
    worker.request_analysis(48_000, &ramp(0, 8_192), 8_192);
    worker.step(WorkerEvent::Analyzed(DetectResult {
        sample_rate: 48_000,
        confidence: 1,
        watermark_count: 1,
    }));
    worker.reset(48_000, 100);
    assert_eq!(job(&mut worker), None);
    assert_eq!(worker.poll_results(48_000), None);
}

#[test]
fn shut_down_worker_finishes_and_leaves() {
    let mut worker = DetectWorker::new();
    worker.request_analysis(48_000, &ramp(0, 8_192), 8_192);
    worker.shutdown();
    assert!(matches!(worker.step(WorkerEvent::Woken), WorkerAction::Analyze(_)));
    let result = DetectResult { sample_rate: 48_000, confidence: 1, watermark_count: 1 };
    assert!(matches!(worker.step(WorkerEvent::Analyzed(result)), WorkerAction::Exit));
    assert!(matches!(worker.step(WorkerEvent::Woken), WorkerAction::Exit));
}

#[test]
fn flush_polls_two_hundred_times() {
    assert!(flush_action(0));
    assert!(flush_action(199));
    assert!(!flush_action(200));
}

#[test]
fn window_holds_what_is_put_into_it() {
    let mut window = AudioWindow::new(44_100);
    assert_eq!(window.sample_rate(), 44_100);
    assert_eq!(window.sample(0, 0), 0);
    assert_eq!(window.sample(RT_WINDOW - 1, MAX_CHANNELS - 1), 0);
    window.set_sample(5, 1, 77);
    assert_eq!(window.sample(5, 1), 77);
    assert_eq!((window.sample(5, 0), window.sample(6, 1), window.sample(1, 0)), (0, 0, 0));
    window.load_channel(0, &ramp(1, RT_WINDOW + 3));
    let mut out = vec![0; RT_WINDOW];
    window.store_channel(0, &mut out);
    assert_eq!(out, ramp(1, RT_WINDOW));
    assert_eq!(window.sample(5, 1), 77);
    let mut other = AudioWindow::new(8_000);
    other.replace_samples(window);
    assert_eq!((other.sample_rate(), other.sample(5, 1), other.sample(5, 0)), (8_000, 77, 6));
}

#[test]
fn overlap_add_starts_an_empty_output() {
    let mut out = Vec::new();
    overlap_add_into(&mut out, &vec![1, 2, 3], &ops());
    assert_eq!(out, vec![1, 2, 3]);
}

#[test]
fn overlap_add_fades_the_front_and_takes_the_rest() {
    // All that waits is shorter than the overlap: all of it is faded.
    let mut out = vec![1, 2];
    overlap_add_into(&mut out, &vec![3, 4, 5], &ops());
    assert_eq!(out, vec![1_300_002, 2_400_012, 5]);
    // What waits beyond the processed samples stays.
    let mut out = vec![1, 2, 3];
    overlap_add_into(&mut out, &vec![4], &ops());
    assert_eq!(out, vec![1_400_001, 2, 3]);
}

#[test]
fn overlap_add_fades_no_more_than_the_overlap() {
    let mut out = vec![0; RT_OVERLAP + 2];
    overlap_add_into(&mut out, &vec![1; RT_WINDOW], &ops());
    assert_eq!(out.len(), RT_WINDOW);
    assert_eq!(out[1], 100_000 + 10 + RT_OVERLAP as u32);
    assert_eq!(
        out[RT_OVERLAP - 1],
        100_000 + 10 * (RT_OVERLAP as u32 - 1) + RT_OVERLAP as u32
    );
    assert!(out[RT_OVERLAP..].iter().all(|s| *s == 1));
    assert_eq!(RT_OVERLAP + RT_HOP, RT_WINDOW);
}

const CONFIG: FingerprintRemovalConfig = FingerprintRemovalConfig {
    statistical_normalization: true,
    temporal_randomization: true,
    phase_randomization: false,
    micro_timing_perturbation: true,
    human_imperfections: false,
};

fn window_of(first: u32) -> AudioWindow {
    let mut window = AudioWindow::new(48_000);
    window.set_sample(0, 0, first);
    window
}

#[test]
fn only_the_fast_strength_skips_the_removal() {
    let checked: Ops = SampleOps {
        stage: |window, stage| {
            assert_eq!(stage, WindowStage::Remove(RemovalPass { paranoid: true, config: CONFIG }));
            (ops().stage)(window, stage)
        },
        ..ops()
    };
    let removed = |strength| {
        let mut window = window_of(5);
        let result =
            RealtimeProcessor::clean_window_dsp(&mut window, true, &CONFIG, strength, &checked);
        assert_eq!(result, Ok(()));
        assert_eq!(window.sample_rate(), 48_000);
        window.sample(0, 0)
    };
    assert_eq!(removed(CleanStrength::Fast), 5);
    assert_eq!(removed(CleanStrength::Standard), 51);
    assert_eq!(removed(CleanStrength::Preserving), 51);
    assert_eq!(removed(CleanStrength::Aggressive), 51);
}

fn failing_ops() -> Ops {
    SampleOps {
        stage: |window, stage| match stage {
            WindowStage::Remove(_) => Staged {
                window: AudioWindow::new(window.sample_rate()),
                result: Err(StageError { message: "no fingerprint".to_string() }),
            },
            _ => (ops().stage)(window, stage),
        },
        ..ops()
    }
}

#[test]
fn failed_removal_is_handed_on_as_its_error() {
    let mut window = window_of(5);
    let strength = CleanStrength::Standard;
    let result =
        RealtimeProcessor::clean_window_dsp(&mut window, false, &CONFIG, strength, &failing_ops());
    assert_eq!(result, Err(StageError { message: "no fingerprint".to_string() }));
    // The window is as the removal left it.
    assert_eq!(window.sample(0, 0), 0);
    let strength = CleanStrength::Fast;
    let result =
        RealtimeProcessor::clean_window_dsp(&mut window, false, &CONFIG, strength, &failing_ops());
    assert_eq!(result, Ok(()));
    let stage = WindowStage::Remove(RemovalPass { paranoid: false, config: CONFIG });
    assert!(failing_ops().run_stage(&mut window, stage).is_err());
    assert!(failing_ops().run_stage(&mut window, WindowStage::Clip).is_ok());
}

#[test]
fn window_is_levelled_and_then_clipped() {
    let finished = |first, level| {
        let mut window = window_of(first);
        ops().finish_window(&mut window, level);
        assert_eq!(window.sample_rate(), 48_000);
        window.sample(0, 0)
    };
    let audible = ops().level_of(&window_of(5));
    let silent = ops().level_of(&window_of(0));
    assert_eq!((audible.audible, silent.audible), (true, false));
    // Brought back to the level it had at first, and clipped last.
    assert_eq!(finished(51, audible), (51 * 10 + 502) * 10 + 3);
    // A window that is or was silent is not brought to a level.
    assert_eq!(finished(51, silent), 513);
    assert_eq!(finished(0, audible), 3);
}

#[test]
fn strengths_stand_for_pipeline_modes() {
    assert_eq!(CleanStrength::Fast.to_polez(), SanitizationMode::Fast);
    assert_eq!(CleanStrength::Standard.to_polez(), SanitizationMode::Standard);
    assert_eq!(CleanStrength::Preserving.to_polez(), SanitizationMode::Preserving);
    assert_eq!(CleanStrength::Aggressive.to_polez(), SanitizationMode::Aggressive);
}

#[test]
fn absurd_host_configurations_are_told_apart() {
    assert!(host_config_supported(192_000, 4_096));
    assert!(!host_config_supported(48_000, usize::MAX / 4));
}

//! What holds of the stream as a whole, on concrete streams.

use polez_vst::rt::detect_worker::{WorkerAction, WorkerEvent, DETECT_ANALYSIS_SAMPLES};
use polez_vst::rt::ops::{Level, SampleOps, Staged, WindowStage};
use polez_vst::rt::overlap::{RT_HOP, RT_OVERLAP};
use polez_vst::rt::queue::DetectResult;
use polez_vst::rt::window::{AudioWindow, MAX_CHANNELS, RT_WINDOW};
use polez_vst::{CleanStrength, OperationMode, RealtimeProcessor};

type Ops = SampleOps<
    fn(&Vec<Vec<u32>>, usize) -> u32,
    fn(&AudioWindow) -> Level,
    fn(&AudioWindow, WindowStage) -> Staged,
    fn(u32, u32, usize, usize) -> u32,
>;

/// Set on every sample that went through a removal pass, and on every one that was clipped.
const REMOVED: u32 = 0x4000_0000;
const CLIPPED: u32 = 0x8000_0000;

fn ops() -> Ops {
    fn mix(channels: &Vec<Vec<u32>>, i: usize) -> u32 {
        channels[0][i]
    }
    fn level(_window: &AudioWindow) -> Level {
        Level { bits: 0, audible: false }
    }
    fn stage(window: &AudioWindow, stage: WindowStage) -> Staged {
        let mark = match stage {
            WindowStage::Remove(pass) => {
                assert!(pass.config.statistical_normalization);
                assert!(pass.config.temporal_randomization);
                assert!(pass.config.micro_timing_perturbation);
                assert!(!pass.config.phase_randomization);
                assert!(!pass.config.human_imperfections);
                REMOVED
            }
            WindowStage::Restore(_) => panic!("the window was not audible"),
            WindowStage::Clip => CLIPPED,
        };
        let mut out = AudioWindow::new(window.sample_rate());
        for i in 0..RT_WINDOW {
            for ch in 0..MAX_CHANNELS {
                out.set_sample(i, ch, window.sample(i, ch) | mark);
            }
        }
        Staged { window: out, result: Ok(()) }
    }
    fn blend(old: u32, new: u32, _i: usize, _n: usize) -> u32 {
        // Both windows cover the same stretch of the stream.
        assert_eq!(old, new);
        new
    }
    SampleOps { mix, level, stage, blend }
}

fn processor(mode: OperationMode, strength: CleanStrength, block: usize) -> RealtimeProcessor {
    let mut rt = RealtimeProcessor::new(48_000, 2);
    rt.reset(48_000, 2, block);
    rt.set_strength(strength);
    rt.set_mode(mode);
    rt
}

fn run(rt: &mut RealtimeProcessor, input: &[u32], block: usize) -> Vec<u32> {
    let mut out = Vec::new();
    for chunk in input.chunks(block) {
        let mut channels = vec![chunk.to_vec()];
        assert!(rt.accepts_block(&channels));
        rt.process_block(&mut channels, &ops());
        assert_eq!(channels.len(), 1);
        assert_eq!(channels[0].len(), chunk.len());
        out.extend_from_slice(&channels[0]);
    }
    out
}

fn ramp(n: usize) -> Vec<u32> {
    (1..=n as u32).collect()
}

#[test]
fn cleaned_samples_come_out_one_window_late() {
    for block in [1usize, 64, 441, 480, 512, 1000, 2048, 3000, 4096, 6144, 6145, 7000, 8192] {
        let mut rt = processor(OperationMode::Clean, CleanStrength::Fast, block);
        let input = ramp(40_000);
        let out = run(&mut rt, &input, block);
        let late = rt.latency_samples() as usize;
        // Warm-up passes untouched; after it comes the whole stream, marked, in order.
        assert_eq!(out[..late], input[..late]);
        for i in late..out.len() {
            assert_eq!(out[i], input[i - late] | CLIPPED, "block={block} i={i}");
        }
    }
}

#[test]
fn delay_does_not_depend_on_how_the_stream_is_cut() {
    let mut rt = processor(OperationMode::Clean, CleanStrength::Standard, 2048);
    let mut lengths = [1usize, 100, 2047, 0, 6144, 13, 8192, 777, 5000, 8000].into_iter().cycle();
    let input = ramp(100_000);
    let mut out = Vec::new();
    while out.len() < input.len() {
        let n = lengths.next().unwrap().min(input.len() - out.len());
        let mut channels = vec![input[out.len()..out.len() + n].to_vec()];
        rt.process_block(&mut channels, &ops());
        out.extend_from_slice(&channels[0]);
    }
    assert_eq!(out[..RT_WINDOW], input[..RT_WINDOW]);
    for i in RT_WINDOW..out.len() {
        assert_eq!(out[i], input[i - RT_WINDOW] | REMOVED | CLIPPED, "i={i}");
    }
}

#[test]
fn stereo_channels_stay_in_step() {
    let mut rt = processor(OperationMode::Clean, CleanStrength::Fast, 1024);
    let delay = RT_WINDOW;
    let left = ramp(40 * 1024);
    let right: Vec<u32> = left.iter().map(|s| s + 1_000_000).collect();
    let (mut out_left, mut out_right) = (Vec::new(), Vec::new());
    for b in 0..40 {
        let range = b * 1024..(b + 1) * 1024;
        let mut channels = vec![left[range.clone()].to_vec(), right[range].to_vec()];
        assert!(rt.accepts_block(&channels));
        rt.process_block(&mut channels, &ops());
        out_left.extend_from_slice(&channels[0]);
        out_right.extend_from_slice(&channels[1]);
    }
    for i in delay..out_left.len() {
        assert_eq!(out_left[i], left[i - delay] | CLIPPED);
        assert_eq!(out_right[i], right[i - delay] | CLIPPED);
    }
}

#[test]
fn third_channel_is_left_alone() {
    let mut rt = processor(OperationMode::Clean, CleanStrength::Fast, 4096);
    for block in 0..4 {
        let mut channels = vec![vec![1u32; 4096], vec![2u32; 4096], vec![3u32; 4096]];
        rt.process_block(&mut channels, &ops());
        let mark = if block < 2 { 0 } else { CLIPPED };
        assert!(channels[0].iter().all(|s| *s == 1 | mark));
        assert!(channels[1].iter().all(|s| *s == 2 | mark));
        assert!(channels[2].iter().all(|s| *s == 3));
    }
}

#[test]
fn block_out_of_step_is_not_accepted() {
    let mut rt = processor(OperationMode::Clean, CleanStrength::Fast, 8192);
    run(&mut rt, &ramp(8000), 8000);
    // The second channel has no history to complete a window with.
    assert!(!rt.accepts_block(&vec![vec![1u32; 400], vec![1u32; 400]]));
    // Before the window is complete it is welcome, and passes untouched.
    let mut channels = vec![vec![1u32; 100], vec![2u32; 100]];
    assert!(rt.accepts_block(&channels));
    rt.process_block(&mut channels, &ops());
    assert_eq!(channels, vec![vec![1u32; 100], vec![2u32; 100]]);
    assert!(!rt.accepts_block(&channels));
    assert!(rt.accepts_block(&vec![vec![1u32; 400]]));
    // A short second channel cannot be listened to.
    rt.set_mode(OperationMode::Detect);
    assert!(!rt.accepts_block(&vec![vec![1u32; 400], vec![1u32; 399]]));
    rt.set_mode(OperationMode::Bypass);
    assert!(rt.accepts_block(&vec![vec![1u32; 400], vec![1u32; 399]]));
}

/// How many samples of a block were replaced; each of them by what came in one window earlier, and
/// the others not at all.
fn replaced(input: &[u32], from: usize, block: &[u32], mark: u32) -> usize {
    let mut count = 0;
    for (i, sample) in block.iter().enumerate() {
        let t = from + i;
        if *sample == input[t] {
            continue;
        }
        assert_eq!(*sample, input[t - RT_WINDOW] | mark, "t={t}");
        count += 1;
    }
    count
}

#[test]
fn late_samples_are_given_up() {
    let lengths = [32_768usize, 1, 1, 20_000, 1, 6_144, 30_000, 8_192, 8_192, 512];
    let input = ramp(lengths.iter().sum());
    let mut rt = processor(OperationMode::Clean, CleanStrength::Fast, 32_768);
    let mut from = 0;
    let mut counts = Vec::new();
    for n in lengths {
        let mut channels = vec![input[from..from + n].to_vec()];
        rt.process_block(&mut channels, &ops());
        counts.push(replaced(&input, from, &channels[0], CLIPPED));
        from += n;
    }
    // A block longer than a window gets a window's worth at most; every other block is replaced as
    // a whole, and always by what came in one window earlier.
    assert_eq!(counts, [8_192, 1, 1, 8_192, 1, 6_144, 8_192, 8_192, 8_192, 512]);
}

#[test]
fn window_sized_blocks_are_cleaned_as_a_whole() {
    let mut rt = processor(OperationMode::Clean, CleanStrength::Fast, 8_192);
    let input = ramp(20 * 8_192);
    let out = run(&mut rt, &input, 8_192);
    assert_eq!(out[..RT_WINDOW], input[..RT_WINDOW]);
    for i in RT_WINDOW..out.len() {
        assert_eq!(out[i], input[i - RT_WINDOW] | CLIPPED, "i={i}");
    }
}

#[test]
fn settings_change_within_a_stream() {
    let mut rt = processor(OperationMode::Clean, CleanStrength::Fast, 512);
    let loose: Ops = SampleOps { blend: |_, new, _, _| new, ..ops() };
    let input = ramp(60_000);
    let mut out = Vec::new();
    for (b, chunk) in input.chunks(480).enumerate() {
        let fast = (b / 20) % 2 == 0;
        rt.set_strength(if fast { CleanStrength::Fast } else { CleanStrength::Preserving });
        rt.set_paranoid(!fast);
        rt.poll_detect_results();
        rt.worker_step(WorkerEvent::Woken);
        let mut channels = vec![chunk.to_vec()];
        rt.process_block(&mut channels, &loose);
        out.extend_from_slice(&channels[0]);
    }
    // The strength decides the pass of each window as it gets due; the delay stays.
    let mut removed = 0;
    for i in RT_WINDOW..out.len() {
        assert_eq!(out[i] & !REMOVED, input[i - RT_WINDOW] | CLIPPED, "i={i}");
        removed += usize::from(out[i] & REMOVED != 0);
    }
    assert!(removed > 0 && removed < out.len() - RT_WINDOW);
    for hop in out[RT_WINDOW..].chunks(RT_HOP) {
        assert!(hop.iter().all(|s| s & REMOVED == hop[0] & REMOVED));
    }
}

#[test]
fn windows_are_faded_over_one_overlap() {
    // Each window is cleaned to its own number; the fade shows which two it blends, and where.
    let numbered: Ops = SampleOps {
        stage: |window, _| {
            let mut out = AudioWindow::new(window.sample_rate());
            for i in 0..RT_WINDOW {
                out.set_sample(i, 0, 1 + window.sample(0, 0) / RT_HOP as u32);
            }
            Staged { window: out, result: Ok(()) }
        },
        blend: |old, new, i, n| 1_000_000 * old + 100_000 * new + (i * RT_OVERLAP / n) as u32,
        ..ops()
    };
    let mut rt = processor(OperationMode::Clean, CleanStrength::Fast, 480);
    let input: Vec<u32> = (0..60_000).collect();
    let mut out = Vec::new();
    for chunk in input.chunks(480) {
        let mut channels = vec![chunk.to_vec()];
        rt.process_block(&mut channels, &numbered);
        out.extend_from_slice(&channels[0]);
    }
    for (pos, sample) in out[RT_WINDOW..].iter().enumerate() {
        let (k, t) = (pos / RT_HOP, pos % RT_HOP);
        let number = k as u32 + 1;
        if k > 0 && t < RT_OVERLAP {
            assert_eq!(*sample, 1_000_000 * (number - 1) + 100_000 * number + t as u32);
        } else {
            assert_eq!(*sample, number);
        }
    }
}

#[test]
fn mode_change_empties_the_stream_and_same_mode_does_not() {
    let mut rt = processor(OperationMode::Clean, CleanStrength::Fast, 512);
    run(&mut rt, &ramp(RT_WINDOW), 512);
    rt.set_mode(OperationMode::Clean);
    assert_eq!(run(&mut rt, &[9], 1), vec![1 | CLIPPED]);
    rt.set_mode(OperationMode::Bypass);
    rt.set_mode(OperationMode::Clean);
    assert_eq!(run(&mut rt, &ramp(RT_WINDOW), 512), ramp(RT_WINDOW));
}

#[test]
fn strength_change_keeps_the_stream() {
    let mut rt = processor(OperationMode::Clean, CleanStrength::Fast, 512);
    run(&mut rt, &ramp(RT_WINDOW - 1), 512);
    rt.set_strength(CleanStrength::Aggressive);
    rt.set_paranoid(true);
    assert_eq!(run(&mut rt, &[9, 9], 2), vec![9, 1 | REMOVED | CLIPPED]);
}

#[test]
fn every_strength_but_fast_runs_the_same_removal() {
    for strength in [
        CleanStrength::Standard,
        CleanStrength::Preserving,
        CleanStrength::Aggressive,
    ] {
        let mut rt = processor(OperationMode::Clean, strength, 512);
        let out = run(&mut rt, &ramp(RT_WINDOW + 512), 512);
        assert_eq!(out[RT_WINDOW], 1 | REMOVED | CLIPPED);
    }
}

#[test]
fn bypass_and_detect_touch_nothing() {
    for mode in [OperationMode::Bypass, OperationMode::Detect] {
        let mut rt = processor(mode, CleanStrength::Standard, 512);
        assert_eq!(run(&mut rt, &ramp(30_000), 500), ramp(30_000));
        assert_eq!(rt.latency_samples(), 0);
    }
}

#[test]
fn empty_blocks_do_nothing() {
    for mode in [OperationMode::Bypass, OperationMode::Detect, OperationMode::Clean] {
        let mut rt = processor(mode, CleanStrength::Standard, 512);
        let mut none: Vec<Vec<u32>> = Vec::new();
        assert!(!rt.process_block(&mut none, &ops()));
        let mut silent: Vec<Vec<u32>> = vec![Vec::new(), vec![4, 5]];
        assert!(!rt.process_block(&mut silent, &ops()));
        assert_eq!(silent, vec![Vec::new(), vec![4, 5]]);
    }
}

fn analysed(rt: &mut RealtimeProcessor) -> Option<Vec<u32>> {
    match rt.worker_step(WorkerEvent::Woken) {
        WorkerAction::Analyze(job) => Some(job.samples),
        _ => None,
    }
}

#[test]
fn analysis_sees_the_newest_audio() {
    let mut rt = processor(OperationMode::Detect, CleanStrength::Standard, 512);
    let input = ramp(200_000);
    let mut heard = 0;
    let mut analyses = 0;
    for chunk in input.chunks(500) {
        let mut channels = vec![chunk.to_vec()];
        let queued = rt.process_block(&mut channels, &ops());
        heard += chunk.len();
        // The period is half a second, before and after the history has wrapped around.
        assert_eq!(queued, heard % 24_000 == 0);
        match analysed(&mut rt) {
            Some(samples) => {
                assert!(queued);
                assert_eq!(samples, input[heard - DETECT_ANALYSIS_SAMPLES..heard]);
                analyses += 1;
            }
            None => assert!(!queued),
        }
    }
    assert_eq!(analyses, 8);
}

#[test]
fn one_second_brings_at_most_two_analyses() {
    for block in [1usize, 441, 512, 23_999, 48_000] {
        let mut rt = processor(OperationMode::Detect, CleanStrength::Standard, block);
        let mut analyses = 0;
        for chunk in ramp(48_000).chunks(block) {
            if rt.process_block(&mut vec![chunk.to_vec()], &ops()) {
                analyses += 1;
            }
        }
        assert!(analyses <= 2, "block={block} analyses={analyses}");
        assert!(analyses >= 1, "block={block}");
    }
}

#[test]
fn second_at_an_odd_rate_brings_two_analyses() {
    let mut rt = RealtimeProcessor::new(16_385, 1);
    rt.reset(16_385, 1, 8192);
    rt.set_mode(OperationMode::Detect);
    let mut queued = |n: usize| rt.process_block(&mut vec![vec![1u32; n]], &ops());
    assert!(!queued(8192));
    // One second, from the sample on that completes the half second.
    assert!(queued(1));
    assert!(queued(8193));
    assert!(!queued(8191));
}

#[test]
fn confidence_follows_the_last_result_at_the_same_rate() {
    let mut rt = processor(OperationMode::Detect, CleanStrength::Standard, 512);
    let result = |sample_rate, confidence| {
        WorkerEvent::Analyzed(DetectResult { sample_rate, confidence, watermark_count: 1 })
    };
    assert_eq!(rt.detection_confidence(), 0);
    rt.worker_step(result(48_000, 5));
    assert_eq!(rt.detection_confidence(), 0);
    rt.poll_detect_results();
    assert_eq!(rt.detection_confidence(), 5);
    rt.worker_step(result(44_100, 6));
    rt.poll_detect_results();
    assert_eq!(rt.detection_confidence(), 5);
    rt.reset(44_100, 1, 512);
    assert_eq!(rt.detection_confidence(), 5);
    rt.worker_step(result(44_100, 6));
    rt.poll_detect_results();
    assert_eq!(rt.detection_confidence(), 6);
}

#[test]
fn reset_starts_over() {
    let mut rt = processor(OperationMode::Detect, CleanStrength::Standard, 512);
    run(&mut rt, &ramp(24_000), 24_000);
    rt.reset(48_000, 2, 512);
    assert_eq!(analysed(&mut rt), None);
    run(&mut rt, &ramp(23_999), 23_999);
    assert_eq!(analysed(&mut rt), None);
    run(&mut rt, &[1], 1);
    assert!(analysed(&mut rt).is_some());
}

#[test]
fn shutdown_sends_the_worker_home() {
    let mut rt = processor(OperationMode::Detect, CleanStrength::Standard, 512);
    assert!(matches!(rt.worker_step(WorkerEvent::Woken), WorkerAction::Park));
    rt.shutdown();
    assert!(matches!(rt.worker_step(WorkerEvent::Woken), WorkerAction::Exit));
}

//! The stream as a host would drive it: sine and watermarked signals in blocks.

use polez_vst::rt::detect_worker::{WorkerAction, WorkerEvent};
use polez_vst::rt::ops::{Level, SampleOps, Staged, WindowStage};
use polez_vst::rt::queue::DetectResult;
use polez_vst::rt::window::{AudioWindow, MAX_CHANNELS, RT_WINDOW};
use polez_vst::{
    CleanStrength, OperationMode, RealtimeProcessor, CLEAN_WINDOW_SAMPLES, DETECT_ANALYSIS_SAMPLES,
};

const TEST_SR: u32 = 44_100;
const BLOCK_SIZE: usize = 512;

type Ops = SampleOps<
    fn(&Vec<Vec<u32>>, usize) -> u32,
    fn(&AudioWindow) -> Level,
    fn(&AudioWindow, WindowStage) -> Staged,
    fn(u32, u32, usize, usize) -> u32,
>;

fn mix(channels: &Vec<Vec<u32>>, i: usize) -> u32 {
    let sum: f32 = channels.iter().map(|c| f32::from_bits(c[i])).sum();
    (sum / channels.len() as f32).to_bits()
}

fn blend(old: u32, new: u32, i: usize, n: usize) -> u32 {
    let fade_out = (n - i) as f32 / n as f32;
    let fade_in = i as f32 / n as f32;
    (f32::from_bits(old) * fade_out + f32::from_bits(new) * fade_in).to_bits()
}

fn level(window: &AudioWindow) -> Level {
    let all: Vec<f32> = (0..RT_WINDOW)
        .flat_map(|i| (0..MAX_CHANNELS).map(move |ch| (i, ch)))
        .map(|(i, ch)| f32::from_bits(window.sample(i, ch)))
        .collect();
    let level = rms(&all) as f64;
    Level { bits: level.to_bits(), audible: level > 1e-10 }
}

/// A light smoothing stands for the removal.
fn stage(window: &AudioWindow, stage: WindowStage) -> Staged {
    let at = |i: usize, ch: usize| f32::from_bits(window.sample(i, ch));
    let gain = match stage {
        WindowStage::Restore(wanted) => {
            (f64::from_bits(wanted.bits) / f64::from_bits(level(window).bits)) as f32
        }
        _ => 1.0,
    };
    let mut out = AudioWindow::new(window.sample_rate());
    for ch in 0..MAX_CHANNELS {
        for i in 0..RT_WINDOW {
            let sample = match stage {
                WindowStage::Remove(_) if i > 0 => 0.95 * at(i, ch) + 0.05 * at(i - 1, ch),
                WindowStage::Remove(_) => at(i, ch),
                WindowStage::Restore(_) => gain * at(i, ch),
                WindowStage::Clip => at(i, ch).clamp(-0.99, 0.99),
            };
            out.set_sample(i, ch, sample.to_bits());
        }
    }
    Staged { window: out, result: Ok(()) }
}

fn ops() -> Ops {
    SampleOps { mix, level, stage, blend }
}

fn to_bits(samples: &[f32]) -> Vec<u32> {
    samples.iter().map(|s| s.to_bits()).collect()
}

fn to_floats(bits: &[u32]) -> Vec<f32> {
    bits.iter().map(|b| f32::from_bits(*b)).collect()
}

fn process(rt: &mut RealtimeProcessor, block: &mut [f32]) -> bool {
    let mut channels = vec![to_bits(block)];
    let queued = rt.process_block(&mut channels, &ops());
    block.copy_from_slice(&to_floats(&channels[0]));
    queued
}

/// Lets the worker take its turns until it parks, with a fixed verdict, and polls the result.
fn flush_detect_worker(rt: &mut RealtimeProcessor) {
    let mut event = WorkerEvent::Woken;
    loop {
        match rt.worker_step(event) {
            WorkerAction::Analyze(job) => {
                assert_eq!(job.samples.len(), DETECT_ANALYSIS_SAMPLES);
                event = WorkerEvent::Analyzed(DetectResult {
                    sample_rate: job.sample_rate,
                    confidence: 0.75f32.to_bits(),
                    watermark_count: 3,
                });
            }
            WorkerAction::Park => break,
            WorkerAction::Exit => panic!("nobody shut the worker down"),
        }
    }
    rt.poll_detect_results();
}

fn sine_mono(freq: f32, sr: u32, duration_secs: f32) -> Vec<f32> {
    let len = (sr as f32 * duration_secs) as usize;
    (0..len)
        .map(|i| (2.0 * std::f32::consts::PI * freq * i as f32 / sr as f32).sin() * 0.5)
        .collect()
}

fn watermarked_mono(sr: u32) -> Vec<f32> {
    let len = sr as usize;
    (0..len)
        .map(|i| {
            let t = i as f32 / sr as f32;
            let base = (2.0 * std::f32::consts::PI * 440.0 * t).sin() * 0.4;
            let wm1 = (2.0 * std::f32::consts::PI * 18500.0 * t).sin() * 0.05;
            let wm2 = (2.0 * std::f32::consts::PI * 19500.0 * t).sin() * 0.04;
            let wm3 = (2.0 * std::f32::consts::PI * 20500.0 * t).sin() * 0.03;
            let mod_factor = 1.0 + 0.02 * (2.0 * std::f32::consts::PI * 50.0 * t).sin();
            (base + wm1 + wm2 + wm3) * mod_factor
        })
        .collect()
}

fn render_blocks(
    rt: &mut RealtimeProcessor,
    input: &[f32],
    block_size: usize,
    flush_silence_blocks: usize,
) -> Vec<f32> {
    let mut output = Vec::new();
    let mut offset = 0;
    while offset < input.len() {
        let end = (offset + block_size).min(input.len());
        let mut block = input[offset..end].to_vec();
        process(rt, &mut block);
        output.extend_from_slice(&block);
        offset = end;
    }
    for _ in 0..flush_silence_blocks {
        let mut block = vec![0.0f32; block_size];
        process(rt, &mut block);
        output.extend_from_slice(&block);
    }
    output
}

fn render_clean_aligned(rt: &mut RealtimeProcessor, input: &[f32], block_size: usize) -> Vec<f32> {
    let flush_blocks = (CLEAN_WINDOW_SAMPLES / block_size).max(1) + 4;
    let raw = render_blocks(rt, input, block_size, flush_blocks);
    if raw.len() <= CLEAN_WINDOW_SAMPLES {
        return vec![0.0; input.len()];
    }
    raw[CLEAN_WINDOW_SAMPLES
        ..CLEAN_WINDOW_SAMPLES + input.len().min(raw.len() - CLEAN_WINDOW_SAMPLES)]
        .to_vec()
}

fn rt_clean(samples: &[f32], sr: u32, strength: CleanStrength) -> Vec<f32> {
    let mut rt = RealtimeProcessor::new(sr, 1);
    rt.reset(sr, 1, BLOCK_SIZE);
    rt.set_strength(strength);
    rt.set_mode(OperationMode::Clean);
    render_clean_aligned(&mut rt, samples, BLOCK_SIZE)
}

fn rt_bypass(samples: &[f32], sr: u32) -> Vec<f32> {
    let mut rt = RealtimeProcessor::new(sr, 1);
    rt.reset(sr, 1, BLOCK_SIZE);
    rt.set_mode(OperationMode::Bypass);
    render_blocks(&mut rt, samples, BLOCK_SIZE, 0)
}

fn rt_detect(samples: &[f32], sr: u32) -> Vec<f32> {
    let mut rt = RealtimeProcessor::new(sr, 1);
    rt.reset(sr, 1, BLOCK_SIZE);
    rt.set_mode(OperationMode::Detect);
    let out = render_blocks(&mut rt, samples, BLOCK_SIZE, 0);
    flush_detect_worker(&mut rt);
    out
}

fn mean_abs_diff(a: &[f32], b: &[f32]) -> f32 {
    let n = a.len().min(b.len());
    if n == 0 {
        return 0.0;
    }
    a.iter().zip(b.iter()).map(|(x, y)| (x - y).abs()).sum::<f32>() / n as f32
}

fn rms(samples: &[f32]) -> f32 {
    if samples.is_empty() {
        return 0.0;
    }
    let sum: f32 = samples.iter().map(|s| s * s).sum();
    (sum / samples.len() as f32).sqrt()
}

#[test]
fn bypass_leaves_samples_unchanged() {
    let mut rt = RealtimeProcessor::new(48_000, 2);
    rt.set_mode(OperationMode::Bypass);
    let mut channels = vec![to_bits(&[0.25f32; 128]), to_bits(&[0.5f32; 128])];
    rt.process_block(&mut channels, &ops());
    assert!((f32::from_bits(channels[0][0]) - 0.25).abs() < 1e-6);
    assert!((f32::from_bits(channels[1][0]) - 0.5).abs() < 1e-6);
}

#[test]
fn detect_fills_confidence_after_window() {
    let mut rt = RealtimeProcessor::new(48_000, 1);
    rt.reset(48_000, 1, 512);
    rt.set_mode(OperationMode::Detect);
    let mut mono = vec![0.0f32; DETECT_ANALYSIS_SAMPLES];
    for (i, s) in mono.iter_mut().enumerate() {
        let t = i as f32 / 48_000.0;
        *s = (2.0 * std::f32::consts::PI * 440.0 * t).sin() * 0.3;
    }
    process(&mut rt, &mut mono);
    flush_detect_worker(&mut rt);
    assert!(f32::from_bits(rt.detection_confidence()) >= 0.0);
}

#[test]
fn clean_does_not_zero_warmup_block() {
    let mut rt = RealtimeProcessor::new(48_000, 1);
    rt.set_mode(OperationMode::Clean);
    rt.set_strength(CleanStrength::Fast);
    let mut block = [0.5f32; 256];
    process(&mut rt, &mut block);
    assert!((block[0] - 0.5).abs() < 1e-6);
}

#[test]
fn bypass_is_bit_exact() {
    let input = sine_mono(440.0, TEST_SR, 0.25);
    let out = rt_bypass(&input, TEST_SR);
    assert_eq!(input.len(), out.len());
    assert!(mean_abs_diff(&input, &out) < 1e-6);
    assert_eq!(to_bits(&input), to_bits(&out));
}

#[test]
fn detect_does_not_modify_audio() {
    let input = sine_mono(440.0, TEST_SR, 0.5);
    let out = rt_detect(&input, TEST_SR);
    assert_eq!(input.len(), out.len());
    assert!(mean_abs_diff(&input, &out) < 1e-6);
    assert_eq!(to_bits(&input), to_bits(&out));
}

#[test]
fn rt_clean_bounded_quality_loss() {
    let input = watermarked_mono(TEST_SR);
    let original_rms = rms(&input);
    let cleaned = rt_clean(&input, TEST_SR, CleanStrength::Standard);
    let loss = (original_rms - rms(&cleaned)).abs() / original_rms;
    assert!(
        loss < 0.15,
        "RT quality loss too high: {loss:.4} (rms {} -> {})",
        original_rms,
        rms(&cleaned)
    );
}

#[test]
fn rt_fast_and_standard_differ() {
    let input = watermarked_mono(TEST_SR);
    let fast = rt_clean(&input, TEST_SR, CleanStrength::Fast);
    let standard = rt_clean(&input, TEST_SR, CleanStrength::Standard);
    let diff = mean_abs_diff(&fast, &standard);
    assert!(
        diff > 1e-5,
        "Fast and Standard RT modes produced identical output (diff={diff})"
    );
}

#[test]
fn clean_output_is_non_silent_after_warmup() {
    let input = sine_mono(440.0, TEST_SR, 1.0);
    let cleaned = rt_clean(&input, TEST_SR, CleanStrength::Standard);
    assert!(rms(&cleaned) > 0.01, "cleaned signal is silent");
    assert!(cleaned.iter().all(|s| s.is_finite()));
}

#[test]
fn multiple_block_sizes_produce_finite_output() {
    let input = watermarked_mono(TEST_SR);
    for block in [64usize, 128, 512, 1024, 2048] {
        let mut rt = RealtimeProcessor::new(TEST_SR, 1);
        rt.reset(TEST_SR, 1, block);
        rt.set_strength(CleanStrength::Standard);
        rt.set_mode(OperationMode::Clean);
        let out = render_clean_aligned(&mut rt, &input, block);
        assert_eq!(out.len(), input.len());
        assert!(out.iter().all(|s| s.is_finite()), "block_size={block}");
        assert!(rms(&out) > 0.01, "block_size={block}");
    }
}

#[test]
fn clean_latency_matches_window_constant() {
    assert_eq!(
        RealtimeProcessor::new(TEST_SR, 1).latency_samples(),
        0,
        "bypass latency"
    );
    let mut rt = RealtimeProcessor::new(TEST_SR, 1);
    rt.set_mode(OperationMode::Clean);
    assert_eq!(
        rt.latency_samples() as usize,
        CLEAN_WINDOW_SAMPLES,
        "clean latency"
    );
}

/// The fast strength leaves a signal alone, so the cleaned stream is the input again, one window
/// later, across all the fades.
#[test]
fn fast_clean_of_a_constant_is_gapless() {
    let mut rt = RealtimeProcessor::new(48_000, 1);
    rt.reset(48_000, 1, 512);
    rt.set_strength(CleanStrength::Fast);
    rt.set_mode(OperationMode::Clean);
    let out = render_blocks(&mut rt, &vec![0.25f32; 100 * 512], 512, 0);
    assert_eq!(out.len(), 100 * 512);
    assert!(out.iter().all(|s| (s - 0.25).abs() < 1e-4));
}

#[test]
fn aligned_fast_clean_is_the_input_at_every_block_size() {
    let input = sine_mono(440.0, TEST_SR, 0.5);
    for block in [64usize, 128, 480, 512, 1000, 1024, 2048] {
        let mut rt = RealtimeProcessor::new(TEST_SR, 1);
        rt.reset(TEST_SR, 1, block);
        rt.set_strength(CleanStrength::Fast);
        rt.set_mode(OperationMode::Clean);
        let out = render_clean_aligned(&mut rt, &input, block);
        assert_eq!(out.len(), input.len());
        assert!(
            input.iter().zip(&out).all(|(x, y)| (x - y).abs() < 1e-4),
            "block_size={block}"
        );
    }
}

#[test]
fn detect_confidence_comes_from_the_worker() {
    let mut rt = RealtimeProcessor::new(TEST_SR, 1);
    rt.reset(TEST_SR, 1, BLOCK_SIZE);
    rt.set_mode(OperationMode::Detect);
    assert_eq!(rt.mode(), OperationMode::Detect);
    render_blocks(&mut rt, &watermarked_mono(TEST_SR), BLOCK_SIZE, 0);
    assert_eq!(f32::from_bits(rt.detection_confidence()), 0.0);
    flush_detect_worker(&mut rt);
    assert_eq!(f32::from_bits(rt.detection_confidence()), 0.75);
}

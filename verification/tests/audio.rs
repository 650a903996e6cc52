//! The synthesiser and its tunes.

use bombermanterm::audio::synth::{
    envelope, hz, lfsr_bit, square_wave, triangle_wave, Level, Note, Sequencer, Waveform, A, C, G,
    HERTZ, NOISE_SEED, SAMPLE_RATE, TURN,
};
use bombermanterm::audio::tunes::{
    bgm_parts, clear_notes, gameover_notes, se_notes, stage_bass, stage_drums, stage_lead,
    title_bass, title_drums, title_lead,
};
use bombermanterm::audio::{AudioCommand, AudioPlayer, AudioQueue};
use bombermanterm::types::{Bgm, SoundEffect};

const ALL_SOUND_EFFECTS: [SoundEffect; 5] = [
    SoundEffect::PlaceBomb,
    SoundEffect::Explosion,
    SoundEffect::ItemGet,
    SoundEffect::Death,
    SoundEffect::StageClear,
];

const ALL_BGM: [Bgm; 4] = [Bgm::Title, Bgm::Stage, Bgm::Clear, Bgm::GameOver];

fn hertz(freq: u64) -> f64 {
    freq as f64 / HERTZ as f64
}

fn total_secs(notes: Vec<Note>) -> f64 {
    Sequencer::new(notes).total_duration() as f64 / 1_000.0
}

fn samples(notes: Vec<Note>) -> Vec<f64> {
    let mut seq = Sequencer::new(notes);
    let mut all = Vec::new();
    while let Some(Level { amount, full }) = seq.next() {
        all.push(amount as f64 / full as f64);
    }
    all
}

fn wave(level: i64) -> f64 {
    level as f64 / TURN as f64
}

fn phase(part: f64) -> u64 {
    (part * TURN as f64) as u64
}

#[test]
fn title_lead_and_bass_loop_lengths_match() {
    let lead = total_secs(title_lead());
    let bass = total_secs(title_bass());
    assert!(
        (lead - bass).abs() < 0.01,
        "lead={lead} bass={bass} must match so the loop seam is clean"
    );
}

#[test]
fn stage_lead_and_bass_loop_lengths_match() {
    let lead = total_secs(stage_lead());
    let bass = total_secs(stage_bass());
    assert!(
        (lead - bass).abs() < 0.01,
        "lead={lead} bass={bass} must match so the loop seam is clean"
    );
}

#[test]
fn title_drums_length_matches_lead() {
    let lead = total_secs(title_lead());
    let drums = total_secs(title_drums());
    assert!(
        (lead - drums).abs() < 0.01,
        "lead={lead} drums={drums} must match so the loop seam is clean"
    );
}

#[test]
fn stage_drums_length_matches_lead() {
    let lead = total_secs(stage_lead());
    let drums = total_secs(stage_drums());
    assert!(
        (lead - drums).abs() < 0.01,
        "lead={lead} drums={drums} must match so the loop seam is clean"
    );
}

#[test]
fn every_bgm_and_se_definition_is_non_empty() {
    for se in ALL_SOUND_EFFECTS {
        assert!(!se_notes(se).is_empty());
    }
    assert!(!clear_notes().is_empty());
    assert!(!gameover_notes().is_empty());
    assert!(!title_lead().is_empty());
    assert!(!title_bass().is_empty());
    assert!(!title_drums().is_empty());
    assert!(!stage_lead().is_empty());
    assert!(!stage_bass().is_empty());
    assert!(!stage_drums().is_empty());
}

#[test]
fn the_parts_of_a_piece_start_over_together() {
    for bgm in ALL_BGM {
        let parts = bgm_parts(bgm);
        assert!(!parts.is_empty());
        let first = Sequencer::new(parts[0].clone()).total_duration();
        for part in parts {
            assert_eq!(Sequencer::new(part).total_duration(), first, "{bgm:?}");
        }
    }
    assert_eq!(Sequencer::new(title_lead()).total_duration(), 3_840);
    assert_eq!(Sequencer::new(stage_lead()).total_duration(), 3_360);
}

#[test]
fn every_sound_keeps_to_its_volume() {
    for se in ALL_SOUND_EFFECTS {
        let all = samples(se_notes(se));
        assert!(all.iter().any(|s| *s != 0.0), "{se:?} must be heard");
        assert!(all.iter().all(|s| s.abs() <= 0.9 + 1e-9));
    }
}

#[test]
fn hz_matches_known_pitches() {
    assert!((hertz(hz(A, 4)) - 440.0).abs() < 1e-3);
    assert!((hertz(hz(A, 5)) - 880.0).abs() < 1e-3);
    assert!((hertz(hz(A, 3)) - 220.0).abs() < 1e-3);
    assert!((hertz(hz(C, 4)) - 261.626).abs() < 1e-2);
}

#[test]
fn hz_is_the_equal_temperament() {
    for octave in 0..=9 {
        for name in -9..=2 {
            let semitones = (name + (octave - 4) * 12) as f64;
            let exact = 440.0 * (semitones / 12.0).exp2();
            let found = hertz(hz(name, octave));
            assert!((found - exact).abs() / exact < 1e-6, "{name} {octave}: {found} {exact}");
        }
    }
}

#[test]
fn sequencer_of_single_tone_ends_after_expected_sample_count() {
    let note = Note::tone(hz(A, 4), 10, Waveform::Square, 100);
    let expected_len = ((0.01 * SAMPLE_RATE as f32).round() as usize).max(1);

    let samples = samples(vec![note]);

    assert_eq!(samples.len(), expected_len);
    assert!(samples.iter().all(|s| s.is_finite() && s.abs() <= 1.0 + 1e-6));
}

#[test]
fn rest_note_is_silent() {
    let samples = samples(vec![Note::rest(5)]);
    assert!(!samples.is_empty());
    assert!(samples.iter().all(|s| *s == 0.0));
}

#[test]
fn empty_sequence_yields_no_samples() {
    let mut seq = Sequencer::new(vec![]);
    assert_eq!(seq.next(), None);
}

#[test]
fn multiple_notes_are_played_in_order_and_total_duration_matches() {
    let notes = vec![
        Note::tone(hz(C, 5), 10, Waveform::Square, 50),
        Note::rest(10),
        Note::tone(hz(G, 5), 10, Waveform::Triangle, 50),
    ];
    assert_eq!(Sequencer::new(notes.clone()).total_duration(), 30);

    let samples = samples(notes);
    let per_note = ((0.01 * SAMPLE_RATE as f32).round() as usize).max(1);
    assert_eq!(samples.len(), per_note * 3);
    assert!(samples[per_note..per_note * 2].iter().all(|s| *s == 0.0));
    assert!(samples[..per_note].iter().any(|s| *s != 0.0));
}

#[test]
fn a_note_of_no_length_lasts_one_sample() {
    assert_eq!(samples(vec![Note::rest(0)]).len(), 1);
}

#[test]
fn a_finished_tune_stays_finished() {
    let mut seq = Sequencer::new(vec![Note::rest(0)]);
    assert!(seq.next().is_some());
    assert_eq!(seq.next(), None);
    assert_eq!(seq.next(), None);
}

#[test]
fn noise_waveform_never_panics_and_stays_bounded() {
    let note = Note::tone(1000 * HERTZ, 20, Waveform::Noise, 80);
    let samples = samples(vec![note]);
    assert!(!samples.is_empty());
    assert!(samples.iter().all(|s| s.is_finite() && s.abs() <= 0.8 + 1e-6));
}

#[test]
fn triangle_wave_shape_is_bounded_and_continuous_at_endpoints() {
    assert!((wave(triangle_wave(phase(0.0))) - (-1.0)).abs() < 1e-6);
    assert!((wave(triangle_wave(phase(0.25))) - 0.0).abs() < 1e-6);
    assert!((wave(triangle_wave(phase(0.5))) - 1.0).abs() < 1e-6);
    assert!((wave(triangle_wave(phase(0.75))) - 0.0).abs() < 1e-6);
}

#[test]
fn square_wave_shape_is_bipolar() {
    assert_eq!(wave(square_wave(phase(0.0))), 1.0);
    assert_eq!(wave(square_wave(phase(0.49))), 1.0);
    assert_eq!(wave(square_wave(phase(0.5))), -1.0);
    assert_eq!(wave(square_wave(phase(0.99))), -1.0);
}

#[test]
fn a_tone_has_the_frequency_asked_for() {
    // 441 hertz: exactly one hundred samples to a period.
    let samples = samples(vec![Note::tone(441 * HERTZ, 1_000, Waveform::Square, 100)]);
    assert_eq!(samples.len(), 44_100);
    let rises = samples.windows(2).filter(|w| w[0] < 0.0 && w[1] > 0.0).count();
    assert!((439..=441).contains(&rises), "{rises}");
}

#[test]
fn a_tone_may_be_as_fast_as_the_samples() {
    // One period to a sample: every sample falls on the same phase.
    let freq = SAMPLE_RATE as u64 * HERTZ;
    let samples = samples(vec![Note::tone(freq, 1_000, Waveform::Square, 100)]);
    assert_eq!(samples.len(), 44_100);
    assert_eq!(samples[0], 0.0);
    assert!(samples[1..].iter().all(|sample| *sample > 0.0));
    assert_eq!(samples[22_050], 1.0);
}

#[test]
fn noise_goes_on_for_ever() {
    let mut state = NOISE_SEED;
    let mut ups = 0;
    for _ in 0..100_000 {
        if lfsr_bit(&mut state) {
            ups += 1;
        }
        assert_ne!(state, 0);
    }
    assert!((45_000..55_000).contains(&ups), "{ups}");
    let mut state = 1;
    assert!(!lfsr_bit(&mut state));
    assert_eq!(state, 0x4000);
}

#[test]
fn notes_fade_in_and_out() {
    assert_eq!(envelope(0, 4_410), (0, 264));
    assert_eq!(envelope(132, 4_410), (132, 264));
    assert_eq!(envelope(2_000, 4_410), (264, 264));
    assert_eq!(envelope(4_409, 4_410), (1, 264));
    assert_eq!(envelope(40, 80), (10, 10));
    assert_eq!(envelope(0, 1), (0, 1));
    assert_eq!(envelope(9, 4), (0, 1));
}

#[test]
fn requests_are_kept_in_order() {
    let mut queue = AudioQueue::new();
    queue.play_se(SoundEffect::Death);
    queue.stop_bgm();
    queue.play_bgm(Bgm::Clear);
    assert_eq!(
        queue.commands,
        vec![
            AudioCommand::PlaySe(SoundEffect::Death),
            AudioCommand::StopBgm,
            AudioCommand::PlayBgm(Bgm::Clear),
        ]
    );
}

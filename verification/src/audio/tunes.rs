//! The tunes and sounds of the game.

use vstd::prelude::*;

use crate::audio::synth;
use crate::audio::synth::{hz, Note, Waveform, A, B, C, D, E, F, G};
use crate::types::{Bgm, SoundEffect};

verus! {

/// A note as it is written down: its name, its octave, its length in milliseconds
/// and its volume in hundredths.
pub struct Written {
    pub name: i32,
    pub octave: i32,
    pub millis: u32,
    pub volume: u8,
}

/// The note that is written down.
pub open spec fn sung(waveform: Waveform, written: Written) -> Note {
    Note {
        freq: Some(synth::frequency(written.name, written.octave) as u64),
        millis: written.millis,
        waveform,
        volume: written.volume,
    }
}

/// The notes of a melody in even steps.
pub open spec fn melody_of(
    steps: Seq<(i32, i32)>,
    millis: u32,
    waveform: Waveform,
    volume: u8,
) -> Seq<Note> {
    steps.map_values(
        |step: (i32, i32)|
            sung(waveform, Written { name: step.0, octave: step.1, millis, volume }),
    )
}

/// Whether the name and octave are within what the tunes use.
pub open spec fn singable(name: i32, octave: i32) -> bool {
    -9 <= name <= 2 && 2 <= octave <= 6
}

/// Frequencies within what the tunes use are within what can be played.
proof fn lemma_singable(name: i32, octave: i32)
    requires
        singable(name, octave),
    ensures
        0 < synth::pitch(name + (octave - 4) * 12) < 4_000_000_000,
{
    let semitones = name + (octave - 4) * 12;
    reveal_with_fuel(synth::pitch, 6);
}

/// A note of a tune.
fn sing(name: i32, octave: i32, millis: u32, waveform: Waveform, volume: u8) -> (note: Note)
    requires
        singable(name, octave),
        millis <= 90_000_000,
        volume <= 100,
    ensures
        note == sung(waveform, Written { name, octave, millis, volume }),
        note.playable(),
{
    proof {
        lemma_singable(name, octave);
    }
    Note::tone(hz(name, octave), millis, waveform, volume)
}

/// Whether all of the notes can be played.
pub open spec fn all_playable(notes: Seq<Note>) -> bool {
    forall|i: int| 0 <= i < notes.len() ==> (#[trigger] notes[i]).playable()
}

/// The notes of a melody in even steps.
fn melody(steps: &[(i32, i32)], millis: u32, waveform: Waveform, volume: u8) -> (notes: Vec<Note>)
    requires
        forall|i: int|
            0 <= i < steps@.len() ==> singable((#[trigger] steps@[i]).0, steps@[i].1),
        millis <= 90_000_000,
        volume <= 100,
    ensures
        notes@ == melody_of(steps@, millis, waveform, volume),
        all_playable(notes@),
{
    let mut notes: Vec<Note> = Vec::with_capacity(steps.len());
    for i in 0..steps.len()
        invariant
            forall|i: int|
                0 <= i < steps@.len() ==> singable((#[trigger] steps@[i]).0, steps@[i].1),
            millis <= 90_000_000,
            volume <= 100,
            notes@.len() == i,
            forall|j: int|
                0 <= j < i ==> #[trigger] notes@[j] == melody_of(
                    steps@,
                    millis,
                    waveform,
                    volume,
                )[j],
            all_playable(notes@),
    {
        assert(singable(steps@[i as int].0, steps@[i as int].1));
        notes.push(sing(steps[i].0, steps[i].1, millis, waveform, volume));
    }
    assert(notes@ =~= melody_of(steps@, millis, waveform, volume));
    notes
}

/// One part of a tune after the other.
fn joined(first: Vec<Note>, second: Vec<Note>) -> (notes: Vec<Note>)
    ensures
        notes@ == first@ + second@,
        all_playable(first@) && all_playable(second@) ==> all_playable(notes@),
{
    let mut notes = first;
    let mut second = second;
    notes.append(&mut second);
    notes
}

/// The steps of the verse of the title tune.
pub open spec fn title_verse_lead_steps() -> Seq<(i32, i32)> {
    seq![
        (C, 5),
        (E, 5),
        (G, 5),
        (C, 6),
        (A, 5),
        (G, 5),
        (E, 5),
        (C, 5),
        (D, 5),
        (F, 5),
        (A, 5),
        (D, 6),
        (C, 5),
        (B, 4),
        (G, 4),
        (C, 5),
    ]
}

/// Plays the verse of the title tune.
fn title_verse_lead() -> (notes: Vec<Note>)
    ensures
        notes@ == melody_of(title_verse_lead_steps(), 160, Waveform::Square, 32),
        all_playable(notes@),
{
    let steps = [
        (C, 5),
        (E, 5),
        (G, 5),
        (C, 6),
        (A, 5),
        (G, 5),
        (E, 5),
        (C, 5),
        (D, 5),
        (F, 5),
        (A, 5),
        (D, 6),
        (C, 5),
        (B, 4),
        (G, 4),
        (C, 5),
    ];
    assert(steps@ =~= title_verse_lead_steps());
    melody(&steps, 160, Waveform::Square, 32)
}

/// The steps of the bass under the verse of the title tune.
pub open spec fn title_verse_bass_steps() -> Seq<(i32, i32)> {
    seq![
        (C, 3),
        (G, 3),
        (A, 3),
        (F, 3),
    ]
}

/// Plays the bass under the verse of the title tune.
fn title_verse_bass() -> (notes: Vec<Note>)
    ensures
        notes@ == melody_of(title_verse_bass_steps(), 640, Waveform::Triangle, 28),
        all_playable(notes@),
{
    let steps = [
        (C, 3),
        (G, 3),
        (A, 3),
        (F, 3),
    ];
    assert(steps@ =~= title_verse_bass_steps());
    melody(&steps, 640, Waveform::Triangle, 28)
}

/// The steps of the chorus of the title tune, higher and louder than the verse.
pub open spec fn title_chorus_lead_steps() -> Seq<(i32, i32)> {
    seq![
        (E, 5),
        (G, 5),
        (C, 6),
        (E, 6),
        (D, 6),
        (C, 6),
        (G, 5),
        (C, 6),
    ]
}

/// Plays the chorus of the title tune, higher and louder than the verse.
fn title_chorus_lead() -> (notes: Vec<Note>)
    ensures
        notes@ == melody_of(title_chorus_lead_steps(), 160, Waveform::Square, 40),
        all_playable(notes@),
{
    let steps = [
        (E, 5),
        (G, 5),
        (C, 6),
        (E, 6),
        (D, 6),
        (C, 6),
        (G, 5),
        (C, 6),
    ];
    assert(steps@ =~= title_chorus_lead_steps());
    melody(&steps, 160, Waveform::Square, 40)
}

/// The steps of the bass under the chorus of the title tune.
pub open spec fn title_chorus_bass_steps() -> Seq<(i32, i32)> {
    seq![
        (F, 3),
        (G, 3),
    ]
}

/// Plays the bass under the chorus of the title tune.
fn title_chorus_bass() -> (notes: Vec<Note>)
    ensures
        notes@ == melody_of(title_chorus_bass_steps(), 640, Waveform::Triangle, 32),
        all_playable(notes@),
{
    let steps = [
        (F, 3),
        (G, 3),
    ];
    assert(steps@ =~= title_chorus_bass_steps());
    melody(&steps, 640, Waveform::Triangle, 32)
}

/// The steps of the verse of the stage tune.
pub open spec fn stage_verse_lead_steps() -> Seq<(i32, i32)> {
    seq![
        (A, 4),
        (A, 4),
        (C, 5),
        (A, 4),
        (E, 5),
        (A, 4),
        (C, 5),
        (A, 4),
        (D, 5),
        (D, 5),
        (F, 5),
        (D, 5),
        (C, 5),
        (A, 4),
        (G, 4),
        (E, 4),
    ]
}

/// Plays the verse of the stage tune.
fn stage_verse_lead() -> (notes: Vec<Note>)
    ensures
        notes@ == melody_of(stage_verse_lead_steps(), 140, Waveform::Square, 30),
        all_playable(notes@),
{
    let steps = [
        (A, 4),
        (A, 4),
        (C, 5),
        (A, 4),
        (E, 5),
        (A, 4),
        (C, 5),
        (A, 4),
        (D, 5),
        (D, 5),
        (F, 5),
        (D, 5),
        (C, 5),
        (A, 4),
        (G, 4),
        (E, 4),
    ];
    assert(steps@ =~= stage_verse_lead_steps());
    melody(&steps, 140, Waveform::Square, 30)
}

/// The steps of the bass under the verse of the stage tune.
pub open spec fn stage_verse_bass_steps() -> Seq<(i32, i32)> {
    seq![
        (A, 3),
        (A, 3),
        (D, 3),
        (C, 3),
    ]
}

/// Plays the bass under the verse of the stage tune.
fn stage_verse_bass() -> (notes: Vec<Note>)
    ensures
        notes@ == melody_of(stage_verse_bass_steps(), 560, Waveform::Triangle, 32),
        all_playable(notes@),
{
    let steps = [
        (A, 3),
        (A, 3),
        (D, 3),
        (C, 3),
    ];
    assert(steps@ =~= stage_verse_bass_steps());
    melody(&steps, 560, Waveform::Triangle, 32)
}

/// The steps of the chorus of the stage tune.
pub open spec fn stage_chorus_lead_steps() -> Seq<(i32, i32)> {
    seq![
        (D, 5),
        (D, 5),
        (F, 5),
        (A, 5),
        (D, 6),
        (D, 6),
        (A, 5),
        (F, 5),
    ]
}

/// Plays the chorus of the stage tune.
fn stage_chorus_lead() -> (notes: Vec<Note>)
    ensures
        notes@ == melody_of(stage_chorus_lead_steps(), 140, Waveform::Square, 38),
        all_playable(notes@),
{
    let steps = [
        (D, 5),
        (D, 5),
        (F, 5),
        (A, 5),
        (D, 6),
        (D, 6),
        (A, 5),
        (F, 5),
    ];
    assert(steps@ =~= stage_chorus_lead_steps());
    melody(&steps, 140, Waveform::Square, 38)
}

/// The steps of the bass under the chorus of the stage tune.
pub open spec fn stage_chorus_bass_steps() -> Seq<(i32, i32)> {
    seq![
        (D, 3),
        (F, 3),
        (G, 3),
        (A, 3),
    ]
}

/// Plays the bass under the chorus of the stage tune.
fn stage_chorus_bass() -> (notes: Vec<Note>)
    ensures
        notes@ == melody_of(stage_chorus_bass_steps(), 280, Waveform::Triangle, 34),
        all_playable(notes@),
{
    let steps = [
        (D, 3),
        (F, 3),
        (G, 3),
        (A, 3),
    ];
    assert(steps@ =~= stage_chorus_bass_steps());
    melody(&steps, 280, Waveform::Triangle, 34)
}

/// The title tune: a light loop of verse and chorus.
pub open spec fn title_lead_notes() -> Seq<Note> {
    melody_of(title_verse_lead_steps(), 160, Waveform::Square, 32) + melody_of(
        title_chorus_lead_steps(),
        160,
        Waveform::Square,
        40,
    )
}

/// The bass of the title tune.
pub open spec fn title_bass_notes() -> Seq<Note> {
    melody_of(title_verse_bass_steps(), 640, Waveform::Triangle, 28) + melody_of(
        title_chorus_bass_steps(),
        640,
        Waveform::Triangle,
        32,
    )
}

/// The stage tune: a breathless loop of verse and chorus.
pub open spec fn stage_lead_notes() -> Seq<Note> {
    melody_of(stage_verse_lead_steps(), 140, Waveform::Square, 30) + melody_of(
        stage_chorus_lead_steps(),
        140,
        Waveform::Square,
        38,
    )
}

/// The bass of the stage tune.
pub open spec fn stage_bass_notes() -> Seq<Note> {
    melody_of(stage_verse_bass_steps(), 560, Waveform::Triangle, 32) + melody_of(
        stage_chorus_bass_steps(),
        280,
        Waveform::Triangle,
        34,
    )
}

/// The title tune.
pub fn title_lead() -> (notes: Vec<Note>)
    ensures
        notes@ == title_lead_notes(),
        all_playable(notes@),
{
    joined(title_verse_lead(), title_chorus_lead())
}

/// The bass of the title tune.
pub fn title_bass() -> (notes: Vec<Note>)
    ensures
        notes@ == title_bass_notes(),
        all_playable(notes@),
{
    joined(title_verse_bass(), title_chorus_bass())
}

/// The stage tune.
pub fn stage_lead() -> (notes: Vec<Note>)
    ensures
        notes@ == stage_lead_notes(),
        all_playable(notes@),
{
    joined(stage_verse_lead(), stage_chorus_lead())
}

/// The bass of the stage tune.
pub fn stage_bass() -> (notes: Vec<Note>)
    ensures
        notes@ == stage_bass_notes(),
        all_playable(notes@),
{
    joined(stage_verse_bass(), stage_chorus_bass())
}

/// A beat of a noise: its frequency in hertz, its length and its volume.
pub open spec fn beat(hertz: int, millis: u32, volume: u8) -> Note {
    Note {
        freq: Some((hertz * synth::HERTZ) as u64),
        millis,
        waveform: Waveform::Noise,
        volume,
    }
}

/// A hi-hat in even steps, louder on every other one.
pub open spec fn hi_hats(count: nat, millis: u32, strong: u8, weak: u8) -> Seq<Note> {
    Seq::new(
        count,
        |i: int|
            beat(
                5_200,
                millis,
                if i % 2 == 0 {
                    strong
                } else {
                    weak
                },
            ),
    )
}

/// A hi-hat with a snare on the third of every four steps; off the beat the hi-hat
/// is half as loud.
pub open spec fn snared_hats(count: nat, millis: u32, hat: u8, snare: u8) -> Seq<Note> {
    Seq::new(
        count,
        |i: int|
            if i % 4 == 2 {
                beat(1_400, millis, snare)
            } else {
                beat(
                    5_200,
                    millis,
                    if i % 2 == 0 {
                        hat
                    } else {
                        hat / 2
                    },
                )
            },
    )
}

/// A beat of a noise.
fn drum(hertz: u64, millis: u32, volume: u8) -> (note: Note)
    requires
        hertz <= 44_100,
        millis <= 90_000_000,
        volume <= 100,
    ensures
        note == beat(hertz as int, millis, volume),
        note.playable(),
{
    Note::tone(hertz * 1_000_000, millis, Waveform::Noise, volume)
}

/// A hi-hat in even steps, louder on every other one.
fn hi_hat_pattern(count: usize, millis: u32, strong: u8, weak: u8) -> (notes: Vec<Note>)
    requires
        millis <= 90_000_000,
        strong <= 100,
        weak <= 100,
    ensures
        notes@ == hi_hats(count as nat, millis, strong, weak),
        all_playable(notes@),
{
    let mut notes: Vec<Note> = Vec::with_capacity(count);
    for i in 0..count
        invariant
            millis <= 90_000_000,
            strong <= 100,
            weak <= 100,
            notes@ == hi_hats(i as nat, millis, strong, weak),
            all_playable(notes@),
    {
        let volume = if i % 2 == 0 {
            strong
        } else {
            weak
        };
        notes.push(drum(5_200, millis, volume));
        assert(notes@ =~= hi_hats((i + 1) as nat, millis, strong, weak));
    }
    notes
}

/// A hi-hat with a snare on the third of every four steps.
fn snare_accented_hat_pattern(count: usize, millis: u32, hat: u8, snare: u8) -> (notes: Vec<Note>)
    requires
        millis <= 90_000_000,
        hat <= 100,
        snare <= 100,
    ensures
        notes@ == snared_hats(count as nat, millis, hat, snare),
        all_playable(notes@),
{
    let mut notes: Vec<Note> = Vec::with_capacity(count);
    for i in 0..count
        invariant
            millis <= 90_000_000,
            hat <= 100,
            snare <= 100,
            notes@ == snared_hats(i as nat, millis, hat, snare),
            all_playable(notes@),
    {
        if i % 4 == 2 {
            notes.push(drum(1_400, millis, snare));
        } else {
            let volume = if i % 2 == 0 {
                hat
            } else {
                hat / 2
            };
            notes.push(drum(5_200, millis, volume));
        }
        assert(notes@ =~= snared_hats((i + 1) as nat, millis, hat, snare));
    }
    notes
}

/// The drums of the title tune.
pub fn title_drums() -> (notes: Vec<Note>)
    ensures
        notes@ == hi_hats(32, 80, 10, 5) + hi_hats(16, 80, 10, 5),
        all_playable(notes@),
{
    joined(hi_hat_pattern(32, 80, 10, 5), hi_hat_pattern(16, 80, 10, 5))
}

/// The drums of the stage tune.
pub fn stage_drums() -> (notes: Vec<Note>)
    ensures
        notes@ == snared_hats(32, 70, 18, 9) + snared_hats(16, 70, 20, 10),
        all_playable(notes@),
{
    joined(
        snare_accented_hat_pattern(32, 70, 18, 9),
        snare_accented_hat_pattern(16, 70, 20, 10),
    )
}

/// A short fanfare for a cleared stage.
pub open spec fn clear_tune() -> Seq<Note> {
    seq![
        sung(
            Waveform::Square,
            Written { name: C, octave: 5, millis: 120, volume: 42 },
        ),
        sung(
            Waveform::Square,
            Written { name: E, octave: 5, millis: 120, volume: 42 },
        ),
        sung(
            Waveform::Square,
            Written { name: G, octave: 5, millis: 120, volume: 42 },
        ),
        sung(
            Waveform::Square,
            Written { name: C, octave: 6, millis: 240, volume: 42 },
        ),
        sung(
            Waveform::Square,
            Written { name: G, octave: 5, millis: 120, volume: 42 },
        ),
        sung(
            Waveform::Square,
            Written { name: C, octave: 6, millis: 360, volume: 42 },
        ),
        Note { freq: None, millis: 400, waveform: Waveform::Square, volume: 0 },
    ]
}

/// A short fanfare for a cleared stage.
pub fn clear_notes() -> (notes: Vec<Note>)
    ensures
        notes@ == clear_tune(),
        all_playable(notes@),
{
    let mut notes: Vec<Note> = Vec::new();
    notes.push(sing(C, 5, 120, Waveform::Square, 42));
    notes.push(sing(E, 5, 120, Waveform::Square, 42));
    notes.push(sing(G, 5, 120, Waveform::Square, 42));
    notes.push(sing(C, 6, 240, Waveform::Square, 42));
    notes.push(sing(G, 5, 120, Waveform::Square, 42));
    notes.push(sing(C, 6, 360, Waveform::Square, 42));
    notes.push(Note::rest(400));
    assert(notes@ =~= clear_tune());
    notes
}

/// A sad falling phrase for a lost game.
pub open spec fn gameover_tune() -> Seq<Note> {
    seq![
        sung(
            Waveform::Triangle,
            Written { name: A, octave: 4, millis: 300, volume: 30 },
        ),
        sung(
            Waveform::Triangle,
            Written { name: G, octave: 4, millis: 300, volume: 30 },
        ),
        sung(
            Waveform::Triangle,
            Written { name: F, octave: 4, millis: 300, volume: 30 },
        ),
        sung(
            Waveform::Triangle,
            Written { name: E, octave: 4, millis: 450, volume: 30 },
        ),
        sung(
            Waveform::Triangle,
            Written { name: D, octave: 4, millis: 300, volume: 30 },
        ),
        sung(
            Waveform::Triangle,
            Written { name: C, octave: 4, millis: 600, volume: 30 },
        ),
        Note { freq: None, millis: 600, waveform: Waveform::Square, volume: 0 },
    ]
}

/// A sad falling phrase for a lost game.
pub fn gameover_notes() -> (notes: Vec<Note>)
    ensures
        notes@ == gameover_tune(),
        all_playable(notes@),
{
    let mut notes: Vec<Note> = Vec::new();
    notes.push(sing(A, 4, 300, Waveform::Triangle, 30));
    notes.push(sing(G, 4, 300, Waveform::Triangle, 30));
    notes.push(sing(F, 4, 300, Waveform::Triangle, 30));
    notes.push(sing(E, 4, 450, Waveform::Triangle, 30));
    notes.push(sing(D, 4, 300, Waveform::Triangle, 30));
    notes.push(sing(C, 4, 600, Waveform::Triangle, 30));
    notes.push(Note::rest(600));
    assert(notes@ =~= gameover_tune());
    notes
}

/// The notes of a sound.
pub open spec fn sound_of(se: SoundEffect) -> Seq<Note> {
    match se {
        SoundEffect::PlaceBomb => seq![
            sung(
                Waveform::Square,
                Written { name: G, octave: 3, millis: 40, volume: 55 },
            ),
            sung(
                Waveform::Square,
                Written { name: D, octave: 3, millis: 50, volume: 50 },
            ),
            sung(
                Waveform::Square,
                Written { name: G, octave: 2, millis: 70, volume: 45 },
            ),
        ],
        SoundEffect::Explosion => seq![
            beat(2_600, 50, 90),
            beat(1_600, 70, 75),
            beat(900, 90, 55),
            beat(450, 140, 35),
            beat(140, 200, 30),
        ],
        SoundEffect::ItemGet => seq![
            sung(
                Waveform::Square,
                Written { name: C, octave: 5, millis: 40, volume: 42 },
            ),
            sung(
                Waveform::Square,
                Written { name: E, octave: 5, millis: 40, volume: 42 },
            ),
            sung(
                Waveform::Square,
                Written { name: G, octave: 5, millis: 40, volume: 42 },
            ),
            sung(
                Waveform::Square,
                Written { name: C, octave: 6, millis: 70, volume: 45 },
            ),
        ],
        SoundEffect::Death => seq![
            sung(
                Waveform::Square,
                Written { name: A, octave: 4, millis: 80, volume: 50 },
            ),
            sung(
                Waveform::Square,
                Written { name: F, octave: 4, millis: 80, volume: 48 },
            ),
            sung(
                Waveform::Square,
                Written { name: D, octave: 4, millis: 100, volume: 46 },
            ),
            sung(
                Waveform::Square,
                Written { name: A, octave: 3, millis: 160, volume: 42 },
            ),
            beat(220, 90, 28),
        ],
        SoundEffect::StageClear => seq![
            sung(
                Waveform::Square,
                Written { name: C, octave: 5, millis: 60, volume: 40 },
            ),
            sung(
                Waveform::Square,
                Written { name: E, octave: 5, millis: 60, volume: 40 },
            ),
            sung(
                Waveform::Square,
                Written { name: G, octave: 5, millis: 60, volume: 40 },
            ),
            sung(
                Waveform::Square,
                Written { name: C, octave: 6, millis: 60, volume: 42 },
            ),
            sung(
                Waveform::Square,
                Written { name: E, octave: 6, millis: 60, volume: 42 },
            ),
            sung(
                Waveform::Square,
                Written { name: G, octave: 6, millis: 160, volume: 45 },
            ),
        ],
    }
}

/// The notes of a sound.
pub fn se_notes(se: SoundEffect) -> (notes: Vec<Note>)
    ensures
        notes@ == sound_of(se),
        all_playable(notes@),
{
    let mut notes: Vec<Note> = Vec::new();
    match se {
        SoundEffect::PlaceBomb => {
            notes.push(sing(G, 3, 40, Waveform::Square, 55));
            notes.push(sing(D, 3, 50, Waveform::Square, 50));
            notes.push(sing(G, 2, 70, Waveform::Square, 45));
        },
        SoundEffect::Explosion => {
            notes.push(drum(2_600, 50, 90));
            notes.push(drum(1_600, 70, 75));
            notes.push(drum(900, 90, 55));
            notes.push(drum(450, 140, 35));
            notes.push(drum(140, 200, 30));
        },
        SoundEffect::ItemGet => {
            notes.push(sing(C, 5, 40, Waveform::Square, 42));
            notes.push(sing(E, 5, 40, Waveform::Square, 42));
            notes.push(sing(G, 5, 40, Waveform::Square, 42));
            notes.push(sing(C, 6, 70, Waveform::Square, 45));
        },
        SoundEffect::Death => {
            notes.push(sing(A, 4, 80, Waveform::Square, 50));
            notes.push(sing(F, 4, 80, Waveform::Square, 48));
            notes.push(sing(D, 4, 100, Waveform::Square, 46));
            notes.push(sing(A, 3, 160, Waveform::Square, 42));
            notes.push(drum(220, 90, 28));
        },
        SoundEffect::StageClear => {
            notes.push(sing(C, 5, 60, Waveform::Square, 40));
            notes.push(sing(E, 5, 60, Waveform::Square, 40));
            notes.push(sing(G, 5, 60, Waveform::Square, 40));
            notes.push(sing(C, 6, 60, Waveform::Square, 42));
            notes.push(sing(E, 6, 60, Waveform::Square, 42));
            notes.push(sing(G, 6, 160, Waveform::Square, 45));
        },
    }
    assert(notes@ =~= sound_of(se));
    notes
}

/// The parts of a piece of background music, to be played together and repeated.
pub open spec fn parts_of(bgm: Bgm) -> Seq<Seq<Note>> {
    match bgm {
        Bgm::Title => seq![
            title_lead_notes(),
            title_bass_notes(),
            hi_hats(32, 80, 10, 5) + hi_hats(16, 80, 10, 5),
        ],
        Bgm::Stage => seq![
            stage_lead_notes(),
            stage_bass_notes(),
            snared_hats(32, 70, 18, 9) + snared_hats(16, 70, 20, 10),
        ],
        Bgm::Clear => seq![clear_tune()],
        Bgm::GameOver => seq![gameover_tune()],
    }
}

/// The parts of a piece of background music, to be played together and repeated.
pub fn bgm_parts(bgm: Bgm) -> (parts: Vec<Vec<Note>>)
    ensures
        parts@.map_values(|part: Vec<Note>| part@) == parts_of(bgm),
        forall|i: int| 0 <= i < parts@.len() ==> all_playable((#[trigger] parts@[i])@),
{
    let mut parts: Vec<Vec<Note>> = Vec::new();
    match bgm {
        Bgm::Title => {
            parts.push(title_lead());
            parts.push(title_bass());
            parts.push(title_drums());
        },
        Bgm::Stage => {
            parts.push(stage_lead());
            parts.push(stage_bass());
            parts.push(stage_drums());
        },
        Bgm::Clear => {
            parts.push(clear_notes());
        },
        Bgm::GameOver => {
            parts.push(gameover_notes());
        },
    }
    assert(parts@.map_values(|part: Vec<Note>| part@) =~= parts_of(bgm));
    parts
}

/// Notes of the same length last as long as they are many.
proof fn lemma_even_millis(notes: Seq<Note>, millis: u32)
    requires
        forall|i: int| 0 <= i < notes.len() ==> (#[trigger] notes[i]).millis == millis,
    ensures
        synth::total_millis(notes) == notes.len() * millis,
    decreases notes.len(),
{
    if notes.len() > 0 {
        let n = notes.len() as int;
        assert(notes.last().millis == millis);
        lemma_even_millis(notes.drop_last(), millis);
        assert((n - 1) * millis + millis == n * millis) by (nonlinear_arith);
    }
}

/// Two parts last as long as both together.
proof fn lemma_joined_millis(first: Seq<Note>, second: Seq<Note>)
    ensures
        synth::total_millis(first + second) == synth::total_millis(first) + synth::total_millis(
            second,
        ),
    decreases second.len(),
{
    if second.len() == 0 {
        assert(first + second =~= first);
    } else {
        lemma_joined_millis(first, second.drop_last());
        assert((first + second).drop_last() =~= first + second.drop_last());
        assert((first + second).last() == second.last());
    }
}

/// The parts of each piece of background music last equally long, so that they
/// start over together: the title tune three seconds and 840 milliseconds, the
/// stage tune three seconds and 360.
pub proof fn lemma_parts_start_over_together(bgm: Bgm, i: int, j: int)
    requires
        0 <= i < parts_of(bgm).len(),
        0 <= j < parts_of(bgm).len(),
    ensures
        synth::total_millis(parts_of(bgm)[i]) == synth::total_millis(parts_of(bgm)[j]),
        bgm is Title ==> synth::total_millis(parts_of(bgm)[i]) == 3_840,
        bgm is Stage ==> synth::total_millis(parts_of(bgm)[i]) == 3_360,
{
    let tv = melody_of(title_verse_lead_steps(), 160, Waveform::Square, 32);
    let tc = melody_of(title_chorus_lead_steps(), 160, Waveform::Square, 40);
    lemma_even_millis(tv, 160);
    lemma_even_millis(tc, 160);
    lemma_joined_millis(tv, tc);
    let tvb = melody_of(title_verse_bass_steps(), 640, Waveform::Triangle, 28);
    let tcb = melody_of(title_chorus_bass_steps(), 640, Waveform::Triangle, 32);
    lemma_even_millis(tvb, 640);
    lemma_even_millis(tcb, 640);
    lemma_joined_millis(tvb, tcb);
    lemma_even_millis(hi_hats(32, 80, 10, 5), 80);
    lemma_even_millis(hi_hats(16, 80, 10, 5), 80);
    lemma_joined_millis(hi_hats(32, 80, 10, 5), hi_hats(16, 80, 10, 5));
    let sv = melody_of(stage_verse_lead_steps(), 140, Waveform::Square, 30);
    let sc = melody_of(stage_chorus_lead_steps(), 140, Waveform::Square, 38);
    lemma_even_millis(sv, 140);
    lemma_even_millis(sc, 140);
    lemma_joined_millis(sv, sc);
    let svb = melody_of(stage_verse_bass_steps(), 560, Waveform::Triangle, 32);
    let scb = melody_of(stage_chorus_bass_steps(), 280, Waveform::Triangle, 34);
    lemma_even_millis(svb, 560);
    lemma_even_millis(scb, 280);
    lemma_joined_millis(svb, scb);
    lemma_even_millis(snared_hats(32, 70, 18, 9), 70);
    lemma_even_millis(snared_hats(16, 70, 20, 10), 70);
    lemma_joined_millis(snared_hats(32, 70, 18, 9), snared_hats(16, 70, 20, 10));
}

/// No sound and no part of any piece is empty.
pub proof fn lemma_nothing_is_empty(se: SoundEffect, bgm: Bgm, i: int)
    requires
        0 <= i < parts_of(bgm).len(),
    ensures
        sound_of(se).len() > 0,
        parts_of(bgm)[i].len() > 0,
{
}

/// The title and the stage tune have three voices: a lead of square waves, a bass of
/// triangle waves and drums of noise, none of which pauses. The lead comes first,
/// and gets louder towards the end.
pub proof fn lemma_voices(bgm: Bgm, i: int)
    requires
        bgm is Title || bgm is Stage,
    ensures
        ({
            let parts = parts_of(bgm);
            &&& parts.len() == 3
            &&& 0 <= i < parts[0].len() ==> parts[0][i].freq is Some && parts[0][i].waveform
                is Square
            &&& 0 <= i < parts[1].len() ==> parts[1][i].freq is Some && parts[1][i].waveform
                is Triangle
            &&& 0 <= i < parts[2].len() ==> parts[2][i].freq is Some && parts[2][i].waveform is Noise
            &&& parts[0][0].volume < parts[0].last().volume
            &&& parts[1][0].volume < parts[1].last().volume
        }),
{
}

/// A melody has one note for each step, in that order, all of the same length,
/// volume and shape.
pub proof fn lemma_melodies(
    steps: Seq<(i32, i32)>,
    millis: u32,
    waveform: Waveform,
    volume: u8,
    i: int,
)
    requires
        0 <= i < steps.len(),
        0 <= synth::frequency(steps[i].0, steps[i].1) <= u64::MAX,
    ensures
        ({
            let notes = melody_of(steps, millis, waveform, volume);
            &&& notes.len() == steps.len()
            &&& notes[i].millis == millis
            &&& notes[i].waveform == waveform
            &&& notes[i].volume == volume
            &&& notes[i].freq matches Some(freq) && freq == synth::frequency(
                steps[i].0,
                steps[i].1,
            )
        }),
{
}

/// The drums keep time: on the title every other beat is the louder one; on the
/// stage every fourth, from the third on, is a snare, and every other of the rest is
/// the louder one.
pub proof fn lemma_drums_keep_time(i: int)
    ensures
        ({
            let drums = parts_of(Bgm::Title)[2];
            0 <= i < drums.len() - 1 ==> (drums[i].volume > drums[i + 1].volume <==> i % 2 == 0)
                && drums[i].freq == Some(5_200_000_000u64) && drums[i].millis == 80
        }),
        ({
            let drums = parts_of(Bgm::Stage)[2];
            &&& 0 <= i < drums.len() ==> (drums[i].freq == Some(1_400_000_000u64) <==> i % 4 == 2)
            &&& 0 <= i < drums.len() && i % 4 != 2 ==> drums[i].freq == Some(5_200_000_000u64)
            &&& 0 <= i < drums.len() - 1 && i % 4 == 0 ==> drums[i].volume == 2
                * drums[i + 1].volume
            &&& 0 <= i < drums.len() ==> drums[i].millis == 70
        }),
{
}

/// Sounds tell what has happened: placing a bomb, dying and losing the game go
/// down; taking an item and clearing the stage go up; an explosion dies away.
pub proof fn lemma_shapes_of_sounds(i: int)
    requires
        0 <= i,
    ensures
        ({
            let notes = sound_of(SoundEffect::PlaceBomb);
            i + 1 < notes.len() ==> notes[i].freq->Some_0 > notes[i + 1].freq->Some_0
                && notes[i].volume > notes[i + 1].volume
        }),
        ({
            let notes = sound_of(SoundEffect::Explosion);
            i + 1 < notes.len() ==> notes[i].freq->Some_0 > notes[i + 1].freq->Some_0
                && notes[i].volume > notes[i + 1].volume && notes[i].millis < notes[i + 1].millis
                && notes[i].waveform is Noise
        }),
        ({
            let notes = sound_of(SoundEffect::ItemGet);
            i + 1 < notes.len() ==> notes[i].freq->Some_0 < notes[i + 1].freq->Some_0
                && notes[i].millis <= notes[i + 1].millis
        }),
        ({
            let notes = sound_of(SoundEffect::Death);
            i + 1 < notes.len() ==> notes[i].freq->Some_0 > notes[i + 1].freq->Some_0 || i == 3
        }),
        ({
            let notes = sound_of(SoundEffect::StageClear);
            i + 1 < notes.len() ==> notes[i].freq->Some_0 < notes[i + 1].freq->Some_0
                && notes[i].millis <= notes[i + 1].millis
        }),
        ({
            let notes = parts_of(Bgm::GameOver)[0];
            i + 2 < notes.len() ==> notes[i].freq->Some_0 > notes[i + 1].freq->Some_0
        }),
{
    reveal_with_fuel(synth::pitch, 5);
}

/// How long sounds and short tunes last, in milliseconds. The tunes end with a rest.
pub proof fn lemma_lengths_of_sounds(se: SoundEffect)
    ensures
        synth::total_millis(sound_of(se)) == match se {
            SoundEffect::PlaceBomb => 160int,
            SoundEffect::Explosion => 550,
            SoundEffect::ItemGet => 190,
            SoundEffect::Death => 510,
            SoundEffect::StageClear => 460,
        },
        synth::total_millis(parts_of(Bgm::Clear)[0]) == 1_480,
        synth::total_millis(parts_of(Bgm::GameOver)[0]) == 2_850,
        parts_of(Bgm::Clear)[0].last().freq is None,
        parts_of(Bgm::GameOver)[0].last().freq is None,
        parts_of(Bgm::Clear).len() == 1 && parts_of(Bgm::GameOver).len() == 1,
{
    lemma_added_up(sound_of(se));
    lemma_added_up(clear_tune());
    lemma_added_up(gameover_tune());
}

/// The length of up to seven notes, one by one.
proof fn lemma_added_up(notes: Seq<Note>)
    requires
        3 <= notes.len() <= 7,
    ensures
        synth::total_millis(notes) == notes[0].millis + notes[1].millis + notes[2].millis + (
        if notes.len() > 3 {
            notes[3].millis as int
        } else {
            0
        }) + (if notes.len() > 4 {
            notes[4].millis as int
        } else {
            0
        }) + (if notes.len() > 5 {
            notes[5].millis as int
        } else {
            0
        }) + (if notes.len() > 6 {
            notes[6].millis as int
        } else {
            0
        }),
    decreases notes.len(),
{
    let shorter = notes.drop_last();
    if notes.len() > 3 {
        lemma_added_up(shorter);
    } else {
        assert(shorter.drop_last().drop_last().len() == 0);
        reveal_with_fuel(synth::total_millis, 5);
    }
}

} // verus!

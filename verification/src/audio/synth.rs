//! A small synthesiser: square waves, triangle waves and noise.
//!
//! A tune is a list of notes. A `Sequencer` plays it once, sample by sample. All
//! of it is done in whole numbers: frequencies in millionths of a hertz, lengths
//! in milliseconds, volumes in hundredths, and the phase of a wave in parts of
//! `TURN`.

use vstd::prelude::*;

verus! {

/// The samples in a second.
pub const SAMPLE_RATE: u32 = 44_100;

/// One hertz, in millionths.
pub const HERTZ: u64 = 1_000_000;

/// The parts into which one period of a wave is divided.
pub const TURN: u64 = 4_294_967_296;

/// The samples over which a note fades in and out, unless it is too short for
/// that: six milliseconds.
pub const FADE_SAMPLES: u32 = 264;

/// How the noise starts out. Zero would be silence for ever.
pub const NOISE_SEED: u16 = 0xACE1;

/// The shape of a wave.
#[derive(Debug, Clone, Copy, PartialEq, Eq, Structural)]
pub enum Waveform {
    Square,
    Triangle,
    /// For bangs. The frequency says how fast the noise changes.
    Noise,
}

/// A note or a rest.
#[derive(Debug, Clone, Copy, PartialEq, Eq, Structural)]
pub struct Note {
    /// The frequency in millionths of a hertz; none for a rest.
    pub freq: Option<u64>,
    pub millis: u32,
    pub waveform: Waveform,
    /// The volume in hundredths.
    pub volume: u8,
}

/// A sample: how far the wave is out, and how far it could be.
#[derive(Debug, Clone, Copy, PartialEq, Eq, Structural)]
pub struct Level {
    pub amount: i64,
    pub full: i64,
}

/// Semitones from the A of the same octave.
pub const C: i32 = -9;

pub const D: i32 = -7;

pub const E: i32 = -5;

pub const F: i32 = -4;

pub const G: i32 = -2;

pub const A: i32 = 0;

pub const B: i32 = 2;

/// The frequencies of the twelve semitones from the A of the fourth octave up, of
/// which that A is 440 hertz and each is the twelfth root of two times the one
/// before.
pub open spec fn semitone_freq(r: int) -> int {
    if r == 0 {
        440_000_000
    } else if r == 1 {
        466_163_762
    } else if r == 2 {
        493_883_301
    } else if r == 3 {
        523_251_131
    } else if r == 4 {
        554_365_262
    } else if r == 5 {
        587_329_536
    } else if r == 6 {
        622_253_967
    } else if r == 7 {
        659_255_114
    } else if r == 8 {
        698_456_463
    } else if r == 9 {
        739_988_845
    } else if r == 10 {
        783_990_872
    } else {
        830_609_395
    }
}

/// The frequency as many semitones above the A of the fourth octave, or below it
/// if negative. An octave doubles the frequency.
pub open spec fn pitch(semitones: int) -> int
    decreases
            (if semitones < 0 {
                12 - semitones
            } else {
                semitones
            }),
{
    if semitones < 0 {
        pitch(semitones + 12) / 2
    } else if semitones >= 12 {
        pitch(semitones - 12) * 2
    } else {
        semitone_freq(semitones)
    }
}

/// The frequency of a note from its name and octave.
pub open spec fn frequency(name: i32, octave: i32) -> int {
    pitch(name + (octave - 4) * 12)
}

/// The frequency of a note in equal temperament, from its name and octave.
pub fn hz(name: i32, octave: i32) -> (freq: u64)
    requires
        i32::MIN <= name + (octave - 4) * 12 <= i32::MAX,
        pitch(name + (octave - 4) * 12) <= u64::MAX,
    ensures
        freq == frequency(name, octave),
{
    let semitones: i64 = name as i64 + (octave as i64 - 4) * 12;
    let mut within: i64 = semitones;
    let mut octaves: u32 = 0;
    if semitones < 0 {
        while within < 0
            invariant
                i32::MIN <= semitones,
                semitones <= within < 12,
                within == semitones + 12 * octaves,
            decreases 12 - within,
        {
            within = within + 12;
            octaves = octaves + 1;
        }
        let mut freq = semitone_of(within);
        let mut at: i64 = within;
        while octaves > 0
            invariant
                at == semitones + 12 * octaves,
                i32::MIN <= semitones <= at < 12,
                freq == pitch(at as int),
            decreases octaves,
        {
            at = at - 12;
            octaves = octaves - 1;
            freq = freq / 2;
        }
        return freq;
    }
    while within >= 12
        invariant
            0 <= within <= semitones <= i32::MAX,
            semitones == within + 12 * octaves,
            pitch(within as int) <= u64::MAX,
        decreases within,
    {
        within = within - 12;
        octaves = octaves + 1;
    }
    let mut freq = semitone_of(within);
    let mut at: i64 = within;
    while octaves > 0
        invariant
            0 <= at,
            semitones == at + 12 * octaves,
            semitones <= i32::MAX,
            freq == pitch(at as int),
            pitch(semitones as int) <= u64::MAX,
        decreases octaves,
    {
        proof {
            lemma_pitch_rises(at as int, octaves as nat);
        }
        at = at + 12;
        octaves = octaves - 1;
        freq = freq * 2;
    }
    freq
}

/// The frequency of one of the twelve semitones from the A of the fourth octave up.
fn semitone_of(r: i64) -> (freq: u64)
    requires
        0 <= r < 12,
    ensures
        freq == pitch(r as int),
{
    match r {
        0 => 440_000_000,
        1 => 466_163_762,
        2 => 493_883_301,
        3 => 523_251_131,
        4 => 554_365_262,
        5 => 587_329_536,
        6 => 622_253_967,
        7 => 659_255_114,
        8 => 698_456_463,
        9 => 739_988_845,
        10 => 783_990_872,
        _ => 830_609_395,
    }
}

/// The next octave is no higher than the last of several.
proof fn lemma_pitch_rises(at: int, octaves: nat)
    requires
        0 <= at,
        octaves > 0,
    ensures
        pitch(at + 12) == pitch(at) * 2,
        0 <= pitch(at + 12) <= pitch(at + 12 * octaves),
    decreases octaves,
{
    lemma_pitch_positive(at);
    if octaves > 1 {
        lemma_pitch_rises(at + 12, (octaves - 1) as nat);
    }
}

/// Frequencies are not negative.
proof fn lemma_pitch_positive(at: int)
    requires
        0 <= at,
    ensures
        0 < pitch(at),
    decreases at,
{
    if at >= 12 {
        lemma_pitch_positive(at - 12);
    }
}

/// An octave up doubles every frequency from the A of the fourth octave on.
pub proof fn lemma_octave_doubles(semitones: int)
    requires
        semitones >= 0,
    ensures
        pitch(semitones + 12) == pitch(semitones) * 2,
{
}

impl Note {
    /// A note.
    pub fn tone(freq: u64, millis: u32, waveform: Waveform, volume: u8) -> (note: Note)
        ensures
            note == (Note { freq: Some(freq), millis, waveform, volume }),
    {
        Note { freq: Some(freq), millis, waveform, volume }
    }

    /// A rest.
    pub fn rest(millis: u32) -> (note: Note)
        ensures
            note == (Note { freq: None, millis, waveform: Waveform::Square, volume: 0 }),
    {
        Note { freq: None, millis, waveform: Waveform::Square, volume: 0 }
    }

    /// The synthesiser can play it: it is no longer than samples can be counted,
    /// no louder than full volume, and no faster than one period to a sample.
    pub open spec fn playable(self) -> bool {
        &&& self.millis <= 90_000_000
        &&& self.volume <= 100
        &&& self.freq matches Some(freq) ==> freq <= SAMPLE_RATE * HERTZ
    }

    /// The number of samples that the note lasts, to the nearest, and at least one.
    pub open spec fn samples(self) -> int {
        let n = (self.millis * SAMPLE_RATE + 500) / 1_000;
        if n < 1 {
            1
        } else {
            n
        }
    }

    /// How far the phase advances from one sample to the next.
    pub open spec fn step(self) -> int {
        match self.freq {
            Some(freq) => freq * TURN / (SAMPLE_RATE * HERTZ),
            None => 0,
        }
    }
}

/// A square wave at a phase.
pub open spec fn square_at(phase: int) -> int {
    if 2 * phase < TURN {
        TURN as int
    } else {
        -TURN
    }
}

/// A triangle wave at a phase: it rises for half a period and falls for the other.
pub open spec fn triangle_at(phase: int) -> int {
    if 2 * phase < TURN {
        4 * phase - TURN
    } else {
        3 * TURN - 4 * phase
    }
}

/// A square wave at a phase.
pub fn square_wave(phase: u64) -> (level: i64)
    requires
        phase < TURN,
    ensures
        level == square_at(phase as int),
{
    if 2 * phase < TURN {
        TURN as i64
    } else {
        -(TURN as i64)
    }
}

/// A triangle wave at a phase.
pub fn triangle_wave(phase: u64) -> (level: i64)
    requires
        phase < TURN,
    ensures
        level == triangle_at(phase as int),
        -TURN <= level <= TURN,
{
    if 2 * phase < TURN {
        4 * phase as i64 - TURN as i64
    } else {
        3 * TURN as i64 - 4 * phase as i64
    }
}

/// The next state of the noise: the bits move down by one, and the sum of the two
/// lowest comes in near the top.
pub open spec fn shifted(state: u16) -> u16 {
    if (state ^ (state >> 1)) & 1 == 1 {
        (state >> 1) | 0x4000
    } else {
        state >> 1
    }
}

/// Moves the noise on, and says whether it is up or down now.
pub fn lfsr_bit(state: &mut u16) -> (up: bool)
    ensures
        *final(state) == shifted(*old(state)),
        up == (*final(state) & 1 == 1),
{
    let feedback = (*state ^ (*state >> 1)) & 1;
    *state = *state >> 1;
    if feedback == 1 {
        *state = *state | 0x4000;
    }
    *state & 1 == 1
}

/// Noise that has begun never dies away.
pub proof fn lemma_noise_never_dies(state: u16)
    requires
        state != 0,
    ensures
        shifted(state) != 0,
{
    assert(state != 0u16 ==> ((state ^ (state >> 1)) & 1 == 1 ==> (state >> 1) | 0x4000 != 0u16)
        && ((state ^ (state >> 1)) & 1 != 1 ==> state >> 1 != 0u16)) by (bit_vector);
}

/// The samples over which a note of that many samples fades in and out.
pub open spec fn fade_of(len: int) -> int {
    if len / 8 < 1 {
        1
    } else if len / 8 < FADE_SAMPLES {
        len / 8
    } else {
        FADE_SAMPLES as int
    }
}

/// How loud a note is at one of its samples, in parts of `fade_of`.
pub open spec fn loudness(pos: int, len: int) -> int {
    if pos < fade_of(len) {
        pos
    } else if pos + fade_of(len) >= len {
        if pos < len {
            len - pos
        } else {
            0
        }
    } else {
        fade_of(len)
    }
}

/// How loud a note is at one of its samples: the first of the two numbers in
/// parts of the second. Fading in and out keeps notes from clicking.
pub fn envelope(pos: u32, len: u32) -> (part: (u32, u32))
    requires
        pos + FADE_SAMPLES <= u32::MAX,
    ensures
        part.0 == loudness(pos as int, len as int),
        part.1 == fade_of(len as int),
        part.0 <= part.1,
        1 <= part.1 <= FADE_SAMPLES,
{
    let by_len: u32 = if len / 8 < 1 {
        1
    } else {
        len / 8
    };
    let fade: u32 = if by_len < FADE_SAMPLES {
        by_len
    } else {
        FADE_SAMPLES
    };
    if pos < fade {
        (pos, fade)
    } else if pos + fade >= len {
        if pos < len {
            (len - pos, fade)
        } else {
            (0, fade)
        }
    } else {
        (fade, fade)
    }
}

/// A tune being played, as a value.
pub struct SequencerView {
    pub notes: Seq<Note>,
    /// The note being played.
    pub idx: int,
    /// The samples of that note played so far.
    pub pos: int,
    /// The phase of the wave.
    pub phase: int,
    pub noise: u16,
    /// Whether the noise is up.
    pub noise_up: bool,
}

impl SequencerView {
    /// Every note is playable, and the phase is where the samples played of the
    /// note have taken it.
    pub open spec fn wf(self) -> bool {
        &&& forall|i: int| 0 <= i < self.notes.len() ==> (#[trigger] self.notes[i]).playable()
        &&& 0 <= self.idx <= self.notes.len()
        &&& self.idx == self.notes.len() ==> self.pos == 0 && self.phase == 0
        &&& self.idx < self.notes.len() ==> 0 <= self.pos <= self.notes[self.idx].samples()
        &&& self.idx < self.notes.len() ==> self.phase == self.pos * self.notes[self.idx].step()
            % (TURN as int)
    }

    /// On to the next note, if the one being played is over.
    pub open spec fn settled(self) -> SequencerView {
        if self.idx < self.notes.len() && self.pos >= self.notes[self.idx].samples() {
            SequencerView { idx: self.idx + 1, pos: 0, phase: 0, ..self }
        } else {
            self
        }
    }

    /// Whether the phase passes the end of a period with the next sample.
    pub open spec fn wraps(self) -> bool {
        self.phase + self.notes[self.idx].step() >= TURN
    }

    /// The state after the next sample of the note being played.
    pub open spec fn advanced(self) -> SequencerView {
        let note = self.notes[self.idx];
        let phase = if self.wraps() {
            self.phase + note.step() - TURN
        } else {
            self.phase + note.step()
        };
        let renewed = note.freq is Some && note.waveform is Noise && (self.wraps() || self.pos == 0);
        SequencerView {
            pos: self.pos + 1,
            phase,
            noise: if renewed {
                shifted(self.noise)
            } else {
                self.noise
            },
            noise_up: if renewed {
                shifted(self.noise) & 1 == 1
            } else {
                self.noise_up
            },
            ..self
        }
    }

    /// How far out the wave is at the last sample of the note being played.
    pub open spec fn wave(self) -> int {
        let note = self.notes[self.idx];
        if note.freq is None {
            0
        } else {
            match note.waveform {
                Waveform::Square => square_at(self.phase),
                Waveform::Triangle => triangle_at(self.phase),
                Waveform::Noise => if self.noise_up {
                    TURN as int
                } else {
                    -TURN
                },
            }
        }
    }

    /// The samples still to come.
    pub open spec fn remaining(self) -> int {
        samples_from(self.notes, self.idx) - self.pos
    }
}

/// A tune before its first sample.
pub open spec fn at_the_beginning(notes: Seq<Note>) -> SequencerView {
    SequencerView {
        notes,
        idx: 0,
        pos: 0,
        phase: 0,
        noise: NOISE_SEED,
        noise_up: false,
    }
}

/// Whether this is the next sample of a tune, and where the tune is after it.
pub open spec fn sounded(start: SequencerView, sample: Option<Level>, end: SequencerView) -> bool {
    let before = start.settled();
    if before.idx < before.notes.len() {
        let after = before.advanced();
        let note = before.notes[before.idx];
        &&& end == after
        &&& sample == Some(
            Level {
                amount: (after.wave() * note.volume * loudness(
                    before.pos,
                    note.samples(),
                )) as i64,
                full: (TURN * 100 * fade_of(note.samples())) as i64,
            },
        )
        &&& -(TURN * 100 * fade_of(note.samples())) <= after.wave() * note.volume * loudness(
            before.pos,
            note.samples(),
        ) <= TURN * 100 * fade_of(note.samples()) <= i64::MAX
    } else {
        end == before && sample is None
    }
}

/// The samples of the notes from one on.
pub open spec fn samples_from(notes: Seq<Note>, idx: int) -> int
    decreases notes.len() - idx,
{
    if 0 <= idx < notes.len() {
        notes[idx].samples() + samples_from(notes, idx + 1)
    } else {
        0
    }
}

/// The milliseconds that the notes last.
pub open spec fn total_millis(notes: Seq<Note>) -> nat
    decreases notes.len(),
{
    if notes.len() == 0 {
        0
    } else {
        total_millis(notes.drop_last()) + notes.last().millis as nat
    }
}

/// A tune being played once.
#[derive(Debug, Clone)]
pub struct Sequencer {
    pub notes: Vec<Note>,
    pub idx: usize,
    pub pos_in_note: u32,
    pub phase: u64,
    pub noise_state: u16,
    pub noise_up: bool,
}

impl View for Sequencer {
    type V = SequencerView;

    open spec fn view(&self) -> SequencerView {
        SequencerView {
            notes: self.notes@,
            idx: self.idx as int,
            pos: self.pos_in_note as int,
            phase: self.phase as int,
            noise: self.noise_state,
            noise_up: self.noise_up,
        }
    }
}

/// The number of samples that a note lasts.
fn note_len_samples(note: &Note) -> (len: u32)
    requires
        note.playable(),
    ensures
        len == note.samples(),
        len <= 3_969_000_000,
{
    let n = (note.millis as u64 * 44_100 + 500) / 1_000;
    if n < 1 {
        1
    } else {
        n as u32
    }
}

/// How far the phase advances from one sample to the next.
fn step_of(freq: u64) -> (step: u64)
    requires
        freq <= SAMPLE_RATE * HERTZ,
    ensures
        step == freq * TURN / (SAMPLE_RATE * HERTZ),
        step <= TURN,
{
    assert(0 <= freq * TURN <= 189_408_057_753_600_000_000) by (nonlinear_arith)
        requires
            freq <= 44_100_000_000,
            TURN == 4_294_967_296,
    ;
    let turns = freq as u128 * TURN as u128 / 44_100_000_000;
    assert(freq * TURN / 44_100_000_000 <= TURN) by (nonlinear_arith)
        requires
            freq <= 44_100_000_000,
            TURN == 4_294_967_296,
    ;
    turns as u64
}

impl Sequencer {
    /// A tune at its beginning.
    pub fn new(notes: Vec<Note>) -> (sequencer: Sequencer)
        requires
            forall|i: int| 0 <= i < notes@.len() ==> (#[trigger] notes@[i]).playable(),
        ensures
            sequencer@.wf(),
            sequencer@ == at_the_beginning(notes@),
    {
        Sequencer {
            notes,
            idx: 0,
            pos_in_note: 0,
            phase: 0,
            noise_state: NOISE_SEED,
            noise_up: false,
        }
    }

    /// The milliseconds that the whole tune lasts.
    pub fn total_duration(&self) -> (millis: u64)
        requires
            total_millis(self.notes@) <= u64::MAX,
        ensures
            millis == total_millis(self.notes@),
    {
        let mut millis: u64 = 0;
        for i in 0..self.notes.len()
            invariant
                total_millis(self.notes@) <= u64::MAX,
                millis == total_millis(self.notes@.take(i as int)),
        {
            proof {
                assert(self.notes@.take(i + 1).drop_last() =~= self.notes@.take(i as int));
                lemma_total_millis_grows(self.notes@, i + 1);
            }
            millis = millis + self.notes[i].millis as u64;
        }
        assert(self.notes@.take(self.notes@.len() as int) =~= self.notes@);
        millis
    }

    /// The next sample, until the tune is over.
    pub fn next(&mut self) -> (sample: Option<Level>)
        requires
            old(self)@.wf(),
        ensures
            final(self)@.wf(),
            sounded(old(self)@, sample, final(self)@),
    {
        let ghost start = self@;
        if self.idx < self.notes.len() {
            let len = note_len_samples(&self.notes[self.idx]);
            if self.pos_in_note >= len {
                self.idx = self.idx + 1;
                self.pos_in_note = 0;
                self.phase = 0;
            }
        }
        let ghost before = self@;
        assert(before == start.settled());
        if self.idx >= self.notes.len() {
            return None;
        }
        let note = self.notes[self.idx];
        assert(before.notes[before.idx].playable());
        let len = note_len_samples(&note);
        let first = self.pos_in_note == 0;
        proof {
            lemma_phase_advances(before.pos, note.step());
            lemma_step(note);
        }
        let wave: i64 = match note.freq {
            None => 0,
            Some(freq) => {
                self.phase = self.phase + step_of(freq);
                let wrapped = self.phase >= TURN;
                if wrapped {
                    self.phase = self.phase - TURN;
                }
                match note.waveform {
                    Waveform::Square => square_wave(self.phase),
                    Waveform::Triangle => triangle_wave(self.phase),
                    Waveform::Noise => {
                        if wrapped || first {
                            self.noise_up = lfsr_bit(&mut self.noise_state);
                        }
                        if self.noise_up {
                            TURN as i64
                        } else {
                            -(TURN as i64)
                        }
                    },
                }
            },
        };
        let (part, whole) = envelope(self.pos_in_note, len);
        self.pos_in_note = self.pos_in_note + 1;
        let volume = note.volume;
        proof {
            lemma_level_bounds(wave as int, volume as int, part as int, whole as int);
        }
        Some(
            Level {
                amount: wave * volume as i64 * part as i64,
                full: TURN as i64 * 100 * whole as i64,
            },
        )
    }
}

/// A level is never beyond its full range, and both can be written down.
proof fn lemma_level_bounds(wave: int, volume: int, part: int, whole: int)
    requires
        -TURN <= wave <= TURN,
        0 <= volume <= 100,
        0 <= part <= whole <= FADE_SAMPLES,
    ensures
        -429_496_729_600 <= wave * volume <= 429_496_729_600,
        -(TURN * 100 * whole) <= wave * volume * part <= TURN * 100 * whole,
        TURN * 100 * whole <= i64::MAX,
{
    assert(-429_496_729_600 <= wave * volume <= 429_496_729_600) by (nonlinear_arith)
        requires
            -4_294_967_296 <= wave <= 4_294_967_296,
            0 <= volume <= 100,
    ;
    let loud = wave * volume;
    assert(-(429_496_729_600 * whole) <= loud * part <= 429_496_729_600 * whole) by (nonlinear_arith)
        requires
            -429_496_729_600 <= loud <= 429_496_729_600,
            0 <= part <= whole,
    ;
}

/// The phase stays within a period, and one sample takes it where the samples
/// played and one more do.
proof fn lemma_phase_advances(pos: int, step: int)
    requires
        pos >= 0,
        0 <= step <= TURN,
    ensures
        0 <= pos * step % (TURN as int),
        pos * step % (TURN as int) < TURN,
        (pos + 1) * step % (TURN as int) == if pos * step % (TURN as int) + step >= TURN {
            pos * step % (TURN as int) + step - TURN
        } else {
            pos * step % (TURN as int) + step
        },
{
    let turn = TURN as int;
    let phase = pos * step % turn;
    assert((pos + 1) * step == pos * step + step) by (nonlinear_arith);
    vstd::arithmetic::div_mod::lemma_fundamental_div_mod(pos * step, turn);
    let periods = pos * step / turn;
    if phase + step >= turn {
        vstd::arithmetic::div_mod::lemma_fundamental_div_mod_converse(
            pos * step + step,
            turn,
            periods + 1,
            phase + step - turn,
        );
    } else {
        vstd::arithmetic::div_mod::lemma_fundamental_div_mod_converse(
            pos * step + step,
            turn,
            periods,
            phase + step,
        );
    }
}

/// A playable note takes at most a period to a sample.
proof fn lemma_step(note: Note)
    requires
        note.playable(),
    ensures
        0 <= note.step() <= TURN,
{
    if let Some(freq) = note.freq {
        assert(0 <= freq * TURN / 44_100_000_000 <= TURN) by (nonlinear_arith)
            requires
                0 <= freq <= 44_100_000_000,
                TURN == 4_294_967_296,
        ;
    }
}

/// The first notes last no longer than all of them.
proof fn lemma_total_millis_grows(notes: Seq<Note>, n: int)
    requires
        0 <= n <= notes.len(),
    ensures
        total_millis(notes.take(n)) <= total_millis(notes),
    decreases notes.len() - n,
{
    if n == notes.len() {
        assert(notes.take(n) =~= notes);
    } else {
        lemma_total_millis_grows(notes, n + 1);
        assert(notes.take(n + 1).drop_last() =~= notes.take(n));
    }
}

/// A tune lasts exactly as many samples as its notes: while samples are still to
/// come the next one takes off one, and there is no next one once none is.
pub proof fn lemma_tune_ends_in_time(sequencer: SequencerView)
    requires
        sequencer.wf(),
    ensures
        sequencer.settled().wf(),
        sequencer.settled().remaining() == sequencer.remaining(),
        sequencer.remaining() >= 0,
        sequencer.settled().idx < sequencer.notes.len() <==> sequencer.remaining() > 0,
        sequencer.settled().idx < sequencer.notes.len()
            ==> sequencer.settled().advanced().remaining() == sequencer.remaining() - 1,
{
    if sequencer.idx < sequencer.notes.len() {
        assert(sequencer.notes[sequencer.idx].playable());
        lemma_samples_from(sequencer.notes, sequencer.idx + 1);
        assert(0 * sequencer.settled().notes[sequencer.settled().idx].step() == 0) by (nonlinear_arith);
    }
}

/// Every note adds at least one sample.
proof fn lemma_samples_from(notes: Seq<Note>, idx: int)
    requires
        0 <= idx <= notes.len(),
    ensures
        samples_from(notes, idx) >= notes.len() - idx,
    decreases notes.len() - idx,
{
    if idx < notes.len() {
        lemma_samples_from(notes, idx + 1);
    }
}

/// Rests are silent.
pub proof fn lemma_rests_are_silent(sequencer: SequencerView)
    requires
        sequencer.wf(),
        sequencer.idx < sequencer.notes.len(),
        sequencer.notes[sequencer.idx].freq is None,
    ensures
        sequencer.wave() == 0,
{
}

/// Notes are tuned in equal temperament: the A of the fourth octave has 440 hertz,
/// the twelve semitones from there on are each the twelfth root of two above the
/// last, to within three millionths of a hertz, and twelve of them make an octave.
pub proof fn lemma_equal_temperament(semitones: int)
    ensures
        pitch(0) == 440_000_000,
        0 <= semitones < 12 ==> -3_000_000_000 <= 1_059_463_094 * pitch(semitones) - 1_000_000_000
            * pitch(semitones + 1) <= 3_000_000_000,
        semitones >= 0 ==> pitch(semitones + 12) == 2 * pitch(semitones),
        semitones < 0 ==> 2 * pitch(semitones) <= pitch(semitones + 12) <= 2 * pitch(semitones) + 1,
{
    reveal_with_fuel(pitch, 3);
}

/// The names of the notes: a whole step from one to the next but for the half step
/// from E to F, and the A stands at the middle of its octave. The same name an
/// octave up is twelve semitones up.
pub proof fn lemma_names_of_notes(name: i32, octave: i32)
    requires
        octave < i32::MAX,
    ensures
        A == 0,
        D - C == 2 && E - D == 2 && F - E == 1 && G - F == 2 && A - G == 2 && B - A == 2,
        frequency(A, 4) == 440_000_000,
        frequency(name, (octave + 1) as i32) == pitch(name + (octave - 4) * 12 + 12),
        frequency(name, octave) == pitch(name + (octave - 4) * 12),
{
}

/// A square wave is all the way up for half a period and all the way down for the
/// other half.
pub proof fn lemma_square_waves(phase: int)
    requires
        0 <= phase < 2_147_483_648,
    ensures
        square_at(phase) == 4_294_967_296,
        square_at(phase + 2_147_483_648) == -4_294_967_296,
{
}

/// A triangle wave rises evenly from the bottom to the top in half a period and
/// falls back as evenly in the other half.
pub proof fn lemma_triangle_waves(phase: int)
    requires
        0 <= phase < 2_147_483_648,
    ensures
        triangle_at(0) == -4_294_967_296,
        triangle_at(2_147_483_648) == 4_294_967_296,
        triangle_at(phase) == triangle_at(0) + 4 * phase,
        triangle_at(phase + 2_147_483_648) == -triangle_at(phase),
{
}

/// Noise is a shift register of fifteen bits: all move down by one, and the sum of
/// the two lowest comes in at the top.
pub proof fn lemma_noise_shifts(state: u16)
    requires
        state < 0x8000,
    ensures
        shifted(state) < 0x8000,
        shifted(state) & 0x3fff == state >> 1,
        shifted(state) & 0x4000 == 0x4000 <==> state & 1 != (state >> 1) & 1,
{
    let next = shifted(state);
    assert(state < 0x8000u16 && (state ^ (state >> 1)) & 1 == 1 ==> ((state >> 1) | 0x4000u16)
        < 0x8000 && ((state >> 1) | 0x4000u16) & 0x3fff == state >> 1 && ((state >> 1) | 0x4000u16)
        & 0x4000 == 0x4000 && state & 1 != (state >> 1) & 1) by (bit_vector);
    assert(state < 0x8000u16 && (state ^ (state >> 1)) & 1 != 1 ==> (state >> 1) < 0x8000 && (state
        >> 1) & 0x3fff == state >> 1 && (state >> 1) & 0x4000 != 0x4000 && state & 1 == (state >> 1)
        & 1) by (bit_vector);
}

/// A note lasts as many samples as its milliseconds take, to the nearest, and one
/// at least.
pub proof fn lemma_lengths_in_samples(note: Note)
    ensures
        note.samples() >= 1,
        note.millis > 0 ==> -500 <= 44_100 * note.millis - 1_000 * note.samples() <= 500,
        note.millis == 0 ==> note.samples() == 1,
{
}

/// From one sample to the next a wave goes on by as much of a period as its
/// frequency makes of one 44,100th of a second, rounded down. Rests stand still.
pub proof fn lemma_steps_of_waves(note: Note)
    ensures
        note.freq is None ==> note.step() == 0,
        note.freq matches Some(freq) ==> note.step() * 44_100_000_000 <= freq * 4_294_967_296 < (
        note.step() + 1) * 44_100_000_000,
{
    if let Some(freq) = note.freq {
        let n = freq * TURN;
        assert(note.step() == n / 44_100_000_000);
    }
}

/// Notes fade in from silence and out again: louder by one part with each sample
/// until they are at their loudest, and the same backwards at the end. The fading
/// takes an eighth of the note, but no more than 264 samples.
pub proof fn lemma_fading(pos: int, len: int)
    requires
        8 <= len,
        0 <= pos < len,
    ensures
        1 <= fade_of(len) <= 264,
        fade_of(len) == 264 || fade_of(len) == len / 8,
        8 * fade_of(len) <= len,
        loudness(0, len) == 0,
        pos < fade_of(len) ==> loudness(pos, len) == pos,
        fade_of(len) <= pos <= len - fade_of(len) ==> loudness(pos, len) == fade_of(len),
        pos > 0 ==> loudness(len - pos, len) == loudness(pos, len),
{
}

/// Notes too short for that fade over a single sample.
pub proof fn lemma_fading_of_short_notes(pos: int, len: int)
    requires
        0 < len < 8,
        0 <= pos < len,
    ensures
        fade_of(len) == 1,
        loudness(pos, len) == if pos == 0 {
            0int
        } else {
            1
        },
{
}

/// What is heard of a tune: while a note lasts, its wave at the phase that the
/// samples played have brought it to, at its volume and faded; a note that is over
/// makes way for the next, which starts afresh; behind the last there is nothing.
pub proof fn lemma_what_is_heard(start: SequencerView, sample: Option<Level>, end: SequencerView)
    requires
        start.wf(),
        sounded(start, sample, end),
    ensures
        ({
            let over = start.idx < start.notes.len() && start.pos
                == start.notes[start.idx].samples();
            let idx = if over {
                start.idx + 1
            } else {
                start.idx
            };
            let pos = if over {
                0
            } else {
                start.pos
            };
            let note = start.notes[idx];
            let phase = (pos + 1) * note.step() % 4_294_967_296;
            &&& end.notes == start.notes
            &&& end.idx == idx
            &&& idx == start.notes.len() ==> sample is None
            &&& idx < start.notes.len() ==> {
                let level = sample->Some_0;
                let part = note.volume * loudness(pos, note.samples());
                &&& sample is Some
                &&& end.pos == pos + 1
                &&& end.phase == phase
                &&& level.full == 429_496_729_600 * fade_of(note.samples())
                &&& note.freq is None ==> level.amount == 0
                &&& note.freq is Some && note.waveform is Square && 2 * phase < 4_294_967_296
                    ==> level.amount == 4_294_967_296 * part
                &&& note.freq is Some && note.waveform is Square && 2 * phase >= 4_294_967_296
                    ==> level.amount == -4_294_967_296 * part
                &&& note.freq is Some && note.waveform is Triangle && 2 * phase < 4_294_967_296
                    ==> level.amount == (4 * phase - 4_294_967_296) * part
                &&& note.freq is Some && note.waveform is Triangle && 2 * phase >= 4_294_967_296
                    ==> level.amount == (12_884_901_888 - 4 * phase) * part
                &&& note.freq is Some && note.waveform is Noise && end.noise_up ==> level.amount
                    == 4_294_967_296 * part
                &&& note.freq is Some && note.waveform is Noise && !end.noise_up ==> level.amount
                    == -4_294_967_296 * part
            }
        }),
{
    let before = start.settled();
    if before.idx < before.notes.len() {
        let note = before.notes[before.idx];
        assert(start.notes[before.idx].playable());
        lemma_step(note);
        assert(0 * note.step() == 0) by (nonlinear_arith);
        assert(before.phase == before.pos * note.step() % (TURN as int));
        lemma_phase_advances(before.pos, note.step());
        let after = before.advanced();
        assert(after.phase == (before.pos + 1) * note.step() % 4_294_967_296);
        let w = after.wave();
        let v = note.volume as int;
        let l = loudness(before.pos, note.samples());
        assert(w * v * l == w * (v * l)) by (nonlinear_arith);
        assert(note.freq is None ==> w == 0);
        assert(0 * (v * l) == 0) by (nonlinear_arith);
        assert(TURN * 100 * fade_of(note.samples()) == 429_496_729_600 * fade_of(note.samples()))
            by (nonlinear_arith)
            requires
                TURN == 4_294_967_296,
        ;
    }
}

/// Noise changes with each period of its frequency and at the start of a note, and
/// at no other time; nothing but noise changes it.
pub proof fn lemma_noise_in_time(start: SequencerView, sample: Option<Level>, end: SequencerView)
    requires
        start.wf(),
        sounded(start, sample, end),
        start.idx < start.notes.len(),
        start.pos < start.notes[start.idx].samples(),
    ensures
        ({
            let note = start.notes[start.idx];
            let renewed = note.freq is Some && note.waveform is Noise && (start.pos == 0
                || start.phase + note.step() >= 4_294_967_296);
            &&& renewed ==> end.noise == shifted(start.noise) && end.noise_up == (end.noise & 1
                == 1)
            &&& !renewed ==> end.noise == start.noise && end.noise_up == start.noise_up
        }),
{
}

/// The length of a tune in milliseconds is that of its notes together.
pub proof fn lemma_lengths_add_up(notes: Seq<Note>, note: Note)
    ensures
        total_millis(seq![]) == 0,
        total_millis(notes.push(note)) == total_millis(notes) + note.millis,
{
    assert(notes.push(note).drop_last() =~= notes);
}

/// A tune begins with its first note, has all its samples still to come, and its
/// noise is alive.
pub proof fn lemma_beginnings(notes: Seq<Note>)
    ensures
        ({
            let tune = at_the_beginning(notes);
            &&& tune.notes == notes
            &&& tune.idx == 0
            &&& tune.pos == 0
            &&& tune.remaining() == samples_from(notes, 0)
            &&& tune.noise != 0
        }),
        notes.len() > 0 ==> samples_from(notes, 0) == notes[0].samples() + samples_from(notes, 1),
{
}

} // verus!

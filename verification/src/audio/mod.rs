//! Sounds that the game asks for.

use vstd::prelude::*;

pub mod synth;
pub mod tunes;

use crate::types::{Bgm, SoundEffect};

verus! {

/// One request to the sound device.
#[derive(Debug, Clone, Copy, PartialEq, Eq, Structural)]
pub enum AudioCommand {
    PlaySe(SoundEffect),
    PlayBgm(Bgm),
    StopBgm,
}

/// A sound device.
pub trait AudioPlayer {
    /// The requests received so far. It exists for contracts only, so a device
    /// whose code is not verified need not give it.
    closed spec fn heard(&self) -> Seq<AudioCommand> {
        Seq::empty()
    }

    /// Plays a sound once.
    fn play_se(&mut self, se: SoundEffect)
        ensures
            final(self).heard() == old(self).heard().push(AudioCommand::PlaySe(se)),
    ;

    /// Starts a piece of background music; at most one plays at a time.
    fn play_bgm(&mut self, bgm: Bgm)
        ensures
            final(self).heard() == old(self).heard().push(AudioCommand::PlayBgm(bgm)),
    ;

    /// Stops the background music.
    fn stop_bgm(&mut self)
        ensures
            final(self).heard() == old(self).heard().push(AudioCommand::StopBgm),
    ;
}

/// A sound device that keeps the requests for a real one to carry out later.
#[derive(Debug, Clone)]
pub struct AudioQueue {
    pub commands: Vec<AudioCommand>,
}

impl AudioQueue {
    /// A queue with nothing in it.
    pub fn new() -> (queue: AudioQueue)
        ensures
            queue.heard() == Seq::<AudioCommand>::empty(),
    {
        AudioQueue { commands: Vec::new() }
    }
}

impl AudioPlayer for AudioQueue {
    open spec fn heard(&self) -> Seq<AudioCommand> {
        self.commands@
    }

    fn play_se(&mut self, se: SoundEffect) {
        self.commands.push(AudioCommand::PlaySe(se));
    }

    fn play_bgm(&mut self, bgm: Bgm) {
        self.commands.push(AudioCommand::PlayBgm(bgm));
    }

    fn stop_bgm(&mut self) {
        self.commands.push(AudioCommand::StopBgm);
    }
}

} // verus!

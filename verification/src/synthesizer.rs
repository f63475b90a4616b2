use vstd::prelude::*;

verus! {

/// The number of ticks that one frame lasts at unit speed. A playback speed
/// is a number of ticks per frame, so `SPEED_UNIT` is the speed 1.0.
pub const SPEED_UNIT: u64 = 1_000_000;

/// One call that the synthesis engine has to carry out.
#[derive(Clone, Copy, Debug, PartialEq, Eq, Structural)]
pub enum Command {
    /// Silence every voice and clear all channel state.
    Reset,
    /// Apply one channel message.
    ProcessMidiMessage { channel: i32, command: i32, data1: i32, data2: i32 },
    /// Release every sounding note; at once if `immediate`, else through its
    /// release phase.
    NoteOffAll { immediate: bool },
    /// Produce the next `frames` frames of audio.
    Render { frames: usize },
}

/// The sequencer's side of a synthesis engine: the engine's fixed block size
/// and sample rate, and the commands issued to it that are still to be carried
/// out, oldest first.
#[derive(Debug)]
pub struct Synthesizer {
    sample_rate: u32,
    block_size: usize,
    queue: Vec<Command>,
}

impl Synthesizer {
    /// Frames per block.
    pub closed spec fn block_size(&self) -> nat {
        self.block_size as nat
    }

    /// Frames per second.
    pub closed spec fn sample_rate(&self) -> nat {
        self.sample_rate as nat
    }

    /// The commands issued and not yet taken, oldest first.
    pub closed spec fn pending(&self) -> Seq<Command> {
        self.queue@
    }

    /// A block holds at least one frame and a second at least one frame.
    pub open spec fn wf(&self) -> bool {
        self.block_size() > 0 && self.sample_rate() > 0
    }

    /// A synthesizer with nothing pending, or `None` if either setting is zero.
    pub fn new(sample_rate: u32, block_size: usize) -> (synthesizer: Option<Synthesizer>)
        ensures
            synthesizer.is_some() <==> sample_rate > 0 && block_size > 0,
            synthesizer.is_some() ==> {
                let s = synthesizer.unwrap();
                &&& s.wf()
                &&& s.sample_rate() == sample_rate
                &&& s.block_size() == block_size
                &&& s.pending() == Seq::<Command>::empty()
            },
    {
        if sample_rate == 0 || block_size == 0 {
            None
        } else {
            Some(Synthesizer { sample_rate, block_size, queue: Vec::new() })
        }
    }

    /// Frames per block.
    pub fn get_block_size(&self) -> (n: usize)
        ensures
            n == self.block_size(),
    {
        self.block_size
    }

    /// Frames per second.
    pub fn get_sample_rate(&self) -> (n: u32)
        ensures
            n == self.sample_rate(),
    {
        self.sample_rate
    }

    /// The number of ticks in one second of audio at unit speed.
    pub fn ticks_per_second(&self) -> (n: u64)
        ensures
            n == self.sample_rate() * SPEED_UNIT,
    {
        assert(self.sample_rate as u64 * SPEED_UNIT <= 0xffff_ffff * 1_000_000) by (nonlinear_arith)
            requires
                self.sample_rate as u64 <= 0xffff_ffff,
                SPEED_UNIT == 1_000_000,
        ;
        self.sample_rate as u64 * SPEED_UNIT
    }

    /// Issues `command`.
    fn issue(&mut self, command: Command)
        ensures
            final(self).pending() == old(self).pending().push(command),
            final(self).block_size() == old(self).block_size(),
            final(self).sample_rate() == old(self).sample_rate(),
    {
        self.queue.push(command);
    }

    /// Issues a reset.
    pub fn reset(&mut self)
        ensures
            final(self).pending() == old(self).pending().push(Command::Reset),
            final(self).block_size() == old(self).block_size(),
            final(self).sample_rate() == old(self).sample_rate(),
    {
        self.issue(Command::Reset);
    }

    /// Issues one channel message.
    pub fn process_midi_message(&mut self, channel: i32, command: i32, data1: i32, data2: i32)
        ensures
            final(self).pending() == old(self).pending().push(
                Command::ProcessMidiMessage { channel, command, data1, data2 },
            ),
            final(self).block_size() == old(self).block_size(),
            final(self).sample_rate() == old(self).sample_rate(),
    {
        self.issue(Command::ProcessMidiMessage { channel, command, data1, data2 });
    }

    /// Issues the release of every sounding note.
    pub fn note_off_all(&mut self, immediate: bool)
        ensures
            final(self).pending() == old(self).pending().push(Command::NoteOffAll { immediate }),
            final(self).block_size() == old(self).block_size(),
            final(self).sample_rate() == old(self).sample_rate(),
    {
        self.issue(Command::NoteOffAll { immediate });
    }

    /// Issues the production of `frames` frames.
    pub fn render(&mut self, frames: usize)
        ensures
            final(self).pending() == old(self).pending().push(Command::Render { frames }),
            final(self).block_size() == old(self).block_size(),
            final(self).sample_rate() == old(self).sample_rate(),
    {
        self.issue(Command::Render { frames });
    }

    /// Hands out the pending commands, oldest first, and leaves none pending.
    pub fn take_commands(&mut self) -> (commands: Vec<Command>)
        ensures
            commands@ == old(self).pending(),
            final(self).pending() == Seq::<Command>::empty(),
            final(self).block_size() == old(self).block_size(),
            final(self).sample_rate() == old(self).sample_rate(),
    {
        let mut commands: Vec<Command> = Vec::new();
        core::mem::swap(&mut self.queue, &mut commands);
        commands
    }
}

} // verus!

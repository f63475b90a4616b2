use std::sync::Arc;
use vstd::prelude::*;
use crate::message::{Message, MidiFile};
use crate::model::{
    advance, begin_block, cursor_wf, dispatch, render_blocks, rewound, scan, session_wf, Cursor,
    Outcome, Session,
};
use crate::synthesizer::{Command, Synthesizer, SPEED_UNIT};

verus! {

/// The sequence time one block after `time`.
fn advance_time(time: u64, speed: u64, block_size: usize) -> (later: u64)
    ensures
        later == advance(time as int, speed as int, block_size as int),
{
    assert(speed as u128 * block_size as u128 <= 0xffff_ffff_ffff_ffff * 0xffff_ffff_ffff_ffff)
        by (nonlinear_arith)
        requires
            speed as u128 <= 0xffff_ffff_ffff_ffff,
            block_size as u128 <= 0xffff_ffff_ffff_ffff,
    ;
    let step: u128 = speed as u128 * block_size as u128;
    let sum: u128 = time as u128 + step;
    if sum > u64::MAX as u128 {
        u64::MAX
    } else {
        sum as u64
    }
}

/// Another handle on the same sequence.
///
/// Trusted: `Arc::clone` of the standard library, which returns a pointer to
/// the allocation that `file` points to, so that both hold the same value.
#[verifier::external_body]
fn share(file: &Arc<MidiFile>) -> (shared: Arc<MidiFile>)
    ensures
        shared == *file,
{
    Arc::clone(file)
}

/// Plays a MIDI sequence through a synthesizer, with a playback speed and
/// optional looping.
#[derive(Debug)]
pub struct MidiFileSequencer {
    synthesizer: Synthesizer,
    speed: u64,
    midi_file: Option<Arc<MidiFile>>,
    play_loop: bool,
    block_wrote: usize,
    current_time: u64,
    msg_index: usize,
    loop_index: usize,
}

impl MidiFileSequencer {
    /// The bound sequence, looping, speed and block size.
    pub closed spec fn session(&self) -> Session {
        Session {
            events: match self.midi_file {
                Some(file) => Some(file@),
                None => None,
            },
            looping: self.play_loop,
            speed: self.speed as int,
            block_size: self.synthesizer.block_size() as int,
        }
    }

    /// The playback cursor.
    pub closed spec fn cursor(&self) -> Cursor {
        Cursor {
            time: self.current_time as int,
            index: self.msg_index as int,
            anchor: self.loop_index as int,
            progress: self.block_wrote as int,
        }
    }

    /// The synthesizer that the sequencer drives.
    pub closed spec fn synthesizer(&self) -> Synthesizer {
        self.synthesizer
    }

    /// The commands issued to the synthesizer and not yet taken.
    pub open spec fn pending(&self) -> Seq<Command> {
        self.synthesizer().pending()
    }

    /// The session and the cursor are valid, and the session's block size is
    /// the synthesizer's.
    pub open spec fn wf(&self) -> bool {
        &&& self.synthesizer().wf()
        &&& self.session().block_size == self.synthesizer().block_size()
        &&& session_wf(self.session())
        &&& cursor_wf(self.session(), self.cursor())
    }

    /// An idle sequencer at unit speed.
    pub fn new(synthesizer: Synthesizer) -> (sequencer: MidiFileSequencer)
        requires
            synthesizer.wf(),
        ensures
            sequencer.wf(),
            sequencer.synthesizer() == synthesizer,
            sequencer.session() == (Session {
                events: None,
                looping: false,
                speed: SPEED_UNIT as int,
                block_size: synthesizer.block_size() as int,
            }),
            sequencer.cursor() == (Cursor { time: 0, index: 0, anchor: 0, progress: 0 }),
    {
        MidiFileSequencer {
            synthesizer,
            speed: SPEED_UNIT,
            midi_file: None,
            play_loop: false,
            block_wrote: 0,
            current_time: 0,
            msg_index: 0,
            loop_index: 0,
        }
    }

    /// Binds `midi_file` and starts it from the beginning: the synthesizer is
    /// reset, and the current block counts as used up, so that the next frame
    /// rendered is preceded by a dispatch cycle at time 0.
    pub fn play(&mut self, midi_file: &Arc<MidiFile>, play_loop: bool)
        requires
            old(self).wf(),
        ensures
            final(self).wf(),
            final(self).session() == (Session {
                events: Some(midi_file@),
                looping: play_loop,
                ..old(self).session()
            }),
            final(self).cursor() == (Cursor {
                time: 0,
                index: 0,
                anchor: 0,
                progress: old(self).session().block_size,
            }),
            final(self).pending() == old(self).pending().push(Command::Reset),
            final(self).synthesizer().sample_rate() == old(self).synthesizer().sample_rate(),
    {
        self.midi_file = Some(share(midi_file));
        self.play_loop = play_loop;
        self.block_wrote = self.synthesizer.get_block_size();
        self.current_time = 0;
        self.msg_index = 0;
        self.loop_index = 0;
        self.synthesizer.reset();
    }

    /// Unbinds the sequence and resets the synthesizer.
    pub fn stop(&mut self)
        requires
            old(self).wf(),
        ensures
            final(self).wf(),
            final(self).session() == (Session { events: None, ..old(self).session() }),
            final(self).cursor() == old(self).cursor(),
            final(self).pending() == old(self).pending().push(Command::Reset),
            final(self).synthesizer().sample_rate() == old(self).synthesizer().sample_rate(),
    {
        self.midi_file = None;
        self.synthesizer.reset();
    }

    /// Renders `frames` frames: issues the commands that produce them, and
    /// moves the cursor over the blocks that begin on the way.
    pub fn render(&mut self, frames: usize)
        requires
            old(self).wf(),
        ensures
            final(self).wf(),
            final(self).session() == old(self).session(),
            final(self).cursor() == render_blocks(
                old(self).session(),
                old(self).cursor(),
                frames as int,
            ).cursor,
            final(self).pending() == old(self).pending() + render_blocks(
                old(self).session(),
                old(self).cursor(),
                frames as int,
            ).commands,
            final(self).synthesizer().sample_rate() == old(self).synthesizer().sample_rate(),
    {
        let ghost s = self.session();
        let ghost start = self.cursor();
        let ghost before = self.pending();
        let block_size: usize = self.synthesizer.get_block_size();
        let mut wrote: usize = 0;
        assert(before + render_blocks(s, start, frames as int).commands =~= self.pending()
            + render_blocks(s, self.cursor(), frames - wrote).commands);
        while wrote < frames
            invariant
                self.wf(),
                self.session() == s,
                self.synthesizer().sample_rate() == old(self).synthesizer().sample_rate(),
                block_size == s.block_size,
                wrote <= frames,
                render_blocks(s, start, frames as int).cursor == render_blocks(
                    s,
                    self.cursor(),
                    frames - wrote,
                ).cursor,
                before + render_blocks(s, start, frames as int).commands == self.pending()
                    + render_blocks(s, self.cursor(), frames - wrote).commands,
            decreases frames - wrote,
        {
            let ghost c = self.cursor();
            let ghost issued = self.pending();
            let ghost whole = render_blocks(s, c, frames - wrote);
            if self.block_wrote == block_size {
                self.process_events();
                self.block_wrote = 0;
                self.current_time = advance_time(self.current_time, self.speed, block_size);
            }
            let src_rem: usize = block_size - self.block_wrote;
            let dst_rem: usize = frames - wrote;
            let rem: usize = if src_rem < dst_rem { src_rem } else { dst_rem };
            self.synthesizer.render(rem);
            self.block_wrote += rem;
            wrote += rem;
            proof {
                let rest = render_blocks(s, self.cursor(), frames - wrote);
                assert(whole.cursor == rest.cursor);
                assert(issued + whole.commands =~= self.pending() + rest.commands);
            }
        }
    }

    /// One dispatch cycle, if a sequence is bound.
    fn process_events(&mut self)
        requires
            old(self).wf(),
        ensures
            final(self).wf(),
            final(self).session() == old(self).session(),
            final(self).synthesizer().sample_rate() == old(self).synthesizer().sample_rate(),
            ({
                let d = match old(self).session().events {
                    Some(events) => dispatch(events, old(self).session().looping, old(self).cursor()),
                    None => Outcome { cursor: old(self).cursor(), commands: Seq::empty() },
                };
                &&& final(self).cursor() == d.cursor
                &&& final(self).pending() == old(self).pending() + d.commands
            }),
    {
        let ghost start = self.cursor();
        let ghost before = self.pending();
        match &self.midi_file {
            None => {
                assert(self.pending() =~= before + Seq::<Command>::empty());
            },
            Some(file) => {
                let ghost events = file@;
                let looping: bool = self.play_loop;
                let n: usize = file.len();
                let mut jumped: bool = false;
                assert(before + scan(events, looping, start, false).commands =~= self.pending()
                    + scan(events, looping, self.cursor(), jumped).commands);
                while self.msg_index < n
                    invariant
                        old(self).wf(),
                        self.synthesizer().sample_rate() == old(self).synthesizer().sample_rate(),
                        self.session() == old(self).session(),
                        self.session().events == Some(events),
                        file@ == events,
                        self.play_loop == looping,
                        self.cursor().progress == start.progress,
                        n == events.len(),
                        self.msg_index <= n,
                        self.loop_index <= self.msg_index,
                        self.loop_index < n || n == 0,
                        scan(events, looping, start, false).cursor == scan(
                            events,
                            looping,
                            self.cursor(),
                            jumped,
                        ).cursor,
                        before + scan(events, looping, start, false).commands == self.pending()
                            + scan(events, looping, self.cursor(), jumped).commands,
                    ensures
                        scan(events, looping, self.cursor(), jumped) == (Outcome {
                            cursor: self.cursor(),
                            commands: Seq::empty(),
                        }),
                    decreases (if jumped { 0int } else { 1int }), n - self.msg_index,
                {
                    let ghost issued = self.pending();
                    let ghost whole = scan(events, looping, self.cursor(), jumped);
                    let event = file.get(self.msg_index);
                    if event.time <= self.current_time {
                        match event.message {
                            Message::Normal { status, data1, data2 } => {
                                let channel: u8 = status & 0x0F;
                                let command: u8 = status & 0xF0;
                                self.synthesizer.process_midi_message(
                                    channel as i32,
                                    command as i32,
                                    data1 as i32,
                                    data2 as i32,
                                );
                                self.msg_index += 1;
                            },
                            Message::LoopStart => {
                                if looping {
                                    self.loop_index = self.msg_index;
                                }
                                self.msg_index += 1;
                            },
                            Message::LoopEnd => {
                                if !looping {
                                    self.msg_index += 1;
                                } else if jumped {
                                    break ;
                                } else {
                                    self.current_time = file.get(self.loop_index).time;
                                    self.msg_index = self.loop_index;
                                    self.synthesizer.note_off_all(false);
                                    jumped = true;
                                }
                            },
                            Message::Other => {
                                self.msg_index += 1;
                            },
                        }
                    } else {
                        break ;
                    }
                    proof {
                        let rest = scan(events, looping, self.cursor(), jumped);
                        assert(whole.cursor == rest.cursor);
                        assert(issued + whole.commands =~= self.pending() + rest.commands);
                    }
                }
                if self.msg_index == n && looping && n > 0 {
                    self.current_time = file.get(self.loop_index).time;
                    self.msg_index = self.loop_index;
                    self.synthesizer.note_off_all(false);
                }
                assert(self.pending() =~= before + dispatch(events, looping, start).commands);
            },
        }
    }

    /// The synthesizer that the sequencer drives.
    pub fn get_synthesizer(&self) -> (synthesizer: &Synthesizer)
        ensures
            *synthesizer == self.synthesizer(),
    {
        &self.synthesizer
    }

    /// Hands out the commands issued since the last call, oldest first.
    pub fn take_commands(&mut self) -> (commands: Vec<Command>)
        ensures
            commands@ == old(self).pending(),
            final(self).pending() == Seq::<Command>::empty(),
            final(self).synthesizer().sample_rate() == old(self).synthesizer().sample_rate(),
            final(self).session() == old(self).session(),
            final(self).cursor() == old(self).cursor(),
            old(self).wf() ==> final(self).wf(),
    {
        self.synthesizer.take_commands()
    }

    /// The bound sequence, if any.
    pub fn get_midi_file(&self) -> (file: Option<&MidiFile>)
        ensures
            file.is_some() == self.session().events.is_some(),
            file matches Some(f) ==> self.session().events == Some(f@),
    {
        match &self.midi_file {
            None => None,
            Some(value) => Some(value),
        }
    }

    /// The sequence time, in ticks.
    pub fn get_position(&self) -> (time: u64)
        ensures
            time == self.cursor().time,
    {
        self.current_time
    }

    /// Whether playback has nothing left to dispatch: no sequence is bound,
    /// or the cursor is behind the last event. A looping playback of a
    /// sequence that has events never is.
    pub fn end_of_sequence(&self) -> (ended: bool)
        ensures
            ended == match self.session().events {
                Some(events) => self.cursor().index == events.len(),
                None => true,
            },
            self.wf() && self.session().looping ==> (self.session().events matches Some(events)
                ==> events.len() > 0 ==> !ended),
    {
        match &self.midi_file {
            None => true,
            Some(value) => self.msg_index == value.len(),
        }
    }

    /// The playback speed, in ticks per frame.
    pub fn get_speed(&self) -> (speed: u64)
        ensures
            speed == self.session().speed,
    {
        self.speed
    }

    /// Sets the playback speed, in ticks per frame. At speed 0 the sequence
    /// time stands still while frames are still rendered.
    pub fn set_speed(&mut self, value: u64)
        ensures
            final(self).session() == (Session { speed: value as int, ..old(self).session() }),
            final(self).cursor() == old(self).cursor(),
            final(self).pending() == old(self).pending(),
            final(self).synthesizer().sample_rate() == old(self).synthesizer().sample_rate(),
            old(self).wf() ==> final(self).wf(),
    {
        self.speed = value;
    }
}

} // verus!

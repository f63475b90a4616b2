//! The mathematical model of playback: what a dispatch cycle and a request for
//! frames do to the cursor, and which commands they issue.

use vstd::prelude::*;
use crate::message::{Message, TimedMessage};
use crate::synthesizer::Command;

verus! {

/// The playback cursor.
pub struct Cursor {
    /// The sequence time, in ticks.
    pub time: int,
    /// The index of the first event not yet dispatched.
    pub index: int,
    /// The index at which a looping playback resumes.
    pub anchor: int,
    /// The frames already produced of the current block.
    pub progress: int,
}

/// What stays fixed while frames are rendered.
pub struct Session {
    /// The events of the bound sequence, if one is bound.
    pub events: Option<Seq<TimedMessage>>,
    /// Whether playback loops.
    pub looping: bool,
    /// The playback speed, in ticks per frame.
    pub speed: int,
    /// The synthesizer's frames per block.
    pub block_size: int,
}

/// A cursor together with the commands issued on the way to it.
pub struct Outcome {
    pub cursor: Cursor,
    pub commands: Seq<Command>,
}

/// The session's limits: a block has frames and the speed is not negative.
pub open spec fn session_wf(s: Session) -> bool {
    &&& 0 < s.block_size
    &&& 0 <= s.speed <= u64::MAX
}

/// The cursor lies within the session's sequence and block, and a looping
/// playback of a sequence that has events is never at the end of it.
pub open spec fn cursor_wf(s: Session, c: Cursor) -> bool {
    &&& 0 <= c.time <= u64::MAX
    &&& 0 <= c.progress <= s.block_size
    &&& s.events matches Some(events) ==> {
        &&& 0 <= c.anchor <= c.index <= events.len()
        &&& (c.anchor < events.len() || events.len() == 0)
        &&& (s.looping && events.len() > 0 ==> c.index < events.len())
    }
}

/// The command that a channel message becomes: the channel is the status
/// byte's low nibble, the command its high nibble.
pub open spec fn channel_command(status: u8, data1: u8, data2: u8) -> Command {
    Command::ProcessMidiMessage {
        channel: (status & 0x0F) as i32,
        command: (status & 0xF0) as i32,
        data1: data1 as i32,
        data2: data2 as i32,
    }
}

/// The command issued on a wraparound: notes are released, not cut.
pub open spec fn release() -> Command {
    Command::NoteOffAll { immediate: false }
}

/// The cursor after a wraparound: back at the anchor, at the anchor's time.
pub open spec fn rewound(events: Seq<TimedMessage>, c: Cursor) -> Cursor {
    Cursor { time: events[c.anchor].time as int, index: c.anchor, ..c }
}

/// Dispatches, in index order, the events from the cursor on that are due
/// (whose time is at most the cursor's).
///
/// A channel message is issued to the synthesizer. With looping, a loop start
/// becomes the anchor, and a loop end rewinds the cursor to the anchor and
/// releases all notes, after which the scan goes on from there. A scan rewinds
/// at most once: one that has `jumped` and meets a due loop end again stops in
/// front of it, so that an empty loop region is replayed once per block.
/// In particular a looping playback whose anchor is itself a loop end (a
/// sequence that begins with one) rewinds to it in every cycle and never
/// dispatches what lies behind it. Everything else is passed over.
pub open spec fn scan(events: Seq<TimedMessage>, looping: bool, c: Cursor, jumped: bool) -> Outcome
    decreases (if jumped { 0int } else { 1int }), events.len() - c.index,
{
    if 0 <= c.index < events.len() && events[c.index].time <= c.time {
        let next = Cursor { index: c.index + 1, ..c };
        match events[c.index].message {
            Message::Normal { status, data1, data2 } => {
                let rest = scan(events, looping, next, jumped);
                Outcome {
                    cursor: rest.cursor,
                    commands: seq![channel_command(status, data1, data2)] + rest.commands,
                }
            },
            Message::LoopStart => {
                if looping {
                    scan(events, looping, Cursor { anchor: c.index, ..next }, jumped)
                } else {
                    scan(events, looping, next, jumped)
                }
            },
            Message::LoopEnd => {
                if !looping {
                    scan(events, looping, next, jumped)
                } else if jumped {
                    Outcome { cursor: c, commands: Seq::empty() }
                } else {
                    let rest = scan(events, looping, rewound(events, c), true);
                    Outcome { cursor: rest.cursor, commands: seq![release()] + rest.commands }
                }
            },
            Message::Other => scan(events, looping, next, jumped),
        }
    } else {
        Outcome { cursor: c, commands: Seq::empty() }
    }
}

/// One dispatch cycle: a scan, and with looping a wraparound if the scan has
/// consumed the last event. A sequence without events has nothing to wrap
/// around to: its cycle does nothing.
pub open spec fn dispatch(events: Seq<TimedMessage>, looping: bool, c: Cursor) -> Outcome {
    let s = scan(events, looping, c, false);
    if looping && events.len() > 0 && s.cursor.index == events.len() {
        Outcome { cursor: rewound(events, s.cursor), commands: s.commands.push(release()) }
    } else {
        s
    }
}

/// A time as the machine holds it: times beyond the largest that it can hold
/// are held as the largest.
pub open spec fn saturated(time: int) -> int {
    if time <= u64::MAX {
        time
    } else {
        u64::MAX as int
    }
}

/// The sequence time one block later.
pub open spec fn advance(time: int, speed: int, block_size: int) -> int {
    saturated(time + speed * block_size)
}

/// The start of a block: a dispatch cycle if a sequence is bound, then the
/// time moves on by one block.
pub open spec fn begin_block(s: Session, c: Cursor) -> Outcome {
    let d = match s.events {
        Some(events) => dispatch(events, s.looping, c),
        None => Outcome { cursor: c, commands: Seq::empty() },
    };
    Outcome {
        cursor: Cursor {
            time: advance(d.cursor.time, s.speed, s.block_size),
            progress: 0,
            ..d.cursor
        },
        commands: d.commands,
    }
}

/// Renders `frames` frames: whenever the current block is used up a new one
/// begins, and the synthesizer is asked for as many frames as the block and
/// the request both still have.
pub open spec fn render_blocks(s: Session, c: Cursor, frames: int) -> Outcome
    decreases frames,
{
    if frames <= 0 || s.block_size <= 0 || c.progress < 0 || c.progress > s.block_size {
        Outcome { cursor: c, commands: Seq::empty() }
    } else {
        let b = if c.progress == s.block_size {
            begin_block(s, c)
        } else {
            Outcome { cursor: c, commands: Seq::empty() }
        };
        let left = s.block_size - b.cursor.progress;
        let chunk = if left < frames { left } else { frames };
        let rest = render_blocks(
            s,
            Cursor { progress: b.cursor.progress + chunk, ..b.cursor },
            frames - chunk,
        );
        Outcome {
            cursor: rest.cursor,
            commands: b.commands.push(Command::Render { frames: chunk as usize }) + rest.commands,
        }
    }
}

/// The commands of the channel messages among `events`, in order.
pub open spec fn channel_commands(events: Seq<TimedMessage>) -> Seq<Command>
    decreases events.len(),
{
    if events.len() == 0 {
        Seq::empty()
    } else {
        let first = match events.first().message {
            Message::Normal { status, data1, data2 } => seq![channel_command(status, data1, data2)],
            _ => Seq::empty(),
        };
        first + channel_commands(events.drop_first())
    }
}

/// The number of frames that the commands ask the synthesizer for.
pub open spec fn frames_asked(commands: Seq<Command>) -> int
    decreases commands.len(),
{
    if commands.len() == 0 {
        0
    } else {
        frames_asked(commands.drop_last()) + match commands.last() {
            Command::Render { frames } => frames as int,
            _ => 0,
        }
    }
}

/// The blocks that begin while `frames` frames are rendered from a block of
/// which `progress` frames are produced.
pub open spec fn blocks_begun(block_size: int, progress: int, frames: int) -> int {
    if frames <= 0 {
        0
    } else {
        (progress + frames - 1) / block_size
    }
}

/// What one command asks of the synthesizer, with a request for frames
/// taken apart into requests for one frame each.
pub open spec fn single_frames(command: Command) -> Seq<Command> {
    match command {
        Command::Render { frames } => Seq::new(frames as nat, |i: int| Command::Render { frames: 1 }),
        other => seq![other],
    }
}

/// The commands with every request for frames taken apart into requests for
/// one frame each: two command streams with the same result here ask the
/// synthesizer for the same frames between the same events.
pub open spec fn frame_by_frame(commands: Seq<Command>) -> Seq<Command>
    decreases commands.len(),
{
    if commands.len() == 0 {
        Seq::empty()
    } else {
        frame_by_frame(commands.drop_last()) + single_frames(commands.last())
    }
}

} // verus!

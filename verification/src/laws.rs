//! What holds of playback whatever the sequence, proved over the model.

use vstd::prelude::*;
use crate::message::{non_decreasing, Message, TimedMessage};
use crate::model::{
    begin_block, blocks_begun, channel_command, channel_commands, cursor_wf, frame_by_frame,
    dispatch, frames_asked, release, render_blocks, rewound, saturated, scan, session_wf,
    single_frames, Cursor, Outcome, Session,
};
use crate::synthesizer::Command;

verus! {

/// The channel of a channel message is the status byte modulo 16, a number
/// from 0 to 15, and the command is the rest of the status byte.
pub proof fn lemma_channel_and_command(status: u8, data1: u8, data2: u8)
    ensures
        channel_command(status, data1, data2) == (Command::ProcessMidiMessage {
            channel: (status % 16) as i32,
            command: (status - status % 16) as i32,
            data1: data1 as i32,
            data2: data2 as i32,
        }),
        0 <= status % 16 <= 15,
{
    assert(status & 0x0F == status % 16) by (bit_vector);
    assert(status & 0xF0 == status - status % 16) by (bit_vector);
}

/// A scan keeps the cursor within the sequence: the anchor is at most the
/// index, the index at most the length, and the anchor is an event of the
/// sequence if it has any.
pub proof fn lemma_scan_in_range(
    events: Seq<TimedMessage>,
    looping: bool,
    c: Cursor,
    jumped: bool,
)
    requires
        0 <= c.anchor <= c.index <= events.len(),
        c.anchor < events.len() || events.len() == 0,
        0 <= c.time <= u64::MAX,
    ensures
        ({
            let r = scan(events, looping, c, jumped).cursor;
            &&& 0 <= r.anchor <= r.index <= events.len()
            &&& (r.anchor < events.len() || events.len() == 0)
            &&& 0 <= r.time <= u64::MAX
            &&& r.progress == c.progress
        }),
    decreases (if jumped { 0int } else { 1int }), events.len() - c.index,
{
    if 0 <= c.index < events.len() && events[c.index].time <= c.time {
        let next = Cursor { index: c.index + 1, ..c };
        match events[c.index].message {
            Message::Normal { .. } => lemma_scan_in_range(events, looping, next, jumped),
            Message::LoopStart => {
                if looping {
                    lemma_scan_in_range(events, looping, Cursor { anchor: c.index, ..next }, jumped)
                } else {
                    lemma_scan_in_range(events, looping, next, jumped)
                }
            },
            Message::LoopEnd => {
                if !looping {
                    lemma_scan_in_range(events, looping, next, jumped)
                } else if !jumped {
                    lemma_scan_in_range(
                        events,
                        looping,
                        Cursor { time: events[c.anchor].time as int, index: c.anchor, ..c },
                        true,
                    )
                }
            },
            Message::Other => lemma_scan_in_range(events, looping, next, jumped),
        }
    }
}

/// A valid cursor stays valid while frames are rendered: the index never
/// leaves the sequence, the block is never overrun, and a looping playback of
/// a sequence that has events never comes to rest behind the last of them.
pub proof fn lemma_render_keeps_cursor_valid(s: Session, c: Cursor, frames: int)
    requires
        session_wf(s),
        cursor_wf(s, c),
    ensures
        cursor_wf(s, render_blocks(s, c, frames).cursor),
    decreases frames,
{
    if frames <= 0 {
    } else {
        let begun = if c.progress == s.block_size {
            begin_block(s, c)
        } else {
            Outcome { cursor: c, commands: Seq::empty() }
        };
        if c.progress == s.block_size {
            if let Some(events) = s.events {
                lemma_scan_in_range(events, s.looping, c, false);
            }
            assert(s.speed * s.block_size >= 0) by (nonlinear_arith)
                requires
                    s.speed >= 0,
                    s.block_size > 0,
            ;
        }
        let left = s.block_size - begun.cursor.progress;
        let chunk = if left < frames { left } else { frames };
        lemma_render_keeps_cursor_valid(
            s,
            Cursor { progress: begun.cursor.progress + chunk, ..begun.cursor },
            frames - chunk,
        );
    }
}

/// Without looping a scan dispatches the events that are due and no others:
/// it passes over events that are due, stops in front of the first that is
/// not, and issues the commands of the channel messages that it passed over,
/// in their order. In a time-ordered sequence no event that it leaves behind
/// is due.
pub proof fn lemma_scan_dispatches_due(events: Seq<TimedMessage>, c: Cursor, jumped: bool)
    requires
        0 <= c.index <= events.len(),
    ensures
        ({
            let r = scan(events, false, c, jumped);
            &&& c.index <= r.cursor.index <= events.len()
            &&& forall|i: int| c.index <= i < r.cursor.index ==> events[i].time <= c.time
            &&& r.cursor.index < events.len() ==> events[r.cursor.index].time > c.time
            &&& r.commands == channel_commands(events.subrange(c.index, r.cursor.index))
            &&& non_decreasing(events) ==> forall|i: int|
                r.cursor.index <= i < events.len() ==> events[i].time > c.time
        }),
    decreases events.len() - c.index,
{
    let r = scan(events, false, c, jumped);
    if c.index < events.len() && events[c.index].time <= c.time {
        let next = Cursor { index: c.index + 1, ..c };
        lemma_scan_dispatches_due(events, next, jumped);
        let passed = events.subrange(c.index, r.cursor.index);
        assert(passed.first() == events[c.index]);
        assert(passed.drop_first() =~= events.subrange(c.index + 1, r.cursor.index));
        assert(r.commands =~= channel_commands(passed));
    } else {
        assert(events.subrange(c.index, c.index) =~= Seq::<TimedMessage>::empty());
    }
}

/// A scan that has rewound does not rewind again: it leaves the sequence time
/// alone and moves the index and the anchor forward only.
pub proof fn lemma_scan_after_jump(events: Seq<TimedMessage>, looping: bool, c: Cursor)
    requires
        0 <= c.anchor <= c.index,
    ensures
        ({
            let r = scan(events, looping, c, true).cursor;
            &&& r.time == c.time
            &&& c.index <= r.index
            &&& c.anchor <= r.anchor <= r.index
        }),
    decreases events.len() - c.index,
{
    if 0 <= c.index < events.len() && events[c.index].time <= c.time {
        let next = Cursor { index: c.index + 1, ..c };
        match events[c.index].message {
            Message::LoopStart => {
                if looping {
                    lemma_scan_after_jump(events, looping, Cursor { anchor: c.index, ..next });
                } else {
                    lemma_scan_after_jump(events, looping, next);
                }
            },
            Message::LoopEnd => {
                if !looping {
                    lemma_scan_after_jump(events, looping, next);
                }
            },
            _ => lemma_scan_after_jump(events, looping, next),
        }
    }
}

/// Loop wraparound: a looping scan that stands at a loop end that is due
/// releases all notes first, and ends at the time of the anchor, at or behind
/// the anchor.
pub proof fn lemma_loop_end_rewinds(events: Seq<TimedMessage>, c: Cursor)
    requires
        0 <= c.anchor <= c.index < events.len(),
        events[c.index].message == Message::LoopEnd,
        events[c.index].time <= c.time,
    ensures
        ({
            let r = scan(events, true, c, false);
            &&& r.cursor.time == events[c.anchor].time
            &&& r.cursor.index >= c.anchor
            &&& r.commands.len() > 0
            &&& r.commands[0] == release()
            &&& r == (Outcome {
                cursor: scan(events, true, rewound(events, c), true).cursor,
                commands: seq![release()] + scan(events, true, rewound(events, c), true).commands,
            })
        }),
{
    lemma_scan_after_jump(events, true, rewound(events, c));
}

/// A looping scan over events that are all due and hold no loop end consumes
/// them all: it leaves the time alone, issues channel messages only, and its
/// anchor is the last loop start that it met, or the old anchor if it met
/// none.
pub proof fn lemma_scan_to_end(events: Seq<TimedMessage>, c: Cursor, jumped: bool)
    requires
        0 <= c.anchor <= c.index <= events.len(),
        forall|i: int|
            c.index <= i < events.len() ==> events[i].time <= c.time && events[i].message
                != Message::LoopEnd,
    ensures
        ({
            let r = scan(events, true, c, jumped);
            &&& r.cursor.index == events.len()
            &&& r.cursor.time == c.time
            &&& r.cursor.progress == c.progress
            &&& (r.cursor.anchor == c.anchor || (c.index <= r.cursor.anchor < events.len()
                && events[r.cursor.anchor].message == Message::LoopStart))
            &&& forall|i: int|
                c.index <= i < events.len() && events[i].message == Message::LoopStart ==> i
                    <= r.cursor.anchor
            &&& forall|j: int| 0 <= j < r.commands.len() ==> r.commands[j] is ProcessMidiMessage
        }),
    decreases events.len() - c.index,
{
    if c.index < events.len() {
        let next = Cursor { index: c.index + 1, ..c };
        match events[c.index].message {
            Message::LoopStart => lemma_scan_to_end(
                events,
                Cursor { anchor: c.index, ..next },
                jumped,
            ),
            _ => lemma_scan_to_end(events, next, jumped),
        }
    }
}

/// The implicit loop at the end of the sequence: a looping dispatch cycle that
/// has only due events in front of it, none of them a loop end, dispatches
/// them and then wraps around. It ends at the anchor and at the anchor's
/// time, short of the end of the sequence, and the one release that it issues
/// comes after the last channel message. The anchor is the last loop start
/// met, or the old anchor if none was met.
pub proof fn lemma_end_of_sequence_wraps(events: Seq<TimedMessage>, c: Cursor)
    requires
        events.len() > 0,
        0 <= c.anchor <= c.index <= events.len(),
        c.anchor < events.len(),
        forall|i: int|
            c.index <= i < events.len() ==> events[i].time <= c.time && events[i].message
                != Message::LoopEnd,
    ensures
        ({
            let d = dispatch(events, true, c);
            let a = d.cursor.anchor;
            &&& d.cursor.index == a
            &&& 0 <= a < events.len()
            &&& d.cursor.time == events[a].time
            &&& d.cursor.progress == c.progress
            &&& (a == c.anchor || (c.index <= a && events[a].message == Message::LoopStart))
            &&& forall|i: int|
                c.index <= i < events.len() && events[i].message == Message::LoopStart ==> i <= a
            &&& d.commands == scan(events, true, c, false).commands.push(release())
            &&& forall|j: int| 0 <= j < d.commands.len() - 1 ==> d.commands[j] is ProcessMidiMessage
        }),
{
    lemma_scan_to_end(events, c, false);
}

/// In a time-ordered sequence a scan stops in front of an event that is due
/// only where a loop region is empty: the event is a loop end, the scan has
/// rewound before, and the loop end is no later than its anchor.
pub proof fn lemma_stop_at_due_event(events: Seq<TimedMessage>, looping: bool, c: Cursor)
    requires
        non_decreasing(events),
        0 <= c.anchor <= c.index <= events.len(),
        c.anchor < events.len() ==> c.time == events[c.anchor].time,
    ensures
        ({
            let r = scan(events, looping, c, true).cursor;
            r.index < events.len() && events[r.index].time <= r.time ==> {
                &&& looping
                &&& events[r.index].message == Message::LoopEnd
                &&& events[r.index].time == events[r.anchor].time
            }
        }),
    decreases events.len() - c.index,
{
    if 0 <= c.index < events.len() && events[c.index].time <= c.time {
        let next = Cursor { index: c.index + 1, ..c };
        match events[c.index].message {
            Message::LoopStart => {
                if looping {
                    lemma_stop_at_due_event(events, looping, Cursor { anchor: c.index, ..next });
                } else {
                    lemma_stop_at_due_event(events, looping, next);
                }
            },
            Message::LoopEnd => {
                if !looping {
                    lemma_stop_at_due_event(events, looping, next);
                }
            },
            _ => lemma_stop_at_due_event(events, looping, next),
        }
    }
}

/// Taking requests for frames apart goes through concatenation.
pub proof fn lemma_frame_by_frame_concat(x: Seq<Command>, y: Seq<Command>)
    ensures
        frame_by_frame(x + y) == frame_by_frame(x) + frame_by_frame(y),
    decreases y.len(),
{
    if y.len() == 0 {
        assert(x + y =~= x);
        assert(frame_by_frame(x) + frame_by_frame(y) =~= frame_by_frame(x));
    } else {
        assert((x + y).drop_last() =~= x + y.drop_last());
        assert((x + y).last() == y.last());
        lemma_frame_by_frame_concat(x, y.drop_last());
        assert(frame_by_frame(x + y) =~= frame_by_frame(x) + frame_by_frame(y));
    }
}

/// A single command taken apart.
proof fn lemma_frame_by_frame_one(command: Command)
    ensures
        frame_by_frame(seq![command]) == single_frames(command),
{
    let one = seq![command];
    assert(one.drop_last() =~= Seq::<Command>::empty());
    assert(frame_by_frame(one.drop_last()) =~= Seq::<Command>::empty());
    assert(frame_by_frame(one) =~= single_frames(command));
}

/// A request for `a + b` frames asks for the same frames as a request for `a`
/// followed by one for `b`.
proof fn lemma_render_joins(a: usize, b: usize)
    requires
        a + b <= usize::MAX,
    ensures
        frame_by_frame(seq![Command::Render { frames: a }, Command::Render { frames: b }])
            == frame_by_frame(seq![Command::Render { frames: (a + b) as usize }]),
{
    let first = Command::Render { frames: a };
    let second = Command::Render { frames: b };
    let joined = Command::Render { frames: (a + b) as usize };
    lemma_frame_by_frame_one(first);
    lemma_frame_by_frame_one(second);
    lemma_frame_by_frame_one(joined);
    lemma_frame_by_frame_concat(seq![first], seq![second]);
    assert(seq![first] + seq![second] =~= seq![first, second]);
    assert(single_frames(first) + single_frames(second) =~= single_frames(joined));
}

/// Rendering `a` frames and then `b` frames agrees with rendering `a + b`
/// frames at once: in the cursor, and in the frames asked for between the
/// events.
pub open spec fn chunks_agree(s: Session, c: Cursor, a: int, b: int) -> bool {
    let first = render_blocks(s, c, a);
    let second = render_blocks(s, first.cursor, b);
    let whole = render_blocks(s, c, a + b);
    &&& second.cursor == whole.cursor
    &&& frame_by_frame(first.commands + second.commands) == frame_by_frame(whole.commands)
}

/// The cursor at the end of the current block, and the commands up to it.
pub open spec fn block_end(s: Session, c: Cursor) -> Outcome {
    let begun = if c.progress == s.block_size {
        begin_block(s, c)
    } else {
        Outcome { cursor: c, commands: Seq::empty() }
    };
    Outcome {
        cursor: Cursor { progress: s.block_size, ..begun.cursor },
        commands: begun.commands.push(
            Command::Render { frames: (s.block_size - begun.cursor.progress) as usize },
        ),
    }
}

/// The frames left of the current block, a new one begun if it is used up.
pub open spec fn frames_left(s: Session, c: Cursor) -> int {
    if c.progress == s.block_size {
        s.block_size
    } else {
        s.block_size - c.progress
    }
}

/// Chunking where the first request ends within the current block.
proof fn lemma_chunking_within(s: Session, c: Cursor, a: int, b: int)
    requires
        0 < a,
        0 < b,
        a + b <= usize::MAX,
        0 < s.block_size,
        0 <= c.progress <= s.block_size,
        a < frames_left(s, c),
    ensures
        chunks_agree(s, c, a, b),
{
    let first = render_blocks(s, c, a);
    let second = render_blocks(s, first.cursor, b);
    let whole = render_blocks(s, c, a + b);
    let begun = if c.progress == s.block_size {
        begin_block(s, c)
    } else {
        Outcome { cursor: c, commands: Seq::empty() }
    };
    let left = s.block_size - begun.cursor.progress;
    let len_b = if left - a < b { left - a } else { b };
    let at = Cursor { progress: begun.cursor.progress + a + len_b, ..begun.cursor };
    let rest = render_blocks(s, at, b - len_b);
    let mid = Cursor { progress: begun.cursor.progress + a, ..begun.cursor };
    assert(render_blocks(s, mid, 0).commands =~= Seq::<Command>::empty());
    assert(first.cursor == mid);
    let ra = Command::Render { frames: a as usize };
    let rb = Command::Render { frames: len_b as usize };
    let rab = Command::Render { frames: (a + len_b) as usize };
    assert(first.commands =~= begun.commands + seq![ra]);
    assert(second.commands =~= seq![rb] + rest.commands);
    assert(whole.commands =~= begun.commands + seq![rab] + rest.commands);
    assert(first.commands + second.commands =~= begun.commands + seq![ra, rb] + rest.commands);
    lemma_render_joins(a as usize, len_b as usize);
    lemma_frame_by_frame_concat(begun.commands + seq![ra, rb], rest.commands);
    lemma_frame_by_frame_concat(begun.commands, seq![ra, rb]);
    lemma_frame_by_frame_concat(begun.commands + seq![rab], rest.commands);
    lemma_frame_by_frame_concat(begun.commands, seq![rab]);
}

/// Chunking where the first request reaches the end of the current block,
/// given that it holds from there on.
proof fn lemma_chunking_across(s: Session, c: Cursor, a: int, b: int)
    requires
        0 < a,
        0 < b,
        a + b <= usize::MAX,
        0 < s.block_size,
        0 <= c.progress <= s.block_size,
        frames_left(s, c) <= a,
        chunks_agree(s, block_end(s, c).cursor, a - frames_left(s, c), b),
    ensures
        chunks_agree(s, c, a, b),
{
    let first = render_blocks(s, c, a);
    let second = render_blocks(s, first.cursor, b);
    let whole = render_blocks(s, c, a + b);
    let left = frames_left(s, c);
    let at = block_end(s, c).cursor;
    let head = block_end(s, c).commands;
    let first_rest = render_blocks(s, at, a - left);
    let whole_rest = render_blocks(s, at, a - left + b);
    assert(first.cursor == first_rest.cursor);
    assert(first.commands == head + first_rest.commands);
    assert(whole.cursor == whole_rest.cursor);
    assert(whole.commands == head + whole_rest.commands);
    assert(first.commands + second.commands =~= head + (first_rest.commands + second.commands));
    lemma_frame_by_frame_concat(head, first_rest.commands + second.commands);
    lemma_frame_by_frame_concat(head, whole_rest.commands);
}

/// Chunking is transparent: rendering `a` frames and then `b` frames leaves
/// the cursor where rendering `a + b` frames at once leaves it, and asks the
/// synthesizer for the same frames between the same events.
pub proof fn lemma_render_chunking(s: Session, c: Cursor, a: nat, b: nat)
    requires
        a + b <= usize::MAX,
    ensures
        ({
            let first = render_blocks(s, c, a as int);
            let second = render_blocks(s, first.cursor, b as int);
            let whole = render_blocks(s, c, (a + b) as int);
            &&& second.cursor == whole.cursor
            &&& frame_by_frame(first.commands + second.commands) == frame_by_frame(whole.commands)
        }),
    decreases a,
{
    let first = render_blocks(s, c, a as int);
    let second = render_blocks(s, first.cursor, b as int);
    let whole = render_blocks(s, c, (a + b) as int);
    if a == 0 || b == 0 || s.block_size <= 0 || c.progress < 0 || c.progress > s.block_size {
        assert(first.commands + second.commands =~= whole.commands);
    } else if a < frames_left(s, c) {
        lemma_chunking_within(s, c, a as int, b as int);
    } else {
        lemma_render_chunking(s, block_end(s, c).cursor, (a - frames_left(s, c)) as nat, b);
        lemma_chunking_across(s, c, a as int, b as int);
    }
}

/// The frames asked for add up over concatenation.
pub proof fn lemma_frames_asked_concat(x: Seq<Command>, y: Seq<Command>)
    ensures
        frames_asked(x + y) == frames_asked(x) + frames_asked(y),
    decreases y.len(),
{
    if y.len() == 0 {
        assert(x + y =~= x);
    } else {
        assert((x + y).drop_last() =~= x + y.drop_last());
        assert((x + y).last() == y.last());
        lemma_frames_asked_concat(x, y.drop_last());
    }
}

/// A single command asks for frames only if it is a request for frames.
proof fn lemma_frames_asked_one(command: Command)
    ensures
        frames_asked(seq![command]) == match command {
            Command::Render { frames } => frames as int,
            _ => 0,
        },
{
    let one = seq![command];
    assert(one.drop_last() =~= Seq::<Command>::empty());
    assert(frames_asked(one.drop_last()) == 0);
    assert(one.last() == command);
}

/// A scan asks for no frames.
pub proof fn lemma_scan_asks_no_frames(
    events: Seq<TimedMessage>,
    looping: bool,
    c: Cursor,
    jumped: bool,
)
    ensures
        frames_asked(scan(events, looping, c, jumped).commands) == 0,
    decreases (if jumped { 0int } else { 1int }), events.len() - c.index,
{
    if 0 <= c.index < events.len() && events[c.index].time <= c.time {
        let next = Cursor { index: c.index + 1, ..c };
        match events[c.index].message {
            Message::Normal { status, data1, data2 } => {
                lemma_scan_asks_no_frames(events, looping, next, jumped);
                lemma_frames_asked_one(channel_command(status, data1, data2));
                lemma_frames_asked_concat(
                    seq![channel_command(status, data1, data2)],
                    scan(events, looping, next, jumped).commands,
                );
            },
            Message::LoopStart => {
                if looping {
                    lemma_scan_asks_no_frames(
                        events,
                        looping,
                        Cursor { anchor: c.index, ..next },
                        jumped,
                    );
                } else {
                    lemma_scan_asks_no_frames(events, looping, next, jumped);
                }
            },
            Message::LoopEnd => {
                if !looping {
                    lemma_scan_asks_no_frames(events, looping, next, jumped);
                } else if !jumped {
                    lemma_scan_asks_no_frames(events, looping, rewound(events, c), true);
                    lemma_frames_asked_one(release());
                    lemma_frames_asked_concat(
                        seq![release()],
                        scan(events, looping, rewound(events, c), true).commands,
                    );
                }
            },
            Message::Other => lemma_scan_asks_no_frames(events, looping, next, jumped),
        }
    }
}

/// Rendering asks the synthesizer for exactly the frames requested, whatever
/// is bound and wherever the cursor stands.
pub proof fn lemma_render_asks_frames(s: Session, c: Cursor, frames: int)
    requires
        0 < s.block_size,
        0 <= c.progress <= s.block_size,
        0 <= frames <= usize::MAX,
    ensures
        frames_asked(render_blocks(s, c, frames).commands) == frames,
    decreases frames,
{
    if frames > 0 {
        let begun = if c.progress == s.block_size {
            begin_block(s, c)
        } else {
            Outcome { cursor: c, commands: Seq::empty() }
        };
        if c.progress == s.block_size {
            if let Some(events) = s.events {
                let scanned = scan(events, s.looping, c, false).commands;
                lemma_scan_asks_no_frames(events, s.looping, c, false);
                assert(scanned.push(release()).drop_last() =~= scanned);
            }
        }
        assert(frames_asked(begun.commands) == 0);
        let left = s.block_size - begun.cursor.progress;
        let chunk = if left < frames { left } else { frames };
        let asked = begun.commands.push(Command::Render { frames: chunk as usize });
        assert(asked.drop_last() =~= begun.commands);
        let at = Cursor { progress: begun.cursor.progress + chunk, ..begun.cursor };
        lemma_render_asks_frames(s, at, frames - chunk);
        lemma_frames_asked_concat(asked, render_blocks(s, at, frames - chunk).commands);
    }
}

/// Without looping, rendering moves the sequence time on by the speed times
/// the frames of the blocks that begin on the way, up to the largest time
/// that the machine can hold. From `play` on, where the block counts as used
/// up, the blocks begun by `frames` frames are `frames / block_size`, rounded
/// up.
pub proof fn lemma_time_after_frames(s: Session, c: Cursor, frames: int)
    requires
        !s.looping,
        0 <= s.speed,
        0 < s.block_size,
        0 <= c.progress <= s.block_size,
        c.time <= u64::MAX,
    ensures
        render_blocks(s, c, frames).cursor.time == saturated(
            c.time + s.speed * (blocks_begun(s.block_size, c.progress, frames) * s.block_size),
        ),
    decreases frames,
{
    let size = s.block_size;
    let begins = blocks_begun(size, c.progress, frames);
    if frames <= 0 {
        assert(s.speed * (0 * size) == 0) by (nonlinear_arith);
    } else {
        let begun = if c.progress == size {
            begin_block(s, c)
        } else {
            Outcome { cursor: c, commands: Seq::empty() }
        };
        let left = size - begun.cursor.progress;
        let chunk = if left < frames { left } else { frames };
        let at = Cursor { progress: begun.cursor.progress + chunk, ..begun.cursor };
        let rest = blocks_begun(size, at.progress, frames - chunk);
        if c.progress == size {
            if let Some(events) = s.events {
                lemma_scan_keeps_time(events, c, false);
            }
            // One block begins now, the others later.
            assert(begins == 1 + rest) by {
                if frames <= size {
                    assert((size + frames - 1) / size == 1) by (nonlinear_arith)
                        requires
                            0 < frames <= size,
                    ;
                } else {
                    assert((size + frames - 1) / size == 1 + (size + (frames - size) - 1) / size)
                        by (nonlinear_arith)
                        requires
                            0 < size < frames,
                    ;
                }
            }
            assert(s.speed * (begins * size) == s.speed * size + s.speed * (rest * size))
                by (nonlinear_arith)
                requires
                    begins == 1 + rest,
            ;
            assert(rest >= 0) by (nonlinear_arith)
                requires
                    rest == blocks_begun(size, at.progress, frames - chunk),
                    at.progress >= 0,
                    size > 0,
                    frames - chunk <= 0 || rest == (at.progress + (frames - chunk) - 1) / size,
            ;
            assert(s.speed * (rest * size) >= 0) by (nonlinear_arith)
                requires
                    s.speed >= 0,
                    rest >= 0,
                    size > 0,
            ;
        } else {
            assert(begins == rest) by {
                if frames <= left {
                    assert((c.progress + frames - 1) / size == 0) by (nonlinear_arith)
                        requires
                            0 <= c.progress,
                            0 < frames,
                            c.progress + frames <= size,
                    ;
                }
            }
        }
        lemma_time_after_frames(s, at, frames - chunk);
    }
}

/// Without looping a scan leaves the sequence time and the anchor alone.
pub proof fn lemma_scan_keeps_time(events: Seq<TimedMessage>, c: Cursor, jumped: bool)
    ensures
        scan(events, false, c, jumped).cursor.time == c.time,
        scan(events, false, c, jumped).cursor.anchor == c.anchor,
        scan(events, false, c, jumped).cursor.progress == c.progress,
    decreases events.len() - c.index,
{
    if 0 <= c.index < events.len() && events[c.index].time <= c.time {
        lemma_scan_keeps_time(events, Cursor { index: c.index + 1, ..c }, jumped);
    }
}

/// Without looping the sequence time never goes back while frames are
/// rendered.
pub proof fn lemma_time_monotonic(s: Session, c: Cursor, frames: int)
    requires
        !s.looping,
        0 <= s.speed,
        c.time <= u64::MAX,
    ensures
        c.time <= render_blocks(s, c, frames).cursor.time <= u64::MAX,
    decreases frames,
{
    if frames <= 0 || s.block_size <= 0 || c.progress < 0 || c.progress > s.block_size {
    } else {
        let begun = if c.progress == s.block_size {
            begin_block(s, c)
        } else {
            Outcome { cursor: c, commands: Seq::empty() }
        };
        if c.progress == s.block_size {
            if let Some(events) = s.events {
                lemma_scan_keeps_time(events, c, false);
            }
            assert(s.speed * s.block_size >= 0) by (nonlinear_arith)
                requires
                    s.speed >= 0,
                    s.block_size > 0,
            ;
        }
        let left = s.block_size - begun.cursor.progress;
        let chunk = if left < frames { left } else { frames };
        lemma_time_monotonic(
            s,
            Cursor { progress: begun.cursor.progress + chunk, ..begun.cursor },
            frames - chunk,
        );
    }
}

/// Without looping, `blocks` whole blocks rendered from a block boundary move
/// the sequence time on by exactly the speed times the frames rendered, up to
/// the largest time that the machine can hold.
pub proof fn lemma_time_after_blocks(s: Session, c: Cursor, blocks: nat)
    requires
        !s.looping,
        0 <= s.speed,
        0 < s.block_size,
        c.progress == s.block_size,
        c.time <= u64::MAX,
    ensures
        render_blocks(s, c, blocks * s.block_size).cursor.time == saturated(
            c.time + s.speed * (blocks * s.block_size),
        ),
        render_blocks(s, c, blocks * s.block_size).cursor.progress == s.block_size,
    decreases blocks,
{
    if blocks == 0 {
        assert(blocks * s.block_size == 0) by (nonlinear_arith)
            requires
                blocks == 0,
        ;
        assert(s.speed * 0 == 0) by (nonlinear_arith);
    } else {
        let frames = blocks * s.block_size;
        assert(frames == (blocks - 1) * s.block_size + s.block_size) by (nonlinear_arith)
            requires
                frames == blocks * s.block_size,
        ;
        assert((blocks - 1) * s.block_size >= 0) by (nonlinear_arith)
            requires
                blocks >= 1,
                s.block_size > 0,
        ;
        assert(s.speed * frames == s.speed * s.block_size + s.speed * ((blocks - 1)
            * s.block_size)) by (nonlinear_arith)
            requires
                frames == (blocks - 1) * s.block_size + s.block_size,
        ;
        assert(s.speed * ((blocks - 1) * s.block_size) >= 0) by (nonlinear_arith)
            requires
                s.speed >= 0,
                (blocks - 1) * s.block_size >= 0,
        ;
        if let Some(events) = s.events {
            lemma_scan_keeps_time(events, c, false);
        }
        let begun = begin_block(s, c);
        assert(begun.cursor.time == saturated(c.time + s.speed * s.block_size));
        let at = Cursor { progress: s.block_size, ..begun.cursor };
        lemma_time_after_blocks(s, at, (blocks - 1) as nat);
        assert(render_blocks(s, c, frames).cursor == render_blocks(
            s,
            at,
            (blocks - 1) * s.block_size,
        ).cursor);
    }
}

/// Doubling the speed halves the frames that it takes to reach a sequence
/// time: from one block boundary, without looping, `blocks` blocks at twice
/// the speed end at the time at which `2 * blocks` blocks at the single speed
/// end.
pub proof fn lemma_double_speed(s: Session, c: Cursor, blocks: nat)
    requires
        !s.looping,
        0 <= s.speed,
        0 < s.block_size,
        c.progress == s.block_size,
        c.time <= u64::MAX,
    ensures
        render_blocks(Session { speed: 2 * s.speed, ..s }, c, blocks * s.block_size).cursor.time
            == render_blocks(s, c, (2 * blocks) * s.block_size).cursor.time,
{
    let fast = Session { speed: 2 * s.speed, ..s };
    assert(s.speed * ((2 * blocks) * s.block_size) == (2 * s.speed) * (blocks * s.block_size))
        by (nonlinear_arith);
    lemma_time_after_blocks(fast, c, blocks);
    lemma_time_after_blocks(s, c, 2 * blocks);
}

/// At speed 0, without looping, the sequence time stands still however many
/// frames are rendered, and the frames are still asked for.
pub proof fn lemma_paused(s: Session, c: Cursor, frames: int)
    requires
        !s.looping,
        s.speed == 0,
        c.time <= u64::MAX,
    ensures
        render_blocks(s, c, frames).cursor.time == c.time,
        0 < s.block_size && 0 <= c.progress <= s.block_size && 0 <= frames <= usize::MAX
            ==> frames_asked(render_blocks(s, c, frames).commands) == frames,
    decreases frames,
{
    if 0 < s.block_size && 0 <= c.progress <= s.block_size && 0 <= frames <= usize::MAX {
        lemma_render_asks_frames(s, c, frames);
    }
    if frames <= 0 || s.block_size <= 0 || c.progress < 0 || c.progress > s.block_size {
    } else {
        let begun = if c.progress == s.block_size {
            begin_block(s, c)
        } else {
            Outcome { cursor: c, commands: Seq::empty() }
        };
        if c.progress == s.block_size {
            if let Some(events) = s.events {
                lemma_scan_keeps_time(events, c, false);
            }
            assert(s.speed * s.block_size == 0) by (nonlinear_arith)
                requires
                    s.speed == 0,
            ;
        }
        let left = s.block_size - begun.cursor.progress;
        let chunk = if left < frames { left } else { frames };
        lemma_paused(
            s,
            Cursor { progress: begun.cursor.progress + chunk, ..begun.cursor },
            frames - chunk,
        );
    }
}

/// With nothing left to dispatch (no sequence bound, or a playback that does
/// not loop and is behind its last event), rendering leaves the index where
/// it is and issues nothing but requests for frames.
pub proof fn lemma_quiet(s: Session, c: Cursor, frames: int)
    requires
        s.events matches Some(events) ==> !s.looping && c.index == events.len(),
    ensures
        render_blocks(s, c, frames).cursor.index == c.index,
        forall|i: int|
            0 <= i < render_blocks(s, c, frames).commands.len() ==> render_blocks(
                s,
                c,
                frames,
            ).commands[i] is Render,
    decreases frames,
{
    if frames <= 0 || s.block_size <= 0 || c.progress < 0 || c.progress > s.block_size {
    } else {
        let begun = if c.progress == s.block_size {
            begin_block(s, c)
        } else {
            Outcome { cursor: c, commands: Seq::empty() }
        };
        assert(begun.commands =~= Seq::<Command>::empty());
        let left = s.block_size - begun.cursor.progress;
        let chunk = if left < frames { left } else { frames };
        lemma_quiet(
            s,
            Cursor { progress: begun.cursor.progress + chunk, ..begun.cursor },
            frames - chunk,
        );
    }
}

} // verus!

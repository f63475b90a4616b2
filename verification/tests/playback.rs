use std::sync::Arc;

use midi_sequencer::message::{Message, MidiFile, TimedMessage};
use midi_sequencer::sequencer::MidiFileSequencer;
use midi_sequencer::synthesizer::{Command, Synthesizer, SPEED_UNIT};

// Eight frames per second and four frames per block: a block lasts half a second.
const SAMPLE_RATE: u32 = 8;
const BLOCK: usize = 4;
const SECOND: u64 = 8_000_000;
const HALF: u64 = 4_000_000;

fn sequencer() -> MidiFileSequencer {
    MidiFileSequencer::new(Synthesizer::new(SAMPLE_RATE, BLOCK).unwrap())
}

fn file(events: &[(u64, Message)]) -> Arc<MidiFile> {
    let events: Vec<TimedMessage> =
        events.iter().map(|&(time, message)| TimedMessage { time, message }).collect();
    Arc::new(MidiFile::new(events).unwrap())
}

fn note(status: u8, data1: u8, data2: u8) -> Message {
    Message::Normal { status, data1, data2 }
}

fn event(channel: i32, command: i32, data1: i32, data2: i32) -> Command {
    Command::ProcessMidiMessage { channel, command, data1, data2 }
}

fn frames(frames: usize) -> Command {
    Command::Render { frames }
}

fn release() -> Command {
    Command::NoteOffAll { immediate: false }
}

fn frame_by_frame(commands: &[Command]) -> Vec<Command> {
    let mut out = Vec::new();
    for command in commands {
        match command {
            Command::Render { frames } => {
                for _ in 0..*frames {
                    out.push(Command::Render { frames: 1 });
                }
            }
            other => out.push(*other),
        }
    }
    out
}

fn looped_file() -> Arc<MidiFile> {
    file(&[
        (0, note(0x90, 60, 100)),
        (SECOND, Message::LoopStart),
        (2 * SECOND, note(0x91, 62, 90)),
        (3 * SECOND, Message::LoopEnd),
        (100 * SECOND, Message::Other),
    ])
}

#[test]
fn new_sequencer_is_idle_at_unit_speed() {
    let mut s = sequencer();
    assert!(s.end_of_sequence());
    assert!(s.get_midi_file().is_none());
    assert_eq!(s.get_position(), 0);
    assert_eq!(s.get_speed(), SPEED_UNIT);
    assert_eq!(s.get_synthesizer().get_block_size(), BLOCK);
    assert_eq!(s.get_synthesizer().get_sample_rate(), SAMPLE_RATE);
    assert_eq!(s.get_synthesizer().ticks_per_second(), SECOND);
    assert_eq!(s.take_commands(), vec![]);
}

#[test]
fn render_before_play_only_asks_for_frames() {
    let mut s = sequencer();
    s.render(6);
    assert_eq!(s.take_commands(), vec![frames(4), frames(2)]);
    s.render(3);
    assert_eq!(s.take_commands(), vec![frames(2), frames(1)]);
    assert!(s.end_of_sequence());
    // Two blocks have begun since the sequencer was made.
    assert_eq!(s.get_position(), SECOND);
}

#[test]
fn stop_then_render_is_safe() {
    let mut s = sequencer();
    s.play(&looped_file(), true);
    s.render(10);
    s.stop();
    assert!(s.end_of_sequence());
    assert!(s.get_midi_file().is_none());
    s.take_commands();
    s.render(9);
    let commands = s.take_commands();
    assert!(commands.iter().all(|c| matches!(c, Command::Render { .. })));
    assert_eq!(frame_by_frame(&commands).len(), 9);
    assert!(s.end_of_sequence());
}

#[test]
fn stop_resets_the_synthesizer() {
    let mut s = sequencer();
    s.stop();
    assert_eq!(s.take_commands(), vec![Command::Reset]);
}

#[test]
fn play_binds_and_resets() {
    let mut s = sequencer();
    s.render(3);
    s.take_commands();
    let f = looped_file();
    s.play(&f, false);
    assert_eq!(s.take_commands(), vec![Command::Reset]);
    assert_eq!(s.get_position(), 0);
    assert!(!s.end_of_sequence());
    assert_eq!(s.get_midi_file().unwrap().len(), 5);
    // The block counts as used up: the first frame is preceded by a dispatch cycle.
    s.render(1);
    assert_eq!(s.take_commands(), vec![event(0, 0x90, 60, 100), frames(1)]);
    assert_eq!(s.get_position(), HALF);
}

#[test]
fn play_again_starts_over() {
    let mut s = sequencer();
    let f = file(&[(0, note(0x90, 60, 100))]);
    s.play(&f, false);
    s.render(8);
    assert!(s.end_of_sequence());
    s.play(&f, false);
    assert!(!s.end_of_sequence());
    assert_eq!(s.get_position(), 0);
    s.take_commands();
    s.render(4);
    assert_eq!(s.take_commands(), vec![event(0, 0x90, 60, 100), frames(4)]);
}

#[test]
fn events_wait_for_the_block_boundary() {
    let mut s = sequencer();
    // Due a quarter of a second in: dispatched at the start of the second block.
    s.play(&file(&[(0, note(0x93, 1, 2)), (HALF / 2, note(0xB5, 7, 127)), (SECOND + 1, Message::Other)]), false);
    s.take_commands();
    s.render(12);
    assert_eq!(
        s.take_commands(),
        vec![event(3, 0x90, 1, 2), frames(4), event(5, 0xB0, 7, 127), frames(4), frames(4)]
    );
    assert!(!s.end_of_sequence());
    s.render(1);
    assert!(s.end_of_sequence());
}

#[test]
fn status_byte_splits_into_channel_and_command() {
    let mut s = sequencer();
    s.play(&file(&[(0, note(0xEF, 0xFF, 0x80))]), false);
    s.take_commands();
    s.render(1);
    assert_eq!(s.take_commands(), vec![event(15, 0xE0, 255, 128), frames(1)]);
}

#[test]
fn chunking_is_transparent() {
    let chunks: [usize; 7] = [3, 5, 1, 30, 0, 17, 4];
    let total: usize = chunks.iter().sum();

    let mut a = sequencer();
    a.play(&looped_file(), true);
    for n in chunks {
        a.render(n);
    }
    let mut b = sequencer();
    b.play(&looped_file(), true);
    b.render(total);

    assert_eq!(a.get_position(), b.get_position());
    assert_eq!(a.end_of_sequence(), b.end_of_sequence());
    let a_commands = a.take_commands();
    let b_commands = b.take_commands();
    assert_eq!(frame_by_frame(&a_commands), frame_by_frame(&b_commands));
    // What follows is the same too.
    a.render(11);
    b.render(11);
    assert_eq!(a.take_commands(), b.take_commands());
    assert_eq!(a.get_position(), b.get_position());
}

#[test]
fn time_advances_by_speed_times_frames() {
    let mut s = sequencer();
    s.play(&file(&[(0, Message::Other), (1000 * SECOND, Message::Other)]), false);
    let mut last = s.get_position();
    for k in 1..=10u64 {
        s.render(BLOCK);
        let now = s.get_position();
        assert!(now >= last);
        assert_eq!(now, k * SPEED_UNIT * 4);
        last = now;
    }
    // 40 frames at 8 frames a second are five seconds.
    assert_eq!(s.get_position(), 5 * s.get_synthesizer().ticks_per_second());
}

#[test]
fn loop_wraparound_replays_the_region() {
    let mut s = sequencer();
    s.play(&looped_file(), true);
    s.take_commands();
    let mut log: Vec<Command> = Vec::new();

    s.render(6 * BLOCK);
    assert_eq!(s.get_position(), 3 * SECOND);
    log.extend(s.take_commands());
    assert_eq!(log.iter().filter(|c| **c == event(1, 0x90, 62, 90)).count(), 1);

    // The cycle at three seconds meets the loop end.
    s.render(BLOCK);
    assert_eq!(s.take_commands(), vec![release(), frames(4)]);
    assert_eq!(s.get_position(), SECOND + HALF);
    assert!(!s.end_of_sequence());

    s.render(2 * BLOCK);
    let again = s.take_commands();
    assert_eq!(again, vec![frames(4), event(1, 0x90, 62, 90), frames(4)]);
    log.extend(again);
    assert_eq!(log.iter().filter(|c| **c == event(1, 0x90, 62, 90)).count(), 2);
    // The event in front of the loop start is not replayed.
    assert_eq!(log.iter().filter(|c| **c == event(0, 0x90, 60, 100)).count(), 1);
}

#[test]
fn end_of_sequence_wraps_to_the_start_when_looping() {
    let mut s = sequencer();
    s.play(&file(&[(0, note(0x90, 60, 100)), (SECOND, note(0x80, 60, 0))]), true);
    s.take_commands();
    s.render(BLOCK);
    assert_eq!(s.take_commands(), vec![event(0, 0x90, 60, 100), frames(4)]);
    s.render(BLOCK);
    assert_eq!(s.take_commands(), vec![frames(4)]);
    assert_eq!(s.get_position(), SECOND);
    s.render(BLOCK);
    assert_eq!(s.take_commands(), vec![event(0, 0x80, 60, 0), release(), frames(4)]);
    assert_eq!(s.get_position(), HALF);
    assert!(!s.end_of_sequence());
    s.render(BLOCK);
    assert_eq!(s.take_commands(), vec![event(0, 0x90, 60, 100), frames(4)]);
}

#[test]
fn playback_ends_behind_the_last_event() {
    let mut s = sequencer();
    s.play(&file(&[(0, note(0x90, 60, 100)), (HALF, note(0x80, 60, 0))]), false);
    s.take_commands();
    assert!(!s.end_of_sequence());
    s.render(BLOCK);
    assert!(!s.end_of_sequence());
    s.render(1);
    assert!(s.end_of_sequence());
    assert_eq!(
        s.take_commands(),
        vec![event(0, 0x90, 60, 100), frames(4), event(0, 0x80, 60, 0), frames(1)]
    );
    s.render(10 * BLOCK);
    assert!(s.end_of_sequence());
    let commands = s.take_commands();
    assert!(commands.iter().all(|c| matches!(c, Command::Render { .. })));
    assert_eq!(frame_by_frame(&commands).len(), 10 * BLOCK);
}

#[test]
fn empty_sequence_is_finished_at_once() {
    let mut s = sequencer();
    s.play(&file(&[]), false);
    assert!(s.end_of_sequence());
    s.take_commands();
    s.render(5);
    assert_eq!(s.take_commands(), vec![frames(4), frames(1)]);
}

#[test]
fn loop_markers_are_inert_without_looping() {
    let mut s = sequencer();
    s.play(
        &file(&[(0, Message::LoopStart), (0, note(0x90, 1, 1)), (0, Message::LoopEnd), (0, note(0x80, 1, 0))]),
        false,
    );
    s.take_commands();
    s.render(BLOCK);
    assert_eq!(s.take_commands(), vec![event(0, 0x90, 1, 1), event(0, 0x80, 1, 0), frames(4)]);
    assert!(s.end_of_sequence());
    assert_eq!(s.get_position(), HALF);
}

#[test]
fn last_loop_start_wins() {
    let mut s = sequencer();
    s.play(
        &file(&[
            (0, Message::LoopStart),
            (0, note(0x90, 1, 1)),
            (HALF, Message::LoopStart),
            (HALF, note(0x90, 2, 2)),
            (SECOND, Message::LoopEnd),
            (9 * SECOND, Message::Other),
        ]),
        true,
    );
    s.take_commands();
    s.render(3 * BLOCK);
    assert_eq!(
        s.take_commands(),
        vec![
            event(0, 0x90, 1, 1),
            frames(4),
            event(0, 0x90, 2, 2),
            frames(4),
            release(),
            event(0, 0x90, 2, 2),
            frames(4),
        ]
    );
    assert_eq!(s.get_position(), SECOND);
}

#[test]
fn empty_loop_region_is_replayed_once_per_block() {
    let mut s = sequencer();
    s.play(
        &file(&[(0, Message::LoopStart), (0, note(0x90, 1, 1)), (0, Message::LoopEnd), (SECOND, Message::Other)]),
        true,
    );
    s.take_commands();
    s.render(BLOCK);
    assert_eq!(s.take_commands(), vec![event(0, 0x90, 1, 1), release(), event(0, 0x90, 1, 1), frames(4)]);
    assert_eq!(s.get_position(), HALF);
    s.render(BLOCK);
    assert_eq!(s.take_commands(), vec![release(), event(0, 0x90, 1, 1), frames(4)]);
    assert_eq!(s.get_position(), HALF);
    assert!(!s.end_of_sequence());
}

#[test]
fn double_speed_reaches_a_time_in_half_the_frames() {
    let f = file(&[(0, Message::Other), (1000 * SECOND, Message::Other)]);
    let mut slow = sequencer();
    slow.play(&f, false);
    slow.render(6 * BLOCK);
    let mut fast = sequencer();
    fast.set_speed(2 * SPEED_UNIT);
    assert_eq!(fast.get_speed(), 2 * SPEED_UNIT);
    fast.play(&f, false);
    fast.render(3 * BLOCK);
    assert_eq!(fast.get_position(), slow.get_position());
    assert_eq!(fast.get_position(), 3 * SECOND);
}

#[test]
fn speed_zero_freezes_the_time_but_not_the_frames() {
    let mut s = sequencer();
    s.set_speed(0);
    s.play(&file(&[(0, note(0x90, 1, 1)), (1, note(0x80, 1, 0))]), false);
    s.take_commands();
    s.render(5 * BLOCK);
    assert_eq!(s.get_position(), 0);
    assert!(!s.end_of_sequence());
    let commands = s.take_commands();
    assert_eq!(commands[0], event(0, 0x90, 1, 1));
    assert!(commands[1..].iter().all(|c| matches!(c, Command::Render { .. })));
    assert_eq!(frame_by_frame(&commands).len(), 1 + 5 * BLOCK);
}

#[test]
fn time_stops_at_the_largest_value() {
    let mut s = sequencer();
    s.set_speed(u64::MAX);
    s.play(&file(&[(u64::MAX, note(0x90, 1, 1))]), false);
    s.take_commands();
    s.render(BLOCK);
    assert_eq!(s.get_position(), u64::MAX);
    assert!(!s.end_of_sequence());
    s.render(BLOCK);
    assert_eq!(s.get_position(), u64::MAX);
    assert!(s.end_of_sequence());
}

#[test]
fn take_commands_empties_the_queue() {
    let mut s = sequencer();
    s.render(2);
    assert_eq!(s.take_commands(), vec![frames(2)]);
    assert_eq!(s.take_commands(), vec![]);
}

#[test]
fn play_shares_the_sequence() {
    let f = looped_file();
    let mut s = sequencer();
    assert_eq!(Arc::strong_count(&f), 1);
    s.play(&f, true);
    assert_eq!(Arc::strong_count(&f), 2);
    let bound = s.get_midi_file().unwrap();
    assert_eq!(bound.len(), f.len());
    for i in 0..f.len() {
        assert_eq!(bound.get(i), f.get(i));
    }
    let mut t = sequencer();
    t.play(&f, false);
    assert_eq!(Arc::strong_count(&f), 3);
    s.stop();
    assert_eq!(Arc::strong_count(&f), 2);
}

#[test]
fn loop_end_rewinds_to_the_start_without_a_loop_start() {
    let mut s = sequencer();
    s.play(
        &file(&[(0, note(0x90, 1, 1)), (HALF, Message::LoopEnd), (9 * SECOND, Message::Other)]),
        true,
    );
    s.take_commands();
    s.render(2 * BLOCK);
    assert_eq!(
        s.take_commands(),
        vec![event(0, 0x90, 1, 1), frames(4), release(), event(0, 0x90, 1, 1), frames(4)]
    );
    assert_eq!(s.get_position(), HALF);
    s.render(BLOCK);
    assert_eq!(s.take_commands(), vec![release(), event(0, 0x90, 1, 1), frames(4)]);
}

#[test]
fn time_counts_the_blocks_begun() {
    for n in 0..=20usize {
        let mut s = sequencer();
        s.set_speed(3);
        s.play(&file(&[(u64::MAX, Message::Other)]), false);
        s.take_commands();
        s.render(n);
        let begun = if n == 0 { 0 } else { (BLOCK + n - 1) / BLOCK };
        assert_eq!(s.get_position(), 3 * (begun * BLOCK) as u64);
        let asked: usize = s
            .take_commands()
            .iter()
            .map(|c| match c {
                Command::Render { frames } => *frames,
                _ => 0,
            })
            .sum();
        assert_eq!(asked, n);
    }
}

#[test]
fn empty_sequence_can_be_played_looping() {
    let mut s = sequencer();
    let f = file(&[]);
    s.play(&f, true);
    assert_eq!(s.take_commands(), vec![Command::Reset]);
    assert!(s.end_of_sequence());
    assert_eq!(s.get_position(), 0);
    assert_eq!(s.get_midi_file().unwrap().len(), 0);
    s.render(2 * BLOCK + 1);
    assert_eq!(s.take_commands(), vec![frames(4), frames(4), frames(1)]);
    assert!(s.end_of_sequence());
    assert_eq!(s.get_position(), 3 * HALF);
}

#[test]
fn sequence_that_begins_with_a_loop_end_replays_nothing_forever() {
    let mut s = sequencer();
    s.play(&file(&[(0, Message::LoopEnd), (0, note(0x90, 1, 1)), (SECOND, Message::Other)]), true);
    s.take_commands();
    for _ in 0..5 {
        s.render(BLOCK);
        // The anchor is the loop end itself: every cycle rewinds to it, and
        // the note behind it is never sent.
        assert_eq!(s.take_commands(), vec![release(), frames(4)]);
        assert_eq!(s.get_position(), HALF);
        assert!(!s.end_of_sequence());
    }
    // Without looping the same sequence plays through.
    s.play(&file(&[(0, Message::LoopEnd), (0, note(0x90, 1, 1)), (SECOND, Message::Other)]), false);
    s.take_commands();
    s.render(BLOCK);
    assert_eq!(s.take_commands(), vec![event(0, 0x90, 1, 1), frames(4)]);
}

#[test]
fn play_leaves_no_trace_of_the_playback_before() {
    let b = file(&[(0, note(0x92, 5, 6)), (HALF, Message::LoopStart), (SECOND, note(0x82, 5, 0))]);
    for flag in [false, true] {
        let mut used = sequencer();
        used.set_speed(7);
        used.play(&looped_file(), true);
        used.render(7 * BLOCK + 3);
        used.take_commands();
        used.play(&b, flag);
        let mut fresh = sequencer();
        fresh.set_speed(7);
        fresh.play(&b, flag);
        assert_eq!(used.take_commands(), vec![Command::Reset]);
        assert_eq!(fresh.take_commands(), vec![Command::Reset]);
        assert_eq!(used.get_speed(), 7);
        assert_eq!(used.get_position(), 0);
        assert_eq!(used.end_of_sequence(), fresh.end_of_sequence());
        used.set_speed(SPEED_UNIT);
        fresh.set_speed(SPEED_UNIT);
        for n in [1usize, 3, 4, 9, 20] {
            used.render(n);
            fresh.render(n);
            assert_eq!(used.take_commands(), fresh.take_commands());
            assert_eq!(used.get_position(), fresh.get_position());
            assert_eq!(used.end_of_sequence(), fresh.end_of_sequence());
        }
    }
    // The sequence handed in is still whole.
    assert_eq!(b.len(), 3);
    assert_eq!(b.get(0), TimedMessage { time: 0, message: note(0x92, 5, 6) });
}

#[test]
fn settings_of_the_synthesizer_stay_fixed() {
    let mut s = sequencer();
    s.render(1);
    s.set_speed(5);
    s.play(&looped_file(), true);
    s.render(40);
    s.take_commands();
    s.stop();
    assert_eq!(s.get_synthesizer().get_sample_rate(), SAMPLE_RATE);
    assert_eq!(s.get_synthesizer().get_block_size(), BLOCK);
    assert_eq!(s.get_synthesizer().ticks_per_second(), SECOND);
}

#[test]
fn time_between_block_boundaries_is_a_whole_number_of_steps() {
    let mut s = sequencer();
    s.play(&file(&[(u64::MAX, Message::Other)]), false);
    let mut total: usize = 0;
    for n in [1usize, 2, 1, 5, 3, 4, 8, 1] {
        s.render(n);
        total += n;
        let begun = (total + BLOCK - 1) / BLOCK;
        assert_eq!(s.get_position(), begun as u64 * HALF);
    }
}

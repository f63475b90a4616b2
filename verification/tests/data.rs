use midi_sequencer::message::{Message, MidiFile, TimedMessage};
use midi_sequencer::synthesizer::{Command, Synthesizer, SPEED_UNIT};

fn at(time: u64) -> TimedMessage {
    TimedMessage { time, message: Message::Other }
}

#[test]
fn midi_file_keeps_its_events() {
    let events = vec![
        TimedMessage { time: 0, message: Message::LoopStart },
        TimedMessage { time: 0, message: Message::Normal { status: 0x90, data1: 1, data2: 2 } },
        TimedMessage { time: 7, message: Message::LoopEnd },
    ];
    let file = MidiFile::new(events.clone()).unwrap();
    assert_eq!(file.len(), 3);
    for (i, event) in events.iter().enumerate() {
        assert_eq!(file.get(i), *event);
    }
}

#[test]
fn midi_file_accepts_equal_times_and_nothing() {
    assert!(MidiFile::new(vec![at(5), at(5), at(5)]).is_some());
    assert!(MidiFile::new(vec![at(9)]).is_some());
    assert_eq!(MidiFile::new(vec![]).unwrap().len(), 0);
}

#[test]
fn midi_file_refuses_times_that_go_back() {
    assert!(MidiFile::new(vec![at(1), at(0)]).is_none());
    assert!(MidiFile::new(vec![at(0), at(3), at(2), at(4)]).is_none());
    assert!(MidiFile::new(vec![at(0), at(1), at(2), at(1)]).is_none());
}

#[test]
fn synthesizer_needs_positive_settings() {
    assert!(Synthesizer::new(0, 64).is_none());
    assert!(Synthesizer::new(44100, 0).is_none());
    let s = Synthesizer::new(44100, 64).unwrap();
    assert_eq!(s.get_sample_rate(), 44100);
    assert_eq!(s.get_block_size(), 64);
    assert_eq!(s.ticks_per_second(), 44_100_000_000);
    assert_eq!(Synthesizer::new(u32::MAX, 1).unwrap().ticks_per_second(), 4_294_967_295_000_000);
    assert_eq!(SPEED_UNIT, 1_000_000);
}

#[test]
fn synthesizer_queues_commands_in_order() {
    let mut s = Synthesizer::new(8, 4).unwrap();
    s.reset();
    s.process_midi_message(1, 0x90, 60, 100);
    s.note_off_all(false);
    s.note_off_all(true);
    s.render(3);
    assert_eq!(
        s.take_commands(),
        vec![
            Command::Reset,
            Command::ProcessMidiMessage { channel: 1, command: 0x90, data1: 60, data2: 100 },
            Command::NoteOffAll { immediate: false },
            Command::NoteOffAll { immediate: true },
            Command::Render { frames: 3 },
        ]
    );
    assert_eq!(s.take_commands(), vec![]);
    assert_eq!(s.get_block_size(), 4);
}

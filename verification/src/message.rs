use vstd::prelude::*;

verus! {

/// One message of a MIDI sequence, as far as playback distinguishes them.
#[derive(Clone, Copy, Debug, PartialEq, Eq, Structural)]
pub enum Message {
    /// A channel message: the status byte holds the command in its high
    /// nibble and the channel in its low nibble.
    Normal { status: u8, data1: u8, data2: u8 },
    /// Marks the place at which a looping playback resumes.
    LoopStart,
    /// Marks the place at which a looping playback jumps back.
    LoopEnd,
    /// Any other message; playback consumes it without effect.
    Other,
}

/// A message together with its absolute time in ticks.
#[derive(Clone, Copy, Debug, PartialEq, Eq, Structural)]
pub struct TimedMessage {
    pub time: u64,
    pub message: Message,
}

/// The times of `events` never go down as the index goes up.
pub open spec fn non_decreasing(events: Seq<TimedMessage>) -> bool {
    forall|i: int, j: int| 0 <= i <= j < events.len() ==> events[i].time <= events[j].time
}

/// An immutable MIDI sequence: timed messages in playback order.
#[derive(Debug)]
pub struct MidiFile {
    events: Vec<TimedMessage>,
}

impl View for MidiFile {
    type V = Seq<TimedMessage>;

    closed spec fn view(&self) -> Seq<TimedMessage> {
        self.events@
    }
}

impl MidiFile {
    /// The sequence is time-ordered.
    pub open spec fn wf(&self) -> bool {
        non_decreasing(self@)
    }

    /// Builds a sequence from its events, or refuses them if some event is
    /// earlier than the one before it.
    pub fn new(events: Vec<TimedMessage>) -> (file: Option<MidiFile>)
        ensures
            file.is_some() <==> non_decreasing(events@),
            file.is_some() ==> file.unwrap()@ == events@ && file.unwrap().wf(),
    {
        let n: usize = events.len();
        let mut k: usize = 1;
        while k < n
            invariant
                n == events.len(),
                1 <= k,
                forall|i: int, j: int| 0 <= i <= j < k && j < n ==> events[i].time <= events[j].time,
            decreases n - k,
        {
            if events[k - 1].time > events[k].time {
                return None;
            }
            k += 1;
        }
        Some(MidiFile { events })
    }

    /// The number of events.
    pub fn len(&self) -> (n: usize)
        ensures
            n == self@.len(),
    {
        self.events.len()
    }

    /// The event at `index`.
    pub fn get(&self, index: usize) -> (event: TimedMessage)
        requires
            index < self@.len(),
        ensures
            event == self@[index as int],
    {
        self.events[index]
    }
}

} // verus!

//! Playing a file: the buffer between decoder and device, and the state that the two share.
//!
//! A sample is held by the bits of the number that stands for it.

use vstd::prelude::*;

use crate::text;

verus! {

/// The value that stands for "no seek is wanted".
pub const NO_SEEK: u64 = u64::MAX;

/// The lowest rate, in samples per second, that is played or decoded.
pub const MIN_SAMPLE_RATE: u32 = 8000;

/// The highest rate that is played.
pub const MAX_SAMPLE_RATE: u32 = 192000;

/// The highest rate that is decoded.
pub const MAX_SOURCE_RATE: u32 = 384000;

/// The most channels that are played.
pub const MAX_OUTPUT_CHANNELS: usize = 8;

/// The most channels that are decoded.
pub const MAX_SOURCE_CHANNELS: usize = 32;

/// How much is decoded before the device is started, in thousandths of a second.
pub const PREBUFFER_MILLIS: usize = 100;

/// The volume in per cent at which a file begins.
pub const DEFAULT_VOLUME: u8 = 80;

/// What the player reports.
#[derive(PartialEq, Eq, Debug)]
pub enum PlayerEvent {
    Ended,
    Error(String),
}

/// What the player does.
#[derive(Clone, Copy, PartialEq, Eq, Structural, Debug)]
pub enum PlaybackState {
    Stopped,
    Playing,
    Paused,
}

/// The slot that the writer may fill when the cursors stand at `head` and `tail`; none where the
/// buffer is full.
pub fn writable_slot(head: usize, tail: usize, capacity: usize) -> (result: Option<usize>)
    requires
        tail <= head,
    ensures
        match result {
            Some(slot) => head - tail < capacity && slot == head as int % capacity as int,
            None => head - tail >= capacity,
        },
{
    if head - tail >= capacity {
        None
    } else {
        Some(head % capacity)
    }
}

/// The slot that the reader may empty when the cursors stand at `head` and `tail`; none where the
/// buffer is empty.
pub fn readable_slot(head: usize, tail: usize, capacity: usize) -> (result: Option<usize>)
    requires
        capacity > 0 || head == tail,
    ensures
        match result {
            Some(slot) => head != tail && slot == tail as int % capacity as int,
            None => head == tail,
        },
{
    if tail == head {
        None
    } else {
        Some(tail % capacity)
    }
}

/// A buffer of samples that gives them back in the order in which they came.
pub struct Ring {
    cells: Vec<u32>,
    head: usize,
    tail: usize,
}

/// The samples between two cursors.
spec fn between(cells: Seq<u32>, tail: int, head: int) -> Seq<u32> {
    Seq::new((head - tail) as nat, |i: int| cells[(tail + i) % (cells.len() as int)])
}

proof fn lemma_slots_differ(a: int, b: int, n: int)
    requires
        0 <= a < b < a + n,
    ensures
        a % n != b % n,
{
    if a % n == b % n {
        vstd::arithmetic::div_mod::lemma_fundamental_div_mod(a, n);
        vstd::arithmetic::div_mod::lemma_fundamental_div_mod(b, n);
        let d = b / n - a / n;
        assert(b - a == n * d) by (nonlinear_arith)
            requires
                a == n * (a / n) + a % n,
                b == n * (b / n) + b % n,
                a % n == b % n,
                d == b / n - a / n,
        ;
        assert(false) by (nonlinear_arith)
            requires
                b - a == n * d,
                0 < b - a < n,
        ;
    }
}

impl Ring {
    /// The samples that wait, the oldest first.
    pub closed spec fn waiting(self) -> Seq<u32> {
        between(self.cells@, self.tail as int, self.head as int)
    }

    /// How many samples may wait.
    pub closed spec fn room(self) -> nat {
        self.cells@.len()
    }

    /// How many samples have come so far.
    pub closed spec fn taken(self) -> nat {
        self.head as nat
    }

    /// Whether no more samples wait than there is room for.
    pub closed spec fn well_formed(self) -> bool {
        self.tail <= self.head && self.head - self.tail <= self.cells@.len()
    }

    /// The buffer never holds more than it has room for.
    pub proof fn lemma_bounded(self)
        requires
            self.well_formed(),
        ensures
            self.waiting().len() <= self.room(),
    {
    }

    /// An empty buffer with room for `capacity` samples.
    pub fn new(capacity: usize) -> (result: Self)
        ensures
            result.well_formed(),
            result.waiting() == Seq::<u32>::empty(),
            result.room() == capacity,
            result.taken() == 0,
    {
        let mut cells: Vec<u32> = Vec::new();
        let mut i: usize = 0;
        while i < capacity
            invariant
                i <= capacity,
                cells@.len() == i,
            decreases capacity - i,
        {
            cells.push(0);
            i += 1;
        }
        let ring = Ring { cells, head: 0, tail: 0 };
        assert(ring.waiting() =~= Seq::<u32>::empty());
        ring
    }

    /// Adds a sample, unless the buffer is full.
    pub fn push(&mut self, sample: u32) -> (result: bool)
        requires
            old(self).well_formed(),
            old(self).taken() < usize::MAX,
        ensures
            final(self).well_formed(),
            final(self).room() == old(self).room(),
            result == (old(self).waiting().len() < old(self).room()),
            final(self).waiting() == if result {
                old(self).waiting().push(sample)
            } else {
                old(self).waiting()
            },
            final(self).taken() == old(self).taken() + if result {
                1int
            } else {
                0
            },
    {
        match writable_slot(self.head, self.tail, self.cells.len()) {
            Some(slot) => {
                let ghost before = *self;
                proof {
                    vstd::arithmetic::div_mod::lemma_mod_bound(
                        self.head as int,
                        self.cells@.len() as int,
                    );
                }
                self.cells.set(slot, sample);
                self.head += 1;
                proof {
                    let n = self.cells@.len() as int;
                    assert forall|i: int| 0 <= i < before.waiting().len() implies (
                    #[trigger] self.waiting()[i]) == before.waiting()[i] by {
                        lemma_slots_differ(before.tail + i, before.head as int, n);
                        vstd::arithmetic::div_mod::lemma_mod_bound(before.tail + i, n);
                    }
                    assert(self.waiting() =~= before.waiting().push(sample));
                }
                true
            },
            None => false,
        }
    }

    /// Takes the oldest sample.
    pub fn pop(&mut self) -> (result: Option<u32>)
        requires
            old(self).well_formed(),
        ensures
            final(self).well_formed(),
            final(self).room() == old(self).room(),
            final(self).taken() == old(self).taken(),
            match result {
                Some(sample) => old(self).waiting().len() > 0 && sample == old(self).waiting()[0]
                    && final(self).waiting() == old(self).waiting().skip(1),
                None => old(self).waiting().len() == 0 && final(self).waiting() == old(self).waiting(),
            },
    {
        match readable_slot(self.head, self.tail, self.cells.len()) {
            Some(slot) => {
                let ghost before = *self;
                proof {
                    vstd::arithmetic::div_mod::lemma_mod_bound(
                        self.tail as int,
                        self.cells@.len() as int,
                    );
                }
                let sample = self.cells[slot];
                self.tail += 1;
                assert(self.waiting() =~= before.waiting().skip(1));
                Some(sample)
            },
            None => None,
        }
    }

    /// Drops every sample.
    pub fn clear(&mut self)
        requires
            old(self).well_formed(),
        ensures
            final(self).well_formed(),
            final(self).room() == old(self).room(),
            final(self).taken() == old(self).taken(),
            final(self).waiting() == Seq::<u32>::empty(),
    {
        self.tail = self.head;
        assert(self.waiting() =~= Seq::<u32>::empty());
    }

    /// Whether no sample waits.
    pub fn is_empty(&self) -> (result: bool)
        requires
            self.well_formed(),
        ensures
            result == (self.waiting().len() == 0),
    {
        self.head == self.tail
    }

    /// How many samples wait.
    pub fn len(&self) -> (result: usize)
        requires
            self.well_formed(),
        ensures
            result == self.waiting().len(),
    {
        self.head - self.tail
    }

    /// Takes up to `count` samples, the oldest first.
    pub fn drain(&mut self, count: usize) -> (result: Vec<u32>)
        requires
            old(self).well_formed(),
        ensures
            final(self).well_formed(),
            final(self).room() == old(self).room(),
            final(self).taken() == old(self).taken(),
            result@ + final(self).waiting() == old(self).waiting(),
            result@.len() == count || (result@.len() < count && final(self).waiting().len() == 0),
    {
        let ghost all = self.waiting();
        let mut taken: Vec<u32> = Vec::new();
        let mut i: usize = 0;
        assert(taken@ + self.waiting() =~= all);
        while i < count
            invariant
                self.well_formed(),
                self.room() == old(self).room(),
                self.taken() == old(self).taken(),
                i <= count,
                taken@.len() == i,
                taken@ + self.waiting() == all,
                all == old(self).waiting(),
            decreases count - i,
        {
            let ghost before = taken@;
            let ghost rest = self.waiting();
            match self.pop() {
                Some(sample) => {
                    taken.push(sample);
                    assert(taken@ + self.waiting() =~= before + rest);
                },
                None => {
                    return taken;
                },
            }
            i += 1;
        }
        taken
    }
}

/// What follows from the shape of the device's output.
#[derive(Clone, Copy, PartialEq, Eq, Structural, Debug)]
pub struct OutputPlan {
    /// The samples that the buffer holds: two seconds, and at least 4096.
    pub capacity: usize,
    /// The samples that are decoded before the device is started.
    pub prebuffer: usize,
}

/// The plan for a device.
pub open spec fn plan_for(sample_rate: u32, channels: usize) -> OutputPlan {
    OutputPlan {
        capacity: if sample_rate * channels * 2 > 4096 {
            (sample_rate * channels * 2) as usize
        } else {
            4096
        },
        prebuffer: (sample_rate * channels * PREBUFFER_MILLIS / 1000) as usize,
    }
}

/// Refuses a device whose output is out of bounds, and plans for the others.
pub fn plan_output(sample_rate: u32, channels: usize) -> (result: Result<OutputPlan, String>)
    ensures
        match result {
            Ok(plan) => MIN_SAMPLE_RATE <= sample_rate <= MAX_SAMPLE_RATE && 1 <= channels
                <= MAX_OUTPUT_CHANNELS && plan == plan_for(sample_rate, channels),
            Err(message) => if !(MIN_SAMPLE_RATE <= sample_rate <= MAX_SAMPLE_RATE) {
                message@ == "sample rate de saida fora do limite seguro: "@ + text::decimal_text(
                    sample_rate as nat,
                ) + " Hz"@
            } else {
                !(1 <= channels <= MAX_OUTPUT_CHANNELS) && message@
                    == "numero de canais de saida fora do limite seguro: "@ + text::decimal_text(
                    channels as nat,
                )
            },
        },
{
    if sample_rate < MIN_SAMPLE_RATE || sample_rate > MAX_SAMPLE_RATE {
        let mut message = "sample rate de saida fora do limite seguro: ".to_owned();
        message.push_str(text::decimal(sample_rate as u64).as_str());
        message.push_str(" Hz");
        return Err(message);
    }
    if channels == 0 || channels > MAX_OUTPUT_CHANNELS {
        let mut message = "numero de canais de saida fora do limite seguro: ".to_owned();
        message.push_str(text::decimal(channels as u64).as_str());
        return Err(message);
    }
    proof {
        assert(0 <= sample_rate * channels <= 192000 * 8) by (nonlinear_arith)
            requires
                sample_rate <= 192000,
                channels <= 8,
        ;
    }
    let samples: usize = sample_rate as usize * channels;
    let capacity: usize = if samples * 2 > 4096 {
        samples * 2
    } else {
        4096
    };
    Ok(OutputPlan { capacity, prebuffer: samples * PREBUFFER_MILLIS / 1000 })
}

/// Whether to wait for more decoded samples before the device is started.
pub fn keeps_buffering(waiting: usize, plan: OutputPlan, ended: bool, expired: bool) -> (result:
    bool)
    ensures
        result == (waiting < plan.prebuffer && !ended && !expired),
{
    waiting < plan.prebuffer && !ended && !expired
}

/// The position of the device that the user prefers among those that have a name; none where it
/// is not there or no device is preferred, so that the system's own choice is taken.
pub open spec fn preferred_position(preferred: Option<Seq<char>>, names: Seq<Option<Seq<char>>>) -> Option<
    int,
>
    decreases names.len(),
{
    if preferred is None || names.len() == 0 {
        None
    } else if names[0] == preferred {
        Some(0)
    } else {
        match preferred_position(preferred, names.skip(1)) {
            Some(i) => Some(i + 1),
            None => None,
        }
    }
}

/// The names of devices, by their characters.
pub open spec fn device_labels(names: Seq<Option<String>>) -> Seq<Option<Seq<char>>> {
    Seq::new(names.len(), |i: int| text::shown(names[i]))
}

/// Finds the device that the user prefers.
pub fn output_device(preferred: &Option<String>, names: &Vec<Option<String>>) -> (result: Option<
    usize,
>)
    ensures
        match result {
            Some(i) => preferred_position(text::shown(*preferred), device_labels(names@)) == Some(
                i as int,
            ) && i < names@.len(),
            None => preferred_position(text::shown(*preferred), device_labels(names@)) is None,
        },
{
    if preferred.is_none() {
        return None;
    }
    let ghost wanted = text::shown(*preferred);
    let ghost labels = device_labels(names@);
    let mut i: usize = 0;
    assert(labels.skip(0) =~= labels);
    while i < names.len()
        invariant
            wanted == text::shown(*preferred),
            wanted is Some,
            labels == device_labels(names@),
            i <= names@.len(),
            preferred_position(wanted, labels) == match preferred_position(
                wanted,
                labels.skip(i as int),
            ) {
                Some(k) => Some(k + i),
                None => None,
            },
        decreases names@.len() - i,
    {
        assert(labels[i as int] == text::shown(names@[i as int]));
        if text::same_option(&names[i], preferred) {
            return Some(i);
        }
        assert(labels.skip(i as int).skip(1) =~= labels.skip(i + 1));
        i += 1;
    }
    None
}

/// What is known of the file that is being played.
#[derive(Clone, Copy, PartialEq, Eq, Structural, Debug)]
pub struct Playback {
    pub paused: bool,
    /// The volume in per cent.
    pub volume: u8,
    /// Where to go on, in thousandths of a second, or [`NO_SEEK`].
    pub seek_millis: u64,
    pub position_frames: u64,
    pub underflows: u64,
    pub sample_rate: u32,
}

/// The time that a number of frames takes, in thousandths of a second.
pub open spec fn frames_to_millis(frames: u64, sample_rate: u32) -> nat {
    (frames * 1000 / sample_rate as int) as nat
}

/// The frames before a point in time: the product stays within 64 bits.
pub open spec fn millis_to_frames(millis: u64, sample_rate: u32) -> u64 {
    crate::seconds::saturated((millis * sample_rate) as nat) / 1000
}

/// The player, without the device and the decoder that it drives.
#[derive(PartialEq, Eq, Debug)]
pub struct AudioPlayer {
    pub preferred_device: Option<String>,
    pub current: Option<Playback>,
}

impl AudioPlayer {
    /// Whether what is played has a rate.
    pub open spec fn well_formed(self) -> bool {
        self.current matches Some(playback) ==> playback.sample_rate >= MIN_SAMPLE_RATE
    }

    /// A player that plays nothing.
    pub fn new(preferred_device: Option<String>) -> (result: Self)
        ensures
            result.well_formed(),
            result.preferred_device == preferred_device,
            result.current is None,
    {
        AudioPlayer { preferred_device, current: None }
    }

    /// Takes note that a file is being played, from its beginning.
    pub fn play(&mut self, sample_rate: u32)
        requires
            MIN_SAMPLE_RATE <= sample_rate <= MAX_SAMPLE_RATE,
        ensures
            final(self).well_formed(),
            final(self).preferred_device == old(self).preferred_device,
            final(self).current == Some(
                Playback {
                    paused: false,
                    volume: DEFAULT_VOLUME,
                    seek_millis: NO_SEEK,
                    position_frames: 0,
                    underflows: 0,
                    sample_rate,
                },
            ),
    {
        self.current = Some(
            Playback {
                paused: false,
                volume: DEFAULT_VOLUME,
                seek_millis: NO_SEEK,
                position_frames: 0,
                underflows: 0,
                sample_rate,
            },
        );
    }

    /// Takes note that nothing is played any more.
    pub fn stop(&mut self)
        ensures
            final(self).well_formed(),
            final(self).preferred_device == old(self).preferred_device,
            final(self).current is None,
    {
        self.current = None;
    }

    /// Pauses or goes on; none where nothing is played.
    pub fn toggle_pause(&mut self) -> (result: Option<PlaybackState>)
        ensures
            old(self).well_formed() ==> final(self).well_formed(),
            final(self).preferred_device == old(self).preferred_device,
            match old(self).current {
                None => result is None && final(self).current is None,
                Some(playback) => final(self).current == Some(
                    Playback { paused: !playback.paused, ..playback },
                ) && result == Some(
                    if playback.paused {
                        PlaybackState::Playing
                    } else {
                        PlaybackState::Paused
                    },
                ),
            },
    {
        match self.current {
            None => None,
            Some(playback) => {
                self.current = Some(
                    Playback {
                        paused: !playback.paused,
                        volume: playback.volume,
                        seek_millis: playback.seek_millis,
                        position_frames: playback.position_frames,
                        underflows: playback.underflows,
                        sample_rate: playback.sample_rate,
                    },
                );
                if playback.paused {
                    Some(PlaybackState::Playing)
                } else {
                    Some(PlaybackState::Paused)
                }
            },
        }
    }

    /// What the player does.
    pub fn state(&self) -> (result: PlaybackState)
        ensures
            result == match self.current {
                None => PlaybackState::Stopped,
                Some(playback) => if playback.paused {
                    PlaybackState::Paused
                } else {
                    PlaybackState::Playing
                },
            },
    {
        match self.current {
            None => PlaybackState::Stopped,
            Some(playback) => {
                if playback.paused {
                    PlaybackState::Paused
                } else {
                    PlaybackState::Playing
                }
            },
        }
    }

    /// Whether something is played or paused.
    pub fn is_active(&self) -> (result: bool)
        ensures
            result == self.current is Some,
    {
        self.current.is_some()
    }

    /// The volume in per cent; the one at which a file begins where nothing is played.
    pub fn volume(&self) -> (result: u8)
        ensures
            result == match self.current {
                None => DEFAULT_VOLUME,
                Some(playback) => playback.volume,
            },
    {
        match self.current {
            None => DEFAULT_VOLUME,
            Some(playback) => playback.volume,
        }
    }

    /// Sets the volume, at most one hundred per cent; nothing changes where nothing is played.
    pub fn set_volume(&mut self, percent: u8)
        ensures
            old(self).well_formed() ==> final(self).well_formed(),
            final(self).preferred_device == old(self).preferred_device,
            final(self).current == match old(self).current {
                None => None,
                Some(playback) => Some(
                    Playback {
                        volume: if percent > 100 {
                            100
                        } else {
                            percent
                        },
                        ..playback
                    },
                ),
            },
    {
        match self.current {
            None => {},
            Some(playback) => {
                self.current = Some(
                    Playback {
                        paused: playback.paused,
                        volume: if percent > 100 {
                            100
                        } else {
                            percent
                        },
                        seek_millis: playback.seek_millis,
                        position_frames: playback.position_frames,
                        underflows: playback.underflows,
                        sample_rate: playback.sample_rate,
                    },
                );
            },
        }
    }

    /// Takes note of how far the file has been played, and how often too few samples were there.
    pub fn observe(&mut self, position_frames: u64, underflows: u64)
        ensures
            old(self).well_formed() ==> final(self).well_formed(),
            final(self).preferred_device == old(self).preferred_device,
            final(self).current == match old(self).current {
                None => None,
                Some(playback) => Some(
                    Playback { position_frames, underflows, seek_millis: NO_SEEK, ..playback },
                ),
            },
    {
        match self.current {
            None => {},
            Some(playback) => {
                self.current = Some(
                    Playback {
                        paused: playback.paused,
                        volume: playback.volume,
                        seek_millis: NO_SEEK,
                        position_frames,
                        underflows,
                        sample_rate: playback.sample_rate,
                    },
                );
            },
        }
    }

    /// How far the file has been played, in thousandths of a second.
    pub fn position(&self) -> (result: u128)
        requires
            self.well_formed(),
        ensures
            result == match self.current {
                None => 0,
                Some(playback) => frames_to_millis(
                    playback.position_frames,
                    playback.sample_rate,
                ),
            },
    {
        match self.current {
            None => 0,
            Some(playback) => playback.position_frames as u128 * 1000
                / playback.sample_rate as u128,
        }
    }

    /// Asks to go on `seconds` later, or earlier where that is negative, but not before the
    /// beginning.
    pub fn seek_relative(&mut self, seconds: i64)
        requires
            old(self).well_formed(),
        ensures
            final(self).well_formed(),
            final(self).preferred_device == old(self).preferred_device,
            match old(self).current {
                None => final(self).current is None,
                Some(playback) => final(self).current == Some(
                    Playback {
                        seek_millis: seek_target(
                            frames_to_millis(playback.position_frames, playback.sample_rate),
                            seconds as int,
                        ),
                        ..playback
                    },
                ),
            },
    {
        let position: u128 = self.position();
        match self.current {
            None => {},
            Some(playback) => {
                proof {
                    assert(position <= u64::MAX * 1000) by (nonlinear_arith)
                        requires
                            position == playback.position_frames * 1000
                                / playback.sample_rate as int,
                            playback.position_frames <= u64::MAX,
                            playback.sample_rate >= 1,
                    ;
                }
                let target: i128 = position as i128 + seconds as i128 * 1000;
                let seek_millis: u64 = if target < 0 {
                    0
                } else if target > (u64::MAX - 1) as i128 {
                    u64::MAX - 1
                } else {
                    target as u64
                };
                self.current = Some(
                    Playback {
                        paused: playback.paused,
                        volume: playback.volume,
                        seek_millis,
                        position_frames: playback.position_frames,
                        underflows: playback.underflows,
                        sample_rate: playback.sample_rate,
                    },
                );
            },
        }
    }

    /// How often the device found too few samples.
    pub fn underflows(&self) -> (result: u64)
        ensures
            result == match self.current {
                None => 0,
                Some(playback) => playback.underflows,
            },
    {
        match self.current {
            None => 0,
            Some(playback) => playback.underflows,
        }
    }

    /// Counts anew how often the device finds too few samples.
    pub fn reset_underflows(&mut self)
        ensures
            old(self).well_formed() ==> final(self).well_formed(),
            final(self).preferred_device == old(self).preferred_device,
            final(self).current == match old(self).current {
                None => None,
                Some(playback) => Some(Playback { underflows: 0, ..playback }),
            },
    {
        match self.current {
            None => {},
            Some(playback) => {
                self.current = Some(
                    Playback {
                        paused: playback.paused,
                        volume: playback.volume,
                        seek_millis: playback.seek_millis,
                        position_frames: playback.position_frames,
                        underflows: 0,
                        sample_rate: playback.sample_rate,
                    },
                );
            },
        }
    }
}

/// Where a relative seek leads, in thousandths of a second.
pub open spec fn seek_target(position: nat, seconds: int) -> u64 {
    let target = position + seconds * 1000;
    if target < 0 {
        0
    } else if target >= u64::MAX {
        (u64::MAX - 1) as u64
    } else {
        target as u64
    }
}

/// What the device's demand for samples changes.
#[derive(Clone, Copy, PartialEq, Eq, Structural, Debug)]
pub struct Rendered {
    /// By how many frames the position moves.
    pub frames: u64,
    /// Whether too few samples were there though the file goes on.
    pub underflow: bool,
    /// Whether the end has to be reported now.
    pub ended: bool,
}

/// Judges one demand of the device: `consumed` samples were there of the `wanted` ones, `eos` says
/// whether the file has been decoded to its end, `empty` whether the buffer is empty now, and
/// `ended_sent` whether the end was reported before.
pub fn render(
    wanted: usize,
    consumed: usize,
    channels: usize,
    eos: bool,
    empty: bool,
    ended_sent: bool,
) -> (result: Rendered)
    ensures
        result.frames == consumed as int / (if channels == 0 {
            1
        } else {
            channels as int
        }),
        result.underflow == (consumed < wanted && !eos),
        result.ended == (!ended_sent && eos && empty),
        result == rendered(wanted, consumed, channels, eos, empty, ended_sent),
{
    let per_frame: usize = if channels == 0 {
        1
    } else {
        channels
    };
    Rendered {
        frames: (consumed / per_frame) as u64,
        underflow: consumed < wanted && !eos,
        ended: !ended_sent && eos && empty,
    }
}

/// What the decoder does at the top of its loop.
#[derive(Clone, Copy, PartialEq, Eq, Structural, Debug)]
pub enum Turn {
    /// Leave the loop.
    Stop,
    /// Go to this point in time first; the position becomes this many frames.
    Seek { millis: u64, frames: u64 },
    /// Read on.
    Read,
}

/// Decides what the decoder does at the top of its loop. `seek_millis` is what was asked for since
/// the last time.
pub fn decoder_turn(stop: bool, seek_millis: u64, target_rate: u32) -> (result: Turn)
    ensures
        result == if stop {
            Turn::Stop
        } else if seek_millis != NO_SEEK {
            Turn::Seek {
                millis: seek_millis,
                frames: millis_to_frames(seek_millis, target_rate),
            }
        } else {
            Turn::Read
        },
        result == turn_for(stop, seek_millis, target_rate),
{
    if stop {
        return Turn::Stop;
    }
    if seek_millis != NO_SEEK {
        proof {
            assert(0 <= seek_millis * target_rate <= u64::MAX * u32::MAX) by (nonlinear_arith)
                requires
                    seek_millis <= u64::MAX,
                    target_rate <= u32::MAX,
            ;
        }
        let product: u128 = seek_millis as u128 * target_rate as u128;
        let bounded: u64 = if product > u64::MAX as u128 {
            u64::MAX
        } else {
            product as u64
        };
        return Turn::Seek { millis: seek_millis, frames: bounded / 1000 };
    }
    Turn::Read
}

/// What reading the next packet gave.
#[derive(PartialEq, Eq, Debug)]
pub enum PacketOutcome {
    Packet { track_id: u32 },
    End,
    ResetRequired,
    Fault(String),
}

/// What the decoder does next.
#[derive(PartialEq, Eq, Debug)]
pub enum DecoderAction {
    /// Handle what was read.
    Proceed,
    /// Go back to the top of the loop.
    Again,
    /// The file is at its end.
    Finish,
    /// Give up with this message.
    Fail(String),
}

/// What follows from reading a packet.
pub open spec fn packet_action(outcome: PacketOutcome, track_id: u32, action: DecoderAction) -> bool {
    match outcome {
        PacketOutcome::Packet { track_id: read } => if read == track_id {
            action is Proceed
        } else {
            action is Again
        },
        PacketOutcome::End => action is Finish,
        PacketOutcome::ResetRequired => action matches DecoderAction::Fail(message) && message@
            == "stream exigiu reinicializacao"@,
        PacketOutcome::Fault(cause) => action matches DecoderAction::Fail(message) && message@
            == text::caused("falha ao ler pacote"@, cause@),
    }
}

/// Decides what follows from reading a packet of a file whose sound is `track_id`.
pub fn after_packet(outcome: PacketOutcome, track_id: u32) -> (result: DecoderAction)
    ensures
        packet_action(outcome, track_id, result),
{
    match outcome {
        PacketOutcome::Packet { track_id: read } => {
            if read == track_id {
                DecoderAction::Proceed
            } else {
                DecoderAction::Again
            }
        },
        PacketOutcome::End => DecoderAction::Finish,
        PacketOutcome::ResetRequired => DecoderAction::Fail(
            "stream exigiu reinicializacao".to_owned(),
        ),
        PacketOutcome::Fault(cause) => {
            let mut message = "falha ao ler pacote: ".to_owned();
            message.push_str(cause.as_str());
            proof {
                reveal_strlit("falha ao ler pacote: ");
                reveal_strlit("falha ao ler pacote");
                reveal_strlit(": ");
                assert("falha ao ler pacote: "@ =~= "falha ao ler pacote"@ + ": "@);
            }
            DecoderAction::Fail(message)
        },
    }
}

/// What decoding a packet gave.
#[derive(PartialEq, Eq, Debug)]
pub enum DecodeOutcome {
    Samples { rate: u32, channels: usize },
    /// A damaged packet, which is passed over.
    Damaged,
    Fault(String),
}

/// The complaint about a file whose sound is out of bounds.
pub open spec fn source_out_of_bounds(rate: u32, channels: usize) -> Seq<char> {
    "formato de origem fora do limite seguro: "@ + text::decimal_text(rate as nat) + " Hz, "@
        + text::decimal_text(channels as nat) + " canais"@
}

/// Whether the sound of a file is within bounds.
pub open spec fn source_within_bounds(rate: u32, channels: usize) -> bool {
    MIN_SAMPLE_RATE <= rate <= MAX_SOURCE_RATE && 1 <= channels <= MAX_SOURCE_CHANNELS
}

/// What follows from decoding a packet.
pub open spec fn decode_action(outcome: DecodeOutcome, action: DecoderAction) -> bool {
    match outcome {
        DecodeOutcome::Samples { rate, channels } => if source_within_bounds(rate, channels) {
            action is Proceed
        } else {
            action matches DecoderAction::Fail(message) && message@ == source_out_of_bounds(
                rate,
                channels,
            )
        },
        DecodeOutcome::Damaged => action is Again,
        DecodeOutcome::Fault(cause) => action matches DecoderAction::Fail(message) && message@
            == "falha ao decodificar audio: "@ + cause@,
    }
}

/// Decides what follows from decoding a packet.
pub fn after_decode(outcome: DecodeOutcome) -> (result: DecoderAction)
    ensures
        decode_action(outcome, result),
{
    match outcome {
        DecodeOutcome::Samples { rate, channels } => {
            if rate < MIN_SAMPLE_RATE || rate > MAX_SOURCE_RATE || channels == 0 || channels
                > MAX_SOURCE_CHANNELS {
                let mut message = "formato de origem fora do limite seguro: ".to_owned();
                message.push_str(text::decimal(rate as u64).as_str());
                message.push_str(" Hz, ");
                message.push_str(text::decimal(channels as u64).as_str());
                message.push_str(" canais");
                return DecoderAction::Fail(message);
            }
            DecoderAction::Proceed
        },
        DecodeOutcome::Damaged => DecoderAction::Again,
        DecodeOutcome::Fault(cause) => {
            let mut message = "falha ao decodificar audio: ".to_owned();
            message.push_str(cause.as_str());
            DecoderAction::Fail(message)
        },
    }
}

/// What the decoder reports when it gives up: nothing where it was told to stop.
pub fn decoder_failure(stopped: bool, error: String) -> (result: Option<PlayerEvent>)
    ensures
        result == if stopped {
            None
        } else {
            Some(PlayerEvent::Error(error))
        },
{
    if stopped {
        None
    } else {
        Some(PlayerEvent::Error(error))
    }
}

/// What the decoder does with a sample.
#[derive(Clone, Copy, PartialEq, Eq, Structural, Debug)]
pub enum Offer {
    /// Give up: the file is no longer played.
    Abandon,
    /// Drop it: another place of the file is wanted.
    Drop,
    /// Put it into the buffer, waiting where that is full.
    Store,
}

/// Decides what the decoder does with a sample.
pub fn push_sample(stop: bool, seek_millis: u64) -> (result: Offer)
    ensures
        result == if stop {
            Offer::Abandon
        } else if seek_millis != NO_SEEK {
            Offer::Drop
        } else {
            Offer::Store
        },
        result == offer_for(stop, seek_millis),
{
    if stop {
        Offer::Abandon
    } else if seek_millis != NO_SEEK {
        Offer::Drop
    } else {
        Offer::Store
    }
}

/// The two sides of a frame of any number of channels.
pub open spec fn stereo_of(frame: Seq<u32>) -> (u32, u32) {
    if frame.len() == 0 {
        (0, 0)
    } else if frame.len() == 1 {
        (frame[0], frame[0])
    } else {
        (frame[0], frame[1])
    }
}

/// The two sides of a frame: one channel serves for both, and of more than two the first two.
pub fn stereo_frame(frame: &[u32]) -> (result: (u32, u32))
    ensures
        result == stereo_of(frame@),
{
    if frame.len() == 0 {
        (0, 0)
    } else if frame.len() == 1 {
        (frame[0], frame[0])
    } else {
        (frame[0], frame[1])
    }
}

/// What a channel of the device plays.
#[derive(Clone, Copy, PartialEq, Eq, Structural, Debug)]
pub enum ChannelSource {
    /// Half of each side.
    Mix,
    Left,
    Right,
    Silence,
}

/// What the channels of the device play.
pub open spec fn layout(channels: usize) -> Seq<ChannelSource> {
    if channels == 1 {
        seq![ChannelSource::Mix]
    } else {
        Seq::new(
            if channels > 2 {
                channels as nat
            } else {
                2
            },
            |i: int|
                if i == 0 {
                    ChannelSource::Left
                } else if i == 1 {
                    ChannelSource::Right
                } else {
                    ChannelSource::Silence
                },
        )
    }
}

/// What the channels of the device play: both sides mixed on one, and silence on those after the
/// second.
pub fn output_layout(channels: usize) -> (result: Vec<ChannelSource>)
    ensures
        result@ == layout(channels),
{
    let mut sources: Vec<ChannelSource> = Vec::new();
    if channels == 1 {
        sources.push(ChannelSource::Mix);
        assert(sources@ =~= layout(channels));
        return sources;
    }
    sources.push(ChannelSource::Left);
    sources.push(ChannelSource::Right);
    let mut i: usize = 2;
    while i < channels
        invariant
            2 <= i,
            i <= channels || i == 2,
            sources@.len() == i,
            sources@[0] == ChannelSource::Left,
            sources@[1] == ChannelSource::Right,
            forall|k: int| 2 <= k < i ==> sources@[k] == ChannelSource::Silence,
        decreases channels - i,
    {
        sources.push(ChannelSource::Silence);
        i += 1;
    }
    assert(sources@ =~= layout(channels));
    sources
}

/// The buffer holds two seconds of sound and the device starts after a tenth of one.
pub proof fn lemma_plan(sample_rate: u32, channels: usize)
    requires
        MIN_SAMPLE_RATE <= sample_rate <= MAX_SAMPLE_RATE,
        1 <= channels <= MAX_OUTPUT_CHANNELS,
    ensures
        plan_for(sample_rate, channels).capacity == 2 * sample_rate * channels,
        plan_for(sample_rate, channels).prebuffer == sample_rate * channels / 10,
        plan_for(sample_rate, channels).prebuffer < plan_for(sample_rate, channels).capacity,
{
    assert(8000 <= sample_rate * channels <= 1536000) by (nonlinear_arith)
        requires
            8000 <= sample_rate <= 192000,
            1 <= channels <= 8,
    ;
    assert(sample_rate * channels * 2 == 2 * sample_rate * channels) by (nonlinear_arith);
    let samples = sample_rate * channels;
    assert(samples * 100 / 1000 == samples / 10);
}

/// The device that is preferred is the first one of that name; the choice is left to the system only
/// where none has it.
pub proof fn lemma_preferred(name: Seq<char>, names: Seq<Option<Seq<char>>>)
    ensures
        match preferred_position(Some(name), names) {
            Some(i) => 0 <= i < names.len() && names[i] == Some(name) && forall|k: int|
                0 <= k < i ==> #[trigger] names[k] != Some(name),
            None => !names.contains(Some(name)),
        },
        preferred_position(None, names) is None,
    decreases names.len(),
{
    if names.len() > 0 && names[0] != Some(name) {
        let rest = names.skip(1);
        lemma_preferred(name, rest);
        match preferred_position(Some(name), rest) {
            Some(i) => {
                assert(names[i + 1] == rest[i]);
                assert forall|k: int| 0 <= k < i + 1 implies #[trigger] names[k] != Some(name) by {
                    if k > 0 {
                        assert(rest[k - 1] == names[k]);
                    }
                }
            },
            None => {
                if names.contains(Some(name)) {
                    let k = choose|k: int| 0 <= k < names.len() && names[k] == Some(name);
                    assert(rest[k - 1] == names[k]);
                }
            },
        }
    }
}

/// A whole number of seconds takes that many times the rate in frames, and those take that many
/// thousands of milliseconds.
pub proof fn lemma_time_of_frames(seconds: nat, sample_rate: u32)
    requires
        sample_rate > 0,
        1000 * seconds * sample_rate <= u64::MAX,
        1000 * seconds <= u64::MAX,
    ensures
        millis_to_frames((1000 * seconds) as u64, sample_rate) == seconds * sample_rate,
        seconds * sample_rate <= u64::MAX,
        frames_to_millis((seconds * sample_rate) as u64, sample_rate) == 1000 * seconds,
{
    let frames = seconds * sample_rate;
    assert(1000 * seconds * sample_rate == 1000 * frames) by (nonlinear_arith)
        requires
            frames == seconds * sample_rate,
    ;
    assert(1000 * frames / 1000 == frames);
    assert(frames >= 0) by (nonlinear_arith)
        requires
            frames == seconds * sample_rate,
    ;
    assert((frames * 1000) / sample_rate as int == 1000 * seconds) by (nonlinear_arith)
        requires
            frames == seconds * sample_rate,
            sample_rate > 0,
    ;
}

/// Seeking goes as many seconds on or back as it is told, not before the beginning, and never asks
/// for no seek at all.
pub proof fn lemma_seek_target(position: nat, seconds: int)
    ensures
        0 <= position + 1000 * seconds < NO_SEEK ==> seek_target(position, seconds) == position
            + 1000 * seconds,
        position + 1000 * seconds < 0 ==> seek_target(position, seconds) == 0,
        seek_target(position, seconds) != NO_SEEK,
        position + 1000 * seconds >= NO_SEEK ==> seek_target(position, seconds) == NO_SEEK - 1,
{
}

/// Only a packet of the track that is played is decoded, one of another track is passed over, the end
/// of the file ends it, and a fault is told.
pub proof fn lemma_packets(track_id: u32, read: u32, cause: String, action: DecoderAction)
    ensures
        packet_action(PacketOutcome::Packet { track_id: read }, track_id, action) ==> (action
            is Proceed <==> read == track_id) && (action is Again <==> read != track_id),
        packet_action(PacketOutcome::End, track_id, action) ==> action is Finish,
        packet_action(PacketOutcome::ResetRequired, track_id, action) ==> action is Fail,
        packet_action(PacketOutcome::Fault(cause), track_id, action) ==> action is Fail
            && text::ends_with(action->Fail_0@, cause@),
{
    text::lemma_caused_holds_both("falha ao ler pacote"@, cause@);
}

/// Sound of 8 to 384 kHz with 1 to 32 channels is played, any other is refused with its rate and its
/// channels told; a damaged packet is passed over, and a fault is told.
pub proof fn lemma_decoded(rate: u32, channels: usize, cause: String, action: DecoderAction)
    ensures
        decode_action(DecodeOutcome::Samples { rate, channels }, action) ==> (action is Proceed <==> (
        8000 <= rate <= 384000 && 1 <= channels <= 32)),
        decode_action(DecodeOutcome::Samples { rate, channels }, action) && !(action is Proceed)
            ==> action is Fail && text::occurs_in(
            action->Fail_0@,
            text::decimal_text(rate as nat),
        ) && text::occurs_in(action->Fail_0@, text::decimal_text(channels as nat)),
        decode_action(DecodeOutcome::Damaged, action) ==> action is Again,
        decode_action(DecodeOutcome::Fault(cause), action) ==> action is Fail && text::ends_with(
            action->Fail_0@,
            cause@,
        ),
{
    let (r, c) = (text::decimal_text(rate as nat), text::decimal_text(channels as nat));
    let before = "formato de origem fora do limite seguro: "@;
    text::lemma_occurs_between("falha ao decodificar audio: "@, cause@, Seq::empty());
    text::lemma_occurs_between(before + r + " Hz, "@, c, " canais"@);
    text::lemma_occurs_between(before, r, " Hz, "@ + c + " canais"@);
    assert(source_out_of_bounds(rate, channels) =~= before + r + (" Hz, "@ + c + " canais"@));
}

/// One channel sounds on both sides, and of more channels the first is the left side and the second
/// the right one; a device with one channel gets both sides, and one with more gets them on its first
/// two channels and silence on the others.
pub proof fn lemma_channels(frame: Seq<u32>, channels: usize, i: int)
    requires
        channels >= 1,
    ensures
        frame.len() == 1 ==> stereo_of(frame) == (frame[0], frame[0]),
        frame.len() >= 2 ==> stereo_of(frame) == (frame[0], frame[1]),
        layout(channels).len() == channels,
        channels == 1 ==> layout(channels)[0] == ChannelSource::Mix,
        channels >= 2 ==> layout(channels)[0] == ChannelSource::Left && layout(channels)[1]
            == ChannelSource::Right,
        2 <= i < channels ==> layout(channels)[i] == ChannelSource::Silence,
{
}

/// Devices of 8 to 192 kHz with one to eight channels are played on, and a file begins at 80 per cent
/// of the volume.
pub proof fn lemma_device_limits()
    ensures
        MIN_SAMPLE_RATE == 8000,
        MAX_SAMPLE_RATE == 192_000,
        MAX_OUTPUT_CHANNELS == 8,
        DEFAULT_VOLUME == 80,
{
}

/// Stopping comes before everything else, and a seek before reading on: the decoder turns to what is
/// wanted first, and a sample is dropped while another place of the file is wanted.
pub proof fn lemma_wishes_first(seek_millis: u64, target_rate: u32)
    ensures
        turn_for(true, seek_millis, target_rate) == Turn::Stop,
        seek_millis != NO_SEEK ==> turn_for(false, seek_millis, target_rate) == (Turn::Seek {
            millis: seek_millis,
            frames: millis_to_frames(seek_millis, target_rate),
        }),
        turn_for(false, NO_SEEK, target_rate) == Turn::Read,
        offer_for(true, seek_millis) == Offer::Abandon,
        seek_millis != NO_SEEK ==> offer_for(false, seek_millis) == Offer::Drop,
        offer_for(false, NO_SEEK) == Offer::Store,
{
}

/// The position moves by as many frames as were played whole; a lack of samples counts only while the
/// file goes on, and its end is reported once, when nothing is left to play.
pub proof fn lemma_rendered(wanted: usize, frames: nat, channels: usize)
    requires
        channels > 0,
        frames * channels <= usize::MAX,
    ensures
        ({
            let consumed = (frames * channels) as usize;
            let (going_on, at_end) = (
                rendered(wanted, consumed, channels, false, false, false),
                rendered(wanted, consumed, channels, true, true, false),
            );
            &&& going_on.frames == frames
            &&& (going_on.underflow <==> consumed < wanted)
            &&& !going_on.ended
            &&& !at_end.underflow
            &&& at_end.ended
            &&& !rendered(wanted, consumed, channels, true, true, true).ended
            &&& !rendered(wanted, consumed, channels, true, false, false).ended
        }),
{
    assert((frames * channels) / channels as int == frames) by (nonlinear_arith)
        requires
            channels > 0,
    ;
    assert(frames <= frames * channels) by (nonlinear_arith)
        requires
            channels > 0,
    ;
}

/// What the decoder turns to.
pub open spec fn turn_for(stop: bool, seek_millis: u64, target_rate: u32) -> Turn {
    if stop {
        Turn::Stop
    } else if seek_millis != NO_SEEK {
        Turn::Seek { millis: seek_millis, frames: millis_to_frames(seek_millis, target_rate) }
    } else {
        Turn::Read
    }
}

/// What the decoder does with a sample.
pub open spec fn offer_for(stop: bool, seek_millis: u64) -> Offer {
    if stop {
        Offer::Abandon
    } else if seek_millis != NO_SEEK {
        Offer::Drop
    } else {
        Offer::Store
    }
}

/// What the device's demand for samples changes.
pub open spec fn rendered(
    wanted: usize,
    consumed: usize,
    channels: usize,
    eos: bool,
    empty: bool,
    ended_sent: bool,
) -> Rendered {
    Rendered {
        frames: (consumed as int / (if channels == 0 {
            1
        } else {
            channels as int
        })) as u64,
        underflow: consumed < wanted && !eos,
        ended: !ended_sent && eos && empty,
    }
}

} // verus!

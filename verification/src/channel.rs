//! Bounded history of the facial telemetry channels.

use vstd::prelude::*;

verus! {

/// Number of samples a channel keeps.
pub const CHANNEL_CAPACITY: usize = 100;

/// Contents of a bounded buffer after `value` arrives: it is appended, and
/// the oldest sample leaves if that made the buffer longer than its capacity.
pub open spec fn pushed(s: Seq<i32>, value: i32) -> Seq<i32> {
    if s.len() + 1 > CHANNEL_CAPACITY {
        s.push(value).remove(0)
    } else {
        s.push(value)
    }
}

/// Contents after the samples of `values` arrive one by one, oldest first.
pub open spec fn pushed_all(s: Seq<i32>, values: Seq<i32>) -> Seq<i32>
    decreases values.len(),
{
    if values.len() == 0 {
        s
    } else {
        pushed(pushed_all(s, values.drop_last()), values.last())
    }
}

/// The last `limit` samples of `s`, or all of `s` if it has no more.
pub open spec fn newest(s: Seq<i32>, limit: int) -> Seq<i32> {
    if s.len() <= limit {
        s
    } else {
        s.skip(s.len() - limit)
    }
}

/// Pushing samples one by one into a buffer within capacity leaves the newest
/// samples of everything it was given, in arrival order.
pub proof fn lemma_pushed_all_keeps_newest(s: Seq<i32>, values: Seq<i32>)
    requires
        s.len() <= CHANNEL_CAPACITY,
    ensures
        pushed_all(s, values) == newest(s + values, CHANNEL_CAPACITY as int),
        pushed_all(s, values).len() <= CHANNEL_CAPACITY,
    decreases values.len(),
{
    if values.len() == 0 {
        assert(s + values =~= s);
    } else {
        let before = s + values.drop_last();
        let value = values.last();
        lemma_pushed_all_keeps_newest(s, values.drop_last());
        assert(before.push(value) =~= s + values);
        assert(pushed(newest(before, CHANNEL_CAPACITY as int), value) =~= newest(
            before.push(value),
            CHANNEL_CAPACITY as int,
        ));
    }
}

/// Insertion-ordered samples of one channel, never more than
/// `CHANNEL_CAPACITY` of them; the oldest leaves first.
pub struct ChannelBuffer {
    items: Vec<i32>,
}

impl View for ChannelBuffer {
    type V = Seq<i32>;

    closed spec fn view(&self) -> Seq<i32> {
        self.items@
    }
}

impl ChannelBuffer {
    #[verifier::type_invariant]
    spec fn within_capacity(&self) -> bool {
        self.items@.len() <= CHANNEL_CAPACITY
    }

    /// An empty buffer.
    pub fn new() -> (buffer: Self)
        ensures
            buffer@ == Seq::<i32>::empty(),
    {
        ChannelBuffer { items: Vec::new() }
    }

    /// Appends `value`, evicting the oldest sample once the capacity is
    /// exceeded.
    pub fn push(&mut self, value: i32)
        ensures
            final(self)@ == pushed(old(self)@, value),
            final(self)@.len() <= CHANNEL_CAPACITY,
    {
        proof {
            use_type_invariant(&*self);
        }
        // The samples are moved out while they may be one over capacity.
        let mut items: Vec<i32> = Vec::new();
        core::mem::swap(&mut self.items, &mut items);
        items.push(value);
        if items.len() > CHANNEL_CAPACITY {
            items.remove(0);
        }
        self.items = items;
    }

    /// The samples held, oldest first.
    pub fn values(&self) -> (samples: &[i32])
        ensures
            samples@ == self@,
            samples@.len() <= CHANNEL_CAPACITY,
    {
        proof {
            use_type_invariant(self);
        }
        self.items.as_slice()
    }

    /// Number of samples held.
    pub fn len(&self) -> (count: usize)
        ensures
            count == self@.len(),
            count <= CHANNEL_CAPACITY,
    {
        proof {
            use_type_invariant(self);
        }
        self.items.len()
    }

    /// Whether no sample is held.
    pub fn is_empty(&self) -> (empty: bool)
        ensures
            empty <==> self@.len() == 0,
    {
        self.items.len() == 0
    }
}

/// What the four facial channels hold.
pub struct FacialChannels {
    pub muscle_tension: Seq<i32>,
    pub eye_movement: Seq<i32>,
    pub blink_rate: Seq<i32>,
    pub facial_symmetry: Seq<i32>,
}

/// The four facial telemetry channels.
pub struct FacialMetrics {
    muscle_tension: ChannelBuffer,
    eye_movement: ChannelBuffer,
    blink_rate: ChannelBuffer,
    facial_symmetry: ChannelBuffer,
}

impl View for FacialMetrics {
    type V = FacialChannels;

    closed spec fn view(&self) -> FacialChannels {
        FacialChannels {
            muscle_tension: self.muscle_tension@,
            eye_movement: self.eye_movement@,
            blink_rate: self.blink_rate@,
            facial_symmetry: self.facial_symmetry@,
        }
    }
}

impl FacialMetrics {
    /// Four empty channels.
    pub fn new() -> (metrics: Self)
        ensures
            metrics@.muscle_tension == Seq::<i32>::empty(),
            metrics@.eye_movement == Seq::<i32>::empty(),
            metrics@.blink_rate == Seq::<i32>::empty(),
            metrics@.facial_symmetry == Seq::<i32>::empty(),
    {
        FacialMetrics {
            muscle_tension: ChannelBuffer::new(),
            eye_movement: ChannelBuffer::new(),
            blink_rate: ChannelBuffer::new(),
            facial_symmetry: ChannelBuffer::new(),
        }
    }

    /// Records one muscle-tension sample.
    pub fn add_muscle_tension(&mut self, tension: i32)
        ensures
            final(self)@ == (FacialChannels {
                muscle_tension: pushed(old(self)@.muscle_tension, tension),
                ..old(self)@
            }),
    {
        self.muscle_tension.push(tension);
    }

    /// Records one eye-movement sample.
    pub fn add_eye_movement(&mut self, movement: i32)
        ensures
            final(self)@ == (FacialChannels {
                eye_movement: pushed(old(self)@.eye_movement, movement),
                ..old(self)@
            }),
    {
        self.eye_movement.push(movement);
    }

    /// Records one blink-rate sample.
    pub fn add_blink_rate(&mut self, rate: i32)
        ensures
            final(self)@ == (FacialChannels {
                blink_rate: pushed(old(self)@.blink_rate, rate),
                ..old(self)@
            }),
    {
        self.blink_rate.push(rate);
    }

    /// Records one facial-symmetry sample.
    pub fn add_facial_symmetry(&mut self, symmetry: i32)
        ensures
            final(self)@ == (FacialChannels {
                facial_symmetry: pushed(old(self)@.facial_symmetry, symmetry),
                ..old(self)@
            }),
    {
        self.facial_symmetry.push(symmetry);
    }

    /// The muscle-tension samples held, oldest first.
    pub fn muscle_tension(&self) -> (samples: &[i32])
        ensures
            samples@ == self@.muscle_tension,
            samples@.len() <= CHANNEL_CAPACITY,
    {
        self.muscle_tension.values()
    }

    /// The eye-movement samples held, oldest first.
    pub fn eye_movement(&self) -> (samples: &[i32])
        ensures
            samples@ == self@.eye_movement,
            samples@.len() <= CHANNEL_CAPACITY,
    {
        self.eye_movement.values()
    }

    /// The blink-rate samples held, oldest first.
    pub fn blink_rate(&self) -> (samples: &[i32])
        ensures
            samples@ == self@.blink_rate,
            samples@.len() <= CHANNEL_CAPACITY,
    {
        self.blink_rate.values()
    }

    /// The facial-symmetry samples held, oldest first.
    pub fn facial_symmetry(&self) -> (samples: &[i32])
        ensures
            samples@ == self@.facial_symmetry,
            samples@.len() <= CHANNEL_CAPACITY,
    {
        self.facial_symmetry.values()
    }
}

} // verus!

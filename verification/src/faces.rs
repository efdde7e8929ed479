//! The decisions of the two faces kept here: the counter, and the face a new one starts from.
//! Each takes an event and says whether the glass must be drawn again; what it draws is named
//! by the firmware's calls, which run on the device.
use vstd::prelude::*;

verus! {

/// What the firmware hands a face: a touch of the glass, a detent of the knob, or news of the
/// radio and the link.
#[derive(Clone, Copy, Debug, PartialEq, Eq)]
pub enum Event {
    Tap,
    WipeLeft,
    WipeRight,
    Clockwise,
    Anticlockwise,
    WipeUp,
    WipeDown,
    Nearby,
    Linked,
    Unlinked,
}

/// The counter's count after `event`, or `None` for an event it does not hear: the knob counts
/// detents without overflowing, a tap starts again from zero.
pub open spec fn count_after(count: i32, event: Event) -> Option<i32> {
    match event {
        Event::Clockwise => Some(if count == i32::MAX { count } else { (count + 1) as i32 }),
        Event::Anticlockwise => Some(if count == i32::MIN { count } else { (count - 1) as i32 }),
        Event::Tap => Some(0i32),
        _ => None,
    }
}

/// Counter: the knob counts detents, a tap starts again from zero.
#[derive(Debug)]
pub struct Counter {
    pub count: i32,
}

impl Counter {
    /// Takes `event`; returns whether the count changed, and with it what the glass shows.
    pub fn event(&mut self, event: Event) -> (changed: bool)
        ensures
            final(self).count == match count_after(old(self).count, event) {
                Some(count) => count,
                None => old(self).count,
            },
            changed == (final(self).count != old(self).count),
    {
        let count = match event {
            Event::Clockwise => if self.count == i32::MAX { self.count } else { self.count + 1 },
            Event::Anticlockwise => if self.count == i32::MIN { self.count } else { self.count - 1 },
            Event::Tap => 0,
            _ => return false,
        };
        let changed = count != self.count;
        self.count = count;
        changed
    }
}

/// Whether the template face is lit after `event`: a tap switches it, nothing else does.
pub open spec fn lit_after(lit: bool, event: Event) -> bool {
    if event == Event::Tap { !lit } else { lit }
}

/// The face a new one starts from: a tap switches what it says.
#[derive(Debug)]
pub struct App {
    /// Whether an odd number of taps has landed since the face came up.
    pub lit: bool,
}

impl App {
    /// Takes `event`; returns whether the glass should be drawn again, which is after a tap.
    pub fn event(&mut self, event: Event) -> (redraw: bool)
        ensures
            final(self).lit == lit_after(old(self).lit, event),
            redraw == (event == Event::Tap),
    {
        match event {
            Event::Tap => {
                self.lit = !self.lit;
                true
            },
            _ => false,
        }
    }

    /// The line the face shows under its name.
    pub fn line(&self) -> (line: &'static str)
        ensures
            line@ == if self.lit { "tapped"@ } else { "tap the glass"@ },
    {
        match self.lit {
            false => "tap the glass",
            true => "tapped",
        }
    }
}

} // verus!

//! Event dispatch: merging the acquisition queue with the button and
//! pulse-per-second edges into one unified event for the display logic.
//!
//! The racing of the five asynchronous sources happens in the driving
//! loop; what is decided here is pure: which unified event each source's
//! completion turns into, and how the cached date-time advances.

use vstd::prelude::*;

use crate::datetime::DateTime;
use crate::max_m10s;

verus! {

/// The unified event handed to the consumer.
#[derive(Clone, Copy, Debug, PartialEq, Eq, Structural)]
pub enum Event {
    DateTimeUpdated(DateTime),
    Sw3Pressed,
    Sw4Pressed,
    Sw5Pressed,
    TimePulse,
}

/// Which of the five raced sources completed first, with what it carried.
#[derive(Clone, Copy, Debug, PartialEq, Eq, Structural)]
pub enum SourceEvent {
    /// The acquisition queue delivered an event.
    Nmea(max_m10s::Event),
    /// The first button's debounced falling edge fired.
    Sw3,
    /// The second button's debounced falling edge fired.
    Sw4,
    /// The third button's debounced falling edge fired.
    Sw5,
    /// The pulse-per-second line's rising edge fired.
    Pps,
}

/// The dispatcher's own state: the most recently observed date-time,
/// readable by the consumer between events.
pub struct EventSources {
    pub datetime: Option<DateTime>,
}

impl EventSources {
    pub fn new() -> (r: Self)
        ensures
            r.datetime is None,
    {
        EventSources { datetime: None }
    }

    /// Turns the completion of one source into the unified event, caching
    /// the date-time as a side effect of the date-time branch: exactly
    /// that branch changes the cache.
    pub fn wait(&mut self, source: SourceEvent) -> (r: Event)
        ensures
            match source {
                SourceEvent::Nmea(ev) => {
                    &&& ev matches max_m10s::Event::DateTime(t)
                    &&& r == Event::DateTimeUpdated(t)
                    &&& final(self).datetime == Some(t)
                },
                SourceEvent::Sw3 => r == Event::Sw3Pressed && final(self).datetime == old(
                    self,
                ).datetime,
                SourceEvent::Sw4 => r == Event::Sw4Pressed && final(self).datetime == old(
                    self,
                ).datetime,
                SourceEvent::Sw5 => r == Event::Sw5Pressed && final(self).datetime == old(
                    self,
                ).datetime,
                SourceEvent::Pps => r == Event::TimePulse && final(self).datetime == old(
                    self,
                ).datetime,
            },
    {
        match source {
            SourceEvent::Nmea(ev) => {
                let max_m10s::Event::DateTime(t) = ev;
                self.datetime = Some(t);
                Event::DateTimeUpdated(t)
            },
            SourceEvent::Sw3 => Event::Sw3Pressed,
            SourceEvent::Sw4 => Event::Sw4Pressed,
            SourceEvent::Sw5 => Event::Sw5Pressed,
            SourceEvent::Pps => Event::TimePulse,
        }
    }
}

} // verus!

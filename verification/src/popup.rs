//! The popup's cycle: slide in, hold, slide out, done.
//!
//! Everything is decided by the time that has passed since the popup was
//! last restarted. The functions that end in `_at` take what the clock
//! would say as an argument: the time that has passed, or the moment of a
//! start. `new`, `calc`, `reset` and `finished` read the clock and hand it
//! on.

use std::time::{Duration, Instant};
use vstd::prelude::*;
use crate::clock::{now, saturate, time_since, whole_nanos};
use crate::easing::{lemma_travelled_grows, ConstructionError, Easing, Exp};

verus! {

/// Where in its cycle a popup is.
#[derive(Debug, Clone, Copy, PartialEq, Eq, Structural)]
pub enum Phase {
    /// Sliding from the off-screen position to the on-screen one.
    Entering,
    /// At rest at the on-screen position.
    Holding,
    /// Sliding back to the off-screen position.
    Exiting,
    /// Back at the off-screen position; nothing is left to draw.
    Finished,
}

/// One notification slot.
pub struct Popup {
    /// The off-screen resting position.
    pub start: i64,
    /// The on-screen resting position.
    pub end: i64,
    /// Nanoseconds that one slide takes.
    pub duration: u64,
    /// The segment that was read last.
    pub ease: Easing,
    /// The moment the current cycle began.
    pub time: Instant,
    /// Nanoseconds the popup rests on screen between the two slides.
    pub residence_time: u64,
    /// Whether `ease` is the segment of the way out.
    pub retracting: bool,
}

impl Popup {
    /// The segment of the way in, at its start.
    pub open spec fn entering(&self) -> Easing {
        Easing { t: 0, b: self.start, c: (self.end - self.start) as i64, d: self.duration }
    }

    /// The segment of the way out, at its start.
    pub open spec fn exiting(&self) -> Easing {
        Easing { t: 0, b: self.end, c: (self.start - self.end) as i64, d: self.duration }
    }

    /// A slide takes time, and the way between the two resting positions
    /// can be gone in either direction. This is all that a restart needs.
    pub open spec fn restartable(&self) -> bool {
        &&& self.duration > 0
        &&& -i64::MAX <= self.end - self.start <= i64::MAX
    }

    /// The popup can be restarted, and `ease` is the segment that
    /// `retracting` says it is.
    pub open spec fn wf(&self) -> bool {
        &&& self.restartable()
        &&& if self.retracting {
            self.ease == (Easing { t: self.ease.t, ..self.exiting() })
        } else {
            self.ease == (Easing { t: self.ease.t, ..self.entering() })
        }
    }

    /// The popup as it is at the start of a cycle that began at `time`.
    pub open spec fn fresh(
        duration: u64,
        start: i64,
        end: i64,
        residence_time: u64,
        time: Instant,
    ) -> Popup {
        Popup {
            start,
            end,
            duration,
            ease: Easing { t: 0, b: start, c: (end - start) as i64, d: duration },
            time,
            residence_time,
            retracting: false,
        }
    }

    /// The popup after a restart at `time`: as a new one with the same
    /// positions and durations.
    pub open spec fn restarted(self, time: Instant) -> Popup {
        Popup::fresh(self.duration, self.start, self.end, self.residence_time, time)
    }

    /// The phase when `elapsed` nanoseconds of the cycle have passed.
    pub open spec fn phase(&self, elapsed: int) -> Phase {
        if elapsed < self.duration {
            Phase::Entering
        } else if elapsed < self.duration + self.residence_time {
            Phase::Holding
        } else if elapsed < 2 * self.duration + self.residence_time {
            Phase::Exiting
        } else {
            Phase::Finished
        }
    }

    /// The position when `elapsed` nanoseconds of the cycle have passed. The
    /// clock of the way out starts when the rest ends, whenever the popup is
    /// first asked after that.
    pub open spec fn position(&self, elapsed: int) -> int {
        match self.phase(elapsed) {
            Phase::Entering => self.entering().eased_at(elapsed),
            Phase::Holding => self.end as int,
            Phase::Exiting => self.exiting().eased_at(
                elapsed - self.duration - self.residence_time,
            ),
            Phase::Finished => self.start as int,
        }
    }

    /// The popup after it was asked for its position at `elapsed`: on the
    /// way in `ease` is the segment of the way in, during the rest nothing
    /// changes, and from the end of the rest on `ease` is the segment of the
    /// way out, each read at its own time.
    pub open spec fn queried(self, elapsed: u64) -> Popup {
        match self.phase(elapsed as int) {
            Phase::Entering => Popup {
                retracting: false,
                ease: Easing { t: elapsed, ..self.entering() },
                ..self
            },
            Phase::Holding => self,
            _ => Popup {
                retracting: true,
                ease: Easing {
                    t: (elapsed - self.duration - self.residence_time) as u64,
                    ..self.exiting()
                },
                ..self
            },
        }
    }

    /// A popup at the start of a cycle that began at `time`. One whose
    /// slides would take no time, or whose two positions are further apart
    /// than a position can say, is refused.
    pub fn new_at(
        duration: u64,
        start: i64,
        end: i64,
        residence_time: u64,
        time: Instant,
    ) -> (r: Result<Popup, ConstructionError>)
        ensures
            duration == 0 ==> r == Err::<Popup, ConstructionError>(ConstructionError::ZeroDuration),
            duration > 0 && !(-i64::MAX <= end - start <= i64::MAX) ==> r == Err::<
                Popup,
                ConstructionError,
            >(ConstructionError::SpanOutOfRange),
            duration > 0 && -i64::MAX <= end - start <= i64::MAX ==> r == Ok::<
                Popup,
                ConstructionError,
            >(Popup::fresh(duration, start, end, residence_time, time)),
            r matches Ok(p) ==> p.wf(),
    {
        if duration == 0 {
            return Err(ConstructionError::ZeroDuration);
        }
        let span: i128 = end as i128 - start as i128;
        if span > i64::MAX as i128 || span < -(i64::MAX as i128) {
            return Err(ConstructionError::SpanOutOfRange);
        }
        Ok(
            Popup {
                start,
                end,
                duration,
                ease: Easing { t: 0, b: start, c: span as i64, d: duration },
                time,
                residence_time,
                retracting: false,
            },
        )
    }

    /// A popup at the start of its cycle, anchored to the present moment.
    /// One whose slides would take no time, or whose two positions are
    /// further apart than a position can say, is refused.
    pub fn new(duration: u64, start: i64, end: i64, residence_time: u64) -> (r: Result<
        Popup,
        ConstructionError,
    >)
        ensures
            duration == 0 ==> r == Err::<Popup, ConstructionError>(ConstructionError::ZeroDuration),
            duration > 0 && !(-i64::MAX <= end - start <= i64::MAX) ==> r == Err::<
                Popup,
                ConstructionError,
            >(ConstructionError::SpanOutOfRange),
            duration > 0 && -i64::MAX <= end - start <= i64::MAX ==> (r matches Ok(p) && p
                == Popup::fresh(duration, start, end, residence_time, p.time) && p.wf()),
    {
        let time: Instant = now();
        Popup::new_at(duration, start, end, residence_time, time)
    }

    /// Whether the popup is well formed, for callers that filled in the
    /// fields themselves.
    pub fn well_formed(&self) -> (r: bool)
        ensures
            r == self.wf(),
    {
        if self.duration == 0 {
            return false;
        }
        let span: i128 = self.end as i128 - self.start as i128;
        if span > i64::MAX as i128 || span < -(i64::MAX as i128) {
            return false;
        }
        let way: i128 = if self.retracting { -span } else { span };
        let from: i64 = if self.retracting { self.end } else { self.start };
        self.ease.b == from && self.ease.c as i128 == way && self.ease.d == self.duration
    }

    /// The phase when `elapsed` nanoseconds of the cycle have passed.
    pub fn phase_at(&self, elapsed: u64) -> (r: Phase)
        ensures
            r == self.phase(elapsed as int),
    {
        let rest_ends: u128 = self.duration as u128 + self.residence_time as u128;
        if elapsed < self.duration {
            Phase::Entering
        } else if (elapsed as u128) < rest_ends {
            Phase::Holding
        } else if (elapsed as u128) < rest_ends + self.duration as u128 {
            Phase::Exiting
        } else {
            Phase::Finished
        }
    }

    /// Whether the cycle is over when `elapsed` nanoseconds of it have
    /// passed: from twice the slide and the rest on.
    pub fn finished_at(&self, elapsed: u64) -> (r: bool)
        ensures
            r == (elapsed >= 2 * self.duration + self.residence_time),
            r == (self.phase(elapsed as int) == Phase::Finished),
    {
        elapsed as u128 >= 2 * (self.duration as u128) + self.residence_time as u128
    }

    /// The position when `elapsed` nanoseconds of the cycle have passed.
    /// The segment of the way out is put in place when the popup is first
    /// asked after the rest, and left alone after that.
    pub fn calc_at(&mut self, elapsed: u64) -> (r: i64)
        requires
            old(self).wf(),
        ensures
            r == old(self).position(elapsed as int),
            *final(self) == old(self).queried(elapsed),
            final(self).wf(),
    {
        let rest_ends: u128 = self.duration as u128 + self.residence_time as u128;
        if elapsed < self.duration {
            if self.retracting {
                self.retracting = false;
                self.ease = Easing { t: 0, b: self.start, c: self.end - self.start, d: self.duration };
            }
            self.ease.t = elapsed;
            self.ease.calc_in()
        } else if (elapsed as u128) < rest_ends {
            self.end
        } else {
            if !self.retracting {
                self.retracting = true;
                self.ease = Easing { t: 0, b: self.end, c: self.start - self.end, d: self.duration };
            }
            self.ease.t = (elapsed as u128 - rest_ends) as u64;
            self.ease.calc_in()
        }
    }

    /// Nanoseconds of the cycle that have passed by now, as the clock says;
    /// the largest `u64` stands for anything beyond it. The answer depends
    /// on when it is asked, so nothing is promised of it: what is done with
    /// it is proved for every answer.
    pub(crate) fn elapsed(&self) -> u64 {
        let span: Duration = time_since(&self.time);
        saturate(whole_nanos(&span))
    }

    /// The position now. The clock decides how far into the cycle the popup
    /// is; the anchor is not moved.
    pub fn calc(&mut self) -> (r: i64)
        requires
            old(self).wf(),
        ensures
            exists|elapsed: u64|
                r == old(self).position(elapsed as int) && *final(self) == #[trigger] old(self).queried(elapsed),
            final(self).wf(),
    {
        let elapsed: u64 = self.elapsed();
        self.calc_at(elapsed)
    }

    /// Starts the cycle anew from `time`, whatever went before: the anchor
    /// is `time`, the segment is that of the way in at its start, and
    /// nothing of the cycle that was under way is left.
    pub fn reset_at(&mut self, time: Instant)
        requires
            old(self).restartable(),
        ensures
            *final(self) == old(self).restarted(time),
            final(self).wf(),
    {
        self.retracting = false;
        self.time = time;
        self.ease = Easing { t: 0, b: self.start, c: self.end - self.start, d: self.duration };
    }

    /// Starts the cycle anew from the present moment, whatever went before.
    pub fn reset(&mut self)
        requires
            old(self).restartable(),
        ensures
            *final(self) == old(self).restarted(final(self).time),
            final(self).wf(),
    {
        let time: Instant = now();
        self.reset_at(time)
    }

    /// Whether the cycle is over now.
    pub fn finished(&self) -> (r: bool)
        ensures
            exists|elapsed: u64| r == (#[trigger] self.phase(elapsed as int) == Phase::Finished),
    {
        let elapsed: u64 = self.elapsed();
        self.finished_at(elapsed)
    }
}

/// The cycle is cut at the slide, at the slide and the rest, and at twice
/// the slide and the rest; the popup rests on screen in between the slides
/// and off screen once the cycle is over, and begins off screen.
pub proof fn lemma_cycle_timing(p: Popup, elapsed: int)
    requires
        p.wf(),
        0 <= elapsed,
    ensures
        p.phase(elapsed) == Phase::Entering <==> elapsed < p.duration,
        p.phase(elapsed) == Phase::Holding <==> p.duration <= elapsed < p.duration
            + p.residence_time,
        p.phase(elapsed) == Phase::Exiting <==> p.duration + p.residence_time <= elapsed < 2
            * p.duration + p.residence_time,
        p.phase(elapsed) == Phase::Finished <==> 2 * p.duration + p.residence_time <= elapsed,
        p.phase(elapsed) == Phase::Holding ==> p.position(elapsed) == p.end,
        p.phase(elapsed) == Phase::Finished ==> p.position(elapsed) == p.start,
        p.position(0) == p.start,
        p.position(p.duration as int) == p.end,
        p.position(p.duration + p.residence_time) == p.end,
{
}

/// Up to the end of the rest the position never moves back towards the
/// off-screen position, and from the end of the slide in on it never moves
/// back towards the on-screen one. It is always between the two.
pub proof fn lemma_position_moves_in_order(p: Popup, e1: int, e2: int)
    requires
        p.wf(),
        0 <= e1 <= e2,
    ensures
        p.start <= p.end ==> p.start <= p.position(e1) <= p.end,
        p.start >= p.end ==> p.start >= p.position(e1) >= p.end,
        e2 < p.duration + p.residence_time && p.start <= p.end ==> p.position(e1) <= p.position(
            e2,
        ),
        e2 < p.duration + p.residence_time && p.start >= p.end ==> p.position(e1) >= p.position(
            e2,
        ),
        p.duration <= e1 && p.start <= p.end ==> p.position(e1) >= p.position(e2),
        p.duration <= e1 && p.start >= p.end ==> p.position(e1) <= p.position(e2),
{
    let rest_ends = p.duration + p.residence_time;
    let way_in = (p.end - p.start) as int;
    let way_out = (p.start - p.end) as int;
    let d = p.duration as int;
    lemma_travelled_grows(e1, e2, way_in, d);
    if e1 >= rest_ends {
        lemma_travelled_grows(e1 - rest_ends, e2 - rest_ends, way_out, d);
    } else if e2 >= rest_ends {
        lemma_travelled_grows(0, e2 - rest_ends, way_out, d);
    }
}

/// A restart forgets what went before: two popups with the same positions
/// and durations are the same popup after a restart at the same moment, the
/// one that `new_at` makes for that moment, anchored there, and answer every
/// later question alike. Restarting twice is restarting once.
pub proof fn lemma_restart_forgets(p: Popup, q: Popup, time: Instant, elapsed: u64)
    requires
        p.restartable(),
        q.restartable(),
        p.start == q.start,
        p.end == q.end,
        p.duration == q.duration,
        p.residence_time == q.residence_time,
    ensures
        p.restarted(time) == q.restarted(time),
        p.restarted(time) == Popup::fresh(p.duration, p.start, p.end, p.residence_time, time),
        p.restarted(time).wf(),
        p.restarted(time).time == time,
        !p.restarted(time).retracting,
        p.restarted(time).ease == p.entering(),
        p.restarted(time).restarted(time) == p.restarted(time),
        p.restarted(time).position(0) == p.start,
        p.restarted(time).position(elapsed as int) == q.restarted(time).position(elapsed as int),
        p.restarted(time).queried(elapsed) == q.restarted(time).queried(elapsed),
{
}

/// The latest restart wins. Of two restarts, with any question asked in
/// between, the popup is left as the second alone leaves it: anchored at
/// the second moment, with nothing kept of the first.
pub proof fn lemma_latest_restart_wins(p: Popup, first: Instant, second: Instant, elapsed: u64)
    requires
        p.restartable(),
    ensures
        p.restarted(first).restarted(second) == p.restarted(second),
        p.restarted(first).queried(elapsed).restarted(second) == p.restarted(second),
        p.restarted(first).queried(elapsed).restartable(),
        p.restarted(second).time == second,
{
}

/// The way out is built once. After a first question past the end of the
/// rest, a later question changes nothing of the segment but the time it is
/// read at, which counts from the end of the rest and not from the first
/// question; it leaves the popup as it would be had the first question
/// never been asked; and its answer is no nearer the on-screen position
/// than the first one.
pub proof fn lemma_exit_built_once(p: Popup, e1: u64, e2: u64)
    requires
        p.wf(),
        p.duration + p.residence_time <= e1 <= e2,
    ensures
        p.queried(e1).wf(),
        p.queried(e1).retracting,
        p.queried(e1).ease.t == e1 - p.duration - p.residence_time,
        p.queried(e1).queried(e2).ease == (Easing {
            t: (e2 - p.duration - p.residence_time) as u64,
            ..p.queried(e1).ease
        }),
        p.queried(e1).queried(e2) == p.queried(e2),
        p.queried(e1).position(e2 as int) == p.position(e2 as int),
        p.start <= p.end ==> p.end >= p.position(e1 as int) >= p.position(e2 as int) >= p.start,
        p.start >= p.end ==> p.end <= p.position(e1 as int) <= p.position(e2 as int) <= p.start,
{
    lemma_position_moves_in_order(p, e1 as int, e2 as int);
    lemma_position_moves_in_order(p, e2 as int, e2 as int);
}

} // verus!

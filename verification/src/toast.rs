//! What the render loop does with each frame and with each answer of the
//! channel on which tracks are announced.
//!
//! The loop itself, the window and the channel are the caller's. Each turn
//! it asks for the frame, draws it, polls the channel in the way that
//! `poll_for` names for that frame, and hands what it got to `receive`.
//!
//! Positions on screen are counted in units of which `SUBPIXELS` make one
//! pixel.

use std::time::Instant;
use vstd::prelude::*;
use crate::clock::now;
use crate::popup::{Phase, Popup};

verus! {

/// Position units in one pixel.
pub const SUBPIXELS: i64 = 1024;

/// How far right of the panel's left edge the two labels begin: 20 pixels.
pub const LABEL_INSET: i64 = 20 * SUBPIXELS;

/// How far below the top the caption begins: 15 pixels.
pub const CAPTION_TOP: i64 = 15 * SUBPIXELS;

/// How far below the top the track's name begins: 50 pixels.
pub const TITLE_TOP: i64 = 50 * SUBPIXELS;

/// Where the panel and its two labels stand, left to right.
#[derive(Debug, Clone, Copy, PartialEq, Eq, Structural)]
pub struct Layout {
    /// The panel's left edge.
    pub panel_x: i64,
    /// The left edge of the caption and of the track's name.
    pub label_x: i64,
}

/// What to draw in one turn of the loop.
#[derive(Debug, Clone, Copy, PartialEq, Eq, Structural)]
pub enum Frame {
    /// The panel and its labels, at these places.
    Draw(Layout),
    /// Nothing: no track was announced yet, or the popup's cycle is over.
    Blank,
}

/// How to ask the channel.
#[derive(Debug, Clone, Copy, PartialEq, Eq, Structural)]
pub enum Poll {
    /// Take a message if one waits, and go on at once if none does.
    Passing,
    /// Wait until a message comes.
    Waiting,
}

/// What the channel answered.
#[derive(Debug)]
pub enum Polled {
    /// A track began; this is its name.
    Track(String),
    /// No message waits.
    Nothing,
    /// The sender is gone: no track will be announced again.
    Closed,
}

/// The playback side has stopped for good.
#[derive(Debug, Clone, Copy, PartialEq, Eq, Structural)]
pub struct ChannelClosed;

/// The notification as the loop holds it.
pub struct Toast {
    /// The timing of the slide.
    pub popup: Popup,
    /// The name of the track that was announced last.
    pub title: String,
    /// Whether any track was announced yet.
    pub started: bool,
}

/// The places of the panel and the labels when the panel's left edge is at
/// `x`. The labels stand `LABEL_INSET` to the right, or at the largest
/// position where that is beyond it.
pub open spec fn layout_of(x: int) -> Layout {
    Layout {
        panel_x: x as i64,
        label_x: if x + LABEL_INSET <= i64::MAX {
            (x + LABEL_INSET) as i64
        } else {
            i64::MAX
        },
    }
}

/// The places of the panel and the labels when the panel's left edge is at
/// `x`.
pub fn layout(x: i64) -> (r: Layout)
    ensures
        r == layout_of(x as int),
{
    Layout {
        panel_x: x,
        label_x: if x <= i64::MAX - LABEL_INSET {
            x + LABEL_INSET
        } else {
            i64::MAX
        },
    }
}

/// The way to ask the channel after `frame` was drawn: without waiting
/// while the popup is on its way, since the next frame is due; waiting
/// while there is nothing to show.
pub fn poll_for(frame: &Frame) -> (r: Poll)
    ensures
        r == (match *frame {
            Frame::Draw(_) => Poll::Passing,
            Frame::Blank => Poll::Waiting,
        }),
{
    match frame {
        Frame::Draw(_) => Poll::Passing,
        Frame::Blank => Poll::Waiting,
    }
}

impl Toast {
    /// The popup is well formed.
    pub open spec fn wf(&self) -> bool {
        self.popup.wf()
    }

    /// Whether there is anything to draw when `elapsed` nanoseconds of the
    /// popup's cycle have passed.
    pub open spec fn shows(&self, elapsed: int) -> bool {
        self.started && self.popup.phase(elapsed) != Phase::Finished
    }

    /// The frame when `elapsed` nanoseconds of the popup's cycle have
    /// passed.
    pub open spec fn frame_of(&self, elapsed: int) -> Frame {
        if self.shows(elapsed) {
            Frame::Draw(layout_of(self.popup.position(elapsed)))
        } else {
            Frame::Blank
        }
    }

    /// The toast after that frame was asked for: the popup was asked for
    /// its position where there was something to draw, and not otherwise.
    pub open spec fn drawn(self, elapsed: u64) -> Toast {
        if self.shows(elapsed as int) {
            Toast { popup: self.popup.queried(elapsed), ..self }
        } else {
            self
        }
    }

    /// The toast after the channel's answer was taken in at `time`: a
    /// track's name is the title and the popup begins anew at `time`; any
    /// other answer leaves the toast as it is.
    pub open spec fn received(self, polled: Polled, time: Instant) -> Toast {
        match polled {
            Polled::Track(name) => Toast {
                popup: self.popup.restarted(time),
                title: name,
                started: true,
            },
            _ => self,
        }
    }

    /// A toast that has nothing to show until a track is announced.
    pub fn new(popup: Popup) -> (r: Toast)
        ensures
            r.popup == popup,
            r.title@ == Seq::<char>::empty(),
            !r.started,
    {
        Toast { popup, title: String::new(), started: false }
    }

    /// Whether the toast is well formed, for callers that filled in the
    /// fields themselves.
    pub fn well_formed(&self) -> (r: bool)
        ensures
            r == self.wf(),
    {
        self.popup.well_formed()
    }

    /// The frame when `elapsed` nanoseconds of the popup's cycle have
    /// passed.
    pub fn frame_at(&mut self, elapsed: u64) -> (r: Frame)
        requires
            old(self).wf(),
        ensures
            r == old(self).frame_of(elapsed as int),
            *final(self) == old(self).drawn(elapsed),
            final(self).wf(),
    {
        if self.started && !self.popup.finished_at(elapsed) {
            let x: i64 = self.popup.calc_at(elapsed);
            Frame::Draw(layout(x))
        } else {
            Frame::Blank
        }
    }

    /// The frame now, by the popup's clock.
    pub fn frame(&mut self) -> (r: Frame)
        requires
            old(self).wf(),
        ensures
            exists|elapsed: u64|
                r == old(self).frame_of(elapsed as int) && *final(self) == #[trigger] old(self).drawn(elapsed),
            final(self).wf(),
    {
        let elapsed: u64 = self.popup.elapsed();
        self.frame_at(elapsed)
    }

    /// Takes in what the channel answered at `time`. A track's name
    /// becomes the title and the popup starts its cycle anew from `time`,
    /// whatever it was doing; no message changes nothing; a closed channel
    /// is an error and changes nothing.
    pub fn receive_at(&mut self, polled: Polled, time: Instant) -> (r: Result<(), ChannelClosed>)
        requires
            old(self).popup.restartable(),
        ensures
            *final(self) == old(self).received(polled, time),
            r is Err <==> polled is Closed,
            polled is Track ==> final(self).wf(),
    {
        match polled {
            Polled::Track(name) => {
                self.title = name;
                self.started = true;
                self.popup.reset_at(time);
                Ok(())
            },
            Polled::Nothing => Ok(()),
            Polled::Closed => Err(ChannelClosed),
        }
    }

    /// Takes in what the channel answered just now: as `receive_at` does
    /// with the clock's reading.
    pub fn receive(&mut self, polled: Polled) -> (r: Result<(), ChannelClosed>)
        requires
            old(self).popup.restartable(),
        ensures
            *final(self) == old(self).received(polled, final(self).popup.time),
            r is Err <==> polled is Closed,
            polled is Track ==> final(self).wf(),
    {
        let time: Instant = now();
        self.receive_at(polled, time)
    }
}

/// Tracks are shown in the order in which they are taken in, each in its
/// turn: after a track is taken in the title is its name and the popup
/// begins its cycle at the moment it was taken in, whatever was shown
/// before; and no message and a closed channel leave the toast as it is.
pub proof fn lemma_latest_track_wins(
    toast: Toast,
    first: Seq<char>,
    second: Seq<char>,
    a: String,
    b: String,
    at_first: Instant,
    at_second: Instant,
)
    requires
        toast.popup.restartable(),
        a@ == first,
        b@ == second,
    ensures
        toast.received(Polled::Track(a), at_first).title@ == first,
        toast.received(Polled::Track(a), at_first).started,
        toast.received(Polled::Track(a), at_first).popup == toast.popup.restarted(at_first),
        toast.received(Polled::Track(a), at_first).popup.time == at_first,
        toast.received(Polled::Track(a), at_first).wf(),
        toast.received(Polled::Track(a), at_first).received(Polled::Track(b), at_second)
            == toast.received(Polled::Track(b), at_second),
        toast.received(Polled::Track(a), at_first).received(Polled::Track(b), at_second).title@
            == second,
        toast.received(Polled::Nothing, at_first) == toast,
        toast.received(Polled::Closed, at_first) == toast,
{
}

} // verus!

//! The catalogue of tracks and the choice of the next one.

use rand::rngs::ThreadRng;
use rand::Rng;
use vstd::prelude::*;

verus! {

/// The thread's random number generator. Nothing is known of its inside.
#[verifier::external_type_specification]
#[verifier::external_body]
pub struct ExThreadRng(ThreadRng);

/// `Rng::gen_range` on the range `0..n`: a number of that range, so one
/// below `n`. Which one is not said. The call panics on an empty range,
/// which `n > 0` leaves out.
#[verifier::external_body]
fn draw_below(rng: &mut ThreadRng, n: usize) -> (r: usize)
    requires
        n > 0,
    ensures
        r < n,
{
    rng.gen_range(0..n)
}

/// One track: the file it is played from and the name shown for it.
pub struct Music {
    /// The file, by its name in the music directory.
    pub file: String,
    /// The name that is shown and announced.
    pub name: String,
}

/// A track with its two texts as values.
pub struct TrackView {
    /// The file.
    pub file: Seq<char>,
    /// The name.
    pub name: Seq<char>,
}

impl View for Music {
    type V = TrackView;

    open spec fn view(&self) -> TrackView {
        TrackView { file: self.file@, name: self.name@ }
    }
}

impl Music {
    /// Builds the track from its two texts, unchanged.
    pub fn new(file: String, name: String) -> (r: Music)
        ensures
            r.file == file,
            r.name == name,
    {
        Music { file, name }
    }
}

/// The track to play next: one of `tracks`, drawn at random, or none where
/// there is no track.
pub fn pick<'a>(tracks: &'a Vec<Music>, rng: &mut ThreadRng) -> (r: Option<&'a Music>)
    ensures
        r is None <==> tracks@.len() == 0,
        r matches Some(m) ==> exists|i: int| 0 <= i < tracks@.len() && *m == tracks@[i],
{
    if tracks.len() == 0 {
        None
    } else {
        let drawn: usize = draw_below(rng, tracks.len());
        Some(&tracks[drawn])
    }
}

} // verus!

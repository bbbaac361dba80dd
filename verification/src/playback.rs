//! Playback bookkeeping: which episode is loaded, where in it playback
//! started, and the seek and skip targets computed from them. The audio
//! output itself lives outside the library.

use vstd::prelude::*;

verus! {

/// Nanoseconds in a second.
pub const NANOS_PER_SEC: u32 = 1_000_000_000;

/// A span of time of whole seconds and nanoseconds, as
/// `std::time::Duration` holds it.
#[derive(Clone, Copy, Debug)]
pub struct Span {
    secs: u64,
    nanos: u32,
}

/// The greatest number of nanoseconds a span can hold.
pub open spec fn max_span_nanos() -> int {
    (u64::MAX as int) * 1_000_000_000 + 999_999_999
}

impl Span {
    /// The length of the span in nanoseconds.
    pub closed spec fn nanos_total(self) -> int {
        self.secs * 1_000_000_000 + self.nanos
    }

    /// The whole seconds of the span.
    pub closed spec fn whole_secs(self) -> nat {
        self.secs as nat
    }

    /// Spans keep their nanoseconds below one second.
    pub closed spec fn wf(self) -> bool {
        self.nanos < 1_000_000_000
    }

    /// The span of `secs` seconds and `nanos` nanoseconds.
    pub fn from_parts(secs: u64, nanos: u32) -> (r: Span)
        requires
            nanos < NANOS_PER_SEC,
        ensures
            r.wf(),
            r.nanos_total() == secs * 1_000_000_000 + nanos,
            r.whole_secs() == secs,
    {
        Span { secs, nanos }
    }

    /// The empty span.
    pub fn zero() -> (r: Span)
        ensures
            r.wf(),
            r.nanos_total() == 0,
            r.whole_secs() == 0,
    {
        Span { secs: 0, nanos: 0 }
    }

    /// The whole seconds of the span (`Duration::as_secs`).
    pub fn as_secs(&self) -> (r: u64)
        ensures
            r == self.whole_secs(),
    {
        self.secs
    }

    /// The nanoseconds beyond the whole seconds (`Duration::subsec_nanos`).
    pub fn subsec_nanos(&self) -> (r: u32)
        requires
            self.wf(),
        ensures
            r < NANOS_PER_SEC,
            r == self.nanos_total() - self.whole_secs() * 1_000_000_000,
    {
        self.nanos
    }

    /// Whether `self` is strictly shorter than `other`.
    pub fn shorter_than(&self, other: &Span) -> (r: bool)
        requires
            self.wf(),
            other.wf(),
        ensures
            r == (self.nanos_total() < other.nanos_total()),
    {
        self.secs < other.secs || (self.secs == other.secs && self.nanos < other.nanos)
    }

    /// The shorter of the two spans (`Ord::min`).
    pub fn min(self, other: Span) -> (r: Span)
        requires
            self.wf(),
            other.wf(),
        ensures
            r.wf(),
            r.nanos_total() == if other.nanos_total() < self.nanos_total() {
                other.nanos_total()
            } else {
                self.nanos_total()
            },
    {
        if other.shorter_than(&self) {
            other
        } else {
            self
        }
    }

    /// The sum of two spans (`Duration + Duration`, which panics where the
    /// sum does not fit).
    pub fn plus(self, other: Span) -> (r: Span)
        requires
            self.wf(),
            other.wf(),
            self.nanos_total() + other.nanos_total() <= max_span_nanos(),
        ensures
            r.wf(),
            r.nanos_total() == self.nanos_total() + other.nanos_total(),
    {
        let n = self.nanos + other.nanos;
        if n >= NANOS_PER_SEC {
            Span { secs: self.secs + other.secs + 1, nanos: n - NANOS_PER_SEC }
        } else {
            Span { secs: self.secs + other.secs, nanos: n }
        }
    }

    /// The difference `self - other`, for `other` not longer than `self`.
    pub fn minus(self, other: Span) -> (r: Span)
        requires
            self.wf(),
            other.wf(),
            other.nanos_total() <= self.nanos_total(),
        ensures
            r.wf(),
            r.nanos_total() == self.nanos_total() - other.nanos_total(),
    {
        if self.nanos >= other.nanos {
            Span { secs: self.secs - other.secs, nanos: self.nanos - other.nanos }
        } else {
            Span { secs: self.secs - other.secs - 1, nanos: self.nanos + NANOS_PER_SEC - other.nanos }
        }
    }
}

/// Whether an optional span is well formed.
pub open spec fn opt_wf(s: Option<Span>) -> bool {
    match s {
        Some(d) => d.wf(),
        None => true,
    }
}

/// The offset a newly opened source starts from: the requested position,
/// clamped to the source's length when that is known, or zero.
pub open spec fn start_offset(total: Option<Span>, seek: Option<Span>) -> int {
    match seek {
        Some(p) => match total {
            Some(t) => if t.nanos_total() < p.nanos_total() {
                t.nanos_total()
            } else {
                p.nanos_total()
            },
            None => p.nanos_total(),
        },
        None => 0,
    }
}

/// Where skipping forward by `delta` from `pos` lands, in nanoseconds:
/// `pos + delta`, clamped to the length `total` when that is known.
pub open spec fn forward_landing(pos: int, delta: int, total: Option<int>) -> int {
    match total {
        Some(t) => if t < pos + delta {
            t
        } else {
            pos + delta
        },
        None => pos + delta,
    }
}

/// Where skipping back by `delta` from `pos` lands, in nanoseconds:
/// `pos - delta`, or the start when `pos` is not past `delta`.
pub open spec fn backward_landing(pos: int, delta: int) -> int {
    if delta < pos {
        pos - delta
    } else {
        0
    }
}

/// Where skipping forward by `delta` from `pos` lands: `pos + delta`,
/// clamped to the length when that is known.
pub fn forward_target(pos: Span, delta: Span, total: Option<Span>) -> (r: Span)
    requires
        pos.wf(),
        delta.wf(),
        opt_wf(total),
        pos.nanos_total() + delta.nanos_total() <= max_span_nanos(),
    ensures
        r.wf(),
        r.nanos_total() == forward_landing(
            pos.nanos_total(),
            delta.nanos_total(),
            match total {
                Some(t) => Some(t.nanos_total()),
                None => None,
            },
        ),
{
    let new_pos = pos.plus(delta);
    match total {
        Some(t) => new_pos.min(t),
        None => new_pos,
    }
}

/// Where skipping back by `delta` from `pos` lands: `pos - delta`, or the
/// start when `pos` is not past `delta`.
pub fn backward_target(pos: Span, delta: Span) -> (r: Span)
    requires
        pos.wf(),
        delta.wf(),
    ensures
        r.wf(),
        r.nanos_total() == backward_landing(pos.nanos_total(), delta.nanos_total()),
{
    if delta.shorter_than(&pos) {
        pos.minus(delta)
    } else {
        Span::zero()
    }
}

/// What the player knows about the loaded episode.
pub struct PlaybackState {
    pub current_episode_id: Option<i64>,
    pub current_path: Option<String>,
    pub seek_offset: Span,
    pub total_duration: Option<Span>,
}

impl PlaybackState {
    /// Spans held by the state are well formed.
    pub open spec fn wf(&self) -> bool {
        self.seek_offset.wf() && opt_wf(self.total_duration)
    }

    /// Nothing loaded, no offset, no known length.
    pub fn new() -> (r: PlaybackState)
        ensures
            r.wf(),
            r.current_episode_id is None,
            r.current_path is None,
            r.seek_offset.nanos_total() == 0,
            r.total_duration is None,
    {
        PlaybackState {
            current_episode_id: None,
            current_path: None,
            seek_offset: Span::zero(),
            total_duration: None,
        }
    }

    /// Records a newly opened source of length `total` (when known), asked
    /// to start at `seek` (when given), and returns the position to seek the
    /// source to: the requested one, clamped to the length.
    pub fn source_opened(&mut self, total: Option<Span>, seek: Option<Span>) -> (r: Option<Span>)
        requires
            old(self).wf(),
            opt_wf(total),
            opt_wf(seek),
        ensures
            final(self).wf(),
            final(self).total_duration == total,
            final(self).seek_offset.nanos_total() == start_offset(total, seek),
            final(self).current_episode_id == old(self).current_episode_id,
            final(self).current_path == old(self).current_path,
            r is Some == seek is Some,
            r matches Some(p) ==> p == final(self).seek_offset,
    {
        self.total_duration = total;
        match seek {
            Some(pos) => {
                let clamped = match total {
                    Some(t) => pos.min(t),
                    None => pos,
                };
                self.seek_offset = clamped;
                Some(clamped)
            },
            None => {
                self.seek_offset = Span::zero();
                None
            },
        }
    }

    /// Records that the episode `episode_id` stored at `path` now plays.
    pub fn started(&mut self, episode_id: i64, path: String)
        requires
            old(self).wf(),
        ensures
            final(self).wf(),
            final(self).current_episode_id == Some(episode_id),
            final(self).current_path == Some(path),
            final(self).seek_offset == old(self).seek_offset,
            final(self).total_duration == old(self).total_duration,
    {
        self.current_episode_id = Some(episode_id);
        self.current_path = Some(path);
    }

    /// Records that playback stopped: no episode, offset back to zero.
    pub fn stopped(&mut self)
        requires
            old(self).wf(),
        ensures
            final(self).wf(),
            final(self).current_episode_id is None,
            final(self).current_path is None,
            final(self).seek_offset.nanos_total() == 0,
            final(self).total_duration == old(self).total_duration,
    {
        self.current_episode_id = None;
        self.current_path = None;
        self.seek_offset = Span::zero();
    }

    /// The playback position: the offset the source started from plus the
    /// time `played` since.
    pub fn position(&self, played: Span) -> (r: Span)
        requires
            self.wf(),
            played.wf(),
            self.seek_offset.nanos_total() + played.nanos_total() <= max_span_nanos(),
        ensures
            r.wf(),
            r.nanos_total() == self.seek_offset.nanos_total() + played.nanos_total(),
    {
        self.seek_offset.plus(played)
    }

    /// The episode and file a seek reloads: both are needed, else there is
    /// nothing to seek in.
    pub fn seek_source(&self) -> (r: Option<(i64, String)>)
        ensures
            match r {
                Some((id, path)) => self.current_episode_id == Some(id) && self.current_path
                    == Some(path),
                None => self.current_episode_id is None || self.current_path is None,
            },
    {
        match (&self.current_episode_id, &self.current_path) {
            (Some(id), Some(path)) => Some((*id, path.clone())),
            _ => None,
        }
    }
}

/// A source never starts past its known length, and starts exactly where
/// asked when that is within the length.
pub proof fn lemma_start_within_length(total: Span, seek: Span)
    requires
        total.wf(),
        seek.wf(),
    ensures
        start_offset(Some(total), Some(seek)) <= total.nanos_total(),
        seek.nanos_total() <= total.nanos_total() ==> start_offset(Some(total), Some(seek))
            == seek.nanos_total(),
        start_offset(Some(total), None) == 0,
{
}

/// Skipping back never moves forward nor before the start; skipping
/// forward from a position within a known length never moves backward nor
/// past that length.
pub proof fn lemma_skip_bounds(pos: int, delta: int, total: int)
    requires
        0 <= pos <= total,
        0 <= delta,
    ensures
        0 <= backward_landing(pos, delta) <= pos,
        pos <= forward_landing(pos, delta, Some(total)) <= total,
{
}

/// Skipping moves by exactly the asked amount when that stays within the
/// episode: forward to `pos + delta` unless that passes a known length (then
/// to the length), back to `pos - delta` unless that passes the start (then
/// to the start).
pub proof fn lemma_skip_exact(pos: int, delta: int, t: int)
    ensures
        pos + delta <= t ==> forward_landing(pos, delta, Some(t)) == pos + delta,
        t < pos + delta ==> forward_landing(pos, delta, Some(t)) == t,
        forward_landing(pos, delta, None) == pos + delta,
        delta < pos ==> backward_landing(pos, delta) == pos - delta,
        pos <= delta ==> backward_landing(pos, delta) == 0,
{
}

} // verus!

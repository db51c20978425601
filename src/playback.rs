//! The playback session state machine.
//!
//! The audio worker owns the output device and the decoder; every decision it
//! makes about the session (what to rebuild, where to seek, whether a seek in
//! place is good enough, what state to report) is taken here. The worker
//! performs the device operation that a step asks for and hands back what the
//! device reported.
use vstd::prelude::*;
use crate::text::opt_view;

verus! {

/// Largest volume, in thousandths of full scale.
pub const MAX_VOLUME: u32 = 1000;

/// Volume of a fresh engine, in thousandths of full scale.
pub const DEFAULT_VOLUME: u32 = 700;

/// How far, in milliseconds, the position reported after an in-place seek
/// may lie from the target before the stream is rebuilt instead.
pub const DEFAULT_SEEK_TOLERANCE_MS: u64 = 1000;

/// Typed failures of transport commands.
#[derive(Clone, Copy, Debug, PartialEq, Eq, Structural)]
pub enum PlaybackError {
    /// The file could not be opened.
    IoError,
    /// The decode stream could not be constructed.
    DecodeError,
    /// The output device failed to initialise or was lost.
    DeviceUnavailable,
    /// The worker that owns the device cannot be reached.
    ServiceUnavailable,
}

/// Snapshot of the engine reported to callers. Times are in milliseconds,
/// volume in thousandths of full scale.
#[derive(Clone, Copy, Debug, PartialEq, Eq, Structural)]
pub struct PlaybackState {
    pub is_loaded: bool,
    pub is_playing: bool,
    pub current_time_ms: u64,
    pub duration_ms: u64,
    pub volume: u32,
}

impl Default for PlaybackState {
    fn default() -> (r: Self)
        ensures
            r == (PlaybackState {
                is_loaded: false,
                is_playing: false,
                current_time_ms: 0,
                duration_ms: 0,
                volume: DEFAULT_VOLUME,
            }),
    {
        PlaybackState {
            is_loaded: false,
            is_playing: false,
            current_time_ms: 0,
            duration_ms: 0,
            volume: DEFAULT_VOLUME,
        }
    }
}

/// Abstract view of the session: the loaded path, total duration (0 when
/// unknown), the position at which the current decode stream started, the
/// paused flag, the volume and the in-place seek tolerance.
pub struct Session {
    pub path: Option<Seq<char>>,
    pub duration: nat,
    pub offset: nat,
    pub paused: bool,
    pub volume: nat,
    pub tolerance: nat,
}

/// Invariant of a session: the volume is in range, times fit in `u64`, a known
/// duration bounds the start offset, and an engine with nothing loaded is
/// paused at zero.
pub open spec fn session_wf(s: Session) -> bool {
    &&& s.volume <= MAX_VOLUME
    &&& s.duration <= u64::MAX
    &&& s.offset <= u64::MAX
    &&& s.tolerance <= u64::MAX
    &&& (s.duration > 0 ==> s.offset <= s.duration)
    &&& (s.path is None ==> s.duration == 0 && s.offset == 0 && s.paused)
}

/// The `Empty` state with the given volume and tolerance.
pub open spec fn empty_session(volume: nat, tolerance: nat) -> Session {
    Session { path: None, duration: 0, offset: 0, paused: true, volume, tolerance }
}

/// A time clamped to `[0, duration]` when the duration is known, else to `>= 0`.
pub open spec fn clamp_time(t: int, duration: nat) -> nat {
    if t < 0 {
        0
    } else if duration > 0 && t > duration {
        duration
    } else {
        t as nat
    }
}

/// A volume clamped to `[0, MAX_VOLUME]`.
pub open spec fn clamp_volume(v: int) -> nat {
    if v < 0 {
        0
    } else if v > MAX_VOLUME {
        MAX_VOLUME as nat
    } else {
        v as nat
    }
}

/// Reported position: start offset plus the time the decoder has played in the
/// current stream, capped by a known duration (and by the range of `u64`).
pub open spec fn position_of(s: Session, elapsed: nat) -> nat {
    if s.path is None {
        0
    } else if s.duration > 0 && s.offset + elapsed > s.duration {
        s.duration
    } else if s.offset + elapsed > u64::MAX {
        u64::MAX as nat
    } else {
        s.offset + elapsed
    }
}

/// Whether a playing track has drained its stream and reached its end.
pub open spec fn reached_end(s: Session, sink_empty: bool, elapsed: nat) -> bool {
    !s.paused && sink_empty && s.duration > 0 && position_of(s, elapsed) >= s.duration
}

/// The session after a state query: a drained track that reached its end is
/// now paused.
pub open spec fn observed(s: Session, sink_empty: bool, elapsed: nat) -> Session {
    if reached_end(s, sink_empty, elapsed) {
        Session { paused: true, ..s }
    } else {
        s
    }
}

/// The snapshot reported for a session.
pub open spec fn state_of(s: Session, elapsed: nat) -> PlaybackState {
    PlaybackState {
        is_loaded: s.path is Some,
        is_playing: s.path is Some && !s.paused,
        current_time_ms: position_of(s, elapsed) as u64,
        duration_ms: s.duration as u64,
        volume: s.volume as u32,
    }
}

/// Duration learned from the decoder: 0 when it cannot be determined.
pub open spec fn total_or_zero(total: Option<u64>) -> nat {
    match total {
        Some(d) => d as nat,
        None => 0,
    }
}

/// The session after `Play`: resumed when a track is loaded.
pub open spec fn played(s: Session) -> Session {
    if s.path is None {
        s
    } else {
        Session { paused: false, ..s }
    }
}

/// The session after `Pause`.
pub open spec fn paused(s: Session) -> Session {
    Session { paused: true, ..s }
}

/// The session after `SetVolume(v)`.
pub open spec fn volume_set(s: Session, v: int) -> Session {
    Session { volume: clamp_volume(v), ..s }
}

/// The session after `LoadAndPlay(path)`, given what opening and decoding the
/// file gave: a fresh session playing from 0, or `Empty` on failure.
pub open spec fn loaded(s: Session, path: Seq<char>, outcome: Result<Option<u64>, PlaybackError>) -> Session {
    match outcome {
        Ok(total) => Session {
            path: Some(path),
            duration: total_or_zero(total),
            offset: 0,
            paused: false,
            volume: s.volume,
            tolerance: s.tolerance,
        },
        Err(_) => empty_session(s.volume, s.tolerance),
    }
}

/// The session after its stream was rebuilt to start at `target`, playing or
/// paused; a failed rebuild leaves the session as it was.
pub open spec fn rebuilt(s: Session, target: nat, play: bool, outcome: Result<Option<u64>, PlaybackError>) -> Session {
    if s.path is None {
        s
    } else {
        match outcome {
            Ok(total) => Session {
                duration: total_or_zero(total),
                offset: clamp_time(target as int, total_or_zero(total)),
                paused: !play,
                ..s
            },
            Err(_) => s,
        }
    }
}

/// Whether the position reported after an in-place seek is close enough to
/// the target to keep the stream.
pub open spec fn in_place_accepted(s: Session, target: nat, reported: Option<u64>) -> bool {
    match reported {
        Some(r) => {
            &&& r <= target + s.tolerance
            &&& target <= r + s.tolerance
        },
        None => false,
    }
}

/// The session after the whole `Seek(t)` command, given what the device
/// reported after an in-place attempt (`None` when it refused) and what the
/// rebuild, if any, gave.
pub open spec fn sought(
    s: Session,
    t: int,
    reported: Option<u64>,
    outcome: Result<Option<u64>, PlaybackError>,
) -> Session {
    let target = clamp_time(t, s.duration);
    if s.path is None {
        s
    } else if s.offset == 0 && in_place_accepted(s, target, reported) {
        s
    } else {
        rebuilt(s, target, !s.paused, outcome)
    }
}

/// What the worker must build: open and decode `path`, skip to `offset_ms`,
/// set the volume, and play or stay paused.
#[derive(Debug)]
pub struct RebuildRequest {
    pub path: String,
    pub offset_ms: u64,
    pub play: bool,
    pub volume: u32,
}

/// How a seek is carried out.
#[derive(Debug)]
pub enum SeekPlan {
    /// Nothing is loaded: the seek is a no-op.
    Nothing,
    /// Reposition the current stream in place, then report the position.
    InPlace { target_ms: u64 },
    /// Tear down and rebuild the stream.
    Rebuild(RebuildRequest),
}

/// A device operation asked of the worker by a simple transport step.
#[derive(Clone, Copy, Debug, PartialEq, Eq, Structural)]
pub enum SinkCommand {
    Nothing,
    Play,
    Pause,
    SetVolume(u32),
}

/// The decision-making half of the audio engine.
#[derive(Debug)]
pub struct PlaybackController {
    path: Option<String>,
    duration_ms: u64,
    position_offset_ms: u64,
    paused: bool,
    volume: u32,
    seek_tolerance_ms: u64,
}

impl View for PlaybackController {
    type V = Session;

    closed spec fn view(&self) -> Session {
        Session {
            path: opt_view(self.path),
            duration: self.duration_ms as nat,
            offset: self.position_offset_ms as nat,
            paused: self.paused,
            volume: self.volume as nat,
            tolerance: self.seek_tolerance_ms as nat,
        }
    }
}

impl PlaybackController {
    /// The session invariant holds.
    pub open spec fn wf(&self) -> bool {
        session_wf(self@)
    }

    /// A fresh engine with nothing loaded, at the default volume and tolerance.
    pub fn new() -> (r: Self)
        ensures
            r.wf(),
            r@ == empty_session(DEFAULT_VOLUME as nat, DEFAULT_SEEK_TOLERANCE_MS as nat),
    {
        Self::with_seek_tolerance(DEFAULT_SEEK_TOLERANCE_MS)
    }

    /// A fresh engine with nothing loaded and the given in-place seek tolerance.
    pub fn with_seek_tolerance(tolerance_ms: u64) -> (r: Self)
        ensures
            r.wf(),
            r@ == empty_session(DEFAULT_VOLUME as nat, tolerance_ms as nat),
    {
        PlaybackController {
            path: None,
            duration_ms: 0,
            position_offset_ms: 0,
            paused: true,
            volume: DEFAULT_VOLUME,
            seek_tolerance_ms: tolerance_ms,
        }
    }

    /// Whether a track is loaded.
    pub fn is_loaded(&self) -> (r: bool)
        ensures
            r == self@.path is Some,
    {
        self.path.is_some()
    }

    /// The stream to build for `LoadAndPlay(path)`: from the start, playing, at
    /// the current volume.
    pub fn load_request(&self, path: String) -> (r: RebuildRequest)
        ensures
            r.path == path,
            r.offset_ms == 0,
            r.play,
            r.volume as nat == self@.volume,
    {
        RebuildRequest { path, offset_ms: 0, play: true, volume: self.volume }
    }

    /// Completes `LoadAndPlay(path)` with what opening and decoding the file
    /// gave (the total duration when known). The prior session is discarded;
    /// on failure the engine is `Empty` and the error is returned.
    pub fn finish_load(&mut self, path: String, outcome: Result<Option<u64>, PlaybackError>) -> (r: Result<(), PlaybackError>)
        requires
            old(self).wf(),
        ensures
            final(self).wf(),
            final(self)@ == loaded(old(self)@, path@, outcome),
            r is Ok <==> outcome is Ok,
            outcome is Err ==> r == Err::<(), PlaybackError>(outcome->Err_0),
    {
        match outcome {
            Ok(total) => {
                self.path = Some(path);
                self.duration_ms = match total {
                    Some(d) => d,
                    None => 0,
                };
                self.position_offset_ms = 0;
                self.paused = false;
                Ok(())
            },
            Err(e) => {
                self.path = None;
                self.duration_ms = 0;
                self.position_offset_ms = 0;
                self.paused = true;
                Err(e)
            },
        }
    }

    fn clamp_target(&self, target_ms: i64) -> (r: u64)
        ensures
            r as nat == clamp_time(target_ms as int, self@.duration),
    {
        if target_ms < 0 {
            0
        } else if self.duration_ms > 0 && target_ms as u64 > self.duration_ms {
            self.duration_ms
        } else {
            target_ms as u64
        }
    }

    /// Plans `Seek(target_ms)`: a no-op with nothing loaded; otherwise the
    /// target clamped to `[0, duration]` (to `>= 0` when the duration is
    /// unknown), repositioned in place when the stream started at 0 and
    /// rebuilt otherwise, in the current play/pause state and volume.
    pub fn plan_seek(&self, target_ms: i64) -> (r: SeekPlan)
        requires
            self.wf(),
        ensures
            r is Nothing <==> self@.path is None,
            r is InPlace <==> (self@.path is Some && self@.offset == 0),
            r is InPlace ==> r->target_ms as nat == clamp_time(target_ms as int, self@.duration),
            r is Rebuild ==> {
                let req = r->Rebuild_0;
                &&& Some(req.path@) == self@.path
                &&& req.offset_ms as nat == clamp_time(target_ms as int, self@.duration)
                &&& req.play == !self@.paused
                &&& req.volume as nat == self@.volume
            },
    {
        match &self.path {
            None => SeekPlan::Nothing,
            Some(p) => {
                let target = self.clamp_target(target_ms);
                if self.position_offset_ms == 0 {
                    SeekPlan::InPlace { target_ms: target }
                } else {
                    SeekPlan::Rebuild(
                        RebuildRequest { path: p.clone(), offset_ms: target, play: !self.paused, volume: self.volume },
                    )
                }
            },
        }
    }

    /// Judges an in-place seek to `target_ms` by the position the device then
    /// reported (`None` when it refused to reposition): accepted when within
    /// the tolerance, else the stream to rebuild.
    pub fn after_in_place_seek(&self, target_ms: u64, reported_ms: Option<u64>) -> (r: Option<RebuildRequest>)
        requires
            self.wf(),
            self@.path is Some,
        ensures
            r is None <==> in_place_accepted(self@, target_ms as nat, reported_ms),
            r is Some ==> {
                let req = r->0;
                &&& Some(req.path@) == self@.path
                &&& req.offset_ms == target_ms
                &&& req.play == !self@.paused
                &&& req.volume as nat == self@.volume
            },
    {
        let accepted = match reported_ms {
            Some(rep) => {
                if rep >= target_ms {
                    rep - target_ms <= self.seek_tolerance_ms
                } else {
                    target_ms - rep <= self.seek_tolerance_ms
                }
            },
            None => false,
        };
        if accepted {
            None
        } else {
            match &self.path {
                Some(p) => Some(RebuildRequest { path: p.clone(), offset_ms: target_ms, play: !self.paused, volume: self.volume }),
                None => None,
            }
        }
    }

    /// Completes a seek rebuild with what reopening and decoding gave: the
    /// stream now starts at the target clamped to the (re-read) duration, in
    /// the requested play/pause state. A failed rebuild leaves the session
    /// unchanged and returns the error.
    pub fn finish_seek(&mut self, req: &RebuildRequest, outcome: Result<Option<u64>, PlaybackError>) -> (r: Result<(), PlaybackError>)
        requires
            old(self).wf(),
        ensures
            final(self).wf(),
            final(self)@ == rebuilt(old(self)@, req.offset_ms as nat, req.play, outcome),
            r is Ok <==> outcome is Ok,
            outcome is Err ==> r == Err::<(), PlaybackError>(outcome->Err_0),
    {
        match outcome {
            Ok(total) => {
                if self.path.is_some() {
                    let d = match total {
                        Some(d) => d,
                        None => 0,
                    };
                    self.duration_ms = d;
                    self.position_offset_ms = if d > 0 && req.offset_ms > d {
                        d
                    } else {
                        req.offset_ms
                    };
                    self.paused = !req.play;
                }
                Ok(())
            },
            Err(e) => Err(e),
        }
    }

    /// `Play`: resumes a loaded track; a no-op with nothing loaded.
    pub fn play(&mut self) -> (r: SinkCommand)
        requires
            old(self).wf(),
        ensures
            final(self).wf(),
            final(self)@ == played(old(self)@),
            r == (if old(self)@.path is None { SinkCommand::Nothing } else { SinkCommand::Play }),
    {
        if self.path.is_none() {
            return SinkCommand::Nothing;
        }
        self.paused = false;
        SinkCommand::Play
    }

    /// `Pause`: always succeeds, also with nothing loaded.
    pub fn pause(&mut self) -> (r: SinkCommand)
        requires
            old(self).wf(),
        ensures
            final(self).wf(),
            final(self)@ == paused(old(self)@),
            r == SinkCommand::Pause,
    {
        self.paused = true;
        SinkCommand::Pause
    }

    /// `SetVolume(v)`, `v` in thousandths of full scale, clamped to
    /// `[0, MAX_VOLUME]`.
    pub fn set_volume(&mut self, volume: i64) -> (r: SinkCommand)
        requires
            old(self).wf(),
        ensures
            final(self).wf(),
            final(self)@ == volume_set(old(self)@, volume as int),
            r == SinkCommand::SetVolume(clamp_volume(volume as int) as u32),
    {
        let v: u32 = if volume < 0 {
            0
        } else if volume > MAX_VOLUME as i64 {
            MAX_VOLUME
        } else {
            volume as u32
        };
        self.volume = v;
        SinkCommand::SetVolume(v)
    }

    /// Current position, given how long the decoder has played the current
    /// stream.
    pub fn position(&self, elapsed_ms: u64) -> (r: u64)
        ensures
            r as nat == position_of(self@, elapsed_ms as nat),
    {
        if self.path.is_none() {
            return 0;
        }
        let absolute = self.position_offset_ms.saturating_add(elapsed_ms);
        if self.duration_ms > 0 && absolute > self.duration_ms {
            self.duration_ms
        } else {
            absolute
        }
    }

    /// `GetState`, given whether the device has drained its stream and how
    /// long the decoder has played it: first marks a track that ran to its end
    /// as paused, then reports.
    pub fn state(&mut self, sink_empty: bool, elapsed_ms: u64) -> (r: PlaybackState)
        requires
            old(self).wf(),
        ensures
            final(self).wf(),
            final(self)@ == observed(old(self)@, sink_empty, elapsed_ms as nat),
            r == state_of(final(self)@, elapsed_ms as nat),
    {
        if !self.paused && sink_empty && self.duration_ms > 0 && self.position(elapsed_ms) >= self.duration_ms {
            self.paused = true;
        }
        PlaybackState {
            is_loaded: self.path.is_some(),
            is_playing: self.path.is_some() && !self.paused,
            current_time_ms: self.position(elapsed_ms),
            duration_ms: self.duration_ms,
            volume: self.volume,
        }
    }
}

/// The facade's last successfully observed state, kept for degraded reads.
#[derive(Clone, Copy, Debug)]
pub struct StateSnapshot {
    pub state: PlaybackState,
}

impl StateSnapshot {
    /// Starts from the state of a fresh engine.
    pub fn new() -> (r: Self)
        ensures
            r.state == (PlaybackState {
                is_loaded: false,
                is_playing: false,
                current_time_ms: 0,
                duration_ms: 0,
                volume: DEFAULT_VOLUME,
            }),
    {
        StateSnapshot { state: PlaybackState::default() }
    }

    /// Records the result of a command: a success replaces the snapshot, a
    /// failure leaves it.
    pub fn record(&mut self, result: &Result<PlaybackState, PlaybackError>)
        ensures
            final(self).state == (match result {
                Ok(st) => *st,
                Err(_) => old(self).state,
            }),
    {
        if let Ok(st) = result {
            self.state = *st;
        }
    }

    /// Answers `GetState`: the worker's reply when there is one, else the last
    /// observed state.
    pub fn read(&self, result: &Result<PlaybackState, PlaybackError>) -> (r: PlaybackState)
        ensures
            r == (match result {
                Ok(st) => *st,
                Err(_) => self.state,
            }),
    {
        match result {
            Ok(st) => *st,
            Err(_) => self.state,
        }
    }
}

/// Seeking before the start behaves as seeking to 0, and seeking past a known
/// duration behaves as seeking to the duration, whatever the device reports.
pub proof fn lemma_seek_clamps(
    s: Session,
    t: int,
    reported: Option<u64>,
    outcome: Result<Option<u64>, PlaybackError>,
)
    ensures
        t < 0 ==> sought(s, t, reported, outcome) == sought(s, 0, reported, outcome),
        s.duration > 0 && t > s.duration ==> sought(s, t, reported, outcome) == sought(
            s,
            s.duration as int,
            reported,
            outcome,
        ),
{
}

/// Pause, Play, Pause leaves the reported position exactly where the decoder's
/// playhead puts it, never beyond the stream's start offset plus the time
/// played.
pub proof fn lemma_pause_play_pause_position(s: Session, elapsed: nat)
    requires
        session_wf(s),
    ensures
        position_of(paused(played(paused(s))), elapsed) == position_of(s, elapsed),
        position_of(paused(played(paused(s))), elapsed) <= s.offset + elapsed,
{
}

/// A seek, whether in place or by rebuilding the stream, keeps the volume, and
/// the rebuilt stream is asked for at the current volume.
pub proof fn lemma_seek_keeps_volume(
    s: Session,
    t: int,
    reported: Option<u64>,
    outcome: Result<Option<u64>, PlaybackError>,
)
    ensures
        sought(s, t, reported, outcome).volume == s.volume,
        rebuilt(s, clamp_time(t, s.duration), !s.paused, outcome).volume == s.volume,
{
}

/// A load that fails leaves the engine `Empty`: a following state query
/// reports nothing loaded and nothing playing.
pub proof fn lemma_failed_load_is_empty(
    s: Session,
    path: Seq<char>,
    e: PlaybackError,
    sink_empty: bool,
    elapsed: nat,
)
    ensures
        loaded(s, path, Err(e)) == empty_session(s.volume, s.tolerance),
        !state_of(observed(loaded(s, path, Err(e)), sink_empty, elapsed), elapsed).is_loaded,
        !state_of(observed(loaded(s, path, Err(e)), sink_empty, elapsed), elapsed).is_playing,
{
}

/// The reported time follows the decoder's playhead: between two readings it
/// never goes back and advances by at most what the playhead advanced, so time
/// spent paused (when the playhead stands still) adds nothing.
pub proof fn lemma_position_follows_playhead(s: Session, e1: nat, e2: nat)
    requires
        session_wf(s),
        e1 <= e2,
    ensures
        position_of(s, e1) <= position_of(s, e2),
        position_of(s, e2) <= position_of(s, e1) + (e2 - e1),
{
}

/// A reported state never puts the time past a known duration, and a track
/// that ran to its end reports exactly its duration and is no longer playing.
pub proof fn lemma_state_within_duration(s: Session, sink_empty: bool, elapsed: nat)
    requires
        session_wf(s),
        s.duration > 0,
    ensures
        state_of(s, elapsed).duration_ms == s.duration,
        state_of(s, elapsed).current_time_ms <= state_of(s, elapsed).duration_ms,
        reached_end(s, sink_empty, elapsed) ==> {
            let st = state_of(observed(s, sink_empty, elapsed), elapsed);
            &&& st.current_time_ms == st.duration_ms
            &&& !st.is_playing
        },
{
}

/// Where a seek lands: an in-place seek is kept only when the device reports a
/// position within the tolerance of the clamped target; otherwise the stream,
/// rebuilt from the same file, starts exactly at the clamped target, in the
/// same play/pause state and at the same volume.
pub proof fn lemma_seek_lands_at_target(s: Session, t: int, reported: Option<u64>)
    requires
        session_wf(s),
        s.path is Some,
        t <= i64::MAX,
    ensures
        ({
            let c = clamp_time(t, s.duration);
            let after = sought(s, t, reported, Ok(Some(s.duration as u64)));
            &&& s.offset == 0 && in_place_accepted(s, c, reported) ==> {
                &&& after == s
                &&& reported->0 <= c + s.tolerance
                &&& c <= reported->0 + s.tolerance
            }
            &&& !(s.offset == 0 && in_place_accepted(s, c, reported)) ==> {
                &&& after.offset == c
                &&& position_of(after, 0) == c
                &&& after.duration == s.duration
                &&& after.paused == s.paused
                &&& after.volume == s.volume
            }
        }),
{
}

/// `SetVolume` and `Seek` commute: serialised in either order they give the
/// same session, so no interleaving yields a mix of the two.
pub proof fn lemma_volume_seek_commute(
    s: Session,
    v: int,
    t: int,
    reported: Option<u64>,
    outcome: Result<Option<u64>, PlaybackError>,
)
    ensures
        sought(volume_set(s, v), t, reported, outcome) == volume_set(sought(s, t, reported, outcome), v),
{
}

} // verus!

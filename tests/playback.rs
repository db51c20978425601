use rift::playback::{
    PlaybackController, PlaybackError, PlaybackState, SeekPlan, SinkCommand, StateSnapshot, DEFAULT_VOLUME,
};

fn loaded(duration_ms: Option<u64>) -> PlaybackController {
    let mut c = PlaybackController::new();
    let req = c.load_request("/music/song.flac".to_string());
    assert_eq!(req.offset_ms, 0);
    assert!(req.play);
    c.finish_load(req.path, Ok(duration_ms)).unwrap();
    c
}

/// Moves the stream start away from 0 by a seek that rebuilt the stream.
fn rebuilt_at(c: &mut PlaybackController, target_ms: i64, duration_ms: Option<u64>) {
    match c.plan_seek(target_ms) {
        SeekPlan::InPlace { target_ms } => {
            let req = c.after_in_place_seek(target_ms, None).unwrap();
            c.finish_seek(&req, Ok(duration_ms)).unwrap();
        }
        SeekPlan::Rebuild(req) => c.finish_seek(&req, Ok(duration_ms)).unwrap(),
        SeekPlan::Nothing => panic!("nothing loaded"),
    }
}

#[test]
fn fresh_engine_is_empty() {
    let mut c = PlaybackController::new();
    assert!(!c.is_loaded());
    let st = c.state(true, 0);
    assert_eq!(
        st,
        PlaybackState { is_loaded: false, is_playing: false, current_time_ms: 0, duration_ms: 0, volume: DEFAULT_VOLUME }
    );
    assert_eq!(PlaybackState::default(), st);
}

#[test]
fn load_and_play_starts_from_zero() {
    let mut c = loaded(Some(200_000));
    let st = c.state(false, 1500);
    assert!(st.is_loaded);
    assert!(st.is_playing);
    assert_eq!(st.current_time_ms, 1500);
    assert_eq!(st.duration_ms, 200_000);
}

#[test]
fn unknown_duration_is_zero_and_position_unclamped() {
    let mut c = loaded(None);
    let st = c.state(false, 900_000);
    assert_eq!(st.duration_ms, 0);
    assert_eq!(st.current_time_ms, 900_000);
}

#[test]
fn failed_load_leaves_engine_empty() {
    let mut c = loaded(Some(200_000));
    let req = c.load_request("/no/such/file.mp3".to_string());
    assert_eq!(c.finish_load(req.path, Err(PlaybackError::IoError)), Err(PlaybackError::IoError));
    let st = c.state(true, 0);
    assert!(!st.is_loaded);
    assert!(!st.is_playing);
    assert_eq!(st.current_time_ms, 0);
    assert_eq!(st.duration_ms, 0);

    let mut d = PlaybackController::new();
    let req = d.load_request("/bad.wav".to_string());
    assert_eq!(d.finish_load(req.path, Err(PlaybackError::DecodeError)), Err(PlaybackError::DecodeError));
    assert!(!d.is_loaded());
}

#[test]
fn play_without_track_is_noop_and_pause_always_succeeds() {
    let mut c = PlaybackController::new();
    assert_eq!(c.play(), SinkCommand::Nothing);
    assert!(!c.state(true, 0).is_playing);
    assert_eq!(c.pause(), SinkCommand::Pause);
    assert!(!c.state(true, 0).is_loaded);
}

#[test]
fn seek_clamps_to_track_bounds_in_place() {
    let c = loaded(Some(200_000));
    match c.plan_seek(-5_000) {
        SeekPlan::InPlace { target_ms } => assert_eq!(target_ms, 0),
        other => panic!("unexpected plan {:?}", other),
    }
    match c.plan_seek(500_000) {
        SeekPlan::InPlace { target_ms } => assert_eq!(target_ms, 200_000),
        other => panic!("unexpected plan {:?}", other),
    }
    match c.plan_seek(42_000) {
        SeekPlan::InPlace { target_ms } => assert_eq!(target_ms, 42_000),
        other => panic!("unexpected plan {:?}", other),
    }
}

#[test]
fn seek_clamps_on_the_rebuild_path() {
    let mut c = loaded(Some(200_000));
    rebuilt_at(&mut c, 50_000, Some(200_000));
    assert_eq!(c.position(0), 50_000);
    match c.plan_seek(-5_000) {
        SeekPlan::Rebuild(req) => {
            assert_eq!(req.offset_ms, 0);
            assert_eq!(req.path, "/music/song.flac");
        }
        other => panic!("unexpected plan {:?}", other),
    }
    match c.plan_seek(500_000) {
        SeekPlan::Rebuild(req) => assert_eq!(req.offset_ms, 200_000),
        other => panic!("unexpected plan {:?}", other),
    }
}

#[test]
fn unknown_duration_seek_only_clamps_below() {
    let c = loaded(None);
    match c.plan_seek(-1) {
        SeekPlan::InPlace { target_ms } => assert_eq!(target_ms, 0),
        other => panic!("unexpected plan {:?}", other),
    }
    match c.plan_seek(9_000_000) {
        SeekPlan::InPlace { target_ms } => assert_eq!(target_ms, 9_000_000),
        other => panic!("unexpected plan {:?}", other),
    }
}

#[test]
fn seek_without_track_does_nothing() {
    let c = PlaybackController::new();
    assert!(matches!(c.plan_seek(10_000), SeekPlan::Nothing));
}

#[test]
fn in_place_seek_accepted_within_tolerance() {
    let c = loaded(Some(200_000));
    assert!(c.after_in_place_seek(30_000, Some(30_900)).is_none());
    assert!(c.after_in_place_seek(30_000, Some(29_000)).is_none());
    assert!(c.after_in_place_seek(30_000, Some(31_001)).is_some());
    let req = c.after_in_place_seek(30_000, None).unwrap();
    assert_eq!(req.offset_ms, 30_000);
    assert!(req.play);
    let strict = PlaybackController::with_seek_tolerance(0);
    let mut strict = strict;
    let r = strict.load_request("/x.mp3".to_string());
    strict.finish_load(r.path, Ok(Some(100_000))).unwrap();
    assert!(strict.after_in_place_seek(1000, Some(1000)).is_none());
    assert!(strict.after_in_place_seek(1000, Some(1001)).is_some());
}

#[test]
fn rebuild_keeps_play_state_and_volume() {
    let mut c = loaded(Some(200_000));
    c.set_volume(250);
    c.pause();
    rebuilt_at(&mut c, 120_000, Some(200_000));
    let st = c.state(false, 0);
    assert!(!st.is_playing);
    assert_eq!(st.volume, 250);
    assert_eq!(st.current_time_ms, 120_000);
    // the rebuilt stream is requested at the current volume
    match c.plan_seek(10_000) {
        SeekPlan::Rebuild(req) => {
            assert_eq!(req.volume, 250);
            assert!(!req.play);
        }
        other => panic!("unexpected plan {:?}", other),
    }
}

#[test]
fn failed_rebuild_leaves_session_unchanged() {
    let mut c = loaded(Some(200_000));
    rebuilt_at(&mut c, 60_000, Some(200_000));
    let before = c.state(false, 10);
    match c.plan_seek(100_000) {
        SeekPlan::Rebuild(req) => {
            assert_eq!(c.finish_seek(&req, Err(PlaybackError::IoError)), Err(PlaybackError::IoError))
        }
        other => panic!("unexpected plan {:?}", other),
    }
    assert_eq!(c.state(false, 10), before);
}

#[test]
fn pause_play_pause_keeps_position() {
    let mut c = loaded(Some(200_000));
    rebuilt_at(&mut c, 30_000, Some(200_000));
    let before = c.position(4_000);
    assert_eq!(before, 34_000);
    assert_eq!(c.pause(), SinkCommand::Pause);
    assert_eq!(c.play(), SinkCommand::Play);
    assert_eq!(c.pause(), SinkCommand::Pause);
    assert_eq!(c.position(4_000), before);
    let st = c.state(false, 4_000);
    assert!(!st.is_playing);
    assert_eq!(st.current_time_ms, 34_000);
}

#[test]
fn position_is_capped_by_duration() {
    let mut c = loaded(Some(200_000));
    rebuilt_at(&mut c, 199_000, Some(200_000));
    assert_eq!(c.position(5_000), 200_000);
}

#[test]
fn drained_track_at_end_reports_paused() {
    let mut c = loaded(Some(10_000));
    let st = c.state(false, 10_000);
    assert!(st.is_playing);
    let st = c.state(true, 9_000);
    assert!(st.is_playing);
    let st = c.state(true, 10_000);
    assert!(!st.is_playing);
    assert!(st.is_loaded);
    assert_eq!(st.current_time_ms, 10_000);
}

#[test]
fn volume_is_clamped() {
    let mut c = PlaybackController::new();
    assert_eq!(c.set_volume(-5), SinkCommand::SetVolume(0));
    assert_eq!(c.set_volume(1500), SinkCommand::SetVolume(1000));
    assert_eq!(c.set_volume(420), SinkCommand::SetVolume(420));
    assert_eq!(c.state(true, 0).volume, 420);
}

#[test]
fn volume_and_seek_commute() {
    let mut a = loaded(Some(200_000));
    let mut b = loaded(Some(200_000));
    rebuilt_at(&mut a, 20_000, Some(200_000));
    rebuilt_at(&mut b, 20_000, Some(200_000));
    a.set_volume(300);
    rebuilt_at(&mut a, 90_000, Some(200_000));
    rebuilt_at(&mut b, 90_000, Some(200_000));
    b.set_volume(300);
    assert_eq!(a.state(false, 500), b.state(false, 500));
    assert_eq!(a.state(false, 500).volume, 300);
    assert_eq!(a.state(false, 500).current_time_ms, 90_500);
}

#[test]
fn snapshot_keeps_last_success() {
    let mut snap = StateSnapshot::new();
    assert_eq!(snap.state, PlaybackState::default());
    let good = PlaybackState { is_loaded: true, is_playing: true, current_time_ms: 5, duration_ms: 10, volume: 700 };
    snap.record(&Ok(good));
    assert_eq!(snap.state, good);
    snap.record(&Err(PlaybackError::DeviceUnavailable));
    assert_eq!(snap.state, good);
    assert_eq!(snap.read(&Err(PlaybackError::ServiceUnavailable)), good);
    let newer = PlaybackState { current_time_ms: 7, ..good };
    assert_eq!(snap.read(&Ok(newer)), newer);
}

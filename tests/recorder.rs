use nephtys::log::{MotionEvent, MovementLog};
use nephtys::recorder::{Action, Observation, Phase, Recorder, QUIET_PERIOD_MS};

fn clip_of(a: &Action) -> String {
    match a {
        Action::StartClip { clip } => clip.clone(),
        other => panic!("expected a start, got {:?}", other),
    }
}

fn event_of(a: &Action) -> MotionEvent {
    match a {
        Action::StopClip { event } => event.clone(),
        other => panic!("expected a stop, got {:?}", other),
    }
}

#[test]
fn idle_quiet_does_nothing() {
    let mut r = Recorder::new("first".to_string());
    assert!(matches!(r.step(Observation::Quiet, 10, "x".to_string()), Action::Nothing));
    assert_eq!(r.phase(), Phase::Idle);
    assert_eq!(r.log().len(), 0);
}

#[test]
fn motion_starts_session() {
    let mut r = Recorder::new("first".to_string());
    let a = r.step(Observation::Motion, 1000, String::new());
    assert_eq!(clip_of(&a), "first");
    assert_eq!(r.phase(), Phase::Recording { start_ms: 1000 });
    assert!(r.is_recording());
}

#[test]
fn motion_while_recording_is_idempotent() {
    let mut r = Recorder::new("first".to_string());
    r.step(Observation::Motion, 1000, String::new());
    for t in [1500, 2000, 4000] {
        assert!(matches!(r.step(Observation::Motion, t, "other".to_string()), Action::Nothing));
        assert_eq!(r.phase(), Phase::Recording { start_ms: 1000 });
    }
    let e = event_of(&r.step(Observation::Quiet, 9000, "second".to_string()));
    assert_eq!(e.clip, "first");
    assert_eq!(e.start_ms, 1000);
    assert_eq!(r.log().len(), 1);
}

#[test]
fn quiet_session_stops_after_quiet_period() {
    let mut r = Recorder::new("first".to_string());
    let t0: i64 = 1_700_000_000_000;
    r.step(Observation::Motion, t0, String::new());
    let t1 = t0 + QUIET_PERIOD_MS as i64;
    let e = event_of(&r.step(Observation::Quiet, t1, "second".to_string()));
    assert_eq!((e.start_ms, e.end_ms, e.clip.as_str()), (t0, t0 + 5000, "first"));
    assert_eq!(r.phase(), Phase::Idle);
    assert_eq!(r.log().len(), 1);
    assert_eq!(r.log().events()[0].end_ms, t0 + 5000);
    assert_eq!(clip_of(&r.step(Observation::Motion, t1 + 1, String::new())), "second");
}

#[test]
fn log_keeps_events_in_order() {
    let mut r = Recorder::new("c1".to_string());
    let mut persisted: Vec<Vec<(i64, i64, String)>> = vec![];
    for (k, name) in ["c2", "c3", "c4"].iter().enumerate() {
        let t = (k as i64) * 100_000;
        r.step(Observation::Motion, t, String::new());
        r.step(Observation::Quiet, t + 5000, name.to_string());
        persisted.push(r.log().events().iter().map(|e| (e.start_ms, e.end_ms, e.clip.clone())).collect());
    }
    assert_eq!(persisted[1], vec![(0, 5000, "c1".to_string()), (100_000, 105_000, "c2".to_string())]);
    assert_eq!(
        persisted[2],
        vec![
            (0, 5000, "c1".to_string()),
            (100_000, 105_000, "c2".to_string()),
            (200_000, 205_000, "c3".to_string())
        ]
    );
}

#[test]
fn movement_log_append() {
    let mut log = MovementLog::new();
    assert_eq!(log.len(), 0);
    log.append(MotionEvent::new(1, 2, "a".to_string()));
    log.append(MotionEvent::new(3, 4, "b".to_string()));
    assert_eq!(log.len(), 2);
    assert_eq!(log.events()[0].clip, "a");
    assert_eq!(log.events()[1].start_ms, 3);
    let d = log.events()[1].duplicate();
    assert_eq!((d.start_ms, d.end_ms, d.clip.as_str()), (3, 4, "b"));
}

#[test]
fn step_now_reserves_random_name() {
    let mut r = Recorder::with_random_name();
    let first = clip_of(&r.step_now(Observation::Motion));
    assert_eq!(first.len(), 32);
    assert!(first.chars().all(|c| c.is_ascii_alphanumeric()));
    let e = event_of(&r.step_now(Observation::Quiet));
    assert_eq!(e.clip, first);
    assert!(e.end_ms >= e.start_ms);
    let second = clip_of(&r.step_now(Observation::Motion));
    assert_eq!(second.len(), 32);
    assert_ne!(second, first);
}

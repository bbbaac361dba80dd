use russtly::playback::{backward_target, forward_target, PlaybackState, Span};

fn s(secs: u64, nanos: u32) -> Span {
    Span::from_parts(secs, nanos)
}

fn parts(x: Span) -> (u64, u32) {
    (x.as_secs(), x.subsec_nanos())
}

#[test]
fn span_arithmetic() {
    assert_eq!(parts(s(1, 600_000_000).plus(s(2, 500_000_000))), (4, 100_000_000));
    assert_eq!(parts(s(4, 100_000_000).minus(s(2, 500_000_000))), (1, 600_000_000));
    assert_eq!(parts(s(3, 0).min(s(2, 999))), (2, 999));
    assert!(s(1, 5).shorter_than(&s(1, 6)));
    assert!(!s(2, 0).shorter_than(&s(1, 999_999_999)));
}

#[test]
fn skip_targets() {
    assert_eq!(parts(forward_target(s(10, 0), s(30, 0), Some(s(25, 0)))), (25, 0));
    assert_eq!(parts(forward_target(s(10, 0), s(30, 0), None)), (40, 0));
    assert_eq!(parts(backward_target(s(10, 0), s(15, 0))), (0, 0));
    assert_eq!(parts(backward_target(s(20, 5), s(15, 0))), (5, 5));
}

#[test]
fn playback_state_transitions() {
    let mut st = PlaybackState::new();
    assert_eq!(st.seek_source(), None);
    let seek = st.source_opened(Some(s(100, 0)), Some(s(250, 0)));
    assert_eq!(seek.map(parts), Some((100, 0)));
    assert_eq!(parts(st.seek_offset), (100, 0));
    st.started(7, "/tmp/ep.mp3".to_string());
    assert_eq!(st.seek_source(), Some((7, "/tmp/ep.mp3".to_string())));
    assert_eq!(parts(st.position(s(5, 0))), (105, 0));
    assert_eq!(st.source_opened(None, None).map(parts), None);
    assert_eq!(parts(st.seek_offset), (0, 0));
    st.stopped();
    assert_eq!(st.current_episode_id, None);
    assert_eq!(st.current_path, None);
    assert_eq!(parts(st.position(s(3, 0))), (3, 0));
}

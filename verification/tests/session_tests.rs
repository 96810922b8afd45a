use ksana::capture::{RecordState, RecordingFinished, TickOutcome, MAX_NO_DATA};
use ksana::io::{Loader, Saver, CURRENT_VERSION};
use ksana::playback::{identify_sim, SimKind};

#[test]
fn record_and_replay_three_frames() {
    // a whole capture session followed by a whole load pass
    let frames: Vec<Vec<u8>> = vec![vec![1, 2, 3, 4], vec![5, 6, 7, 8, 9, 10], vec![0; 1000]];
    let mut saver = Saver::new(60, *b"acsa");
    let mut state = RecordState::new();
    for frame in &frames {
        let outcome = state.tick(&mut saver, false, Some(frame.clone())).unwrap();
        assert!(matches!(outcome, TickOutcome::Continue));
    }
    saver.flush().unwrap();

    let mut loader = Loader::new(saver.data().clone()).unwrap();
    assert_eq!(loader.fps(), 60);
    assert_eq!(&loader.id(), b"acsa");
    assert_eq!(loader.version(), CURRENT_VERSION);
    for expected in &frames {
        assert_eq!(loader.load().unwrap().as_ref(), Some(expected));
    }
    assert_eq!(loader.load().unwrap(), None);
}

#[test]
fn capture_stops_after_twenty_one_empty_polls() {
    let mut saver = Saver::new(5, *b"irac");
    let mut state = RecordState::new();
    for poll in 1..=MAX_NO_DATA {
        let outcome = state.tick(&mut saver, false, None).unwrap();
        assert!(
            matches!(outcome, TickOutcome::Continue),
            "poll {} should keep the session alive",
            poll
        );
    }
    let outcome = state.tick(&mut saver, false, None).unwrap();
    assert!(matches!(
        outcome,
        TickOutcome::Finished(RecordingFinished::SimDisconnected)
    ));
}

#[test]
fn fresh_data_resets_the_empty_poll_counter() {
    let mut saver = Saver::new(5, *b"irac");
    let mut state = RecordState::new();
    for _ in 0..MAX_NO_DATA {
        state.tick(&mut saver, false, None).unwrap();
    }
    state.tick(&mut saver, false, Some(vec![1])).unwrap();
    assert_eq!(state.no_data_count, 0);
    for _ in 0..MAX_NO_DATA {
        let outcome = state.tick(&mut saver, false, None).unwrap();
        assert!(matches!(outcome, TickOutcome::Continue));
    }
}

#[test]
fn cancellation_ends_the_session_at_once() {
    let mut saver = Saver::new(5, *b"irac");
    let mut state = RecordState::new();
    let before = saver.data().len();
    let outcome = state.tick(&mut saver, true, Some(vec![1, 2, 3])).unwrap();
    assert!(matches!(
        outcome,
        TickOutcome::Finished(RecordingFinished::QuitRequested)
    ));
    assert_eq!(saver.data().len(), before);
}

#[test]
fn source_identifiers_select_their_layout_model() {
    assert_eq!(identify_sim(*b"irac"), Some(SimKind::IRacing));
    assert_eq!(identify_sim(*b"acsa"), Some(SimKind::AssettoCorsa));
    assert_eq!(identify_sim(*b"xxxx"), None);
    assert_eq!(identify_sim(*b"iraC"), None);
    assert_eq!(identify_sim([0; 4]), None);
}

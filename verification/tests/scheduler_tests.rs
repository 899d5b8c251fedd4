use speakstream::pipeline::LineOutcome;
use speakstream::pipeline::Pipeline;
use speakstream::scheduler::AdvanceStep;
use speakstream::scheduler::Scheduler;
use speakstream::store::SentenceStore;
use speakstream::store::StoreError;

#[test]
fn duplicate_insert_is_rejected_not_overwritten() {
    let mut st = SentenceStore::new();
    assert!(st.insert(1, "first".to_string()).is_ok());
    match st.insert(1, "second".to_string()) {
        Err(StoreError::PositionOccupied { position }) => assert_eq!(position, 1),
        Ok(()) => panic!("a duplicate insert must be refused"),
    }
    // The first entry is untouched.
    assert_eq!(st.get(1), Some(&"first".to_string()));
    assert_eq!(st.len(), 1);
}

#[test]
fn store_is_consumed_forward() {
    let mut st = SentenceStore::new();
    assert!(st.insert(1, "a".to_string()).is_ok());
    assert!(st.insert(2, "b".to_string()).is_ok());
    assert!(st.contains(1));
    assert_eq!(st.take(1), Some("a".to_string()));
    assert!(!st.contains(1));
    assert_eq!(st.take(1), None);
    assert_eq!(st.get(2), Some(&"b".to_string()));
}

#[test]
fn playback_order_is_generation_order_despite_synthesis_order() {
    // Position 2's synthesis finishes before position 1's; playback still
    // runs 1 then 2.
    let mut sc = Scheduler::new();
    sc.record_synthesis(2, true);
    assert!(matches!(sc.try_advance(), AdvanceStep::Waiting));
    sc.record_synthesis(1, true);

    let mut played: Vec<u64> = Vec::new();
    loop {
        match sc.try_advance() {
            AdvanceStep::Play { position } => {
                played.push(position);
                sc.playback_complete();
            }
            AdvanceStep::Skip { .. } => {}
            AdvanceStep::Busy => panic!("playback must be single-flight"),
            AdvanceStep::Waiting => break,
        }
    }
    assert_eq!(played, vec![1, 2]);
    assert!(sc.is_complete(true, 2));
}

#[test]
fn nothing_starts_while_a_sentence_is_playing() {
    let mut sc = Scheduler::new();
    sc.record_synthesis(1, true);
    sc.record_synthesis(2, true);
    assert!(matches!(sc.try_advance(), AdvanceStep::Play { position: 1 }));
    // Position 2 is ready, but position 1 is still playing.
    assert!(matches!(sc.try_advance(), AdvanceStep::Busy));
    sc.playback_complete();
    assert!(matches!(sc.try_advance(), AdvanceStep::Play { position: 2 }));
}

#[test]
fn failed_synthesis_is_skipped_and_the_stream_goes_on() {
    let mut sc = Scheduler::new();
    sc.record_synthesis(1, false);
    sc.record_synthesis(2, true);
    assert!(matches!(sc.try_advance(), AdvanceStep::Skip { position: 1 }));
    assert!(matches!(sc.try_advance(), AdvanceStep::Play { position: 2 }));
    sc.playback_complete();
    assert!(sc.is_complete(true, 2));
    assert!(!sc.is_complete(false, 2));
}

#[test]
fn fragments_play_in_generation_order_end_to_end() {
    // Fragments "Hello", " world.", " Bye." become sentences "Hello world."
    // and " Bye." at positions 1 and 2; position 2's synthesis completes
    // first, yet the audio plays 1 then 2.
    let mut p = Pipeline::new();
    let mut sc = Scheduler::new();
    let fragments = ["Hello", " world.", " Bye."];
    let mut positions: Vec<u64> = Vec::new();
    for f in fragments {
        let mut line = String::new();
        line.push_str("{\"response\":\"");
        line.push_str(f);
        line.push_str("\",\"done\":false}");
        if let LineOutcome::Published { position, .. } = p.ingest_line(&line) {
            positions.push(position);
        }
    }
    assert_eq!(positions, vec![1, 2]);
    assert_eq!(p.sentence_at(1), Some(&"Hello world.".to_string()));
    assert_eq!(p.sentence_at(2), Some(&" Bye.".to_string()));

    // Synthesis completes out of order.
    assert!(p.sentence_at(2).is_some());
    sc.record_synthesis(2, true);
    assert!(matches!(sc.try_advance(), AdvanceStep::Waiting));
    assert!(p.sentence_at(1).is_some());
    sc.record_synthesis(1, true);

    let mut played: Vec<String> = Vec::new();
    loop {
        match sc.try_advance() {
            AdvanceStep::Play { position } => {
                played.push(p.discard_sentence(position).expect("a played position was stored"));
                sc.playback_complete();
            }
            AdvanceStep::Skip { .. } => {}
            AdvanceStep::Busy => panic!("playback must be single-flight"),
            AdvanceStep::Waiting => break,
        }
    }
    assert_eq!(played, vec!["Hello world.".to_string(), " Bye.".to_string()]);
    assert!(sc.is_complete(true, 2));
}

#[test]
fn scheduler_waits_at_a_gap() {
    let mut sc = Scheduler::new();
    // Nothing reported for position 1 yet: the cursor must not move.
    assert!(matches!(sc.try_advance(), AdvanceStep::Waiting));
    assert!(matches!(sc.try_advance(), AdvanceStep::Waiting));
    assert!(!sc.is_complete(true, 1));
}

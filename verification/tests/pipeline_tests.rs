use speakstream::pipeline::ChunkOutcome;
use speakstream::pipeline::LineOutcome;
use speakstream::pipeline::Pipeline;

fn record(text: &str, done: bool) -> String {
    let mut line = String::new();
    line.push_str("{\"response\":\"");
    line.push_str(text);
    line.push_str("\",\"done\":");
    line.push_str(if done { "true" } else { "false" });
    line.push_str("}");
    line
}

#[test]
fn sentences_get_positions_one_and_two() {
    let mut p = Pipeline::new();
    assert!(matches!(p.ingest_line(&record("Hello", false)), LineOutcome::Accumulated { done: false }));
    assert!(matches!(
        p.ingest_line(&record(" world.", false)),
        LineOutcome::Published { position: 1, done: false }
    ));
    assert!(matches!(
        p.ingest_line(&record(" Bye.", false)),
        LineOutcome::Published { position: 2, done: false }
    ));
    assert_eq!(p.sentence_at(1), Some(&"Hello world.".to_string()));
    assert_eq!(p.sentence_at(2), Some(&" Bye.".to_string()));
    assert_eq!(p.sentence_at(3), None);
}

#[test]
fn malformed_record_is_skipped_without_a_gap() {
    let mut p = Pipeline::new();
    assert!(matches!(
        p.ingest_line(&record("One.", false)),
        LineOutcome::Published { position: 1, .. }
    ));
    assert!(matches!(p.ingest_line("this is not json"), LineOutcome::Malformed));
    assert!(matches!(p.ingest_line("{\"response\": 7, \"done\": false}"), LineOutcome::Malformed));
    assert!(matches!(
        p.ingest_line(&record("Two.", false)),
        LineOutcome::Published { position: 2, .. }
    ));
    assert_eq!(p.sentence_at(1), Some(&"One.".to_string()));
    assert_eq!(p.sentence_at(2), Some(&"Two.".to_string()));
}

#[test]
fn chunk_ingestion_splits_records_on_line_breaks() {
    let mut p = Pipeline::new();
    let mut chunk = record("Hi", false);
    chunk.push('\n');
    chunk.push_str(&record(" all.", false));
    chunk.push('\n');
    chunk.push('\n');
    chunk.push_str(&record(" Done.", true));
    let ChunkOutcome { published, done } = p.ingest_chunk(&chunk);
    assert_eq!(published, 2);
    assert!(done);
    assert_eq!(p.sentence_at(1), Some(&"Hi all.".to_string()));
    assert_eq!(p.sentence_at(2), Some(&" Done.".to_string()));
}

#[test]
fn empty_chunk_publishes_nothing() {
    let mut p = Pipeline::new();
    let ChunkOutcome { published, done } = p.ingest_chunk("");
    assert_eq!(published, 0);
    assert!(!done);
    assert_eq!(p.next_position(), 1);
}

#[test]
fn completion_flag_is_surfaced() {
    let mut p = Pipeline::new();
    match p.ingest_line(&record("", true)) {
        LineOutcome::Accumulated { done } => assert!(done),
        _ => panic!("an empty fragment must accumulate"),
    }
}

#[test]
fn end_of_stream_publishes_trailing_sentence() {
    let mut p = Pipeline::new();
    assert!(matches!(p.ingest_line(&record("no punctuation here", false)), LineOutcome::Accumulated { .. }));
    assert_eq!(p.finish_stream(), Some(1));
    assert_eq!(p.sentence_at(1), Some(&"no punctuation here".to_string()));
    // Nothing pending any more: a second end-of-stream publishes nothing.
    assert_eq!(p.finish_stream(), None);
}

#[test]
fn played_sentences_can_be_discarded() {
    let mut p = Pipeline::new();
    assert!(matches!(p.ingest_line(&record("Gone.", false)), LineOutcome::Published { position: 1, .. }));
    assert_eq!(p.discard_sentence(1), Some("Gone.".to_string()));
    assert_eq!(p.sentence_at(1), None);
    assert_eq!(p.discard_sentence(1), None);
    // The position is not reused after discarding.
    assert_eq!(p.next_position(), 2);
}

use recall::index::{index_all_sessions, IndexNext, IndexStart};

#[test]
fn without_a_model_nothing_is_indexed() {
    for total in [0, 3] {
        match index_all_sessions(false, total) {
            IndexStart::Stop(line) => assert_eq!(line, "Failed to load embedding model."),
            other => panic!("{:?}", other),
        }
    }
}

#[test]
fn nothing_is_left_to_index() {
    match index_all_sessions(true, 0) {
        IndexStart::Stop(line) => assert_eq!(line, "All sessions already indexed."),
        other => panic!("{:?}", other),
    }
}

#[test]
fn every_session_is_indexed_in_order() {
    let mut run = match index_all_sessions(true, 3) {
        IndexStart::Begin(line, run) => {
            assert_eq!(line, "Indexing 3 sessions...");
            run
        }
        other => panic!("{:?}", other),
    };
    let mut seen = Vec::new();
    loop {
        match run.next() {
            IndexNext::Embed(i) => {
                seen.push(i);
                assert_eq!(run.advance(), format!("\r  {}/3", i + 1));
            }
            IndexNext::Finish(line) => {
                assert_eq!(line, "\nDone. 3 sessions indexed.");
                break;
            }
        }
    }
    assert_eq!(seen, vec![0, 1, 2]);
}

use osc52_copy::osc52::generate_osc52_sequence;
use osc52_copy::session::{Action, Event, Osc52Session, Phase};

fn run(events: Vec<Event>) -> (Vec<u8>, Vec<&'static str>, Phase) {
    let mut session = Osc52Session::new();
    let mut written = Vec::new();
    let mut kinds = Vec::new();
    for ev in events {
        match session.step(ev) {
            Action::Write(bytes) => {
                written.extend(bytes);
                kinds.push("write");
            }
            Action::WriteAndFlush(bytes) => {
                written.extend(bytes);
                kinds.push("flush");
            }
            Action::Abort => kinds.push("abort"),
            Action::Idle => kinds.push("idle"),
        }
    }
    (written, kinds, session.phase())
}

#[test]
fn test_streaming_produces_same_result_as_original() {
    let test_data = b"hello world streaming test";
    let original_result = generate_osc52_sequence(test_data);
    let events = vec![
        Event::Opened,
        Event::Data(test_data[..5].to_vec()),
        Event::Data(test_data[5..].to_vec()),
        Event::End,
    ];
    let (streamed_output, _, phase) = run(events);
    assert_eq!(String::from_utf8(streamed_output).unwrap(), String::from_utf8(original_result).unwrap());
    assert_eq!(phase, Phase::Done);
}

#[test]
fn empty_input_is_prefix_then_suffix() {
    let (out, kinds, phase) = run(vec![Event::Opened, Event::End]);
    assert_eq!(out, b"\x1b]52;c;\x07".to_vec());
    assert_eq!(kinds, vec!["write", "flush"]);
    assert_eq!(phase, Phase::Done);
}

#[test]
fn flush_comes_once_after_the_suffix() {
    let (out, kinds, _) = run(vec![
        Event::Opened,
        Event::Data(b"hel".to_vec()),
        Event::Data(b"lo".to_vec()),
        Event::End,
        Event::End,
    ]);
    assert_eq!(out, b"\x1b]52;c;aGVsbG8=\x07".to_vec());
    assert_eq!(kinds, vec!["write", "write", "write", "flush", "idle"]);
}

#[test]
fn source_failure_writes_nothing() {
    let (out, kinds, phase) = run(vec![Event::Failed]);
    assert!(out.is_empty());
    assert_eq!(kinds, vec!["abort"]);
    assert_eq!(phase, Phase::Failed);
}

#[test]
fn failure_mid_body_aborts() {
    let (out, kinds, phase) = run(vec![
        Event::Opened,
        Event::Data(b"abcd".to_vec()),
        Event::Failed,
        Event::Data(b"ef".to_vec()),
    ]);
    assert_eq!(out, b"\x1b]52;c;YWJj".to_vec());
    assert_eq!(kinds, vec!["write", "write", "abort", "idle"]);
    assert_eq!(phase, Phase::Failed);
}

#[test]
fn data_before_open_aborts() {
    let (out, kinds, phase) = run(vec![Event::Data(b"x".to_vec())]);
    assert!(out.is_empty());
    assert_eq!(kinds, vec!["abort"]);
    assert_eq!(phase, Phase::Failed);
}

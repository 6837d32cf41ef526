use hypercore_wasm::demo::open2;
use hypercore_wasm::transport::{write_completion, WriteError, WriteSignal};

#[test]
fn open2_answers_ok() {
    assert_eq!(open2("ok".to_string()), Ok("ok fine".to_string()));
}

#[test]
fn open2_answers_error_otherwise() {
    assert_eq!(open2("nope".to_string()), Err("oh no".to_string()));
    assert_eq!(open2(String::new()), Err("oh no".to_string()));
}

#[test]
fn write_completes_with_whole_length_when_signalled() {
    assert_eq!(write_completion(WriteSignal::Sent, 12), Ok(12));
    assert_eq!(write_completion(WriteSignal::SendFailed, 5), Ok(5));
}

#[test]
fn write_fails_when_sender_is_gone() {
    assert_eq!(write_completion(WriteSignal::SenderGone, 3), Err(WriteError::SenderGone));
}

use transecho::client::{
    audio_send_step, ping_send_step, read_step, ReadStep, SendOutcome, SocketRead,
    TranslationClient,
};
use transecho::codec::{
    SessionConfig, TranslationEvent, EVENT_FINISH_SESSION, EVENT_SESSION_STARTED,
    EVENT_START_SESSION, EVENT_TASK_REQUEST,
};
use transecho::proto::{TranslateRequest, TranslateResponse};

fn config() -> SessionConfig {
    SessionConfig {
        app_key: "k".to_string(),
        access_key: "a".to_string(),
        resource_id: "r".to_string(),
        connection_id: "conn".to_string(),
        session_id: "sess".to_string(),
        mode: "s2t".to_string(),
        source_language: "ja".to_string(),
        target_language: "zh".to_string(),
        speaker_id: String::new(),
    }
}

#[test]
fn client_numbers_requests_from_start() {
    let mut client = TranslationClient::new(config());
    assert_eq!(client.sequence(), 0);
    let start = TranslateRequest::decode(&client.start_message()).unwrap();
    assert_eq!(start.event, EVENT_START_SESSION);
    assert_eq!(start.request_meta.unwrap().sequence, 0);
    assert_eq!(client.sequence(), 1);

    let first = TranslateRequest::decode(&client.audio_message(&[1, 2, 3])).unwrap();
    assert_eq!(first.event, EVENT_TASK_REQUEST);
    let meta = first.request_meta.unwrap();
    assert_eq!(meta.sequence, 1);
    assert_eq!(meta.session_id, "sess");
    assert_eq!(meta.connection_id, "conn");
    assert_eq!(first.source_audio.unwrap().binary_data, vec![1, 0, 2, 0, 3, 0]);

    let second = TranslateRequest::decode(&client.audio_message(&[])).unwrap();
    assert_eq!(second.request_meta.unwrap().sequence, 2);

    let finish = TranslateRequest::decode(&client.finish_message()).unwrap();
    assert_eq!(finish.event, EVENT_FINISH_SESSION);
    assert_eq!(finish.request_meta.unwrap().sequence, 3);
    assert_eq!(client.config().session_id, "sess");
}

#[test]
fn reader_forwards_decoded_events() {
    let mut resp = TranslateResponse {
        response_meta: None,
        event: EVENT_SESSION_STARTED,
        data: vec![],
        text: String::new(),
        start_time: 0,
        end_time: 0,
        spk_chg: false,
        muted_duration_ms: 0,
    };
    match read_step(SocketRead::Binary(resp.encode())) {
        ReadStep::Forward(TranslationEvent::SessionStarted) => {}
        _ => panic!("expected SessionStarted"),
    }
    resp.event = 0;
    assert!(matches!(
        read_step(SocketRead::Binary(resp.encode())),
        ReadStep::Forward(TranslationEvent::Unknown { event: 0 })
    ));
}

#[test]
fn reader_skips_undecodable_and_control_messages() {
    assert!(matches!(read_step(SocketRead::Binary(vec![0xff])), ReadStep::Continue));
    assert!(matches!(read_step(SocketRead::Pong), ReadStep::Continue));
    assert!(matches!(read_step(SocketRead::Other), ReadStep::Continue));
    assert!(matches!(read_step(SocketRead::Close), ReadStep::Stop));
    assert!(matches!(read_step(SocketRead::Ended), ReadStep::Stop));
}

#[test]
fn reader_reports_socket_failures() {
    match read_step(SocketRead::Error("reset".to_string())) {
        ReadStep::Fail(TranslationEvent::SessionFailed { message }) => {
            assert_eq!(message, "WebSocket 错误: reset")
        }
        _ => panic!("expected failure"),
    }
    match read_step(SocketRead::TimedOut) {
        ReadStep::Fail(TranslationEvent::SessionFailed { message }) => {
            assert_eq!(message, "连接超时: 30秒未收到服务端响应")
        }
        _ => panic!("expected failure"),
    }
}

#[test]
fn writer_reports_send_failures() {
    assert!(audio_send_step(SendOutcome::Sent).is_none());
    match audio_send_step(SendOutcome::Failed("broken pipe".to_string())) {
        Some(TranslationEvent::SessionFailed { message }) => {
            assert_eq!(message, "音频发送失败: broken pipe")
        }
        _ => panic!("expected failure"),
    }
    match audio_send_step(SendOutcome::TimedOut) {
        Some(TranslationEvent::SessionFailed { message }) => assert_eq!(message, "音频发送超时"),
        _ => panic!("expected failure"),
    }
    assert!(ping_send_step(SendOutcome::Sent).is_none());
    match ping_send_step(SendOutcome::Failed("x".to_string())) {
        Some(TranslationEvent::SessionFailed { message }) => {
            assert_eq!(message, "心跳发送失败，连接可能已断开")
        }
        _ => panic!("expected failure"),
    }
    match ping_send_step(SendOutcome::TimedOut) {
        Some(TranslationEvent::SessionFailed { message }) => {
            assert_eq!(message, "心跳超时，连接可能已断开")
        }
        _ => panic!("expected failure"),
    }
}

fn response(event: i32, text: &str) -> Vec<u8> {
    TranslateResponse {
        response_meta: None,
        event,
        data: vec![],
        text: text.to_string(),
        start_time: 0,
        end_time: 0,
        spk_chg: false,
        muted_duration_ms: 0,
    }
    .encode()
}

/// Runs the reading side over `reads` as the connection does.
fn run_reader(reads: Vec<SocketRead>) -> Vec<TranslationEvent> {
    let mut delivered = Vec::new();
    for read in reads {
        match read_step(read) {
            ReadStep::Forward(ev) => delivered.push(ev),
            ReadStep::Continue => {}
            ReadStep::Stop => break,
            ReadStep::Fail(ev) => {
                delivered.push(ev);
                break;
            }
        }
    }
    delivered
}

#[test]
fn reader_run_keeps_arrival_order() {
    let events = run_reader(vec![
        SocketRead::Binary(response(651, "a")),
        SocketRead::Pong,
        SocketRead::Binary(vec![0xff]),
        SocketRead::Binary(response(654, "b")),
        SocketRead::TimedOut,
        SocketRead::Binary(response(651, "never")),
    ]);
    assert_eq!(events.len(), 3);
    assert!(matches!(&events[0], TranslationEvent::SourceSubtitle { text, .. } if text == "a"));
    assert!(matches!(&events[1], TranslationEvent::TranslationSubtitle { text, .. } if text == "b"));
    assert!(matches!(&events[2], TranslationEvent::SessionFailed { .. }));

    let closed = run_reader(vec![SocketRead::Close, SocketRead::Binary(response(651, "x"))]);
    assert!(closed.is_empty());
}

#[test]
fn requests_numbered_over_a_run() {
    let mut client = TranslationClient::new(config());
    client.start_message();
    for k in 0..5 {
        let req = TranslateRequest::decode(&client.audio_message(&[k as i16])).unwrap();
        assert_eq!(req.request_meta.unwrap().sequence, 1 + k);
    }
    let finish = TranslateRequest::decode(&client.finish_message()).unwrap();
    assert_eq!(finish.request_meta.unwrap().sequence, 6);
}

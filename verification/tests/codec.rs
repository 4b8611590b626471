use transecho::codec::{
    decode_response, encode_audio_frame, encode_finish_session, encode_start_session,
    SessionConfig, TranslationEvent, EVENT_FINISH_SESSION, EVENT_NONE, EVENT_SESSION_FAILED,
    EVENT_START_SESSION, EVENT_TASK_REQUEST, EVENT_TRANSLATION_SUBTITLE_RESPONSE,
};
use transecho::proto::{ResponseMeta, TranslateRequest, TranslateResponse};

fn test_config(mode: &str) -> SessionConfig {
    SessionConfig {
        app_key: "test-key".to_string(),
        access_key: "test-access".to_string(),
        resource_id: "volc.service_type.10053".to_string(),
        connection_id: "conn-1".to_string(),
        session_id: "sess-1".to_string(),
        mode: mode.to_string(),
        source_language: "en".to_string(),
        target_language: "zh".to_string(),
        speaker_id: String::new(),
    }
}

#[test]
fn test_encode_start_session() {
    let config = test_config("s2t");
    let data = encode_start_session(&config);
    assert!(!data.is_empty());

    let req = TranslateRequest::decode(data.as_slice()).unwrap();
    assert_eq!(req.event, EVENT_START_SESSION);
    assert_eq!(req.request.unwrap().mode, "s2t");
    let audio = req.source_audio.unwrap();
    assert_eq!(audio.format, "wav");
    assert_eq!(audio.rate, 16000);
}

#[test]
fn test_encode_audio_frame() {
    let samples: Vec<i16> = vec![0; 1280];
    let data = encode_audio_frame("sess-1", "conn-1", 1, &samples);
    assert!(!data.is_empty());

    let req = TranslateRequest::decode(data.as_slice()).unwrap();
    assert_eq!(req.event, EVENT_TASK_REQUEST);
    let audio = req.source_audio.unwrap();
    assert_eq!(audio.binary_data.len(), 2560);
}

#[test]
fn test_encode_audio_frame_alignment() {
    let samples: Vec<i16> = (0..1280).map(|i| (i % 256) as i16).collect();
    let data = encode_audio_frame("s", "c", 0, &samples);
    let req = TranslateRequest::decode(data.as_slice()).unwrap();
    let audio_bytes = req.source_audio.unwrap().binary_data;
    assert_eq!(audio_bytes.len(), 2560);

    let first = i16::from_le_bytes([audio_bytes[0], audio_bytes[1]]);
    assert_eq!(first, 0);
    let second = i16::from_le_bytes([audio_bytes[2], audio_bytes[3]]);
    assert_eq!(second, 1);
}

#[test]
fn test_decode_translation_response() {
    let resp = TranslateResponse {
        response_meta: Some(ResponseMeta {
            session_id: "s".to_string(),
            sequence: 1,
            status_code: 20000000,
            message: String::new(),
        }),
        event: EVENT_TRANSLATION_SUBTITLE_RESPONSE,
        data: vec![],
        text: "你好世界".to_string(),
        start_time: 0,
        end_time: 1000,
        spk_chg: false,
        muted_duration_ms: 0,
    };
    let encoded = resp.encode();
    let event = decode_response(&encoded).unwrap();
    match event {
        TranslationEvent::TranslationSubtitle { text, is_final, .. } => {
            assert_eq!(text, "你好世界");
            assert!(!is_final);
        }
        _ => panic!("Expected TranslationSubtitle"),
    }
}

#[test]
fn test_decode_error_response() {
    let resp = TranslateResponse {
        response_meta: Some(ResponseMeta {
            session_id: "s".to_string(),
            sequence: 0,
            status_code: 45000001,
            message: "Invalid request".to_string(),
        }),
        event: EVENT_SESSION_FAILED,
        data: vec![],
        text: String::new(),
        start_time: 0,
        end_time: 0,
        spk_chg: false,
        muted_duration_ms: 0,
    };
    let encoded = resp.encode();
    let event = decode_response(&encoded).unwrap();
    match event {
        TranslationEvent::SessionFailed { message } => {
            assert!(message.contains("45000001"));
        }
        _ => panic!("Expected SessionFailed"),
    }
}

#[test]
fn test_decode_empty_response() {
    let resp = TranslateResponse {
        response_meta: None,
        event: EVENT_NONE,
        data: vec![],
        text: String::new(),
        start_time: 0,
        end_time: 0,
        spk_chg: false,
        muted_duration_ms: 0,
    };
    let encoded = resp.encode();
    let event = decode_response(&encoded).unwrap();
    assert!(matches!(event, TranslationEvent::Unknown { .. }));
}

#[test]
fn start_session_s2s_sets_target_audio() {
    let data = encode_start_session(&test_config("s2s"));
    let req = TranslateRequest::decode(data.as_slice()).unwrap();
    let target = req.target_audio.unwrap();
    assert_eq!(target.format, "pcm");
    assert_eq!(target.rate, 24000);
    assert_eq!(target.bits, 32);
    assert_eq!(target.channel, 1);
    let meta = req.request_meta.unwrap();
    assert_eq!(meta.app_key, "test-key");
    assert_eq!(meta.endpoint, "volc.service_type.10053");
    assert_eq!(meta.resource_id, "volc.service_type.10053");
    assert_eq!(meta.sequence, 0);
    assert_eq!(req.user.unwrap().platform, "macOS");
    assert_eq!(req.denoise, Some(false));
}

#[test]
fn start_session_s2t_leaves_target_audio_empty() {
    let data = encode_start_session(&test_config("s2t"));
    let req = TranslateRequest::decode(data.as_slice()).unwrap();
    let target = req.target_audio.unwrap();
    assert_eq!(target.format, "");
    assert_eq!(target.rate, 0);
    let source = req.source_audio.unwrap();
    assert_eq!(source.codec, "raw");
    assert_eq!(source.bits, 16);
    assert_eq!(source.channel, 1);
}

#[test]
fn finish_session_carries_sequence() {
    let data = encode_finish_session("sess-9", "conn-9", 42);
    let req = TranslateRequest::decode(data.as_slice()).unwrap();
    assert_eq!(req.event, EVENT_FINISH_SESSION);
    let meta = req.request_meta.unwrap();
    assert_eq!(meta.sequence, 42);
    assert_eq!(meta.session_id, "sess-9");
    assert_eq!(meta.connection_id, "conn-9");
    assert!(req.source_audio.is_none());
}

#[test]
fn audio_frame_exact_bytes() {
    // event 200 = 0xC8 0x01; header: connection "c", session "s", sequence 3
    let data = encode_audio_frame("s", "c", 3, &[-2, 0x0102]);
    let expected: Vec<u8> = vec![
        0x0a, 0x08, 0x2a, 0x01, b'c', 0x32, 0x01, b's', 0x38, 0x03, // request_meta
        0x10, 0xc8, 0x01, // event
        0x22, 0x06, 0x52, 0x04, 0xfe, 0xff, 0x02, 0x01, // source_audio.binary_data
    ];
    assert_eq!(data, expected);
}

#[test]
fn status_failure_text_for_negative_code() {
    let resp = TranslateResponse {
        response_meta: Some(ResponseMeta {
            session_id: String::new(),
            sequence: 0,
            status_code: -7,
            message: "bad".to_string(),
        }),
        event: 0,
        data: vec![],
        text: String::new(),
        start_time: 0,
        end_time: 0,
        spk_chg: false,
        muted_duration_ms: 0,
    };
    match decode_response(&resp.encode()).unwrap() {
        TranslationEvent::SessionFailed { message } => assert_eq!(message, "Status -7: bad"),
        _ => panic!("Expected SessionFailed"),
    }
}

#[test]
fn decode_rejects_truncated_and_bad_wire_type() {
    // length-delimited text field that claims 5 bytes but has 1
    assert!(decode_response(&[0x22, 0x05, b'a']).is_err());
    // field 2 (event) sent as length-delimited
    assert!(decode_response(&[0x12, 0x00]).is_err());
    // invalid UTF-8 in text
    assert!(decode_response(&[0x22, 0x01, 0xff]).is_err());
    // unknown field 9 as fixed32 is skipped
    assert!(matches!(
        decode_response(&[0x4d, 1, 2, 3, 4]).unwrap(),
        TranslationEvent::Unknown { event: 0 }
    ));
}

#[test]
fn long_unknown_group_is_skipped() {
    let mut bytes = vec![0xa3, 0x01];
    for _ in 0..300_000 {
        bytes.extend_from_slice(&[0x08, 0x00]);
    }
    bytes.extend_from_slice(&[0xa4, 0x01]);
    bytes.extend_from_slice(&[0x10, 0x96, 0x01]);
    assert!(matches!(decode_response(&bytes), Ok(TranslationEvent::SessionStarted)));
    // a group closed with another tag is malformed
    assert!(decode_response(&[0xa3, 0x01, 0xac, 0x01]).is_err());
}

#[test]
fn billing_record_must_be_well_formed() {
    let ok = [0x0a, 0x04, 0x2a, 0x02, 0x08, 0x01, 0x10, 0x96, 0x01];
    assert!(matches!(decode_response(&ok), Ok(TranslationEvent::SessionStarted)));
    assert!(decode_response(&[0x0a, 0x03, 0x2a, 0x01, 0xff]).is_err());
    assert!(decode_response(&[0x0a, 0x02, 0x28, 0x01]).is_err());
}

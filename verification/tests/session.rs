use transecho::codec::TranslationEvent;
use transecho::session::{
    new_session_config, session_config, session_mode, startup_outcome, RouterAction, StartupReply, SubtitleEvent,
    SubtitleRouter, DEDUP_WINDOW,
};

fn final_source(text: &str) -> Option<TranslationEvent> {
    Some(TranslationEvent::SourceSubtitle {
        text: text.to_string(),
        is_final: true,
        start_time: 0,
        end_time: 0,
    })
}

fn emitted_source(a: &RouterAction) -> Option<(String, bool)> {
    match a {
        RouterAction::Emit(SubtitleEvent::Source { text, is_final }) => Some((text.clone(), *is_final)),
        _ => None,
    }
}

#[test]
fn mode_and_config() {
    assert_eq!(session_mode(true), "s2s");
    assert_eq!(session_mode(false), "s2t");
    let c = session_config(
        "app".to_string(),
        "acc".to_string(),
        "en".to_string(),
        "zh".to_string(),
        true,
        "voice".to_string(),
        "sid".to_string(),
        "cid".to_string(),
    );
    assert_eq!(c.resource_id, "volc.service_type.10053");
    assert_eq!(c.mode, "s2s");
    assert_eq!(c.session_id, "sid");
    assert_eq!(c.connection_id, "cid");
    assert_eq!(c.speaker_id, "voice");
}

#[test]
fn startup_replies() {
    match startup_outcome(StartupReply::Event(TranslationEvent::SessionStarted), true) {
        Ok(SubtitleEvent::Status { message }) => assert_eq!(message, "API 已连接 (语音+字幕)"),
        _ => panic!("expected status"),
    }
    match startup_outcome(StartupReply::Event(TranslationEvent::SessionStarted), false) {
        Ok(SubtitleEvent::Status { message }) => assert_eq!(message, "API 已连接 (字幕)"),
        _ => panic!("expected status"),
    }
    let failed = startup_outcome(
        StartupReply::Event(TranslationEvent::SessionFailed { message: "quota".to_string() }),
        false,
    );
    assert_eq!(failed.err().unwrap(), "API 连接失败: quota");
    assert_eq!(
        startup_outcome(StartupReply::TimedOut, false).err().unwrap(),
        "API 连接超时 (10秒未响应)"
    );
    assert_eq!(startup_outcome(StartupReply::Closed, false).err().unwrap(), "意外的 API 响应");
    assert_eq!(
        startup_outcome(StartupReply::Event(TranslationEvent::TtsSentenceEnd), false)
            .err()
            .unwrap(),
        "意外的 API 响应"
    );
}

#[test]
fn final_subtitles_are_deduplicated() {
    let mut router = SubtitleRouter::new();
    let a = router.handle(final_source("hello"));
    assert_eq!(emitted_source(&a), Some(("hello".to_string(), true)));
    let b = router.handle(final_source("hello"));
    assert!(matches!(b, RouterAction::Ignore));
    // interim subtitles are always shown
    let c = router.handle(Some(TranslationEvent::SourceSubtitle {
        text: "hello".to_string(),
        is_final: false,
        start_time: 0,
        end_time: 0,
    }));
    assert_eq!(emitted_source(&c), Some(("hello".to_string(), false)));
    // empty text is dropped
    assert!(matches!(router.handle(final_source("")), RouterAction::Ignore));
}

#[test]
fn dedup_window_forgets_oldest() {
    let mut router = SubtitleRouter::new();
    assert!(emitted_source(&router.handle(final_source("t0"))).is_some());
    for i in 1..=DEDUP_WINDOW {
        assert!(emitted_source(&router.handle(final_source(&format!("t{}", i)))).is_some());
    }
    // "t0" has been pushed out of the window of 15, so it is shown again
    assert!(emitted_source(&router.handle(final_source("t0"))).is_some());
    // "t5" is still remembered
    assert!(matches!(router.handle(final_source("t5")), RouterAction::Ignore));
}

#[test]
fn translation_and_other_events_are_routed() {
    let mut router = SubtitleRouter::new();
    let ev = Some(TranslationEvent::TranslationSubtitle {
        text: "你好".to_string(),
        is_final: true,
        start_time: 0,
        end_time: 10,
    });
    match router.handle(ev) {
        RouterAction::Emit(SubtitleEvent::Translation { text, is_final }) => {
            assert_eq!(text, "你好");
            assert!(is_final);
        }
        _ => panic!("expected translation"),
    }
    // a final source with the same text is tracked separately
    assert!(emitted_source(&router.handle(final_source("你好"))).is_some());
    match router.handle(Some(TranslationEvent::TtsAudio { data: vec![1, 2] })) {
        RouterAction::PlayTts(d) => assert_eq!(d, vec![1, 2]),
        _ => panic!("expected speech"),
    }
    match router.handle(Some(TranslationEvent::SessionFailed { message: "boom".to_string() })) {
        RouterAction::Finish(SubtitleEvent::Error { message }) => assert_eq!(message, "boom"),
        _ => panic!("expected finish"),
    }
    match router.handle(Some(TranslationEvent::SessionFinished)) {
        RouterAction::Finish(SubtitleEvent::Status { message }) => assert_eq!(message, "会话结束"),
        _ => panic!("expected finish"),
    }
    match router.handle(None) {
        RouterAction::Finish(SubtitleEvent::Error { message }) => assert_eq!(message, "连接已断开"),
        _ => panic!("expected finish"),
    }
    assert!(matches!(
        router.handle(Some(TranslationEvent::AudioMuted { duration_ms: 5 })),
        RouterAction::Ignore
    ));
    match router.stop_event() {
        SubtitleEvent::Status { message } => assert_eq!(message, "已停止"),
        _ => panic!("expected status"),
    }
}

fn looks_like_uuid_v4(s: &str) -> bool {
    let b: Vec<char> = s.chars().collect();
    b.len() == 36
        && b.iter().enumerate().all(|(i, c)| {
            if [8, 13, 18, 23].contains(&i) {
                *c == '-'
            } else {
                c.is_ascii_digit() || ('a'..='f').contains(c)
            }
        })
        && b[14] == '4'
        && ['8', '9', 'a', 'b'].contains(&b[19])
}

#[test]
fn new_sessions_get_fresh_ids() {
    let c = new_session_config(
        "app".to_string(),
        "acc".to_string(),
        "ja".to_string(),
        "zh".to_string(),
        false,
        "voice".to_string(),
    );
    assert_eq!(c.mode, "s2t");
    assert_eq!(c.app_key, "app");
    assert_eq!(c.source_language, "ja");
    assert!(looks_like_uuid_v4(&c.session_id));
    assert!(looks_like_uuid_v4(&c.connection_id));
    assert_ne!(c.session_id, c.connection_id);
}

#[test]
fn dedup_over_a_mixed_run() {
    let mut router = SubtitleRouter::new();
    let translation = |t: &str, f: bool| {
        Some(TranslationEvent::TranslationSubtitle {
            text: t.to_string(),
            is_final: f,
            start_time: 0,
            end_time: 0,
        })
    };
    let run = vec![
        (final_source("hello"), true),
        (translation("你好", true), true),
        (final_source("hello"), false),
        (translation("你好", false), true),
        (translation("你好", true), false),
        (final_source(""), false),
        (translation("hello", true), true),
    ];
    for (event, shown) in run {
        let action = router.handle(event);
        assert_eq!(matches!(action, RouterAction::Emit(_)), shown);
    }
}

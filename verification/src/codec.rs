//! Session codec: the requests the client sends and the events it reads from
//! the server's responses.

use vstd::prelude::*;
use crate::proto::{
    audio_default, request_meta_default, translate_request_bytes, Audio, AudioModel, ReqParams,
    ReqParamsModel, RequestMeta, RequestMetaModel, TranslateRequest, TranslateRequestModel, User,
    UserModel, TranslateResponse, TranslateResponseModel, translate_response_decode,
    translate_response_default, WireError, NESTING_LIMIT, translate_request_decode,
    translate_request_default, translate_request_fits, translate_response_bytes,
    translate_response_fits, lemma_translate_request_roundtrip, lemma_translate_response_roundtrip,
};
use crate::text::{i32_decimal, i32_to_decimal};

verus! {

/// Event codes of the protocol.
pub const EVENT_NONE: i32 = 0;
pub const EVENT_START_SESSION: i32 = 100;
pub const EVENT_FINISH_SESSION: i32 = 102;
pub const EVENT_SESSION_STARTED: i32 = 150;
pub const EVENT_SESSION_FINISHED: i32 = 152;
pub const EVENT_SESSION_FAILED: i32 = 153;
pub const EVENT_USAGE_RESPONSE: i32 = 154;
pub const EVENT_TASK_REQUEST: i32 = 200;
pub const EVENT_AUDIO_MUTED: i32 = 250;
pub const EVENT_TTS_SENTENCE_END: i32 = 351;
pub const EVENT_TTS_RESPONSE: i32 = 352;
pub const EVENT_SOURCE_SUBTITLE_START: i32 = 650;
pub const EVENT_SOURCE_SUBTITLE_RESPONSE: i32 = 651;
pub const EVENT_SOURCE_SUBTITLE_END: i32 = 652;
pub const EVENT_TRANSLATION_SUBTITLE_START: i32 = 653;
pub const EVENT_TRANSLATION_SUBTITLE_RESPONSE: i32 = 654;
pub const EVENT_TRANSLATION_SUBTITLE_END: i32 = 655;

/// Status code of a successful response.
pub const STATUS_OK: i32 = 20000000;

/// Configuration for a translation session.
pub struct SessionConfig {
    pub app_key: String,
    pub access_key: String,
    pub resource_id: String,
    pub connection_id: String,
    pub session_id: String,
    /// "s2t" (speech to text) or "s2s" (speech to speech).
    pub mode: String,
    /// Language of the speech, such as "en", "ja" or "zh".
    pub source_language: String,
    pub target_language: String,
    /// Voice of the synthesized speech.
    pub speaker_id: String,
}

pub open spec fn empty_audio() -> AudioModel {
    audio_default()
}

/// The request that opens a session: the header names the resource and the
/// connection, the source audio is 16 kHz 16-bit mono raw WAV, and in "s2s" mode
/// the target audio is 24 kHz 32-bit mono PCM.
pub open spec fn start_session_request(c: SessionConfig) -> TranslateRequestModel {
    let s2s = c.mode@ == "s2s"@;
    TranslateRequestModel {
        request_meta: Some(
            RequestMetaModel {
                endpoint: c.resource_id@,
                app_key: c.app_key@,
                app_id: Seq::empty(),
                resource_id: c.resource_id@,
                connection_id: c.connection_id@,
                session_id: c.session_id@,
                sequence: 0,
            },
        ),
        event: EVENT_START_SESSION,
        user: Some(
            UserModel {
                uid: Seq::empty(),
                did: Seq::empty(),
                platform: "macOS"@,
                sdk_version: Seq::empty(),
                app_version: Seq::empty(),
            },
        ),
        source_audio: Some(
            AudioModel { format: "wav"@, codec: "raw"@, rate: 16000, bits: 16, channel: 1, ..audio_default() },
        ),
        target_audio: Some(
            AudioModel {
                format: if s2s { "pcm"@ } else { Seq::empty() },
                rate: if s2s { 24000 } else { 0 },
                bits: if s2s { 32 } else { 0 },
                channel: if s2s { 1 } else { 0 },
                ..audio_default()
            },
        ),
        request: Some(
            ReqParamsModel {
                mode: c.mode@,
                source_language: c.source_language@,
                target_language: c.target_language@,
                speaker_id: c.speaker_id@,
            },
        ),
        denoise: Some(false),
    }
}

/// The little-endian bytes of 16-bit samples, two per sample.
pub open spec fn pcm_le_bytes(samples: Seq<i16>) -> Seq<u8>
    decreases samples.len(),
{
    if samples.len() == 0 {
        Seq::empty()
    } else {
        pcm_le_bytes(samples.drop_last()) + seq![
            (samples.last() as u16 % 256) as u8,
            (samples.last() as u16 / 256) as u8,
        ]
    }
}

/// Audio bytes are the samples' little-endian halves in order: two bytes per
/// sample, low byte first.
pub proof fn lemma_pcm_le_bytes_layout(samples: Seq<i16>)
    ensures
        pcm_le_bytes(samples).len() == 2 * samples.len(),
        forall|i: int|
            0 <= i < samples.len() ==> {
                &&& #[trigger] pcm_le_bytes(samples)[2 * i] == (samples[i] as u16 % 256) as u8
                &&& pcm_le_bytes(samples)[2 * i + 1] == (samples[i] as u16 / 256) as u8
            },
    decreases samples.len(),
{
    if samples.len() > 0 {
        let init = samples.drop_last();
        lemma_pcm_le_bytes_layout(init);
        assert forall|i: int| 0 <= i < samples.len() implies {
            &&& #[trigger] pcm_le_bytes(samples)[2 * i] == (samples[i] as u16 % 256) as u8
            &&& pcm_le_bytes(samples)[2 * i + 1] == (samples[i] as u16 / 256) as u8
        } by {
            if i < init.len() {
                assert(pcm_le_bytes(init)[2 * i] == (init[i] as u16 % 256) as u8);
                assert(init[i] == samples[i]);
            }
        }
    }
}

/// A request that only carries a header with the session, the connection and a
/// sequence number, plus optional source audio.
pub open spec fn session_request(
    session_id: Seq<char>,
    connection_id: Seq<char>,
    sequence: i32,
    event: i32,
    audio: Option<AudioModel>,
) -> TranslateRequestModel {
    TranslateRequestModel {
        request_meta: Some(
            RequestMetaModel {
                connection_id: connection_id,
                session_id: session_id,
                sequence: sequence,
                ..request_meta_default()
            },
        ),
        event: event,
        user: None,
        source_audio: audio,
        target_audio: None,
        request: None,
        denoise: None,
    }
}

/// The request that carries one chunk of 16-bit PCM audio.
pub open spec fn audio_frame_request(
    session_id: Seq<char>,
    connection_id: Seq<char>,
    sequence: i32,
    pcm: Seq<i16>,
) -> TranslateRequestModel {
    session_request(
        session_id,
        connection_id,
        sequence,
        EVENT_TASK_REQUEST,
        Some(AudioModel { binary_data: pcm_le_bytes(pcm), ..audio_default() }),
    )
}

/// The request that ends a session.
pub open spec fn finish_session_request(
    session_id: Seq<char>,
    connection_id: Seq<char>,
    sequence: i32,
) -> TranslateRequestModel {
    session_request(session_id, connection_id, sequence, EVENT_FINISH_SESSION, None)
}

/// What the client sends is what the server reads: the encoding of an audio
/// request decodes to that request, its header and the samples' little-endian
/// bytes (for a request whose fields fit the wire format's length prefixes).
pub proof fn law_audio_frame_request_roundtrip(
    session_id: Seq<char>,
    connection_id: Seq<char>,
    sequence: i32,
    pcm: Seq<i16>,
)
    requires
        translate_request_fits(audio_frame_request(session_id, connection_id, sequence, pcm)),
    ensures
        translate_request_decode(
            translate_request_default(),
            translate_request_bytes(audio_frame_request(session_id, connection_id, sequence, pcm)),
            NESTING_LIMIT as nat,
        ) == Some(audio_frame_request(session_id, connection_id, sequence, pcm)),
{
    lemma_translate_request_roundtrip(
        audio_frame_request(session_id, connection_id, sequence, pcm),
        NESTING_LIMIT as nat,
    );
}

/// What the server sends is what the client reads: the encoding of a response
/// decodes to that response, so `decode_response` gives the event it stands for.
pub proof fn law_response_roundtrip(resp: TranslateResponseModel)
    requires
        translate_response_fits(resp),
    ensures
        translate_response_decode(
            translate_response_default(),
            translate_response_bytes(resp),
            NESTING_LIMIT as nat,
        ) == Some(resp),
{
    lemma_translate_response_roundtrip(resp, NESTING_LIMIT as nat);
}

/// What a response stands for when its header reports no failure (no header, or
/// status 0 or 20000000), by event code: source subtitles are 650 (start), 651
/// (interim) and 652 (end), and only the end one is final; translated subtitles
/// are 653, 654 and 655 likewise; 150 and 152 start and finish the session; 153
/// fails it with the header's message; 352 carries speech audio. Subtitles keep
/// the response's text and times, speech its bytes.
pub proof fn law_response_event_by_code(resp: TranslateResponseModel)
    requires
        resp.response_meta matches Some(meta) ==> (meta.status_code == 0 || meta.status_code == 20000000),
    ensures
        650 <= resp.event <= 652 ==> response_event(resp) == (TranslationEventModel::SourceSubtitle {
            text: resp.text,
            is_final: resp.event == 652,
            start_time: resp.start_time,
            end_time: resp.end_time,
        }),
        653 <= resp.event <= 655 ==> response_event(resp) == (TranslationEventModel::TranslationSubtitle {
            text: resp.text,
            is_final: resp.event == 655,
            start_time: resp.start_time,
            end_time: resp.end_time,
        }),
        resp.event == 150 ==> response_event(resp) == TranslationEventModel::SessionStarted,
        resp.event == 152 ==> response_event(resp) == TranslationEventModel::SessionFinished,
        resp.event == 153 ==> response_event(resp) == (TranslationEventModel::SessionFailed {
            message: match resp.response_meta {
                Some(meta) => meta.message,
                None => Seq::empty(),
            },
        }),
        resp.event == 352 ==> response_event(resp) == (TranslationEventModel::TtsAudio { data: resp.data }),
{
}

/// A header that reports a failure (a status other than 0 and 20000000) makes
/// any response a failed session whose message starts with "Status " and the
/// code, whatever its event code.
pub proof fn law_failed_status_fails_session(resp: TranslateResponseModel)
    requires
        resp.response_meta matches Some(meta) && meta.status_code != 0 && meta.status_code != 20000000,
    ensures
        response_event(resp) matches TranslationEventModel::SessionFailed { message } && message
            == "Status "@ + i32_decimal(resp.response_meta->0.status_code) + ": "@
            + resp.response_meta->0.message,
{
}

/// The StartSession request says what the session is: decoded by the server,
/// it carries the configured session and connection, sequence 0 and event 100,
/// and parameters with the configured mode, the configured source language as
/// source, the configured target language as target, and the configured voice;
/// the source audio is 16 kHz, 16-bit, mono.
pub proof fn law_start_session_carries_config(c: SessionConfig)
    requires
        translate_request_fits(start_session_request(c)),
    ensures
        translate_request_decode(
            translate_request_default(),
            translate_request_bytes(start_session_request(c)),
            NESTING_LIMIT as nat,
        ) matches Some(r) && {
            &&& r.event == 100
            &&& r.request_meta matches Some(meta) && meta.session_id == c.session_id@
                && meta.connection_id == c.connection_id@ && meta.app_key == c.app_key@
                && meta.resource_id == c.resource_id@ && meta.sequence == 0
            &&& r.request matches Some(p) && p.mode == c.mode@ && p.source_language
                == c.source_language@ && p.target_language == c.target_language@ && p.speaker_id
                == c.speaker_id@
            &&& r.source_audio matches Some(a) && a.rate == 16000 && a.bits == 16 && a.channel == 1
        },
{
    lemma_translate_request_roundtrip(start_session_request(c), NESTING_LIMIT as nat);
}

fn copy_string(s: &String) -> (out: String)
    ensures
        out@ == s@,
{
    s.clone()
}

/// Encodes the StartSession request of `config`.
pub fn encode_start_session(config: &SessionConfig) -> (out: Vec<u8>)
    ensures
        out@ == translate_request_bytes(start_session_request(*config)),
{
    let s2s_mode = String::from_str("s2s");
    let s2s = config.mode == s2s_mode;
    let mut source = Audio::empty();
    source.format = String::from_str("wav");
    source.codec = String::from_str("raw");
    source.rate = 16000;
    source.bits = 16;
    source.channel = 1;
    let mut target = Audio::empty();
    if s2s {
        target.format = String::from_str("pcm");
        target.rate = 24000;
        target.bits = 32;
        target.channel = 1;
    }
    let mut user = User::empty();
    user.platform = String::from_str("macOS");
    let req = TranslateRequest {
        request_meta: Some(
            RequestMeta {
                endpoint: copy_string(&config.resource_id),
                app_key: copy_string(&config.app_key),
                app_id: String::new(),
                resource_id: copy_string(&config.resource_id),
                connection_id: copy_string(&config.connection_id),
                session_id: copy_string(&config.session_id),
                sequence: 0,
            },
        ),
        event: EVENT_START_SESSION,
        user: Some(user),
        source_audio: Some(source),
        target_audio: Some(target),
        request: Some(
            ReqParams {
                mode: copy_string(&config.mode),
                source_language: copy_string(&config.source_language),
                target_language: copy_string(&config.target_language),
                speaker_id: copy_string(&config.speaker_id),
            },
        ),
        denoise: Some(false),
    };
    assert(req@.source_audio == start_session_request(*config).source_audio);
    assert(req@.target_audio == start_session_request(*config).target_audio);
    assert(req@ == start_session_request(*config));
    req.encode()
}

/// The little-endian bytes of `pcm`.
pub fn pcm_to_le_bytes(pcm: &[i16]) -> (out: Vec<u8>)
    ensures
        out@ == pcm_le_bytes(pcm@),
{
    let mut out: Vec<u8> = Vec::new();
    let mut i: usize = 0;
    while i < pcm.len()
        invariant
            i <= pcm@.len(),
            out@ == pcm_le_bytes(pcm@.subrange(0, i as int)),
        decreases pcm@.len() - i,
    {
        let u = pcm[i] as u16;
        out.push((u % 256) as u8);
        out.push((u / 256) as u8);
        proof {
            let next = pcm@.subrange(0, i + 1);
            assert(next.drop_last() =~= pcm@.subrange(0, i as int));
            assert(next.last() == pcm@[i as int]);
        }
        i += 1;
    }
    assert(pcm@.subrange(0, pcm@.len() as int) =~= pcm@);
    out
}

fn session_request_exec(
    session_id: &str,
    connection_id: &str,
    sequence: i32,
    event: i32,
    audio: Option<Audio>,
) -> (req: TranslateRequest)
    ensures
        req@ == session_request(
            session_id@,
            connection_id@,
            sequence,
            event,
            match audio {
                Some(a) => Some(a@),
                None => None,
            },
        ),
{
    let mut meta = RequestMeta::empty();
    meta.connection_id = String::from_str(connection_id);
    meta.session_id = String::from_str(session_id);
    meta.sequence = sequence;
    TranslateRequest {
        request_meta: Some(meta),
        event: event,
        user: None,
        source_audio: audio,
        target_audio: None,
        request: None,
        denoise: None,
    }
}

/// Encodes a TaskRequest carrying `pcm_data` as little-endian 16-bit samples.
pub fn encode_audio_frame(session_id: &str, connection_id: &str, sequence: i32, pcm_data: &[i16]) -> (out: Vec<u8>)
    ensures
        out@ == translate_request_bytes(
            audio_frame_request(session_id@, connection_id@, sequence, pcm_data@),
        ),
{
    let mut audio = Audio::empty();
    audio.binary_data = pcm_to_le_bytes(pcm_data);
    let req = session_request_exec(session_id, connection_id, sequence, EVENT_TASK_REQUEST, Some(audio));
    req.encode()
}

/// Encodes the FinishSession request.
pub fn encode_finish_session(session_id: &str, connection_id: &str, sequence: i32) -> (out: Vec<u8>)
    ensures
        out@ == translate_request_bytes(finish_session_request(session_id@, connection_id@, sequence)),
{
    let req = session_request_exec(session_id, connection_id, sequence, EVENT_FINISH_SESSION, None);
    req.encode()
}

/// An event decoded from a server response.
#[derive(Debug)]
pub enum TranslationEvent {
    SessionStarted,
    SessionFinished,
    SessionFailed { message: String },
    SourceSubtitle { text: String, is_final: bool, start_time: i32, end_time: i32 },
    TranslationSubtitle { text: String, is_final: bool, start_time: i32, end_time: i32 },
    TtsAudio { data: Vec<u8> },
    TtsSentenceEnd,
    Usage { message: String },
    AudioMuted { duration_ms: i32 },
    Unknown { event: i32 },
}

pub enum TranslationEventModel {
    SessionStarted,
    SessionFinished,
    SessionFailed { message: Seq<char> },
    SourceSubtitle { text: Seq<char>, is_final: bool, start_time: i32, end_time: i32 },
    TranslationSubtitle { text: Seq<char>, is_final: bool, start_time: i32, end_time: i32 },
    TtsAudio { data: Seq<u8> },
    TtsSentenceEnd,
    Usage { message: Seq<char> },
    AudioMuted { duration_ms: i32 },
    Unknown { event: i32 },
}

impl View for TranslationEvent {
    type V = TranslationEventModel;

    open spec fn view(&self) -> TranslationEventModel {
        match self {
            TranslationEvent::SessionStarted => TranslationEventModel::SessionStarted,
            TranslationEvent::SessionFinished => TranslationEventModel::SessionFinished,
            TranslationEvent::SessionFailed { message } => TranslationEventModel::SessionFailed {
                message: message@,
            },
            TranslationEvent::SourceSubtitle { text, is_final, start_time, end_time } =>
                TranslationEventModel::SourceSubtitle {
                text: text@,
                is_final: *is_final,
                start_time: *start_time,
                end_time: *end_time,
            },
            TranslationEvent::TranslationSubtitle { text, is_final, start_time, end_time } =>
                TranslationEventModel::TranslationSubtitle {
                text: text@,
                is_final: *is_final,
                start_time: *start_time,
                end_time: *end_time,
            },
            TranslationEvent::TtsAudio { data } => TranslationEventModel::TtsAudio { data: data@ },
            TranslationEvent::TtsSentenceEnd => TranslationEventModel::TtsSentenceEnd,
            TranslationEvent::Usage { message } => TranslationEventModel::Usage { message: message@ },
            TranslationEvent::AudioMuted { duration_ms } => TranslationEventModel::AudioMuted {
                duration_ms: *duration_ms,
            },
            TranslationEvent::Unknown { event } => TranslationEventModel::Unknown { event: *event },
        }
    }
}

/// The message of the response header, empty when there is no header.
pub open spec fn header_message(resp: TranslateResponseModel) -> Seq<char> {
    match resp.response_meta {
        Some(meta) => meta.message,
        None => Seq::empty(),
    }
}

/// The text of a failed status: "Status <code>: <message>".
pub open spec fn status_failure_text(code: i32, message: Seq<char>) -> Seq<char> {
    "Status "@ + i32_decimal(code) + ": "@ + message
}

/// The event a response stands for. A header whose status code is neither 0 nor
/// the success code makes it a failure, whatever the event code says; otherwise
/// the event code decides, and a code this client does not act on gives `Unknown`.
pub open spec fn response_event(resp: TranslateResponseModel) -> TranslationEventModel {
    let failed_status = match resp.response_meta {
        Some(meta) => meta.status_code != 0 && meta.status_code != STATUS_OK,
        None => false,
    };
    if failed_status {
        let meta = resp.response_meta->0;
        TranslationEventModel::SessionFailed {
            message: status_failure_text(meta.status_code, meta.message),
        }
    } else if resp.event == EVENT_SESSION_STARTED {
        TranslationEventModel::SessionStarted
    } else if resp.event == EVENT_SESSION_FINISHED {
        TranslationEventModel::SessionFinished
    } else if resp.event == EVENT_SESSION_FAILED {
        TranslationEventModel::SessionFailed { message: header_message(resp) }
    } else if resp.event == EVENT_SOURCE_SUBTITLE_START || resp.event
        == EVENT_SOURCE_SUBTITLE_RESPONSE || resp.event == EVENT_SOURCE_SUBTITLE_END {
        TranslationEventModel::SourceSubtitle {
            text: resp.text,
            is_final: resp.event == EVENT_SOURCE_SUBTITLE_END,
            start_time: resp.start_time,
            end_time: resp.end_time,
        }
    } else if resp.event == EVENT_TRANSLATION_SUBTITLE_START || resp.event
        == EVENT_TRANSLATION_SUBTITLE_RESPONSE || resp.event == EVENT_TRANSLATION_SUBTITLE_END {
        TranslationEventModel::TranslationSubtitle {
            text: resp.text,
            is_final: resp.event == EVENT_TRANSLATION_SUBTITLE_END,
            start_time: resp.start_time,
            end_time: resp.end_time,
        }
    } else if resp.event == EVENT_TTS_RESPONSE {
        TranslationEventModel::TtsAudio { data: resp.data }
    } else if resp.event == EVENT_TTS_SENTENCE_END {
        TranslationEventModel::TtsSentenceEnd
    } else if resp.event == EVENT_USAGE_RESPONSE {
        TranslationEventModel::Usage { message: header_message(resp) }
    } else if resp.event == EVENT_AUDIO_MUTED {
        TranslationEventModel::AudioMuted { duration_ms: resp.muted_duration_ms }
    } else {
        TranslationEventModel::Unknown { event: resp.event }
    }
}

fn take_header_message(resp: &mut TranslateResponse) -> (m: String)
    ensures
        m@ == header_message(old(resp)@),
{
    match resp.response_meta.take() {
        Some(meta) => meta.message,
        None => String::new(),
    }
}

impl TranslationEvent {
    /// The event that a decoded response stands for.
    pub fn from_response(resp: TranslateResponse) -> (ev: TranslationEvent)
        ensures
            ev@ == response_event(resp@),
    {
        let mut resp = resp;
        let failed = match &resp.response_meta {
            Some(meta) => meta.status_code != 0 && meta.status_code != STATUS_OK,
            None => false,
        };
        if failed {
            let meta = resp.response_meta.take().unwrap();
            let mut message = String::from_str("Status ");
            let code = i32_to_decimal(meta.status_code);
            message.append(code.as_str());
            message.append(": ");
            message.append(meta.message.as_str());
            return TranslationEvent::SessionFailed { message };
        }
        let event = resp.event;
        if event == EVENT_SESSION_STARTED {
            TranslationEvent::SessionStarted
        } else if event == EVENT_SESSION_FINISHED {
            TranslationEvent::SessionFinished
        } else if event == EVENT_SESSION_FAILED {
            TranslationEvent::SessionFailed { message: take_header_message(&mut resp) }
        } else if event == EVENT_SOURCE_SUBTITLE_START || event == EVENT_SOURCE_SUBTITLE_RESPONSE
            || event == EVENT_SOURCE_SUBTITLE_END {
            TranslationEvent::SourceSubtitle {
                text: resp.text,
                is_final: event == EVENT_SOURCE_SUBTITLE_END,
                start_time: resp.start_time,
                end_time: resp.end_time,
            }
        } else if event == EVENT_TRANSLATION_SUBTITLE_START || event
            == EVENT_TRANSLATION_SUBTITLE_RESPONSE || event == EVENT_TRANSLATION_SUBTITLE_END {
            TranslationEvent::TranslationSubtitle {
                text: resp.text,
                is_final: event == EVENT_TRANSLATION_SUBTITLE_END,
                start_time: resp.start_time,
                end_time: resp.end_time,
            }
        } else if event == EVENT_TTS_RESPONSE {
            TranslationEvent::TtsAudio { data: resp.data }
        } else if event == EVENT_TTS_SENTENCE_END {
            TranslationEvent::TtsSentenceEnd
        } else if event == EVENT_USAGE_RESPONSE {
            TranslationEvent::Usage { message: take_header_message(&mut resp) }
        } else if event == EVENT_AUDIO_MUTED {
            TranslationEvent::AudioMuted { duration_ms: resp.muted_duration_ms }
        } else {
            TranslationEvent::Unknown { event }
        }
    }
}

/// Decodes a server response into the event it stands for; fails exactly when the
/// bytes are not a well-formed encoding of a response.
pub fn decode_response(data: &[u8]) -> (res: Result<TranslationEvent, WireError>)
    ensures
        match translate_response_decode(translate_response_default(), data@, NESTING_LIMIT as nat) {
            Some(resp) => res matches Ok(ev) && ev@ == response_event(resp),
            None => res is Err,
        },
{
    let resp = TranslateResponse::decode(data)?;
    Ok(TranslationEvent::from_response(resp))
}

} // verus!

//! The decisions of an interpretation session: how it is configured, how the
//! first server reply is judged, and how translation events become subtitle
//! events for the UI (final subtitles are de-duplicated over a sliding window).

use vstd::prelude::*;
use crate::codec::{SessionConfig, TranslationEvent, TranslationEventModel};

verus! {

/// How many recent final subtitles of each kind are remembered for de-duplication.
pub const DEDUP_WINDOW: usize = 15;

/// Seconds to wait for the server's first reply.
pub const STARTUP_TIMEOUT_SECS: u64 = 10;

/// Capacity of the queue of captured audio frames.
pub const CAPTURE_QUEUE_CAPACITY: usize = 50;

/// An event for the UI.
#[derive(Debug)]
pub enum SubtitleEvent {
    Source { text: String, is_final: bool },
    Translation { text: String, is_final: bool },
    Status { message: String },
    Error { message: String },
}

pub enum SubtitleEventModel {
    Source { text: Seq<char>, is_final: bool },
    Translation { text: Seq<char>, is_final: bool },
    Status { message: Seq<char> },
    Error { message: Seq<char> },
}

impl View for SubtitleEvent {
    type V = SubtitleEventModel;

    open spec fn view(&self) -> SubtitleEventModel {
        match self {
            SubtitleEvent::Source { text, is_final } => SubtitleEventModel::Source {
                text: text@,
                is_final: *is_final,
            },
            SubtitleEvent::Translation { text, is_final } => SubtitleEventModel::Translation {
                text: text@,
                is_final: *is_final,
            },
            SubtitleEvent::Status { message } => SubtitleEventModel::Status { message: message@ },
            SubtitleEvent::Error { message } => SubtitleEventModel::Error { message: message@ },
        }
    }
}

/// "s2s" when speech output is wanted, "s2t" otherwise.
pub fn session_mode(enable_tts: bool) -> (m: String)
    ensures
        m@ == if enable_tts {
            "s2s"@
        } else {
            "s2t"@
        },
{
    if enable_tts {
        String::from_str("s2s")
    } else {
        String::from_str("s2t")
    }
}

/// The configuration of a new session.
pub fn session_config(
    app_key: String,
    access_key: String,
    source_language: String,
    target_language: String,
    enable_tts: bool,
    speaker_id: String,
    session_id: String,
    connection_id: String,
) -> (c: SessionConfig)
    ensures
        c.app_key@ == app_key@,
        c.access_key@ == access_key@,
        c.resource_id@ == "volc.service_type.10053"@,
        c.connection_id@ == connection_id@,
        c.session_id@ == session_id@,
        c.mode@ == (if enable_tts {
            "s2s"@
        } else {
            "s2t"@
        }),
        c.source_language@ == source_language@,
        c.target_language@ == target_language@,
        c.speaker_id@ == speaker_id@,
{
    SessionConfig {
        app_key,
        access_key,
        resource_id: String::from_str("volc.service_type.10053"),
        connection_id,
        session_id,
        mode: session_mode(enable_tts),
        source_language,
        target_language,
        speaker_id,
    }
}

/// A hexadecimal digit as written in lower case.
pub open spec fn is_lower_hex(c: char) -> bool {
    ('0' <= c <= '9') || ('a' <= c <= 'f')
}

/// The hyphenated lower-case text of a version-4 UUID:
/// `xxxxxxxx-xxxx-4xxx-yxxx-xxxxxxxxxxxx`, where `y` is one of 8, 9, a, b.
pub open spec fn is_uuid_v4_text(s: Seq<char>) -> bool {
    &&& s.len() == 36
    &&& forall|i: int| 0 <= i < 36 ==> (if i == 8 || i == 13 || i == 18 || i == 23 {
        #[trigger] s[i] == '-'
    } else {
        is_lower_hex(s[i])
    })
    &&& s[14] == '4'
    &&& (s[19] == '8' || s[19] == '9' || s[19] == 'a' || s[19] == 'b')
}

/// A fresh random version-4 UUID (`uuid::Uuid::new_v4`) in its hyphenated
/// lower-case text form (`to_string`): random bits with the version set to 4 and
/// the variant to 10. Which value comes out is left open.
#[verifier::external_body]
fn new_uuid_v4() -> (s: String)
    ensures
        is_uuid_v4_text(s@),
{
    uuid::Uuid::new_v4().to_string()
}

/// The configuration of a new session, with fresh random session and connection
/// ids.
pub fn new_session_config(
    app_key: String,
    access_key: String,
    source_language: String,
    target_language: String,
    enable_tts: bool,
    speaker_id: String,
) -> (c: SessionConfig)
    ensures
        c.app_key@ == app_key@,
        c.access_key@ == access_key@,
        c.resource_id@ == "volc.service_type.10053"@,
        is_uuid_v4_text(c.connection_id@),
        is_uuid_v4_text(c.session_id@),
        c.mode@ == (if enable_tts {
            "s2s"@
        } else {
            "s2t"@
        }),
        c.source_language@ == source_language@,
        c.target_language@ == target_language@,
        c.speaker_id@ == speaker_id@,
{
    let session_id = new_uuid_v4();
    let connection_id = new_uuid_v4();
    session_config(
        app_key,
        access_key,
        source_language,
        target_language,
        enable_tts,
        speaker_id,
        session_id,
        connection_id,
    )
}

/// The first reply awaited after connecting.
pub enum StartupReply {
    /// Nothing came within the startup timeout.
    TimedOut,
    /// The event stream ended.
    Closed,
    Event(TranslationEvent),
}

/// The session may go on (with this status for the UI) only when the server
/// confirms that it started.
pub open spec fn startup_spec(reply: StartupReply, enable_tts: bool, r: Result<SubtitleEvent, String>) -> bool {
    match reply {
        StartupReply::Event(ev) => match ev@ {
            TranslationEventModel::SessionStarted => r matches Ok(s) && s@ == (
            SubtitleEventModel::Status {
                message: if enable_tts {
                    "API 已连接 (语音+字幕)"@
                } else {
                    "API 已连接 (字幕)"@
                },
            }),
            TranslationEventModel::SessionFailed { message } => r matches Err(e) && e@ == "API 连接失败: "@
                + message,
            _ => r matches Err(e) && e@ == "意外的 API 响应"@,
        },
        StartupReply::TimedOut => r matches Err(e) && e@ == "API 连接超时 (10秒未响应)"@,
        StartupReply::Closed => r matches Err(e) && e@ == "意外的 API 响应"@,
    }
}

pub fn startup_outcome(reply: StartupReply, enable_tts: bool) -> (r: Result<SubtitleEvent, String>)
    ensures
        startup_spec(reply, enable_tts, r),
{
    match reply {
        StartupReply::Event(TranslationEvent::SessionStarted) => {
            let message = if enable_tts {
                String::from_str("API 已连接 (语音+字幕)")
            } else {
                String::from_str("API 已连接 (字幕)")
            };
            Ok(SubtitleEvent::Status { message })
        },
        StartupReply::Event(TranslationEvent::SessionFailed { message }) => {
            let mut e = String::from_str("API 连接失败: ");
            e.append(message.as_str());
            Err(e)
        },
        StartupReply::TimedOut => Err(String::from_str("API 连接超时 (10秒未响应)")),
        _ => Err(String::from_str("意外的 API 响应")),
    }
}

/// The window after remembering `t`: appended, and the oldest entry dropped when
/// the window would exceed its size.
pub open spec fn remember(window: Seq<Seq<char>>, t: Seq<char>) -> Seq<Seq<char>> {
    let w = window.push(t);
    if w.len() > DEDUP_WINDOW {
        w.drop_first()
    } else {
        w
    }
}

/// A final subtitle that was just shown is remembered, so the same final text
/// arriving next is not shown again; the window never exceeds its size.
pub proof fn law_repeated_final_is_dropped(window: Seq<Seq<char>>, t: Seq<char>)
    requires
        window.len() <= DEDUP_WINDOW,
    ensures
        remember(window, t).contains(t),
        remember(window, t).len() <= DEDUP_WINDOW,
        remember(window, t).last() == t,
{
    let w = window.push(t);
    assert(w[w.len() - 1] == t);
    if w.len() > DEDUP_WINDOW {
        assert(w.drop_first()[w.drop_first().len() - 1] == t);
    }
}

/// What the event loop does with a translation event.
pub enum RouterAction {
    /// Send this event to the UI.
    Emit(SubtitleEvent),
    /// Play this synthesized speech (32-bit float little-endian PCM).
    PlayTts(Vec<u8>),
    /// Send this event to the UI and end the session.
    Finish(SubtitleEvent),
    /// Nothing to do.
    Ignore,
}

/// Routes translation events to the UI. Final subtitles are remembered (the
/// last `DEDUP_WINDOW` of each kind) and a final subtitle already remembered is
/// not shown again.
pub struct SubtitleRouter {
    recent_sources: Vec<String>,
    recent_translations: Vec<String>,
}

pub open spec fn texts(v: Seq<String>) -> Seq<Seq<char>> {
    v.map_values(|s: String| s@)
}

impl SubtitleRouter {
    #[verifier::type_invariant]
    spec fn window_bounded(self) -> bool {
        &&& self.recent_sources@.len() <= DEDUP_WINDOW
        &&& self.recent_translations@.len() <= DEDUP_WINDOW
    }

    /// The remembered final source subtitles, oldest first.
    pub closed spec fn sources(&self) -> Seq<Seq<char>> {
        texts(self.recent_sources@)
    }

    /// The remembered final translated subtitles, oldest first.
    pub closed spec fn translations(&self) -> Seq<Seq<char>> {
        texts(self.recent_translations@)
    }

    pub fn new() -> (r: Self)
        ensures
            r.sources() == Seq::<Seq<char>>::empty(),
            r.translations() == Seq::<Seq<char>>::empty(),
    {
        let r = SubtitleRouter { recent_sources: Vec::new(), recent_translations: Vec::new() };
        assert(r.sources() =~= Seq::<Seq<char>>::empty());
        assert(r.translations() =~= Seq::<Seq<char>>::empty());
        r
    }

    fn contains(v: &Vec<String>, t: &String) -> (b: bool)
        ensures
            b == texts(v@).contains(t@),
    {
        let mut i: usize = 0;
        while i < v.len()
            invariant
                i <= v@.len(),
                forall|j: int| 0 <= j < i ==> v@[j]@ != t@,
            decreases v@.len() - i,
        {
            if v[i] == *t {
                assert(texts(v@)[i as int] == t@);
                return true;
            }
            i += 1;
        }
        assert forall|j: int| 0 <= j < texts(v@).len() implies texts(v@)[j] != t@ by {
            assert(texts(v@)[j] == v@[j]@);
        }
        false
    }

    fn remember_in(v: &mut Vec<String>, t: String)
        requires
            old(v)@.len() <= DEDUP_WINDOW,
        ensures
            texts(final(v)@) == remember(texts(old(v)@), t@),
            final(v)@.len() <= DEDUP_WINDOW,
    {
        let ghost before = texts(v@);
        v.push(t);
        assert(texts(v@) =~= before.push(t@));
        if v.len() > DEDUP_WINDOW {
            v.remove(0);
            assert(texts(v@) =~= before.push(t@).drop_first());
        }
    }

    /// Handles the next translation event (`None` when the event stream ended).
    pub fn handle(&mut self, event: Option<TranslationEvent>) -> (action: RouterAction)
        ensures
            route_spec(
                old(self).sources(),
                old(self).translations(),
                match event {
                    Some(e) => Some(e@),
                    None => None,
                },
                action,
                final(self).sources(),
                final(self).translations(),
            ),
            final(self).sources().len() <= DEDUP_WINDOW,
            final(self).translations().len() <= DEDUP_WINDOW,
    {
        proof {
            use_type_invariant(&*self);
        }
        match event {
            Some(TranslationEvent::SourceSubtitle { text, is_final, .. }) => {
                if text.as_str().is_empty() {
                    RouterAction::Ignore
                } else if is_final {
                    if Self::contains(&self.recent_sources, &text) {
                        RouterAction::Ignore
                    } else {
                        let shown = text.clone();
                        let mut recent = Vec::new();
                        std::mem::swap(&mut recent, &mut self.recent_sources);
                        Self::remember_in(&mut recent, text);
                        self.recent_sources = recent;
                        RouterAction::Emit(SubtitleEvent::Source { text: shown, is_final: true })
                    }
                } else {
                    RouterAction::Emit(SubtitleEvent::Source { text, is_final: false })
                }
            },
            Some(TranslationEvent::TranslationSubtitle { text, is_final, .. }) => {
                if text.as_str().is_empty() {
                    RouterAction::Ignore
                } else if is_final {
                    if Self::contains(&self.recent_translations, &text) {
                        RouterAction::Ignore
                    } else {
                        let shown = text.clone();
                        let mut recent = Vec::new();
                        std::mem::swap(&mut recent, &mut self.recent_translations);
                        Self::remember_in(&mut recent, text);
                        self.recent_translations = recent;
                        RouterAction::Emit(SubtitleEvent::Translation { text: shown, is_final: true })
                    }
                } else {
                    RouterAction::Emit(SubtitleEvent::Translation { text, is_final: false })
                }
            },
            Some(TranslationEvent::TtsAudio { data }) => RouterAction::PlayTts(data),
            Some(TranslationEvent::SessionFailed { message }) => RouterAction::Finish(
                SubtitleEvent::Error { message },
            ),
            Some(TranslationEvent::SessionFinished) => RouterAction::Finish(
                SubtitleEvent::Status { message: String::from_str("会话结束") },
            ),
            None => RouterAction::Finish(
                SubtitleEvent::Error { message: String::from_str("连接已断开") },
            ),
            _ => RouterAction::Ignore,
        }
    }

    /// The status shown when the user stops the session.
    pub fn stop_event(&self) -> (e: SubtitleEvent)
        ensures
            e@ == (SubtitleEventModel::Status { message: "已停止"@ }),
    {
        SubtitleEvent::Status { message: String::from_str("已停止") }
    }
}

/// A subtitle of one kind: empty ones are dropped; interim ones are shown; a final
/// one is shown and remembered unless it is already remembered, in which case it
/// is dropped.
pub open spec fn subtitle_spec(
    window: Seq<Seq<char>>,
    text: Seq<char>,
    is_final: bool,
    shown: Option<(Seq<char>, bool)>,
    window_after: Seq<Seq<char>>,
) -> bool {
    if text.len() == 0 {
        shown is None && window_after == window
    } else if !is_final {
        shown == Some((text, false)) && window_after == window
    } else if window.contains(text) {
        shown is None && window_after == window
    } else {
        shown == Some((text, true)) && window_after == remember(window, text)
    }
}

/// The routing rule: subtitles as `subtitle_spec` says, speech to the player, a
/// failure or the end of the session (or of the event stream) ends the loop
/// with an error or status, anything else is ignored.
pub open spec fn route_spec(
    sources: Seq<Seq<char>>,
    translations: Seq<Seq<char>>,
    event: Option<TranslationEventModel>,
    action: RouterAction,
    sources_after: Seq<Seq<char>>,
    translations_after: Seq<Seq<char>>,
) -> bool {
    match event {
        Some(TranslationEventModel::SourceSubtitle { text, is_final, .. }) => {
            &&& translations_after == translations
            &&& subtitle_spec(
                sources,
                text,
                is_final,
                match action {
                    RouterAction::Emit(SubtitleEvent::Source { text, is_final }) => Some(
                        (text@, is_final),
                    ),
                    _ => None,
                },
                sources_after,
            )
            &&& (action is Ignore || action matches RouterAction::Emit(SubtitleEvent::Source { .. }))
        },
        Some(TranslationEventModel::TranslationSubtitle { text, is_final, .. }) => {
            &&& sources_after == sources
            &&& subtitle_spec(
                translations,
                text,
                is_final,
                match action {
                    RouterAction::Emit(SubtitleEvent::Translation { text, is_final }) => Some(
                        (text@, is_final),
                    ),
                    _ => None,
                },
                translations_after,
            )
            &&& (action is Ignore || action matches RouterAction::Emit(SubtitleEvent::Translation { .. }))
        },
        _ => {
            &&& sources_after == sources
            &&& translations_after == translations
            &&& match event {
                Some(TranslationEventModel::TtsAudio { data }) => action matches RouterAction::PlayTts(
                    d,
                ) && d@ == data,
                Some(TranslationEventModel::SessionFailed { message }) => action matches RouterAction::Finish(
                    e,
                ) && e@ == (SubtitleEventModel::Error { message }),
                Some(TranslationEventModel::SessionFinished) => action matches RouterAction::Finish(e)
                    && e@ == (SubtitleEventModel::Status { message: "会话结束"@ }),
                None => action matches RouterAction::Finish(e) && e@ == (SubtitleEventModel::Error {
                    message: "连接已断开"@,
                }),
                _ => action is Ignore,
            }
        },
    }
}


/// The last `DEDUP_WINDOW` entries of `s` (all of them when there are fewer).
pub open spec fn last_window(s: Seq<Seq<char>>) -> Seq<Seq<char>> {
    if s.len() > DEDUP_WINDOW {
        s.skip(s.len() - DEDUP_WINDOW)
    } else {
        s
    }
}

/// The subtitle an event carries, of the source kind (`source`) or of the
/// translated kind: its text and whether it is final.
pub open spec fn subtitle_of(event: Option<TranslationEventModel>, source: bool) -> Option<(Seq<char>, bool)> {
    match event {
        Some(TranslationEventModel::SourceSubtitle { text, is_final, .. }) => if source {
            Some((text, is_final))
        } else {
            None
        },
        Some(TranslationEventModel::TranslationSubtitle { text, is_final, .. }) => if source {
            None
        } else {
            Some((text, is_final))
        },
        _ => None,
    }
}

/// Whether a subtitle is shown, given the final texts of its kind shown before
/// it: it is not empty, and it is interim or not among the last `DEDUP_WINDOW`
/// final texts shown.
pub open spec fn is_shown(text: Seq<char>, is_final: bool, shown_before: Seq<Seq<char>>) -> bool {
    text.len() > 0 && (!is_final || !last_window(shown_before).contains(text))
}

/// The final texts of one kind shown for the first `k` events, in order.
pub open spec fn shown_finals(events: Seq<Option<TranslationEventModel>>, source: bool, k: nat) -> Seq<Seq<char>>
    decreases k,
{
    if k == 0 {
        Seq::empty()
    } else {
        let before = shown_finals(events, source, (k - 1) as nat);
        match subtitle_of(events[k - 1], source) {
            Some((t, f)) => if f && is_shown(t, f, before) {
                before.push(t)
            } else {
                before
            },
            None => before,
        }
    }
}

/// The subtitle of one kind that an action shows, if any.
pub open spec fn shown_by(action: RouterAction, source: bool) -> Option<(Seq<char>, bool)> {
    match action {
        RouterAction::Emit(SubtitleEvent::Source { text, is_final }) => if source {
            Some((text@, is_final))
        } else {
            None
        },
        RouterAction::Emit(SubtitleEvent::Translation { text, is_final }) => if source {
            None
        } else {
            Some((text@, is_final))
        },
        _ => None,
    }
}

proof fn lemma_remember_last_window(f: Seq<Seq<char>>, t: Seq<char>)
    ensures
        remember(last_window(f), t) == last_window(f.push(t)),
{
    if f.len() > DEDUP_WINDOW {
        assert(last_window(f).push(t).drop_first() =~= f.push(t).skip(f.push(t).len() - DEDUP_WINDOW));
    } else if f.len() == DEDUP_WINDOW {
        assert(f.push(t).drop_first() =~= f.push(t).skip(1));
    }
}

/// The step rule of one kind, over the windows of that kind.
proof fn lemma_kind_step(
    window: Seq<Seq<char>>,
    window_after: Seq<Seq<char>>,
    events: Seq<Option<TranslationEventModel>>,
    actions: Seq<RouterAction>,
    sources: Seq<Seq<Seq<char>>>,
    translations: Seq<Seq<Seq<char>>>,
    source: bool,
    k: int,
)
    requires
        0 <= k < events.len(),
        actions.len() == events.len(),
        sources.len() == events.len() + 1,
        translations.len() == events.len() + 1,
        route_spec(sources[k], translations[k], events[k], actions[k], sources[k + 1], translations[k + 1]),
        window == (if source { sources[k] } else { translations[k] }),
        window_after == (if source { sources[k + 1] } else { translations[k + 1] }),
        window == last_window(shown_finals(events, source, k as nat)),
    ensures
        window_after == last_window(shown_finals(events, source, (k + 1) as nat)),
        shown_by(actions[k], source) == match subtitle_of(events[k], source) {
            Some((t, f)) => if is_shown(t, f, shown_finals(events, source, k as nat)) {
                Some((t, f))
            } else {
                None
            },
            None => None,
        },
{
    let before = shown_finals(events, source, k as nat);
    assert(shown_finals(events, source, (k + 1) as nat) == match subtitle_of(events[k], source) {
        Some((t, f)) => if f && is_shown(t, f, before) {
            before.push(t)
        } else {
            before
        },
        None => before,
    });
    match subtitle_of(events[k], source) {
        Some((t, f)) => {
            if f && is_shown(t, f, before) {
                lemma_remember_last_window(before, t);
            }
        },
        None => {},
    }
}

proof fn lemma_run_windows(
    events: Seq<Option<TranslationEventModel>>,
    actions: Seq<RouterAction>,
    sources: Seq<Seq<Seq<char>>>,
    translations: Seq<Seq<Seq<char>>>,
    k: int,
)
    requires
        actions.len() == events.len(),
        sources.len() == events.len() + 1,
        translations.len() == events.len() + 1,
        sources[0] == Seq::<Seq<char>>::empty(),
        translations[0] == Seq::<Seq<char>>::empty(),
        forall|j: int|
            0 <= j < events.len() ==> #[trigger] route_spec(
                sources[j],
                translations[j],
                events[j],
                actions[j],
                sources[j + 1],
                translations[j + 1],
            ),
        0 <= k <= events.len(),
    ensures
        sources[k] == last_window(shown_finals(events, true, k as nat)),
        translations[k] == last_window(shown_finals(events, false, k as nat)),
    decreases k,
{
    if k > 0 {
        let j = k - 1;
        lemma_run_windows(events, actions, sources, translations, j);
        assert(route_spec(sources[j], translations[j], events[j], actions[j], sources[j + 1], translations[j + 1]));
        lemma_kind_step(sources[j], sources[j + 1], events, actions, sources, translations, true, j);
        lemma_kind_step(translations[j], translations[j + 1], events, actions, sources, translations, false, j);
    }
}

/// Final subtitles are de-duplicated over a run of events: when a router that
/// starts empty handles events 0, 1, ... in turn (each step as `route_spec`
/// says), event `k`'s subtitle is shown, as action `k`, exactly when it is not
/// empty and is either interim or not among the last `DEDUP_WINDOW` final texts
/// of its kind already shown; the router then remembers exactly those last
/// final texts of each kind.
pub proof fn law_dedup_over_run(
    events: Seq<Option<TranslationEventModel>>,
    actions: Seq<RouterAction>,
    sources: Seq<Seq<Seq<char>>>,
    translations: Seq<Seq<Seq<char>>>,
)
    requires
        actions.len() == events.len(),
        sources.len() == events.len() + 1,
        translations.len() == events.len() + 1,
        sources[0] == Seq::<Seq<char>>::empty(),
        translations[0] == Seq::<Seq<char>>::empty(),
        forall|k: int|
            0 <= k < events.len() ==> #[trigger] route_spec(
                sources[k],
                translations[k],
                events[k],
                actions[k],
                sources[k + 1],
                translations[k + 1],
            ),
    ensures
        forall|k: int, source: bool|
            0 <= k < events.len() ==> #[trigger] shown_by(actions[k], source) == match subtitle_of(
                events[k],
                source,
            ) {
                Some((t, f)) => if is_shown(t, f, shown_finals(events, source, k as nat)) {
                    Some((t, f))
                } else {
                    None
                },
                None => None,
            },
        forall|k: int|
            0 <= k <= events.len() ==> #[trigger] sources[k] == last_window(shown_finals(events, true, k as nat))
                && translations[k] == last_window(shown_finals(events, false, k as nat)),
{
    assert forall|k: int, source: bool| 0 <= k < events.len() implies #[trigger] shown_by(
        actions[k],
        source,
    ) == match subtitle_of(events[k], source) {
        Some((t, f)) => if is_shown(t, f, shown_finals(events, source, k as nat)) {
            Some((t, f))
        } else {
            None
        },
        None => None,
    } by {
        lemma_run_windows(events, actions, sources, translations, k);
        assert(route_spec(sources[k], translations[k], events[k], actions[k], sources[k + 1], translations[k + 1]));
        if source {
            lemma_kind_step(sources[k], sources[k + 1], events, actions, sources, translations, true, k);
        } else {
            lemma_kind_step(translations[k], translations[k + 1], events, actions, sources, translations, false, k);
        }
    }
    assert forall|k: int| 0 <= k <= events.len() implies #[trigger] sources[k] == last_window(
        shown_finals(events, true, k as nat),
    ) && translations[k] == last_window(shown_finals(events, false, k as nat)) by {
        lemma_run_windows(events, actions, sources, translations, k);
    }
}


/// Only a failure, the session's end or the end of the event stream ends the
/// session: `handle` answers with `Finish` for nothing else. Session start,
/// end-of-sentence, usage, muted-audio and unknown events are ignored and leave
/// the remembered subtitles as they were.
pub proof fn law_only_failure_or_end_finishes(
    sources: Seq<Seq<char>>,
    translations: Seq<Seq<char>>,
    event: Option<TranslationEventModel>,
    action: RouterAction,
    sources_after: Seq<Seq<char>>,
    translations_after: Seq<Seq<char>>,
)
    requires
        route_spec(sources, translations, event, action, sources_after, translations_after),
    ensures
        action is Finish ==> (event is None || event matches Some(TranslationEventModel::SessionFailed { .. })
            || event == Some(TranslationEventModel::SessionFinished)),
        (event == Some(TranslationEventModel::SessionStarted) || event == Some(
            TranslationEventModel::TtsSentenceEnd,
        ) || event matches Some(TranslationEventModel::Usage { .. }) || event matches Some(
            TranslationEventModel::AudioMuted { .. },
        ) || event matches Some(TranslationEventModel::Unknown { .. })) ==> action is Ignore
            && sources_after == sources && translations_after == translations,
        event matches Some(TranslationEventModel::TtsAudio { data }) ==> action matches RouterAction::PlayTts(d)
            && d@ == data,
{
}


/// The session goes on only when the server's first reply confirms that it
/// started: the outcome is `Ok` exactly for a SessionStarted event, and then a
/// status for the UI.
pub proof fn law_session_goes_on_only_when_started(reply: StartupReply, enable_tts: bool, r: Result<SubtitleEvent, String>)
    requires
        startup_spec(reply, enable_tts, r),
    ensures
        r is Ok <==> (reply matches StartupReply::Event(ev) && ev@ == TranslationEventModel::SessionStarted),
        r matches Ok(s) ==> s@ is Status,
{
}

} // verus!

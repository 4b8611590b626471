//! The translation client's session logic: the numbering of the requests it
//! sends, and what it does with each thing the socket reports.

use vstd::prelude::*;
use crate::codec::{
    audio_frame_request, decode_response, encode_audio_frame, encode_finish_session,
    encode_start_session, finish_session_request, response_event, start_session_request,
    SessionConfig, TranslationEvent, TranslationEventModel,
};
use crate::proto::{
    translate_request_bytes, translate_response_decode, translate_response_default,
    NESTING_LIMIT,
};

verus! {

/// Seconds without any message after which the connection counts as dead.
pub const READ_TIMEOUT_SECS: u64 = 30;

/// Seconds a single send may take.
pub const SEND_TIMEOUT_SECS: u64 = 10;

/// Seconds between keep-alive pings.
pub const PING_INTERVAL_SECS: u64 = 15;

/// Capacity of the queue of audio chunks waiting to be sent.
pub const AUDIO_QUEUE_CAPACITY: usize = 50;

/// Capacity of the queue of decoded events.
pub const EVENT_QUEUE_CAPACITY: usize = 100;

/// A translation session's client side: its configuration and the sequence
/// number of the next request.
pub struct TranslationClient {
    config: SessionConfig,
    sequence: i32,
}

impl TranslationClient {
    pub closed spec fn spec_config(&self) -> SessionConfig {
        self.config
    }

    pub closed spec fn spec_sequence(&self) -> i32 {
        self.sequence
    }

    /// A client that has sent nothing yet.
    pub fn new(config: SessionConfig) -> (c: Self)
        ensures
            c.spec_config() == config,
            c.spec_sequence() == 0,
    {
        TranslationClient { config, sequence: 0 }
    }

    pub fn config(&self) -> (c: &SessionConfig)
        ensures
            *c == self.spec_config(),
    {
        &self.config
    }

    /// Sequence number of the next request.
    pub fn sequence(&self) -> (s: i32)
        ensures
            s == self.spec_sequence(),
    {
        self.sequence
    }

    /// The StartSession request (sequence 0 in its header); the requests after
    /// it are numbered from 1.
    pub fn start_message(&mut self) -> (out: Vec<u8>)
        ensures
            out@ == translate_request_bytes(start_session_request(old(self).spec_config())),
            final(self).spec_config() == old(self).spec_config(),
            final(self).spec_sequence() == 1,
    {
        let out = encode_start_session(&self.config);
        self.sequence = 1;
        out
    }

    /// The request carrying the next chunk of audio, numbered with the current
    /// sequence number, which then advances by one.
    pub fn audio_message(&mut self, pcm: &[i16]) -> (out: Vec<u8>)
        requires
            old(self).spec_sequence() < i32::MAX,
        ensures
            audio_message_step(*old(self), pcm@, out@, *final(self)),
    {
        let out = encode_audio_frame(
            self.config.session_id.as_str(),
            self.config.connection_id.as_str(),
            self.sequence,
            pcm,
        );
        self.sequence = self.sequence + 1;
        out
    }

    /// The FinishSession request, numbered with the current sequence number.
    pub fn finish_message(&self) -> (out: Vec<u8>)
        ensures
            out@ == translate_request_bytes(
                finish_session_request(
                    self.spec_config().session_id@,
                    self.spec_config().connection_id@,
                    self.spec_sequence(),
                ),
            ),
    {
        encode_finish_session(
            self.config.session_id.as_str(),
            self.config.connection_id.as_str(),
            self.sequence,
        )
    }
}

/// One call of `audio_message`: from a client whose counter is below the
/// maximum, the request carrying `pcm` numbered with the counter, and the same
/// client with the counter one higher.
pub open spec fn audio_message_step(
    before: TranslationClient,
    pcm: Seq<i16>,
    out: Seq<u8>,
    after: TranslationClient,
) -> bool {
    &&& before.spec_sequence() < i32::MAX
    &&& out == translate_request_bytes(
        audio_frame_request(
            before.spec_config().session_id@,
            before.spec_config().connection_id@,
            before.spec_sequence(),
            pcm,
        ),
    )
    &&& after.spec_config() == before.spec_config()
    &&& after.spec_sequence() == before.spec_sequence() + 1
}

proof fn lemma_numbering(clients: Seq<TranslationClient>, chunks: Seq<Seq<i16>>, messages: Seq<Seq<u8>>, k: int)
    requires
        clients.len() == chunks.len() + 1,
        messages.len() == chunks.len(),
        clients[0].spec_sequence() == 1,
        forall|j: int|
            0 <= j < chunks.len() ==> #[trigger] audio_message_step(
                clients[j],
                chunks[j],
                messages[j],
                clients[j + 1],
            ),
        0 <= k <= chunks.len(),
    ensures
        clients[k].spec_sequence() == 1 + k,
        clients[k].spec_config() == clients[0].spec_config(),
    decreases k,
{
    if k > 0 {
        let j = k - 1;
        lemma_numbering(clients, chunks, messages, j);
        assert(audio_message_step(clients[j], chunks[j], messages[j], clients[j + 1]));
    }
}

/// Over a session's sends, requests are numbered 1, 2, ...: when the client has
/// sent StartSession (its counter is then 1) and then `audio_message` is called
/// for chunks 0, 1, ..., chunk `k` goes out in the request numbered `1 + k`, for
/// the same session and connection, and the FinishSession sent after `n` chunks
/// is numbered `1 + n`.
pub proof fn law_requests_numbered_in_order(
    clients: Seq<TranslationClient>,
    chunks: Seq<Seq<i16>>,
    messages: Seq<Seq<u8>>,
)
    requires
        clients.len() == chunks.len() + 1,
        messages.len() == chunks.len(),
        clients[0].spec_sequence() == 1,
        forall|k: int|
            0 <= k < chunks.len() ==> #[trigger] audio_message_step(
                clients[k],
                chunks[k],
                messages[k],
                clients[k + 1],
            ),
    ensures
        forall|k: int|
            0 <= k < chunks.len() ==> #[trigger] messages[k] == translate_request_bytes(
                audio_frame_request(
                    clients[0].spec_config().session_id@,
                    clients[0].spec_config().connection_id@,
                    (1 + k) as i32,
                    chunks[k],
                ),
            ),
        clients.last().spec_config() == clients[0].spec_config(),
        clients.last().spec_sequence() == 1 + chunks.len(),
        translate_request_bytes(
            finish_session_request(
                clients.last().spec_config().session_id@,
                clients.last().spec_config().connection_id@,
                clients.last().spec_sequence(),
            ),
        ) == translate_request_bytes(
            finish_session_request(
                clients[0].spec_config().session_id@,
                clients[0].spec_config().connection_id@,
                (1 + chunks.len()) as i32,
            ),
        ),
{
    assert forall|k: int| 0 <= k < chunks.len() implies #[trigger] messages[k] == translate_request_bytes(
        audio_frame_request(
            clients[0].spec_config().session_id@,
            clients[0].spec_config().connection_id@,
            (1 + k) as i32,
            chunks[k],
        ),
    ) by {
        lemma_numbering(clients, chunks, messages, k);
        assert(audio_message_step(clients[k], chunks[k], messages[k], clients[k + 1]));
    }
    lemma_numbering(clients, chunks, messages, chunks.len() as int);
}

/// What reading the socket gave.
pub enum SocketRead {
    /// A binary message.
    Binary(Vec<u8>),
    /// A pong to one of our pings.
    Pong,
    /// The server closed the connection.
    Close,
    /// A message of another kind (text, ping).
    Other,
    /// The socket failed; the text describes the failure.
    Error(String),
    /// The stream of messages ended.
    Ended,
    /// Nothing arrived within the read timeout.
    TimedOut,
}

/// What the reading side does next.
pub enum ReadStep {
    /// Hand this event on and keep reading.
    Forward(TranslationEvent),
    /// Keep reading.
    Continue,
    /// Stop reading.
    Stop,
    /// Report this failure and stop reading.
    Fail(TranslationEvent),
}

pub open spec fn socket_error_text(e: Seq<char>) -> Seq<char> {
    "WebSocket 错误: "@ + e
}

pub open spec fn read_timeout_text() -> Seq<char> {
    "连接超时: 30秒未收到服务端响应"@
}

/// Binary messages are decoded and their events handed on (messages that do not
/// decode are dropped); a close or the end of the stream stops reading; a socket
/// error or a read timeout is reported as a failed session.
pub open spec fn read_step_spec(input: SocketRead, step: ReadStep) -> bool {
    match input {
        SocketRead::Binary(data) => match translate_response_decode(
            translate_response_default(),
            data@,
            NESTING_LIMIT as nat,
        ) {
            Some(resp) => step matches ReadStep::Forward(ev) && ev@ == response_event(resp),
            None => step is Continue,
        },
        SocketRead::Pong | SocketRead::Other => step is Continue,
        SocketRead::Close | SocketRead::Ended => step is Stop,
        SocketRead::Error(e) => step matches ReadStep::Fail(ev) && ev@
            == (TranslationEventModel::SessionFailed { message: socket_error_text(e@) }),
        SocketRead::TimedOut => step matches ReadStep::Fail(ev) && ev@
            == (TranslationEventModel::SessionFailed { message: read_timeout_text() }),
    }
}

pub fn read_step(input: SocketRead) -> (step: ReadStep)
    ensures
        read_step_spec(input, step),
{
    match input {
        SocketRead::Binary(data) => match decode_response(data.as_slice()) {
            Ok(ev) => ReadStep::Forward(ev),
            Err(_) => ReadStep::Continue,
        },
        SocketRead::Pong => ReadStep::Continue,
        SocketRead::Other => ReadStep::Continue,
        SocketRead::Close => ReadStep::Stop,
        SocketRead::Ended => ReadStep::Stop,
        SocketRead::Error(e) => {
            let mut message = String::from_str("WebSocket 错误: ");
            message.append(e.as_str());
            ReadStep::Fail(TranslationEvent::SessionFailed { message })
        },
        SocketRead::TimedOut => ReadStep::Fail(
            TranslationEvent::SessionFailed { message: String::from_str("连接超时: 30秒未收到服务端响应") },
        ),
    }
}

/// How a send on the socket went.
pub enum SendOutcome {
    Sent,
    /// The send failed; the text describes the failure.
    Failed(String),
    /// The send did not complete within its timeout.
    TimedOut,
}

/// After sending audio: nothing to report when it went out; otherwise the
/// failure to report, after which the writing side stops.
pub open spec fn audio_send_spec(outcome: SendOutcome, r: Option<TranslationEvent>) -> bool {
    match outcome {
        SendOutcome::Sent => r is None,
        SendOutcome::Failed(e) => r matches Some(ev) && ev@ == (TranslationEventModel::SessionFailed {
            message: "音频发送失败: "@ + e@,
        }),
        SendOutcome::TimedOut => r matches Some(ev) && ev@ == (TranslationEventModel::SessionFailed {
            message: "音频发送超时"@,
        }),
    }
}

pub fn audio_send_step(outcome: SendOutcome) -> (r: Option<TranslationEvent>)
    ensures
        audio_send_spec(outcome, r),
{
    match outcome {
        SendOutcome::Sent => None,
        SendOutcome::Failed(e) => {
            let mut message = String::from_str("音频发送失败: ");
            message.append(e.as_str());
            Some(TranslationEvent::SessionFailed { message })
        },
        SendOutcome::TimedOut => Some(
            TranslationEvent::SessionFailed { message: String::from_str("音频发送超时") },
        ),
    }
}

/// After sending a keep-alive ping: nothing to report when it went out;
/// otherwise the failure to report, after which the writing side stops.
pub open spec fn ping_send_spec(outcome: SendOutcome, r: Option<TranslationEvent>) -> bool {
    match outcome {
        SendOutcome::Sent => r is None,
        SendOutcome::Failed(_) => r matches Some(ev) && ev@ == (TranslationEventModel::SessionFailed {
            message: "心跳发送失败，连接可能已断开"@,
        }),
        SendOutcome::TimedOut => r matches Some(ev) && ev@ == (TranslationEventModel::SessionFailed {
            message: "心跳超时，连接可能已断开"@,
        }),
    }
}

pub fn ping_send_step(outcome: SendOutcome) -> (r: Option<TranslationEvent>)
    ensures
        ping_send_spec(outcome, r),
{
    match outcome {
        SendOutcome::Sent => None,
        SendOutcome::Failed(_) => Some(
            TranslationEvent::SessionFailed { message: String::from_str("心跳发送失败，连接可能已断开") },
        ),
        SendOutcome::TimedOut => Some(
            TranslationEvent::SessionFailed { message: String::from_str("心跳超时，连接可能已断开") },
        ),
    }
}


/// The events the reading side hands on over a run of steps, in order: each
/// forwarded event, until a step that stops reading; a failure hands on its event
/// last.
pub open spec fn delivered(steps: Seq<ReadStep>) -> Seq<TranslationEventModel>
    decreases steps.len(),
{
    if steps.len() == 0 {
        Seq::empty()
    } else {
        match steps[0] {
            ReadStep::Forward(ev) => seq![ev@] + delivered(steps.drop_first()),
            ReadStep::Continue => delivered(steps.drop_first()),
            ReadStep::Stop => Seq::empty(),
            ReadStep::Fail(ev) => seq![ev@],
        }
    }
}

/// The events a run of socket reads stands for, in arrival order: the event of
/// each binary message that decodes (others, pongs and other messages are
/// skipped), up to the first close or end of the stream; a socket error or a
/// read timeout ends the run with a failed session.
pub open spec fn events_of_reads(reads: Seq<SocketRead>) -> Seq<TranslationEventModel>
    decreases reads.len(),
{
    if reads.len() == 0 {
        Seq::empty()
    } else {
        let rest = events_of_reads(reads.drop_first());
        match reads[0] {
            SocketRead::Binary(data) => match translate_response_decode(
                translate_response_default(),
                data@,
                NESTING_LIMIT as nat,
            ) {
                Some(resp) => seq![response_event(resp)] + rest,
                None => rest,
            },
            SocketRead::Pong | SocketRead::Other => rest,
            SocketRead::Close | SocketRead::Ended => Seq::empty(),
            SocketRead::Error(e) => seq![
                TranslationEventModel::SessionFailed { message: socket_error_text(e@) },
            ],
            SocketRead::TimedOut => seq![
                TranslationEventModel::SessionFailed { message: read_timeout_text() },
            ],
        }
    }
}

/// Decoded events are handed on in arrival order: when `read_step` is applied to
/// each read of a run, the events the reading side hands on are those the reads
/// stand for.
pub proof fn law_events_in_arrival_order(reads: Seq<SocketRead>, steps: Seq<ReadStep>)
    requires
        steps.len() == reads.len(),
        forall|k: int| 0 <= k < reads.len() ==> #[trigger] read_step_spec(reads[k], steps[k]),
    ensures
        delivered(steps) == events_of_reads(reads),
    decreases reads.len(),
{
    if reads.len() > 0 {
        assert(read_step_spec(reads[0], steps[0]));
        assert forall|k: int| 0 <= k < reads.drop_first().len() implies #[trigger] read_step_spec(
            reads.drop_first()[k],
            steps.drop_first()[k],
        ) by {
            assert(read_step_spec(reads[k + 1], steps[k + 1]));
        }
        law_events_in_arrival_order(reads.drop_first(), steps.drop_first());
    }
}

} // verus!

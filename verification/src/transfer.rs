//! The download of one file, as a state machine.
//!
//! A transfer never touches the network or the disk. It is told what
//! happened (a [`TransferEvent`]) and answers with what to do next (a
//! [`TransferAction`]); whoever drives it sends the requests, appends the
//! chunks to the destination file and waits. The machine keeps the rolling
//! hash, counts the bytes, decides when to ask for the rest of an interrupted
//! body, and gives the verdict when the body has ended.

use crate::digest::{
    absorbed, hasher_finalize, hasher_new, hasher_update, hex, sha256, HashAccumulator,
};
use crate::download::{last_segment, LargeFileInformation};
use crate::text::{decimal, final_segment, push_decimal};
use crate::verdict::{same_hash, verify_digest, Verdict};
use vstd::prelude::*;
use vstd::string::*;

verus! {

/// Where a transfer stands.
#[derive(Clone, Copy, Debug, PartialEq, Eq, Structural)]
pub enum TransferStatus {
    /// Scheduled; the first request has not been answered yet.
    Pending,
    /// The body is being streamed to the destination.
    InFlight,
    /// The stream broke; a ranged request for the rest is under way.
    Resuming,
    /// The body ended and its hash is the declared one.
    Verified,
    /// The body ended and its hash is not the declared one.
    Mismatched,
    /// The transfer was given up.
    Failed,
    /// The transfer was called off.
    Cancelled,
}

impl TransferStatus {
    /// Whether the transfer is over.
    pub open spec fn terminal(self) -> bool {
        self is Verified || self is Mismatched || self is Failed || self is Cancelled
    }

    /// Whether the body was streamed to its end. A mismatch is a warning
    /// about the content, not a failed transfer.
    pub open spec fn completed(self) -> bool {
        self is Verified || self is Mismatched
    }

    /// Whether the transfer is over.
    pub fn is_terminal(&self) -> (b: bool)
        ensures
            b == self.terminal(),
    {
        match self {
            TransferStatus::Verified | TransferStatus::Mismatched | TransferStatus::Failed
            | TransferStatus::Cancelled => true,
            _ => false,
        }
    }

    /// Whether the body was streamed to its end.
    pub fn is_completed(&self) -> (b: bool)
        ensures
            b == self.completed(),
    {
        match self {
            TransferStatus::Verified | TransferStatus::Mismatched => true,
            _ => false,
        }
    }
}

/// Why a transfer was given up.
#[derive(Clone, Copy, Debug, PartialEq, Eq, Structural)]
pub enum TransferFailure {
    /// The first request got no response.
    RequestFailed,
    /// The first response did not say how long the body is.
    MissingContentLength,
    /// The destination file could not be created or written.
    StorageFailed,
    /// The stream broke and no ranged request for the rest succeeded within
    /// the attempts that the policy allows.
    ResumeExhausted,
}

/// How often, and how patiently, the rest of a broken stream is asked for.
#[derive(Clone, Copy, Debug, PartialEq, Eq, Structural)]
pub struct RetryPolicy {
    /// The most ranged requests sent for one interruption.
    pub max_attempts: u32,
    /// The wait before the second ranged request, in milliseconds; each
    /// later one waits twice as long as the one before.
    pub base_delay_ms: u64,
    /// The longest wait, in milliseconds.
    pub max_delay_ms: u64,
}

/// `base` doubled `times` times.
pub open spec fn doubled(base: nat, times: nat) -> nat
    decreases times,
{
    if times == 0 {
        base
    } else {
        2 * doubled(base, (times - 1) as nat)
    }
}

/// Doubling more often gives no less.
pub proof fn lemma_doubled_monotonic(base: nat, fewer: nat, more: nat)
    requires
        fewer <= more,
    ensures
        doubled(base, fewer) <= doubled(base, more),
    decreases more,
{
    if fewer < more {
        lemma_doubled_monotonic(base, fewer, (more - 1) as nat);
    }
}

impl RetryPolicy {
    /// The wait before ranged request number `attempt` (counted from 1) of
    /// one interruption: none before the first, then `base_delay_ms`
    /// doubling with every further request, never more than `max_delay_ms`.
    pub open spec fn delay(self, attempt: nat) -> nat {
        if attempt <= 1 {
            0
        } else {
            let grown = doubled(self.base_delay_ms as nat, (attempt - 2) as nat);
            if grown < self.max_delay_ms {
                grown
            } else {
                self.max_delay_ms as nat
            }
        }
    }

    /// The wait before ranged request number `attempt`, in milliseconds.
    pub fn delay_ms(&self, attempt: u32) -> (wait: u64)
        ensures
            wait == self.delay(attempt as nat),
    {
        if attempt <= 1 {
            return 0;
        }
        let base: u64 = self.base_delay_ms;
        let max: u64 = self.max_delay_ms;
        let mut wait: u64 = base;
        let mut k: u32 = 2;
        proof {
            lemma_doubled_monotonic(base as nat, 0, (attempt - 2) as nat);
        }
        if wait >= max {
            return max;
        }
        while k < attempt
            invariant
                2 <= k <= attempt,
                wait == doubled(base as nat, (k - 2) as nat),
                wait < max,
                base == self.base_delay_ms,
                max == self.max_delay_ms,
            decreases attempt - k,
        {
            proof {
                lemma_doubled_monotonic(base as nat, (k - 1) as nat, (attempt - 2) as nat);
            }
            if wait >= max - wait {
                return max;
            }
            wait = 2 * wait;
            k = k + 1;
        }
        wait
    }
}

/// Progress of one transfer, for whoever displays it.
#[derive(Clone, Copy, Debug, PartialEq, Eq, Structural)]
pub struct ProgressEvent {
    /// Which descriptor the bytes belong to.
    pub descriptor_id: usize,
    /// How many bytes were just stored.
    pub bytes_delta: u64,
    /// The length of the whole body, as the server gave it.
    pub total_bytes: u64,
}

/// What the driver of a transfer has to do next.
#[derive(Clone, Copy, Debug, PartialEq, Eq, Structural)]
pub enum TransferAction {
    /// Create the destination file and request the URL.
    Begin,
    /// Read the next chunk of the body; `progress` tells of the chunk just
    /// stored, if there was one.
    Receive { progress: Option<ProgressEvent> },
    /// Wait `delay_ms` milliseconds, then request the URL again from byte
    /// `offset` on, to append to the destination file.
    Resume { offset: u64, delay_ms: u64 },
    /// Nothing: the transfer is over.
    Finish,
}

/// Whether the status code `status` of a response reports success: it is of
/// the class 2xx.
pub open spec fn reports_success(status: u16) -> bool {
    200 <= status <= 299
}

/// Whether the status code `status` of a response reports success.
pub fn is_success(status: u16) -> (success: bool)
    ensures
        success == reports_success(status),
{
    200 <= status && status <= 299
}

/// What happened to a transfer since the last action.
pub enum TransferEvent {
    /// The first request was answered, with the status code `status` and,
    /// if the response gives it, the length of the body.
    Response { status: u16, content_length: Option<u64> },
    /// The request under way, the first or a ranged one, got no response.
    RequestFailed,
    /// The destination file could not be created, positioned or written.
    StorageFailed,
    /// A chunk of the body arrived and was appended to the destination file.
    Chunk(Vec<u8>),
    /// The body stream broke.
    StreamError,
    /// The ranged request was answered, with the status code `status`.
    ResumeResponse { status: u16 },
    /// The body stream ended.
    StreamEnd,
    /// The run was called off.
    Cancel,
}

/// A [`TransferEvent`] as a mathematical value: the same events, with the
/// bytes of a chunk as a sequence, and of a status code only whether it
/// reports success.
pub enum EventModel {
    Response { success: bool, content_length: Option<u64> },
    RequestFailed,
    StorageFailed,
    Chunk(Seq<u8>),
    StreamError,
    ResumeResponse { success: bool },
    StreamEnd,
    Cancel,
}

impl View for TransferEvent {
    type V = EventModel;

    open spec fn view(&self) -> EventModel {
        match self {
            TransferEvent::Response { status, content_length } => EventModel::Response {
                success: reports_success(*status),
                content_length: *content_length,
            },
            TransferEvent::RequestFailed => EventModel::RequestFailed,
            TransferEvent::StorageFailed => EventModel::StorageFailed,
            TransferEvent::Chunk(data) => EventModel::Chunk(data@),
            TransferEvent::StreamError => EventModel::StreamError,
            TransferEvent::ResumeResponse { status } => EventModel::ResumeResponse {
                success: reports_success(*status),
            },
            TransferEvent::StreamEnd => EventModel::StreamEnd,
            TransferEvent::Cancel => EventModel::Cancel,
        }
    }
}

/// A transfer as a mathematical value.
pub struct TransferModel {
    /// Which descriptor of the batch this is.
    pub descriptor_id: usize,
    /// Where the file is served from.
    pub url: Seq<char>,
    /// The hash the descriptor declares.
    pub expected_hash: Seq<char>,
    /// How interruptions are handled.
    pub policy: RetryPolicy,
    /// Where the transfer stands.
    pub status: TransferStatus,
    /// Why it was given up, if it was.
    pub failure: Option<TransferFailure>,
    /// The length of the body as the server gave it, once known.
    pub total_bytes: Option<u64>,
    /// The bytes appended to the destination file so far, in order.
    pub content: Seq<u8>,
    /// How many ranged requests were sent for the interruption in course.
    pub attempts: nat,
}

impl TransferModel {
    /// A transfer that has just been scheduled.
    pub open spec fn initial(
        descriptor_id: usize,
        url: Seq<char>,
        expected_hash: Seq<char>,
        policy: RetryPolicy,
    ) -> TransferModel {
        TransferModel {
            descriptor_id,
            url,
            expected_hash,
            policy,
            status: TransferStatus::Pending,
            failure: None,
            total_bytes: None,
            content: Seq::empty(),
            attempts: 0,
        }
    }

    /// What every transfer satisfies.
    pub open spec fn wf(self) -> bool {
        &&& self.content.len() <= u64::MAX
        &&& self.attempts <= self.policy.max_attempts
        &&& self.status is Resuming ==> self.attempts >= 1
        &&& (self.status is Pending || self.status is InFlight) ==> self.attempts == 0
        &&& self.status is Pending ==> self.content.len() == 0
        &&& (self.status is InFlight || self.status is Resuming) ==> self.total_bytes is Some
        &&& self.failure is Some <==> self.status is Failed
    }

    /// The name of the destination file: the last segment of the URL.
    pub open spec fn file_name(self) -> Seq<char> {
        final_segment(self.url)
    }

    /// The hash of the content, in hexadecimal.
    pub open spec fn content_hash(self) -> Seq<char> {
        hex(sha256(self.content))
    }

    /// What the driver has to do while nothing new has happened.
    pub open spec fn pending_action(self) -> TransferAction {
        match self.status {
            TransferStatus::Pending => TransferAction::Begin,
            TransferStatus::InFlight => TransferAction::Receive { progress: None },
            TransferStatus::Resuming => TransferAction::Resume {
                offset: self.content.len() as u64,
                delay_ms: self.policy.delay(self.attempts) as u64,
            },
            _ => TransferAction::Finish,
        }
    }

    /// The transfer given up for the reason `why`.
    pub open spec fn fail(self, why: TransferFailure) -> (TransferModel, TransferAction) {
        (
            TransferModel { status: TransferStatus::Failed, failure: Some(why), ..self },
            TransferAction::Finish,
        )
    }

    /// The transfer ended with the verdict on its content.
    pub open spec fn conclude(self) -> (TransferModel, TransferAction) {
        let status = if same_hash(self.content_hash(), self.expected_hash) {
            TransferStatus::Verified
        } else {
            TransferStatus::Mismatched
        };
        (TransferModel { status, ..self }, TransferAction::Finish)
    }

    /// One more ranged request for the rest of the body, from the end of
    /// what is stored; the transfer fails once the policy allows no more.
    pub open spec fn request_rest(self) -> (TransferModel, TransferAction) {
        if self.attempts < self.policy.max_attempts {
            let next = TransferModel {
                status: TransferStatus::Resuming,
                attempts: self.attempts + 1,
                ..self
            };
            (next, next.pending_action())
        } else {
            self.fail(TransferFailure::ResumeExhausted)
        }
    }

    /// The transfer after `event`, and what the driver has to do then.
    ///
    /// - A transfer that is over stays as it is.
    /// - `Cancel` calls a transfer off, and `StorageFailed` fails it,
    ///   wherever it stands.
    /// - Pending: a response without a length fails the transfer. With a
    ///   length, a response that reports success starts the streaming; one
    ///   that reports none streams nothing, and the verdict is given on the
    ///   empty content. No response fails the transfer.
    /// - In flight: a chunk is added to the content; a broken stream has
    ///   the rest asked for; the end of the stream gives the verdict.
    /// - Resuming: a response that reports success takes the streaming up
    ///   again. No response, or one that reports no success, has the rest
    ///   asked for once more, until the policy allows no further request.
    /// - An event that cannot follow the last action changes nothing, and
    ///   the pending action is given again.
    pub open spec fn step(self, event: EventModel) -> (TransferModel, TransferAction) {
        if self.status.terminal() {
            (self, TransferAction::Finish)
        } else {
            match (self.status, event) {
                (_, EventModel::Cancel) => (
                    TransferModel { status: TransferStatus::Cancelled, ..self },
                    TransferAction::Finish,
                ),
                (_, EventModel::StorageFailed) => self.fail(TransferFailure::StorageFailed),
                (TransferStatus::Pending, EventModel::RequestFailed) => self.fail(
                    TransferFailure::RequestFailed,
                ),
                (TransferStatus::Pending, EventModel::Response { success, content_length }) => {
                    match content_length {
                        None => self.fail(TransferFailure::MissingContentLength),
                        Some(total) => {
                            let known = TransferModel { total_bytes: Some(total), ..self };
                            if success {
                                (
                                    TransferModel { status: TransferStatus::InFlight, ..known },
                                    TransferAction::Receive { progress: None },
                                )
                            } else {
                                known.conclude()
                            }
                        },
                    }
                },
                (TransferStatus::InFlight, EventModel::Chunk(data)) => (
                    TransferModel { content: self.content + data, ..self },
                    TransferAction::Receive {
                        progress: Some(
                            ProgressEvent {
                                descriptor_id: self.descriptor_id,
                                bytes_delta: data.len() as u64,
                                total_bytes: self.total_bytes.unwrap(),
                            },
                        ),
                    },
                ),
                (TransferStatus::InFlight, EventModel::StreamError) => TransferModel {
                    attempts: 0,
                    ..self
                }.request_rest(),
                (TransferStatus::InFlight, EventModel::StreamEnd) => self.conclude(),
                (TransferStatus::Resuming, EventModel::ResumeResponse { success }) => {
                    if success {
                        (
                            TransferModel {
                                status: TransferStatus::InFlight,
                                attempts: 0,
                                ..self
                            },
                            TransferAction::Receive { progress: None },
                        )
                    } else {
                        self.request_rest()
                    }
                },
                (TransferStatus::Resuming, EventModel::RequestFailed) => self.request_rest(),
                _ => (self, self.pending_action()),
            }
        }
    }

    /// The transfer after `events`, taken one after another.
    pub open spec fn run(self, events: Seq<EventModel>) -> TransferModel
        decreases events.len(),
    {
        if events.len() == 0 {
            self
        } else {
            self.step(events.first()).0.run(events.drop_first())
        }
    }
}

/// Whether `event` tells of a ranged request that did not succeed: it got no
/// response, or a response that reports no success.
pub open spec fn is_failed_resume(event: EventModel) -> bool {
    event is RequestFailed || event == (EventModel::ResumeResponse { success: false })
}

/// The events of one interruption that is overcome: the stream breaks, the
/// ranged requests told of in `failures` do not succeed, the next one does.
pub open spec fn interruption(failures: Seq<EventModel>) -> Seq<EventModel> {
    seq![EventModel::StreamError] + failures + seq![
        EventModel::ResumeResponse { success: true },
    ]
}

/// The events of a body that arrives in the chunks `chunks` without a break.
pub open spec fn delivery(chunks: Seq<Seq<u8>>) -> Seq<EventModel> {
    chunks.map_values(|chunk: Seq<u8>| EventModel::Chunk(chunk))
}

/// The events of a body that arrives in the chunks `chunks`, where
/// `breaks[i]` tells what happens before chunk `i`: nothing (`None`), or an
/// interruption with the given failed ranged requests.
pub open spec fn broken_delivery(
    chunks: Seq<Seq<u8>>,
    breaks: Seq<Option<Seq<EventModel>>>,
) -> Seq<EventModel>
    decreases chunks.len(),
{
    if chunks.len() == 0 {
        Seq::empty()
    } else {
        let before = broken_delivery(chunks.drop_last(), breaks.drop_last());
        let pause = match breaks.last() {
            Some(failures) => interruption(failures),
            None => Seq::empty(),
        };
        before + pause + seq![EventModel::Chunk(chunks.last())]
    }
}

/// Whether the policy of `model` lets every interruption in `breaks` be
/// overcome: each holds failed ranged requests only, and fewer of them than
/// the policy allows requests.
pub open spec fn recoverable(model: TransferModel, breaks: Seq<Option<Seq<EventModel>>>) -> bool {
    forall|i: int|
        0 <= i < breaks.len() ==> (#[trigger] breaks[i] matches Some(failures) ==> {
            &&& failures.len() < model.policy.max_attempts
            &&& forall|j: int| 0 <= j < failures.len() ==> is_failed_resume(#[trigger] failures[j])
        })
}

/// A step leaves a transfer as every transfer is, as long as the content
/// stays within what a `u64` counts.
pub proof fn lemma_step_keeps_wf(model: TransferModel, event: EventModel)
    requires
        model.wf(),
        event matches EventModel::Chunk(data) ==> model.content.len() + data.len() <= u64::MAX,
    ensures
        model.step(event).0.wf(),
{
}

/// A transfer that is over stays as it ended, whatever is told to it.
pub proof fn lemma_over_stays_over(model: TransferModel, events: Seq<EventModel>)
    requires
        model.status.terminal(),
    ensures
        model.run(events) == model,
    decreases events.len(),
{
    if events.len() > 0 {
        lemma_over_stays_over(model, events.drop_first());
    }
}

/// Running over one event is taking one step.
pub proof fn lemma_run_one(model: TransferModel, event: EventModel)
    ensures
        model.run(seq![event]) == model.step(event).0,
{
    assert(model.step(event).0.run(seq![event].drop_first()) == model.step(event).0);
}

/// Running over two runs of events in a row is running over the first and
/// then over the second.
pub proof fn lemma_run_concat(model: TransferModel, first: Seq<EventModel>, second: Seq<EventModel>)
    ensures
        model.run(first + second) == model.run(first).run(second),
    decreases first.len(),
{
    if first.len() > 0 {
        assert((first + second).drop_first() =~= first.drop_first() + second);
        lemma_run_concat(model.step(first.first()).0, first.drop_first(), second);
    }
}

/// While the rest is being asked for, requests that do not succeed leave
/// everything but the count of attempts as it was, as long as the policy
/// allows one more.
proof fn lemma_failed_requests(model: TransferModel, failures: Seq<EventModel>)
    requires
        model.status is Resuming,
        model.attempts + failures.len() <= model.policy.max_attempts,
        forall|j: int| 0 <= j < failures.len() ==> is_failed_resume(#[trigger] failures[j]),
    ensures
        model.run(failures) == (TransferModel {
            attempts: model.attempts + failures.len(),
            ..model
        }),
    decreases failures.len(),
{
    if failures.len() > 0 {
        lemma_failed_requests(model.step(failures.first()).0, failures.drop_first());
    }
}

/// When the stream breaks, the rest is asked for at once, from the end of
/// what is stored, and nothing that is stored is touched.
pub proof fn lemma_resume_from_end(model: TransferModel)
    requires
        model.status is InFlight,
        model.policy.max_attempts >= 1,
    ensures
        model.step(EventModel::StreamError).1 == (TransferAction::Resume {
            offset: model.content.len() as u64,
            delay_ms: 0,
        }),
        model.step(EventModel::StreamError).0.status is Resuming,
        model.step(EventModel::StreamError).0.content == model.content,
{
}

/// An interruption that is overcome leaves a running transfer as it was.
pub proof fn lemma_interruption_overcome(model: TransferModel, failures: Seq<EventModel>)
    requires
        model.status is InFlight,
        model.attempts == 0,
        failures.len() < model.policy.max_attempts,
        forall|j: int| 0 <= j < failures.len() ==> is_failed_resume(#[trigger] failures[j]),
    ensures
        model.run(interruption(failures)) == model,
{
    let broken = model.step(EventModel::StreamError).0;
    let answer = seq![EventModel::ResumeResponse { success: true }];
    let head = seq![EventModel::StreamError];
    lemma_run_concat(model, head + failures, answer);
    lemma_run_concat(model, head, failures);
    lemma_run_one(model, EventModel::StreamError);
    lemma_failed_requests(broken, failures);
    lemma_run_one(broken.run(failures), EventModel::ResumeResponse { success: true });
}

/// Resume is seamless. A body whose stream breaks any number of times, each
/// break overcome by a ranged request from the end of what is stored, is
/// stored byte for byte as the same body arriving without a break: the
/// chunks one after another, after what was there before. The transfer is
/// then in the very state the unbroken one is in, so that it ends with the
/// same verdict.
pub proof fn lemma_resume_is_seamless(
    model: TransferModel,
    chunks: Seq<Seq<u8>>,
    breaks: Seq<Option<Seq<EventModel>>>,
)
    requires
        model.status is InFlight,
        model.attempts == 0,
        breaks.len() == chunks.len(),
        recoverable(model, breaks),
    ensures
        model.run(broken_delivery(chunks, breaks)) == model.run(delivery(chunks)),
        model.run(broken_delivery(chunks, breaks)) == (TransferModel {
            content: model.content + chunks.flatten(),
            ..model
        }),
        model.run(broken_delivery(chunks, breaks) + seq![EventModel::StreamEnd]) == model.run(
            delivery(chunks) + seq![EventModel::StreamEnd],
        ),
    decreases chunks.len(),
{
    if chunks.len() > 0 {
        // by induction, all is as stated before the last chunk
        let earlier = chunks.drop_last();
        lemma_resume_is_seamless(model, earlier, breaks.drop_last());
        let before = TransferModel { content: model.content + earlier.flatten(), ..model };
        // what may come before the last chunk changes nothing
        let pause = match breaks.last() {
            Some(failures) => interruption(failures),
            None => Seq::empty(),
        };
        assert(before.run(pause) == before) by {
            if let Some(failures) = breaks.last() {
                lemma_interruption_overcome(before, failures);
            }
        }
        // and the last chunk is stored after the others
        let chunk = seq![EventModel::Chunk(chunks.last())];
        let stored = TransferModel { content: model.content + chunks.flatten(), ..model };
        assert(before.run(chunk) == stored) by {
            lemma_run_one(before, EventModel::Chunk(chunks.last()));
            chunks.lemma_flatten_and_flatten_alt_are_equivalent();
            earlier.lemma_flatten_and_flatten_alt_are_equivalent();
            assert(model.content + earlier.flatten() + chunks.last() =~= model.content
                + chunks.flatten());
        }
        let broken_before = broken_delivery(earlier, breaks.drop_last());
        lemma_run_concat(model, broken_before + pause, chunk);
        lemma_run_concat(model, broken_before, pause);
        assert(delivery(chunks) =~= delivery(earlier) + chunk);
        lemma_run_concat(model, delivery(earlier), chunk);
    }
    lemma_run_concat(model, broken_delivery(chunks, breaks), seq![EventModel::StreamEnd]);
    lemma_run_concat(model, delivery(chunks), seq![EventModel::StreamEnd]);
}

/// Round trip. A body that arrives without an error is stored as it came,
/// chunk after chunk, and the transfer ends verified exactly when the hash
/// of that content is the declared one (mismatched otherwise).
pub proof fn lemma_round_trip(
    descriptor_id: usize,
    url: Seq<char>,
    expected_hash: Seq<char>,
    policy: RetryPolicy,
    total: u64,
    chunks: Seq<Seq<u8>>,
)
    ensures
        ({
            let response = EventModel::Response { success: true, content_length: Some(total) };
            let events = seq![response] + delivery(chunks) + seq![EventModel::StreamEnd];
            let end = TransferModel::initial(descriptor_id, url, expected_hash, policy).run(events);
            &&& end.content == chunks.flatten()
            &&& end.status is Verified <==> same_hash(hex(sha256(chunks.flatten())), expected_hash)
            &&& end.status is Verified || end.status is Mismatched
        }),
{
    let start = TransferModel::initial(descriptor_id, url, expected_hash, policy);
    let response = EventModel::Response { success: true, content_length: Some(total) };
    let head = seq![response];
    let tail = seq![EventModel::StreamEnd];
    let streaming = start.step(response).0;
    lemma_run_concat(start, head + delivery(chunks), tail);
    lemma_run_concat(start, head, delivery(chunks));
    lemma_run_one(start, response);
    let no_breaks = Seq::new(chunks.len(), |i: int| None::<Seq<EventModel>>);
    lemma_resume_is_seamless(streaming, chunks, no_breaks);
    let stored = streaming.run(delivery(chunks));
    lemma_run_one(stored, EventModel::StreamEnd);
}

/// The value of the `Range` header that asks for a body from byte `offset`
/// to its end.
pub open spec fn range_text(offset: nat) -> Seq<char> {
    "bytes="@ + decimal(offset) + "-"@
}

/// The value of the `Range` header that asks for a body from byte `offset`
/// to its end: `bytes=<offset>-`.
pub fn range_header(offset: u64) -> (value: String)
    ensures
        value@ == range_text(offset as nat),
{
    let mut value = String::from_str("bytes=");
    push_decimal(&mut value, offset);
    value.append("-");
    value
}

/// The download of one file: the bytes stored so far, their rolling hash,
/// and where the transfer stands.
///
/// A state belongs to the task that drives it and is not shared; when the
/// transfer is over, what remains to be told is its status and verdict.
pub struct TransferState {
    descriptor_id: usize,
    url: String,
    expected_hash: String,
    file_name: String,
    policy: RetryPolicy,
    status: TransferStatus,
    failure: Option<TransferFailure>,
    total_bytes: Option<u64>,
    bytes_written: u64,
    attempts: u32,
    rolling_hash: Option<HashAccumulator>,
    verdict: Option<Verdict>,
    content: Ghost<Seq<u8>>,
}

impl View for TransferState {
    type V = TransferModel;

    closed spec fn view(&self) -> TransferModel {
        TransferModel {
            descriptor_id: self.descriptor_id,
            url: self.url@,
            expected_hash: self.expected_hash@,
            policy: self.policy,
            status: self.status,
            failure: self.failure,
            total_bytes: self.total_bytes,
            content: self.content@,
            attempts: self.attempts as nat,
        }
    }
}

impl TransferState {
    /// While a transfer runs, the rolling hash has been fed exactly the
    /// stored bytes, in order, and the counter is their number; once it has
    /// ended with a verdict, the verdict is the one on those bytes.
    #[verifier::type_invariant]
    spec fn inv(self) -> bool {
        &&& self@.wf()
        &&& self.file_name@ == self@.file_name()
        &&& self.bytes_written == self.content@.len()
        &&& !self.status.terminal() ==> self.rolling_hash is Some && absorbed(
            self.rolling_hash.unwrap(),
        ) == self.content@
        &&& match self.status {
            TransferStatus::Verified => {
                &&& same_hash(self@.content_hash(), self.expected_hash@)
                &&& self.verdict matches Some(Verdict::Match { file_name })
                &&& file_name@ == self.file_name@
            },
            TransferStatus::Mismatched => {
                &&& !same_hash(self@.content_hash(), self.expected_hash@)
                &&& self.verdict matches Some(Verdict::Mismatch { file_name, expected, actual })
                &&& file_name@ == self.file_name@
                &&& expected@ == self.expected_hash@
                &&& actual@ == self@.content_hash()
            },
            _ => self.verdict is None,
        }
    }

    /// The transfer of `file`, descriptor number `descriptor_id` of its
    /// batch, just scheduled.
    pub fn new(descriptor_id: usize, file: &LargeFileInformation, policy: RetryPolicy) -> (state:
        TransferState)
        ensures
            state@ == TransferModel::initial(descriptor_id, file.url@, file.sha256@, policy),
            state@.wf(),
    {
        TransferState {
            descriptor_id,
            url: file.url.clone(),
            expected_hash: file.sha256.clone(),
            file_name: last_segment(file.url.as_str()),
            policy,
            status: TransferStatus::Pending,
            failure: None,
            total_bytes: None,
            bytes_written: 0,
            attempts: 0,
            rolling_hash: Some(hasher_new()),
            verdict: None,
            content: Ghost(Seq::empty()),
        }
    }

    /// Which descriptor of the batch this is.
    pub fn descriptor_id(&self) -> (id: usize)
        ensures
            id == self@.descriptor_id,
    {
        self.descriptor_id
    }

    /// Where the file is served from.
    pub fn url(&self) -> (url: &str)
        ensures
            url@ == self@.url,
    {
        self.url.as_str()
    }

    /// The hash the descriptor declares.
    pub fn expected_hash(&self) -> (hash: &str)
        ensures
            hash@ == self@.expected_hash,
    {
        self.expected_hash.as_str()
    }

    /// The name of the destination file: the last segment of the URL.
    pub fn file_name(&self) -> (name: &str)
        ensures
            name@ == self@.file_name(),
    {
        proof {
            use_type_invariant(self);
        }
        self.file_name.as_str()
    }

    /// Where the transfer stands.
    pub fn status(&self) -> (status: TransferStatus)
        ensures
            status == self@.status,
    {
        self.status
    }

    /// Why the transfer was given up; `None` unless it has failed.
    pub fn failure(&self) -> (failure: Option<TransferFailure>)
        ensures
            failure == self@.failure,
            failure is Some <==> self@.status is Failed,
    {
        proof {
            use_type_invariant(self);
        }
        self.failure
    }

    /// The length of the body as the server gave it, once known.
    pub fn total_bytes(&self) -> (total: Option<u64>)
        ensures
            total == self@.total_bytes,
    {
        self.total_bytes
    }

    /// How many bytes were appended to the destination file.
    pub fn bytes_written(&self) -> (count: u64)
        ensures
            count == self@.content.len(),
    {
        proof {
            use_type_invariant(self);
        }
        self.bytes_written
    }

    /// The verdict on the content: `Some` once the body has ended, with the
    /// name of the destination file and, on a mismatch, both hashes.
    pub fn verdict(&self) -> (verdict: &Option<Verdict>)
        ensures
            verdict is Some <==> self@.status.completed(),
            self@.status is Verified <==> verdict matches Some(Verdict::Match { .. }),
            verdict matches Some(Verdict::Match { file_name }) ==> file_name@
                == self@.file_name() && same_hash(self@.content_hash(), self@.expected_hash),
            verdict matches Some(Verdict::Mismatch { file_name, expected, actual }) ==> file_name@
                == self@.file_name() && expected@ == self@.expected_hash && actual@
                == self@.content_hash() && !same_hash(actual@, expected@),
    {
        proof {
            use_type_invariant(self);
        }
        &self.verdict
    }

    /// What the driver has to do while nothing new has happened.
    pub fn pending_action(&self) -> (action: TransferAction)
        ensures
            action == self@.pending_action(),
    {
        proof {
            use_type_invariant(self);
        }
        match self.status {
            TransferStatus::Pending => TransferAction::Begin,
            TransferStatus::InFlight => TransferAction::Receive { progress: None },
            TransferStatus::Resuming => TransferAction::Resume {
                offset: self.bytes_written,
                delay_ms: self.policy.delay_ms(self.attempts),
            },
            _ => TransferAction::Finish,
        }
    }

    /// Gives the transfer up for the reason `why`.
    fn failed(self, why: TransferFailure) -> (next: (TransferState, TransferAction))
        requires
            !self@.status.terminal(),
        ensures
            (next.0@, next.1) == self@.fail(why),
            next.0@.wf(),
    {
        proof {
            use_type_invariant(&self);
        }
        (
            TransferState {
                status: TransferStatus::Failed,
                failure: Some(why),
                rolling_hash: None,
                ..self
            },
            TransferAction::Finish,
        )
    }

    /// Ends the transfer with the verdict on what was stored.
    fn concluded(self) -> (next: (TransferState, TransferAction))
        requires
            !self@.status.terminal(),
        ensures
            (next.0@, next.1) == self@.conclude(),
            next.0@.wf(),
    {
        proof {
            use_type_invariant(&self);
        }
        let TransferState {
            descriptor_id,
            url,
            expected_hash,
            file_name,
            policy,
            status: _,
            failure,
            total_bytes,
            bytes_written,
            attempts,
            rolling_hash,
            verdict: _,
            content,
        } = self;
        let digest = hasher_finalize(rolling_hash.unwrap());
        let verdict = verify_digest(digest.as_slice(), expected_hash.as_str(), file_name.as_str());
        let status = match verdict {
            Verdict::Match { .. } => TransferStatus::Verified,
            Verdict::Mismatch { .. } => TransferStatus::Mismatched,
        };
        (
            TransferState {
                descriptor_id,
                url,
                expected_hash,
                file_name,
                policy,
                status,
                failure,
                total_bytes,
                bytes_written,
                attempts,
                rolling_hash: None,
                verdict: Some(verdict),
                content,
            },
            TransferAction::Finish,
        )
    }

    /// Asks for the rest of the body once more, or fails when the policy
    /// allows no further request.
    fn rest_requested(self) -> (next: (TransferState, TransferAction))
        requires
            !self@.status.terminal(),
            self@.total_bytes is Some,
        ensures
            (next.0@, next.1) == self@.request_rest(),
            next.0@.wf(),
    {
        proof {
            use_type_invariant(&self);
        }
        if self.attempts < self.policy.max_attempts {
            let attempts: u32 = self.attempts + 1;
            let action = TransferAction::Resume {
                offset: self.bytes_written,
                delay_ms: self.policy.delay_ms(attempts),
            };
            (TransferState { status: TransferStatus::Resuming, attempts, ..self }, action)
        } else {
            self.failed(TransferFailure::ResumeExhausted)
        }
    }

    /// Stores a chunk: feeds it to the rolling hash and counts its bytes.
    fn chunk_stored(self, data: &Vec<u8>) -> (next: (TransferState, TransferAction))
        requires
            self@.status is InFlight,
            self@.content.len() + data@.len() <= u64::MAX,
        ensures
            (next.0@, next.1) == self@.step(EventModel::Chunk(data@)),
            next.0@.wf(),
    {
        proof {
            use_type_invariant(&self);
        }
        let TransferState {
            descriptor_id,
            url,
            expected_hash,
            file_name,
            policy,
            status,
            failure,
            total_bytes,
            bytes_written,
            attempts,
            rolling_hash,
            verdict,
            content,
        } = self;
        let mut hasher = rolling_hash.unwrap();
        hasher_update(&mut hasher, data.as_slice());
        let delta: u64 = data.len() as u64;
        let progress = ProgressEvent {
            descriptor_id,
            bytes_delta: delta,
            total_bytes: total_bytes.unwrap(),
        };
        (
            TransferState {
                descriptor_id,
                url,
                expected_hash,
                file_name,
                policy,
                status,
                failure,
                total_bytes,
                bytes_written: bytes_written + delta,
                attempts,
                rolling_hash: Some(hasher),
                verdict,
                content: Ghost(content@ + data@),
            },
            TransferAction::Receive { progress: Some(progress) },
        )
    }

    /// The transfer after `event`, and what the driver has to do then.
    ///
    /// A chunk can be taken only while the count of stored bytes stays
    /// within `u64`.
    pub fn step(self, event: TransferEvent) -> (next: (TransferState, TransferAction))
        requires
            self@.status is InFlight ==> (event matches TransferEvent::Chunk(data)
                ==> self@.content.len() + data@.len() <= u64::MAX),
        ensures
            (next.0@, next.1) == self@.step(event@),
            next.0@.wf(),
    {
        proof {
            use_type_invariant(&self);
        }
        if self.status.is_terminal() {
            return (self, TransferAction::Finish);
        }
        match event {
            TransferEvent::Cancel => (
                TransferState { status: TransferStatus::Cancelled, rolling_hash: None, ..self },
                TransferAction::Finish,
            ),
            TransferEvent::StorageFailed => self.failed(TransferFailure::StorageFailed),
            TransferEvent::RequestFailed => match self.status {
                TransferStatus::Pending => self.failed(TransferFailure::RequestFailed),
                TransferStatus::Resuming => self.rest_requested(),
                _ => {
                    let action = self.pending_action();
                    (self, action)
                },
            },
            TransferEvent::Response { status, content_length } => match self.status {
                TransferStatus::Pending => match content_length {
                    None => self.failed(TransferFailure::MissingContentLength),
                    Some(total) => {
                        let known = TransferState { total_bytes: Some(total), ..self };
                        if is_success(status) {
                            (
                                TransferState { status: TransferStatus::InFlight, ..known },
                                TransferAction::Receive { progress: None },
                            )
                        } else {
                            known.concluded()
                        }
                    },
                },
                _ => {
                    let action = self.pending_action();
                    (self, action)
                },
            },
            TransferEvent::Chunk(data) => match self.status {
                TransferStatus::InFlight => self.chunk_stored(&data),
                _ => {
                    let action = self.pending_action();
                    (self, action)
                },
            },
            TransferEvent::StreamError => match self.status {
                TransferStatus::InFlight => {
                    let broken = TransferState { attempts: 0, ..self };
                    broken.rest_requested()
                },
                _ => {
                    let action = self.pending_action();
                    (self, action)
                },
            },
            TransferEvent::StreamEnd => match self.status {
                TransferStatus::InFlight => self.concluded(),
                _ => {
                    let action = self.pending_action();
                    (self, action)
                },
            },
            TransferEvent::ResumeResponse { status } => match self.status {
                TransferStatus::Resuming => {
                    if is_success(status) {
                        (
                            TransferState {
                                status: TransferStatus::InFlight,
                                attempts: 0,
                                ..self
                            },
                            TransferAction::Receive { progress: None },
                        )
                    } else {
                        self.rest_requested()
                    }
                },
                _ => {
                    let action = self.pending_action();
                    (self, action)
                },
            },
        }
    }
}

} // verus!

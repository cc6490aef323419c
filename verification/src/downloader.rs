//! Fetching tiles: how a response is read, when a fetch is tried again,
//! and what a worker does with each tile it is handed.

use crate::progress::ProgressMsg;
use crate::text::{decimal, push_decimal, string_of};
use crate::tile::{coord_text, Tile};
use crate::tile_urls::{render, TileUrl};
use crate::writer::WriteTileMsg;
use vstd::arithmetic::power2::{lemma2_to64, pow2};
use vstd::prelude::*;
use vstd::string::StringExecFns;

verus! {

/// The number of times a tile is asked for before the fetch gives up.
pub const MAX_ATTEMPTS: usize = 4;

/// The pause before the second attempt, in milliseconds; each later pause
/// is twice the one before.
pub const BASE_DELAY_MS: u64 = 200;

/// How the status of a response is taken.
#[derive(Clone, Copy, Debug, PartialEq, Eq, Structural)]
pub enum StatusClass {
    /// The tile does not exist upstream: no error.
    Absent,
    /// The body of the response is the tile.
    Success,
    /// The server may answer better when asked again.
    Retryable,
    /// Asking again is of no use.
    Fatal,
}

/// How a status code is taken: 404 and 204 say that the tile does not
/// exist; another code from 200 to 299 is a success; a code from 500 to 599,
/// 429 and 408 are worth another attempt; every other code is final.
pub open spec fn status_class(code: u16) -> StatusClass {
    if code == 404 || code == 204 {
        StatusClass::Absent
    } else if 200 <= code <= 299 {
        StatusClass::Success
    } else if 500 <= code <= 599 || code == 429 || code == 408 {
        StatusClass::Retryable
    } else {
        StatusClass::Fatal
    }
}

/// How a status code is taken.
pub fn classify_status(code: u16) -> (class: StatusClass)
    ensures
        class == status_class(code),
{
    if code == 404 || code == 204 {
        StatusClass::Absent
    } else if 200 <= code && code <= 299 {
        StatusClass::Success
    } else if (500 <= code && code <= 599) || code == 429 || code == 408 {
        StatusClass::Retryable
    } else {
        StatusClass::Fatal
    }
}

/// Why a tile could not be fetched.
#[derive(Debug, PartialEq, Eq)]
pub enum FetchError {
    /// The request could not be sent or was not answered.
    Transport(String),
    /// The body of the response could not be read.
    Body(String),
    /// The server answered with a status that is worth another attempt.
    Unavailable(u16),
    /// The server answered with a status that is final.
    Refused(u16),
}

/// The text of a fetch error.
pub open spec fn error_text(e: FetchError) -> Seq<char> {
    match e {
        FetchError::Transport(m) => m@,
        FetchError::Body(m) => m@,
        FetchError::Unavailable(code) => "HTTP error: "@ + decimal(code as nat),
        FetchError::Refused(code) => "Failed to download tile: "@ + decimal(code as nat),
    }
}

/// A text followed by a decimal number.
fn text_and_number(text: &str, n: u64) -> (s: String)
    ensures
        s@ == text@ + decimal(n as nat),
{
    let mut digits: Vec<char> = Vec::new();
    push_decimal(n, &mut digits);
    let mut s: String = String::from_str(text);
    s.append(string_of(&digits).as_str());
    assert(digits@ =~= decimal(n as nat));
    s
}

impl FetchError {
    /// The text of the error.
    pub fn message(&self) -> (text: String)
        ensures
            text@ == error_text(*self),
    {
        match self {
            FetchError::Transport(m) => m.clone(),
            FetchError::Body(m) => m.clone(),
            FetchError::Unavailable(code) => text_and_number("HTTP error: ", *code as u64),
            FetchError::Refused(code) => text_and_number("Failed to download tile: ", *code as u64),
        }
    }
}

/// What came of one attempt to fetch a tile.
#[derive(Debug, PartialEq, Eq)]
pub enum AttemptOutcome {
    /// The tile, as bytes.
    Payload(Vec<u8>),
    /// The tile does not exist upstream.
    Absent,
    /// The attempt failed and another may succeed.
    Retryable(FetchError),
    /// The attempt failed for good.
    Fatal(FetchError),
}

/// What happened while a tile was asked for.
#[derive(Debug, PartialEq, Eq)]
pub enum AttemptEvent {
    /// The request could not be sent, or no response came.
    SendFailed(String),
    /// A response came, with this status code.
    Status(u16),
    /// The body of the response was read.
    Body(Vec<u8>),
    /// The body of the response could not be read.
    BodyFailed(String),
}

/// What to do next in an attempt.
#[derive(Debug, PartialEq, Eq)]
pub enum AttemptStep {
    /// Read the body of the response.
    ReadBody,
    /// The attempt is over.
    Done(AttemptOutcome),
}

/// What an event of an attempt leads to. A request that fails, and a body
/// that cannot be read, are worth another attempt; a status is taken by its
/// class, and only a success has its body read.
pub open spec fn attempt_step(event: AttemptEvent) -> AttemptStep {
    match event {
        AttemptEvent::SendFailed(m) => AttemptStep::Done(
            AttemptOutcome::Retryable(FetchError::Transport(m)),
        ),
        AttemptEvent::Status(code) => match status_class(code) {
            StatusClass::Absent => AttemptStep::Done(AttemptOutcome::Absent),
            StatusClass::Success => AttemptStep::ReadBody,
            StatusClass::Retryable => AttemptStep::Done(
                AttemptOutcome::Retryable(FetchError::Unavailable(code)),
            ),
            StatusClass::Fatal => AttemptStep::Done(AttemptOutcome::Fatal(FetchError::Refused(code))),
        },
        AttemptEvent::Body(bytes) => AttemptStep::Done(AttemptOutcome::Payload(bytes)),
        AttemptEvent::BodyFailed(m) => AttemptStep::Done(
            AttemptOutcome::Retryable(FetchError::Body(m)),
        ),
    }
}

/// Decides what an event of an attempt leads to.
pub fn attempt_download(event: AttemptEvent) -> (step: AttemptStep)
    ensures
        step == attempt_step(event),
{
    match event {
        AttemptEvent::SendFailed(m) => AttemptStep::Done(
            AttemptOutcome::Retryable(FetchError::Transport(m)),
        ),
        AttemptEvent::Status(code) => match classify_status(code) {
            StatusClass::Absent => AttemptStep::Done(AttemptOutcome::Absent),
            StatusClass::Success => AttemptStep::ReadBody,
            StatusClass::Retryable => AttemptStep::Done(
                AttemptOutcome::Retryable(FetchError::Unavailable(code)),
            ),
            StatusClass::Fatal => AttemptStep::Done(AttemptOutcome::Fatal(FetchError::Refused(code))),
        },
        AttemptEvent::Body(bytes) => AttemptStep::Done(AttemptOutcome::Payload(bytes)),
        AttemptEvent::BodyFailed(m) => AttemptStep::Done(
            AttemptOutcome::Retryable(FetchError::Body(m)),
        ),
    }
}

/// What to do after an attempt.
#[derive(Debug, PartialEq, Eq)]
pub enum FetchStep {
    /// The fetch is over: the payload, nothing for a tile that does not
    /// exist, or the error that ends it.
    Done(Result<Option<Vec<u8>>, FetchError>),
    /// Wait this many milliseconds, then try again.
    RetryAfter(u64),
}

/// The pause after the `attempt`-th attempt has failed, in milliseconds:
/// 200 after the first, and twice as long after each further one.
pub open spec fn backoff_ms(attempt: nat) -> nat
    recommends
        attempt >= 1,
{
    BASE_DELAY_MS as nat * pow2((attempt - 1) as nat)
}

/// What follows the outcome of the `attempt`-th attempt, counted from 1.
/// A payload, an absent tile and a final failure end the fetch. A failure
/// worth another attempt leads to a pause and that attempt, unless this was
/// the last attempt allowed: then its error ends the fetch.
pub open spec fn fetch_step(attempt: nat, outcome: AttemptOutcome) -> FetchStep {
    match outcome {
        AttemptOutcome::Payload(bytes) => FetchStep::Done(Ok(Some(bytes))),
        AttemptOutcome::Absent => FetchStep::Done(Ok(None)),
        AttemptOutcome::Fatal(e) => FetchStep::Done(Err(e)),
        AttemptOutcome::Retryable(e) => if attempt >= MAX_ATTEMPTS {
            FetchStep::Done(Err(e))
        } else {
            FetchStep::RetryAfter(backoff_ms(attempt) as u64)
        },
    }
}

/// The fetch of one tile: the attempts made so far.
pub struct TileDownload {
    made: usize,
}

impl TileDownload {
    /// No more attempts are counted than are allowed.
    #[verifier::type_invariant]
    pub closed spec fn wf(&self) -> bool {
        self.made <= MAX_ATTEMPTS
    }

    /// The number of attempts made so far.
    pub closed spec fn attempts(&self) -> nat {
        self.made as nat
    }

    /// A fetch before its first attempt.
    pub fn new() -> (fetch: TileDownload)
        ensures
            fetch.attempts() == 0,
    {
        TileDownload { made: 0 }
    }

    /// The number of attempts made so far.
    pub fn attempts_made(&self) -> (n: usize)
        ensures
            n == self.attempts(),
            n <= MAX_ATTEMPTS,
    {
        proof {
            use_type_invariant(self);
        }
        self.made
    }

    /// Takes the outcome of the next attempt and says what follows. The
    /// attempt counts, up to the number allowed.
    pub fn download_tile(&mut self, outcome: AttemptOutcome) -> (step: FetchStep)
        ensures
            final(self).attempts() == if old(self).attempts() < MAX_ATTEMPTS {
                old(self).attempts() + 1
            } else {
                MAX_ATTEMPTS as nat
            },
            step == fetch_step(final(self).attempts(), outcome),
    {
        proof {
            use_type_invariant(&*self);
            lemma2_to64();
        }
        if self.made < MAX_ATTEMPTS {
            self.made = self.made + 1;
        }
        match outcome {
            AttemptOutcome::Payload(bytes) => FetchStep::Done(Ok(Some(bytes))),
            AttemptOutcome::Absent => FetchStep::Done(Ok(None)),
            AttemptOutcome::Fatal(e) => FetchStep::Done(Err(e)),
            AttemptOutcome::Retryable(e) => if self.made >= MAX_ATTEMPTS {
                FetchStep::Done(Err(e))
            } else {
                let doublings: u64 = (self.made - 1) as u64;
                proof {
                    vstd::bits::lemma_u64_shl_is_mul(1, doublings);
                }
                FetchStep::RetryAfter(BASE_DELAY_MS * (1u64 << doublings))
            },
        }
    }
}

/// The course of a fetch that has made `made` attempts and meets the
/// outcomes of `outcomes` in its further attempts: how it ends, if these
/// outcomes end it, and the number of attempts made by then.
pub open spec fn fetch_course(made: nat, outcomes: Seq<AttemptOutcome>) -> (
    Option<Result<Option<Vec<u8>>, FetchError>>,
    nat,
)
    decreases outcomes.len(),
{
    if outcomes.len() == 0 {
        (None, made)
    } else {
        match fetch_step(made + 1, outcomes[0]) {
            FetchStep::Done(r) => (Some(r), made + 1),
            FetchStep::RetryAfter(_) => fetch_course(made + 1, outcomes.drop_first()),
        }
    }
}

/// Whatever the outcomes, a fetch makes no more attempts than are allowed,
/// and it has ended once it has made that many.
pub proof fn lemma_fetch_is_bounded(made: nat, outcomes: Seq<AttemptOutcome>)
    requires
        made < MAX_ATTEMPTS,
    ensures
        fetch_course(made, outcomes).1 <= MAX_ATTEMPTS,
        made + outcomes.len() >= MAX_ATTEMPTS ==> fetch_course(made, outcomes).0 is Some,
    decreases outcomes.len(),
{
    if outcomes.len() > 0 && made + 1 < MAX_ATTEMPTS {
        lemma_fetch_is_bounded(made + 1, outcomes.drop_first());
    }
}

/// A fetch whose attempts all fail in a way worth another attempt gives up
/// after the last attempt allowed, with the error of that attempt.
pub proof fn lemma_fetch_gives_up(made: nat, outcomes: Seq<AttemptOutcome>)
    requires
        made < MAX_ATTEMPTS,
        made + outcomes.len() >= MAX_ATTEMPTS,
        forall|i: int| 0 <= i < outcomes.len() ==> (#[trigger] outcomes[i]) is Retryable,
    ensures
        fetch_course(made, outcomes) == (
            Some(
                Err::<Option<Vec<u8>>, FetchError>(outcomes[MAX_ATTEMPTS - 1 - made]->Retryable_0),
            ),
            MAX_ATTEMPTS as nat,
        ),
    decreases outcomes.len(),
{
    assert(outcomes[0] is Retryable);
    if made + 1 < MAX_ATTEMPTS {
        let rest = outcomes.drop_first();
        assert forall|i: int| 0 <= i < rest.len() implies (#[trigger] rest[i]) is Retryable by {
            assert(rest[i] == outcomes[i + 1]);
        }
        lemma_fetch_gives_up(made + 1, rest);
        assert(rest[MAX_ATTEMPTS - 1 - (made + 1)] == outcomes[MAX_ATTEMPTS - 1 - made]);
    }
}

/// A fetch ends with the first attempt whose outcome is a payload, an
/// absent tile or a final failure, if that attempt is among those allowed;
/// the attempts before it are all that were made.
pub proof fn lemma_fetch_ends_at_first_answer(made: nat, outcomes: Seq<AttemptOutcome>, k: int)
    requires
        0 <= k < outcomes.len(),
        made + k < MAX_ATTEMPTS,
        forall|i: int| 0 <= i < k ==> (#[trigger] outcomes[i]) is Retryable,
        !(outcomes[k] is Retryable),
    ensures
        fetch_course(made, outcomes) == (
            Some(
                match outcomes[k] {
                    AttemptOutcome::Payload(bytes) => Ok(Some(bytes)),
                    AttemptOutcome::Absent => Ok(None),
                    AttemptOutcome::Fatal(e) => Err(e),
                    AttemptOutcome::Retryable(e) => Err(e),
                },
            ),
            (made + k + 1) as nat,
        ),
    decreases k,
{
    if k > 0 {
        assert(outcomes[0] is Retryable);
        let rest = outcomes.drop_first();
        assert forall|i: int| 0 <= i < k - 1 implies (#[trigger] rest[i]) is Retryable by {
            assert(rest[i] == outcomes[i + 1]);
        }
        assert(rest[k - 1] == outcomes[k]);
        lemma_fetch_ends_at_first_answer(made + 1, rest, k - 1);
    }
}

/// The flag that asks the workers to stop. It can be raised and it cannot
/// be lowered: once raised it stays raised.
#[derive(Debug)]
pub struct CancelFlag {
    raised: bool,
}

impl CancelFlag {
    /// Whether the flag is raised.
    pub closed spec fn is_raised(&self) -> bool {
        self.raised
    }

    /// A flag that is not raised.
    pub fn new() -> (flag: CancelFlag)
        ensures
            !flag.is_raised(),
    {
        CancelFlag { raised: false }
    }

    /// Raises the flag.
    pub fn cancel(&mut self)
        ensures
            final(self).is_raised(),
    {
        self.raised = true;
    }

    /// Whether the flag is raised.
    pub fn is_cancelled(&self) -> (raised: bool)
        ensures
            raised == self.is_raised(),
    {
        self.raised
    }
}

/// A tile to fetch, with its place in the order of the archive.
#[derive(Clone, Copy, Debug, PartialEq, Eq, Structural)]
pub struct WorkItem {
    pub index: usize,
    pub tile: Tile,
}

/// What a worker does with the work item it has taken from the queue.
pub enum WorkerStep {
    /// Nothing: the run was cancelled, and the worker ends.
    Stop,
    /// It fetches this URL.
    Fetch(TileUrl),
}

/// What a worker does when the fetch of a work item is over.
#[derive(Debug, PartialEq, Eq)]
pub struct Completion {
    /// What it reports.
    pub progress: ProgressMsg,
    /// What it hands to the writer, if anything.
    pub output: Option<WriteTileMsg>,
    /// The error with which it ends, after it has cancelled the run; `None`
    /// where it goes on.
    pub failure: Option<FetchError>,
}

/// The log line for a tile that could not be fetched.
pub open spec fn failure_log(c: (u8, u32, u32), e: FetchError) -> Seq<char> {
    "Error downloading tile "@ + coord_text(c.0, c.1, c.2) + ": "@ + error_text(e)
}

/// The tiles of a run and how to fetch them.
#[derive(Clone, Debug)]
pub struct Downloader {
    url_template: String,
    tiles: Vec<Tile>,
    concurrency: usize,
}

impl Downloader {
    /// The URL template.
    pub closed spec fn template(&self) -> Seq<char> {
        self.url_template@
    }

    /// The tiles that have not been handed out.
    pub closed spec fn pending(&self) -> Seq<Tile> {
        self.tiles@
    }

    /// The number of workers.
    pub closed spec fn workers(&self) -> usize {
        self.concurrency
    }

    /// A downloader for these tiles, in this order, with `concurrency`
    /// workers.
    pub fn new(url_template: &str, tiles: Vec<Tile>, concurrency: usize) -> (d: Downloader)
        ensures
            d.template() == url_template@,
            d.pending() == tiles@,
            d.workers() == concurrency,
    {
        Downloader { url_template: String::from_str(url_template), tiles, concurrency }
    }

    /// The number of workers that fetch at the same time.
    pub fn concurrency(&self) -> (n: usize)
        ensures
            n == self.workers(),
    {
        self.concurrency
    }

    /// The number of tiles that have not been handed out.
    pub fn remaining(&self) -> (n: usize)
        ensures
            n == self.pending().len(),
    {
        self.tiles.len()
    }

    /// Begins the download: hands out the tiles as work items, in their
    /// order, with the indices from `start_idx` on and none left out.
    /// Nothing is left to hand out afterwards.
    pub fn download(&mut self, start_idx: usize) -> (items: Vec<WorkItem>)
        requires
            start_idx + old(self).pending().len() <= usize::MAX,
        ensures
            items@.len() == old(self).pending().len(),
            forall|k: int|
                0 <= k < items@.len() ==> (#[trigger] items@[k]).index == start_idx + k
                    && items@[k].tile == old(self).pending()[k],
            final(self).pending().len() == 0,
            final(self).template() == old(self).template(),
            final(self).workers() == old(self).workers(),
    {
        let mut tiles: Vec<Tile> = Vec::new();
        std::mem::swap(&mut self.tiles, &mut tiles);
        let mut items: Vec<WorkItem> = Vec::new();
        let mut k: usize = 0;
        while k < tiles.len()
            invariant
                k <= tiles.len(),
                start_idx + tiles.len() <= usize::MAX,
                items@.len() == k,
                forall|j: int|
                    0 <= j < k ==> (#[trigger] items@[j]).index == start_idx + j && items@[j].tile
                        == tiles@[j],
            decreases tiles.len() - k,
        {
            items.push(WorkItem { index: start_idx + k, tile: tiles[k] });
            k = k + 1;
        }
        items
    }

    /// What a worker does with a work item it has taken from the queue:
    /// it stops where the run is cancelled, and else fetches the URL of the
    /// tile.
    pub fn start(&self, cancelled: bool, item: &WorkItem) -> (step: WorkerStep)
        ensures
            cancelled ==> step is Stop,
            !cancelled ==> (step matches WorkerStep::Fetch(url) && url@ == render(
                self.template(),
                item.tile@,
            )),
    {
        if cancelled {
            WorkerStep::Stop
        } else {
            WorkerStep::Fetch(TileUrl::from_template(self.url_template.as_str(), item.tile))
        }
    }

    /// What a worker does when the fetch of a work item is over. A payload
    /// is reported with its size and handed to the writer; an absent tile is
    /// reported as skipped and handed on without a payload, so that it keeps
    /// its place in the order; an error is logged, cancels the run and ends
    /// the worker.
    pub fn finish(item: WorkItem, result: Result<Option<Vec<u8>>, FetchError>) -> (c: Completion)
        ensures
            match result {
                Ok(Some(bytes)) => {
                    &&& c.progress matches ProgressMsg::Downloaded(t, n) && t == item.tile && n
                        == bytes@.len()
                    &&& c.output matches Some(msg) && msg.index == item.index && msg.tile
                        == item.tile && msg.data == Some(bytes)
                    &&& c.failure is None
                },
                Ok(None) => {
                    &&& c.progress is Skipped
                    &&& c.output matches Some(msg) && msg.index == item.index && msg.tile
                        == item.tile && msg.data is None
                    &&& c.failure is None
                },
                Err(e) => {
                    &&& c.progress matches ProgressMsg::Log(text) && text@ == failure_log(
                        item.tile@,
                        e,
                    )
                    &&& c.output is None
                    &&& c.failure == Some(e)
                },
            },
    {
        match result {
            Ok(Some(bytes)) => Completion {
                progress: ProgressMsg::Downloaded(item.tile, bytes.len()),
                output: Some(WriteTileMsg { index: item.index, tile: item.tile, data: Some(bytes) }),
                failure: None,
            },
            Ok(None) => Completion {
                progress: ProgressMsg::Skipped,
                output: Some(WriteTileMsg { index: item.index, tile: item.tile, data: None }),
                failure: None,
            },
            Err(e) => {
                let mut text: String = String::from_str("Error downloading tile ");
                text.append(item.tile.to_string().as_str());
                text.append(": ");
                text.append(e.message().as_str());
                Completion { progress: ProgressMsg::Log(text), output: None, failure: Some(e) }
            },
        }
    }

    /// What the download ends with once every worker has ended: the error
    /// of the first worker that failed, or the line that says that all is
    /// fetched.
    pub fn conclude(first_failure: Option<FetchError>) -> (r: Result<ProgressMsg, FetchError>)
        ensures
            match first_failure {
                Some(e) => r == Err::<ProgressMsg, FetchError>(e),
                None => r matches Ok(ProgressMsg::Log(text)) && text@ == "All downloads complete."@,
            },
    {
        match first_failure {
            Some(e) => Err(e),
            None => Ok(ProgressMsg::Log(String::from_str("All downloads complete."))),
        }
    }
}

} // verus!

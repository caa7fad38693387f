//! Downloading one file of a model: when to resume, retry, start over or stop.
//!
//! The caller makes the requests and writes the bytes. Before each request it
//! asks [`Download::before_request`]; what comes back goes to the methods
//! named `on_`, which say what to do next.

use vstd::prelude::*;

use crate::remote;
use crate::text;

verus! {

/// The most retries after server errors and interruptions.
pub const MAX_STREAM_RETRIES: usize = 4;

/// The wait before the first retry, in milliseconds.
pub const RETRY_BACKOFF_BASE_MS: u64 = 300;

/// The state of a download.
#[derive(Debug, Clone, Copy, PartialEq, Eq, Structural)]
pub struct Download {
    /// The expected size of the file, where it is known.
    pub expected: Option<u64>,
    /// The bytes that are on disk.
    pub downloaded: u64,
    /// The size of the whole file, or nothing where it is not known.
    pub total_size: u64,
    pub retries: usize,
    /// Whether the endpoint may be asked for the rest of the file.
    pub resume_supported: bool,
    /// Whether the file takes the place of another one in the end.
    pub replace_existing: bool,
    /// Whether the user has called the download off.
    pub cancelled: bool,
}

/// What to do before a request.
#[derive(Debug, Clone, Copy, PartialEq, Eq, Structural)]
pub struct RequestSetup {
    /// Remove what is on disk.
    pub discard: bool,
    /// Ask for the bytes from here on.
    pub range_from: Option<u64>,
}

/// What to do with a response.
#[derive(Debug, Clone, Copy, PartialEq, Eq, Structural)]
pub enum ResponseAction {
    /// Remove what is on disk and ask for the whole file.
    Restart,
    /// Wait for some milliseconds and ask again.
    Retry { delay_ms: u64 },
    /// Give up and report the status.
    Fail,
    /// Take the body: append it to what is on disk, or write it anew.
    Receive { append: bool },
}

/// What to do at the end of a body.
#[derive(Debug, Clone, Copy, PartialEq, Eq, Structural)]
pub enum EndAction {
    /// The body was too short: ask for the rest.
    Continue,
    /// The file is there. It may have to take the place of another one.
    Finish { replace: bool },
}

/// What to do after an interruption.
#[derive(Debug, Clone, Copy, PartialEq, Eq, Structural)]
pub enum InterruptAction {
    /// Wait for some milliseconds and ask again.
    Retry { delay_ms: u64 },
    /// Remove what is on disk and give up.
    Fail,
}

/// What to do with a download that was called off.
#[derive(Debug, Clone, PartialEq, Eq)]
pub struct Cancellation {
    /// Remove what is on disk.
    pub discard: bool,
    /// What the download fails with.
    pub message: String,
}

/// The expected size, or nothing.
pub open spec fn size_or_zero(expected: Option<u64>) -> u64 {
    match expected {
        Some(size) => size,
        None => 0,
    }
}

/// A download that starts over.
pub open spec fn restarted(d: Download) -> Download {
    Download { downloaded: 0, total_size: size_or_zero(d.expected), ..d }
}

/// The wait before a retry.
pub open spec fn backoff(retries: usize) -> u64 {
    if RETRY_BACKOFF_BASE_MS * retries <= u64::MAX {
        (RETRY_BACKOFF_BASE_MS * retries) as u64
    } else {
        u64::MAX
    }
}

/// One more retry.
pub open spec fn counted_retry(d: Download) -> Download {
    Download {
        retries: if d.retries < usize::MAX {
            (d.retries + 1) as usize
        } else {
            usize::MAX
        },
        ..d
    }
}

/// Whether a download asks for the rest of a file.
pub open spec fn resumes(d: Download) -> bool {
    d.resume_supported && d.downloaded > 0
}

/// The download when a request is made: bytes that cannot be continued count
/// no more.
pub open spec fn before_asking(d: Download) -> Download {
    if !d.cancelled && !d.resume_supported && d.downloaded > 0 {
        restarted(d)
    } else {
        d
    }
}

/// What to do before a request. None is made once the download was called off.
pub open spec fn request_setup(d: Download) -> Option<RequestSetup> {
    if d.cancelled {
        None
    } else {
        Some(
            RequestSetup {
                discard: !d.resume_supported && d.downloaded > 0,
                range_from: if resumes(d) {
                    Some(d.downloaded)
                } else {
                    None
                },
            },
        )
    }
}

/// Whether a status says that the server is busy or broken.
pub open spec fn transient(status: u16) -> bool {
    500 <= status <= 599 || status == 429
}

/// What follows a response.
pub open spec fn after_response(d: Download, status: u16, content_length: Option<u64>) -> (
    Download,
    ResponseAction,
) {
    if resumes(d) && (status == 200 || status == 416) {
        (Download { resume_supported: false, ..restarted(d) }, ResponseAction::Restart)
    } else if 200 <= status <= 299 {
        let length = size_or_zero(content_length);
        (
            Download {
                total_size: if length == 0 {
                    d.total_size
                } else if d.downloaded + length > u64::MAX {
                    u64::MAX
                } else {
                    (d.downloaded + length) as u64
                },
                ..d
            },
            ResponseAction::Receive { append: d.downloaded > 0 },
        )
    } else if transient(status) {
        let counted = counted_retry(d);
        if counted.retries <= MAX_STREAM_RETRIES {
            (counted, ResponseAction::Retry { delay_ms: backoff(counted.retries) })
        } else {
            (counted, ResponseAction::Fail)
        }
    } else {
        (d, ResponseAction::Fail)
    }
}

/// What follows the end of a body.
pub open spec fn at_end(d: Download) -> EndAction {
    if d.total_size > 0 && d.downloaded < d.total_size {
        EndAction::Continue
    } else {
        EndAction::Finish { replace: d.replace_existing }
    }
}

/// What follows an interruption.
pub open spec fn after_interruption(d: Download) -> (Download, InterruptAction) {
    let counted = counted_retry(d);
    if counted.retries <= MAX_STREAM_RETRIES {
        (counted, InterruptAction::Retry { delay_ms: backoff(counted.retries) })
    } else {
        (counted, InterruptAction::Fail)
    }
}

/// Counts a retry and says whether it may be made.
pub fn can_retry(retries: &mut usize) -> (r: bool)
    ensures
        *final(retries) == (if *old(retries) < usize::MAX {
            (*old(retries) + 1) as usize
        } else {
            usize::MAX
        }),
        r == (*final(retries) <= MAX_STREAM_RETRIES),
{
    if *retries < usize::MAX {
        *retries = *retries + 1;
    }
    *retries <= MAX_STREAM_RETRIES
}

/// The wait before a retry, in milliseconds.
pub fn retry_delay_ms(retries: usize) -> (r: u64)
    ensures
        r == backoff(retries),
{
    let product: u128 = RETRY_BACKOFF_BASE_MS as u128 * retries as u128;
    if product <= u64::MAX as u128 {
        product as u64
    } else {
        u64::MAX
    }
}

impl Download {
    /// A download of a file that is not ready. A file of another size is
    /// replaced; a partial file is continued.
    pub fn start(expected: Option<u64>, exists: bool, partial: u64) -> (r: Self)
        ensures
            r == (Download {
                expected,
                downloaded: if exists {
                    0
                } else {
                    partial
                },
                total_size: size_or_zero(expected),
                retries: 0,
                resume_supported: !exists,
                replace_existing: exists,
                cancelled: false,
            }),
    {
        Download {
            expected,
            downloaded: if exists {
                0
            } else {
                partial
            },
            total_size: match expected {
                Some(size) => size,
                None => 0,
            },
            retries: 0,
            resume_supported: !exists,
            replace_existing: exists,
            cancelled: false,
        }
    }

    fn restart(&mut self)
        ensures
            *final(self) == restarted(*old(self)),
    {
        self.downloaded = 0;
        self.total_size = match self.expected {
            Some(size) => size,
            None => 0,
        };
    }

    /// What to do before a request: bytes that cannot be continued are
    /// removed, and the rest of a file is asked for by its range. No request
    /// is made once the download was called off.
    pub fn before_request(&mut self) -> (r: Option<RequestSetup>)
        ensures
            *final(self) == before_asking(*old(self)),
            r == request_setup(*old(self)),
    {
        if self.cancelled {
            return None;
        }
        let discard = !self.resume_supported && self.downloaded > 0;
        if discard {
            self.restart();
        }
        let range_from = if self.resume_supported && self.downloaded > 0 {
            Some(self.downloaded)
        } else {
            None
        };
        Some(RequestSetup { discard, range_from })
    }

    /// What to do when the user calls the download off: what is on disk is
    /// removed, the download fails, and no request follows.
    pub fn on_cancelled(&mut self) -> (r: Cancellation)
        ensures
            *final(self) == (Download { cancelled: true, ..*old(self) }),
            request_setup(*final(self)) is None,
            r.discard,
            r.message@ == "Download cancelled"@,
    {
        self.cancelled = true;
        Cancellation { discard: true, message: text::owned("Download cancelled") }
    }

    /// What to do with a response.
    pub fn on_response(&mut self, status: u16, content_length: Option<u64>) -> (r: ResponseAction)
        ensures
            (*final(self), r) == after_response(*old(self), status, content_length),
    {
        if self.resume_supported && self.downloaded > 0 && (status == 200 || status == 416) {
            self.restart();
            self.resume_supported = false;
            return ResponseAction::Restart;
        }
        if !(200 <= status && status <= 299) {
            if (500 <= status && status <= 599) || status == 429 {
                let mut retries: usize = self.retries;
                let again = can_retry(&mut retries);
                self.retries = retries;
                if again {
                    return ResponseAction::Retry { delay_ms: retry_delay_ms(retries) };
                }
            }
            return ResponseAction::Fail;
        }
        let length: u64 = match content_length {
            Some(length) => length,
            None => 0,
        };
        if length > 0 {
            self.total_size = if self.downloaded > u64::MAX - length {
                u64::MAX
            } else {
                self.downloaded + length
            };
        }
        ResponseAction::Receive { append: self.downloaded > 0 }
    }

    /// Counts the bytes of a chunk.
    pub fn on_chunk(&mut self, length: u64)
        requires
            old(self).downloaded + length <= u64::MAX,
        ensures
            *final(self) == (Download {
                downloaded: (old(self).downloaded + length) as u64,
                ..*old(self)
            }),
    {
        self.downloaded = self.downloaded + length;
    }

    /// What to do at the end of a body.
    pub fn on_end(&self) -> (r: EndAction)
        ensures
            r == at_end(*self),
    {
        if self.total_size > 0 && self.downloaded < self.total_size {
            EndAction::Continue
        } else {
            EndAction::Finish { replace: self.replace_existing }
        }
    }

    /// What to do after an interruption.
    pub fn on_interruption(&mut self) -> (r: InterruptAction)
        ensures
            (*final(self), r) == after_interruption(*old(self)),
    {
        let mut retries: usize = self.retries;
        let again = can_retry(&mut retries);
        self.retries = retries;
        if again {
            InterruptAction::Retry { delay_ms: retry_delay_ms(retries) }
        } else {
            InterruptAction::Fail
        }
    }
}

/// A retry is only ever announced within the limit, after a wait that grows
/// with each one, and every retry is counted.
pub proof fn law_retries_are_bounded(d: Download, status: u16, content_length: Option<u64>)
    ensures
        after_response(d, status, content_length).1 matches ResponseAction::Retry { delay_ms }
            ==> after_response(d, status, content_length).0.retries == d.retries + 1
            && d.retries < MAX_STREAM_RETRIES && delay_ms == RETRY_BACKOFF_BASE_MS * (d.retries
            + 1),
        after_interruption(d).1 matches InterruptAction::Retry { delay_ms }
            ==> after_interruption(d).0.retries == d.retries + 1 && d.retries < MAX_STREAM_RETRIES
            && delay_ms == RETRY_BACKOFF_BASE_MS * (d.retries + 1),
{
}

/// Something that happens to a download.
pub ghost enum Event {
    /// A request is made.
    Request,
    /// A response came back, with its status and its length.
    Response(u16, Option<u64>),
    /// Bytes arrived.
    Chunk(u64),
    /// The connection broke.
    Interruption,
    /// The user called the download off.
    Cancellation,
}

/// The download after an event.
pub open spec fn after_event(d: Download, e: Event) -> Download {
    match e {
        Event::Request => before_asking(d),
        Event::Response(status, length) => after_response(d, status, length).0,
        Event::Chunk(n) => Download { downloaded: (d.downloaded + n) as u64, ..d },
        Event::Interruption => after_interruption(d).0,
        Event::Cancellation => Download { cancelled: true, ..d },
    }
}

/// The download after several events.
pub open spec fn after_events(d: Download, events: Seq<Event>) -> Download
    decreases events.len(),
{
    if events.len() == 0 {
        d
    } else {
        after_event(after_events(d, events.drop_last()), events.last())
    }
}

/// How many of several events are answered with a retry.
pub open spec fn retries_in(d: Download, events: Seq<Event>) -> nat
    decreases events.len(),
{
    if events.len() == 0 {
        0
    } else {
        let before = after_events(d, events.drop_last());
        let retried = match events.last() {
            Event::Response(status, length) => after_response(before, status, length).1 is Retry,
            Event::Interruption => after_interruption(before).1 is Retry,
            _ => false,
        };
        retries_in(d, events.drop_last()) + if retried {
            1nat
        } else {
            0nat
        }
    }
}

/// How many of several events make the download start over.
pub open spec fn restarts_in(d: Download, events: Seq<Event>) -> nat
    decreases events.len(),
{
    if events.len() == 0 {
        0
    } else {
        let before = after_events(d, events.drop_last());
        let started_over = match events.last() {
            Event::Response(status, length) => after_response(before, status, length).1 is Restart,
            _ => false,
        };
        restarts_in(d, events.drop_last()) + if started_over {
            1nat
        } else {
            0nat
        }
    }
}

/// Whatever happens, a download is retried no more often than the limit
/// allows and starts over at most once, and after that it asks for no rest.
pub proof fn law_downloads_give_up(d: Download, events: Seq<Event>)
    ensures
        retries_in(d, events) <= MAX_STREAM_RETRIES,
        restarts_in(d, events) <= 1,
        restarts_in(d, events) == 1 ==> !resumes(after_events(d, events)),
{
    lemma_counts(d, events);
}

proof fn lemma_counts(d: Download, events: Seq<Event>)
    ensures
        retries_in(d, events) <= MAX_STREAM_RETRIES,
        retries_in(d, events) <= after_events(d, events).retries,
        restarts_in(d, events) <= 1,
        restarts_in(d, events) == 1 ==> !after_events(d, events).resume_supported,
    decreases events.len(),
{
    if events.len() > 0 {
        lemma_counts(d, events.drop_last());
    }
}

/// Once a download was called off, nothing that happens leads to a request.
pub proof fn law_cancelled_downloads_ask_no_more(d: Download, events: Seq<Event>, i: int)
    requires
        0 <= i < events.len(),
        events[i] is Cancellation,
    ensures
        request_setup(after_events(d, events)) is None,
    decreases events.len(),
{
    if i < events.len() - 1 {
        law_cancelled_downloads_ask_no_more(d, events.drop_last(), i);
    }
}

/// A download of known size is finished only when all of it is there.
pub proof fn law_finished_means_complete(d: Download)
    requires
        d.total_size > 0,
        at_end(d) is Finish,
    ensures
        d.downloaded >= d.total_size,
{
}

/// What is shown when a download fails for its status.
pub fn download_failed(status: u16, path: &str) -> (r: String)
    requires
        100 <= status <= 999,
    ensures
        r@ == "Download failed with status "@ + remote::status_line(status) + " while fetching "@
            + path@,
{
    let line = remote::status_text(status);
    let mut out = text::concat3("Download failed with status ", line.as_str(), " while fetching ");
    out.append(path);
    out
}

/// The name of a temporary file beside another one. A process number, a time
/// and a counter keep it apart from others.
pub fn temp_file_name(
    file_name: &str,
    purpose: &str,
    process: u32,
    nanos: u128,
    sequence: u64,
) -> (r: String)
    ensures
        r@ == file_name@ + "."@ + purpose@ + "-"@ + text::decimal(process as nat) + "-"@
            + text::decimal(nanos as nat) + "-"@ + text::decimal(sequence as nat),
{
    let mut out = text::concat3(file_name, ".", purpose);
    out.append("-");
    let digits = text::decimal_of(process as u128);
    out.append(digits.as_str());
    out.append("-");
    let digits = text::decimal_of(nanos);
    out.append(digits.as_str());
    out.append("-");
    let digits = text::decimal_of(sequence as u128);
    out.append(digits.as_str());
    out
}

// ---------------------------------------------------------------------------
// Putting a file in the place of another
// ---------------------------------------------------------------------------

/// A step of putting a new file in the place of the target.
#[derive(Debug, Clone, Copy, PartialEq, Eq, Structural)]
pub enum SwapStep {
    /// Move the new file to the target, which does not exist.
    Place,
    /// Move the target to a backup.
    BackUp,
    /// Move the new file to the target, whose backup exists.
    PlaceOverBackup,
    /// Remove the backup. That may fail.
    DropBackup,
    /// Move the backup to the target.
    Restore,
    /// The new file is in place.
    Done,
    /// The target is as it was.
    Unchanged,
    /// Neither file is in place.
    Lost,
}

/// The first step.
pub open spec fn swap_start(target_exists: bool) -> SwapStep {
    if target_exists {
        SwapStep::BackUp
    } else {
        SwapStep::Place
    }
}

/// The first step.
pub fn first_swap_step(target_exists: bool) -> (r: SwapStep)
    ensures
        r == swap_start(target_exists),
{
    if target_exists {
        SwapStep::BackUp
    } else {
        SwapStep::Place
    }
}

/// The step after another one.
pub open spec fn swap_after(step: SwapStep, succeeded: bool) -> SwapStep {
    match step {
        SwapStep::Place => if succeeded {
            SwapStep::Done
        } else {
            SwapStep::Unchanged
        },
        SwapStep::BackUp => if succeeded {
            SwapStep::PlaceOverBackup
        } else {
            SwapStep::Unchanged
        },
        SwapStep::PlaceOverBackup => if succeeded {
            SwapStep::DropBackup
        } else {
            SwapStep::Restore
        },
        SwapStep::DropBackup => SwapStep::Done,
        SwapStep::Restore => if succeeded {
            SwapStep::Unchanged
        } else {
            SwapStep::Lost
        },
        SwapStep::Done => SwapStep::Done,
        SwapStep::Unchanged => SwapStep::Unchanged,
        SwapStep::Lost => SwapStep::Lost,
    }
}

/// The step after another one.
pub fn next_swap_step(step: SwapStep, succeeded: bool) -> (r: SwapStep)
    ensures
        r == swap_after(step, succeeded),
{
    match step {
        SwapStep::Place => {
            if succeeded {
                SwapStep::Done
            } else {
                SwapStep::Unchanged
            }
        },
        SwapStep::BackUp => {
            if succeeded {
                SwapStep::PlaceOverBackup
            } else {
                SwapStep::Unchanged
            }
        },
        SwapStep::PlaceOverBackup => {
            if succeeded {
                SwapStep::DropBackup
            } else {
                SwapStep::Restore
            }
        },
        SwapStep::DropBackup => SwapStep::Done,
        SwapStep::Restore => {
            if succeeded {
                SwapStep::Unchanged
            } else {
                SwapStep::Lost
            }
        },
        SwapStep::Done => SwapStep::Done,
        SwapStep::Unchanged => SwapStep::Unchanged,
        SwapStep::Lost => SwapStep::Lost,
    }
}

/// What stands in the places that a swap moves files between.
pub ghost struct SwapFiles<C> {
    pub target: Option<C>,
    pub fresh: Option<C>,
    pub backup: Option<C>,
}

/// What a step leaves behind. One that fails changes nothing.
pub open spec fn swap_effect<C>(step: SwapStep, files: SwapFiles<C>, succeeded: bool) -> SwapFiles<
    C,
> {
    match step {
        _ if !succeeded => files,
        SwapStep::Place | SwapStep::PlaceOverBackup => SwapFiles {
            target: files.fresh,
            fresh: None,
            backup: files.backup,
        },
        SwapStep::BackUp => SwapFiles { target: None, fresh: files.fresh, backup: files.target },
        SwapStep::DropBackup => SwapFiles { backup: None, ..files },
        SwapStep::Restore => SwapFiles { target: files.backup, fresh: files.fresh, backup: None },
        _ => files,
    }
}

/// Some steps of a swap, each of which succeeds or fails as `outcome` says.
pub open spec fn swap_run<C>(
    step: SwapStep,
    files: SwapFiles<C>,
    outcome: spec_fn(SwapStep) -> bool,
    steps: nat,
) -> (SwapStep, SwapFiles<C>)
    decreases steps,
{
    if steps == 0 {
        (step, files)
    } else {
        swap_run(
            swap_after(step, outcome(step)),
            swap_effect(step, files, outcome(step)),
            outcome,
            (steps - 1) as nat,
        )
    }
}

/// Whatever fails, a swap ends within three steps and leaves the files as it
/// says: the new file in the place of the target, or everything as it was
/// with no backup left over, or the old file in its backup where restoring it
/// failed too.
pub proof fn law_swaps_end_as_they_say<C>(
    target: Option<C>,
    fresh: C,
    outcome: spec_fn(SwapStep) -> bool,
)
    ensures
        ({
            let files = SwapFiles { target, fresh: Some(fresh), backup: None };
            let (end, left) = swap_run(swap_start(target is Some), files, outcome, 3);
            match end {
                SwapStep::Done => left.target == Some(fresh) && left.fresh is None && (outcome(
                    SwapStep::DropBackup,
                ) ==> left.backup is None),
                SwapStep::Unchanged => left == files,
                SwapStep::Lost => left == (SwapFiles {
                    target: None,
                    fresh: Some(fresh),
                    backup: target,
                }),
                _ => false,
            }
        }),
{
    reveal_with_fuel(swap_run, 4);
}

/// What is on disk goes on where it ended: a request for the rest asks for the
/// bytes from there on and keeps what is there; any other asks for the whole
/// file, and nothing counts as being on disk when its answer comes.
pub proof fn law_requests_go_on_where_the_file_ended(d: Download)
    requires
        !d.cancelled,
    ensures
        ({
            let setup = request_setup(d)->0;
            let asking = before_asking(d);
            &&& request_setup(d) is Some
            &&& setup.range_from is Some ==> setup.range_from == Some(d.downloaded) && d.downloaded
                > 0 && d.resume_supported && !setup.discard && asking == d
            &&& setup.range_from is None ==> asking.downloaded == 0
            &&& d.downloaded > 0 && d.resume_supported ==> setup.range_from is Some
            &&& setup.discard <==> d.downloaded > 0 && !d.resume_supported
            &&& setup.discard && d.expected is Some ==> asking.total_size == d.expected->0
            &&& setup.discard && d.expected is None ==> asking.total_size == 0
            &&& asking.retries == d.retries && asking.expected == d.expected
                && asking.replace_existing == d.replace_existing
        }),
{
}

/// A body is appended to what is on disk exactly where the rest of the file was
/// asked for and the endpoint sent the rest. An endpoint that sends the whole
/// file instead, or has no such rest, is asked for the whole file, and for no
/// rest again.
pub proof fn law_only_the_rest_is_appended(d: Download, status: u16, content_length: Option<u64>)
    ensures
        ({
            let (after, action) = after_response(d, status, content_length);
            let asked_rest = d.resume_supported && d.downloaded > 0;
            &&& action matches ResponseAction::Receive { append } ==> {
                &&& 200 <= status <= 299
                &&& append <==> d.downloaded > 0
                &&& append && d.resume_supported ==> status != 200
                &&& after.downloaded == d.downloaded
                &&& after.retries == d.retries
            }
            &&& asked_rest && (status == 200 || status == 416) ==> action is Restart
                && after.downloaded == 0 && !after.resume_supported
            &&& 200 <= status <= 299 && !(asked_rest && status == 200) ==> action is Receive
            &&& action is Restart ==> asked_rest
        }),
{
}

/// The size of a file is what is on disk and what the endpoint announces to
/// follow. Without an announcement the size stays what was known of it.
pub proof fn law_sizes_add_up(d: Download, status: u16, content_length: Option<u64>)
    requires
        after_response(d, status, content_length).1 is Receive,
    ensures
        content_length is Some && content_length->0 > 0 && d.downloaded + content_length->0
            <= u64::MAX ==> after_response(d, status, content_length).0.total_size == d.downloaded
            + content_length->0,
        content_length is None || content_length->0 == 0 ==> after_response(
            d,
            status,
            content_length,
        ).0.total_size == d.total_size,
{
}

/// A file is done when its size is reached or not known; before that the rest
/// is asked for. It takes the place of another where it has to.
pub proof fn law_bodies_end(d: Download)
    ensures
        at_end(d) is Continue <==> d.downloaded < d.total_size,
        at_end(d) matches EndAction::Finish { replace } ==> replace == d.replace_existing,
{
}

/// A busy or broken server, that is a status of 429 or from 500 to 599, is asked
/// again, four times at most, after 300 milliseconds more each time; every other
/// failure is final. Nothing on disk is lost by waiting.
pub proof fn law_busy_servers_are_asked_again(d: Download, status: u16, content_length: Option<u64>)
    requires
        !(200 <= status <= 299),
        !(d.resume_supported && d.downloaded > 0 && status == 416),
    ensures
        ({
            let (after, action) = after_response(d, status, content_length);
            let busy = status == 429 || 500 <= status <= 599;
            &&& busy && d.retries < 4 ==> action == (ResponseAction::Retry {
                delay_ms: (300 * (d.retries + 1)) as u64,
            }) && after.retries == d.retries + 1 && after.downloaded == d.downloaded
            &&& busy && d.retries >= 4 ==> action == ResponseAction::Fail
            &&& !busy ==> action == ResponseAction::Fail && after == d
        }),
{
}

/// A swap with a target moves it aside first, and one without does not; where
/// every step succeeds the new file stands in its place.
pub proof fn law_swaps_that_succeed<C>(target: Option<C>, fresh: C)
    ensures
        ({
            let files = SwapFiles { target, fresh: Some(fresh), backup: None };
            let (end, left) = swap_run(swap_start(target is Some), files, |s: SwapStep| true, 3);
            end == SwapStep::Done && left.target == Some(fresh) && left.fresh is None
                && left.backup is None
        }),
        swap_start(true) == SwapStep::BackUp,
        swap_start(false) == SwapStep::Place,
{
    reveal_with_fuel(swap_run, 4);
}

} // verus!

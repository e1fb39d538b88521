//! A running Reclaim: what is queued, how far it has come, and what its worker
//! does next.

use crate::model::Item;
use crate::model::ItemView;
use crate::path::DiskPath;
use crate::reclaim;
use crate::reclaim::Reclaimed;
use crate::reclaim::ReclaimStep;
use crate::scan;
use crate::text;
use vstd::prelude::*;

verus! {

/// How far a Reclaim has come.
#[derive(Debug)]
pub struct ReclaimProgress {
    pub title: String,
    pub target_label: String,
    pub total: usize,
    pub current_ordinal: usize,
    pub completed: usize,
    pub reclaimed_count: usize,
    pub reclaimed_bytes: u64,
    pub failed_count: usize,
    pub first_error: Option<String>,
    pub current_path: Option<DiskPath>,
    pub current_action: String,
    pub stop_requested: bool,
    pub stopped: bool,
}

/// What a [`ReclaimProgress`] says.
#[verifier::ext_equal]
pub struct ProgressView {
    pub title: Seq<char>,
    pub target_label: Seq<char>,
    pub total: nat,
    pub current_ordinal: nat,
    pub completed: nat,
    pub reclaimed_count: nat,
    pub reclaimed_bytes: nat,
    pub failed_count: nat,
    pub first_error: Option<Seq<char>>,
    pub current_path: Option<Seq<u8>>,
    pub current_action: Seq<char>,
    pub stop_requested: bool,
    pub stopped: bool,
}

/// What an optional text says.
pub open spec fn text_view(text: Option<String>) -> Option<Seq<char>> {
    match text {
        Some(text) => Some(text@),
        None => None,
    }
}

/// What an optional path says.
pub open spec fn path_view(path: Option<DiskPath>) -> Option<Seq<u8>> {
    match path {
        Some(path) => Some(path@),
        None => None,
    }
}

impl View for ReclaimProgress {
    type V = ProgressView;

    open spec fn view(&self) -> ProgressView {
        ProgressView {
            title: self.title@,
            target_label: self.target_label@,
            total: self.total as nat,
            current_ordinal: self.current_ordinal as nat,
            completed: self.completed as nat,
            reclaimed_count: self.reclaimed_count as nat,
            reclaimed_bytes: self.reclaimed_bytes as nat,
            failed_count: self.failed_count as nat,
            first_error: text_view(self.first_error),
            current_path: path_view(self.current_path),
            current_action: self.current_action@,
            stop_requested: self.stop_requested,
            stopped: self.stopped,
        }
    }
}

/// An Item that waits to be reclaimed, with its place in the Scan.
#[derive(Debug)]
pub struct QueuedItem {
    pub index: usize,
    pub item: Item,
}

/// A running Reclaim.
#[derive(Debug)]
pub struct ReclaimJob {
    pub queue: Vec<QueuedItem>,
    pub progress: ReclaimProgress,
    pub successful_indices: Vec<usize>,
    pub last_success: Option<String>,
}

/// What a [`ReclaimJob`] says.
#[verifier::ext_equal]
pub struct JobView {
    pub queue: Seq<(usize, ItemView)>,
    pub progress: ProgressView,
    pub successes: Seq<usize>,
    pub last_success: Option<Seq<char>>,
}

/// What a queue says.
pub open spec fn queue_view(queue: Seq<QueuedItem>) -> Seq<(usize, ItemView)> {
    Seq::new(queue.len(), |i: int| (queue[i].index, queue[i].item@))
}

impl View for ReclaimJob {
    type V = JobView;

    open spec fn view(&self) -> JobView {
        JobView {
            queue: queue_view(self.queue@),
            progress: self.progress@,
            successes: self.successful_indices@,
            last_success: text_view(self.last_success),
        }
    }
}

/// A Reclaim that is about to start.
pub open spec fn new_job(
    queue: Seq<(usize, ItemView)>,
    title: Seq<char>,
    target_label: Seq<char>,
) -> JobView {
    JobView {
        queue,
        progress: ProgressView {
            title,
            target_label,
            total: queue.len(),
            current_ordinal: 0,
            completed: 0,
            reclaimed_count: 0,
            reclaimed_bytes: 0,
            failed_count: 0,
            first_error: None,
            current_path: None,
            current_action: "Preparing Reclaim"@,
            stop_requested: false,
            stopped: false,
        },
        successes: Seq::empty(),
        last_success: None,
    }
}

/// Prepares a Reclaim.
pub fn start_job(queue: Vec<QueuedItem>, title: String, target_label: String) -> (r: ReclaimJob)
    ensures
        r@ == new_job(queue_view(queue@), title@, target_label@),
{
    let total: usize = queue.len();
    let job: ReclaimJob = ReclaimJob {
        queue,
        progress: ReclaimProgress {
            title,
            target_label,
            total,
            current_ordinal: 0,
            completed: 0,
            reclaimed_count: 0,
            reclaimed_bytes: 0,
            failed_count: 0,
            first_error: None,
            current_path: None,
            current_action: "Preparing Reclaim".to_owned(),
            stop_requested: false,
            stopped: false,
        },
        successful_indices: Vec::new(),
        last_success: None,
    };
    assert(job@ =~= new_job(queue_view(queue@), title@, target_label@));
    job
}

/// What the worker reports.
#[derive(Debug)]
pub enum ReclaimMessage {
    ItemStarted { ordinal: usize, path: DiskPath, action: String },
    ItemFinished { index: usize, bytes: u64, result: Result<String, String> },
    Finished { stopped: bool },
    /// The worker is gone without having finished.
    Disconnected,
}

/// The first error, `error` if there was none before.
pub open spec fn first_of(before: Option<Seq<char>>, error: Seq<char>) -> Option<Seq<char>> {
    match before {
        Some(first) => Some(first),
        None => Some(error),
    }
}

/// A Reclaim after a report of its worker.
pub open spec fn advanced(job: JobView, message: ReclaimMessage) -> JobView {
    let progress = job.progress;
    match message {
        ReclaimMessage::ItemStarted { ordinal, path, action } => JobView {
            progress: ProgressView {
                current_ordinal: ordinal as nat,
                current_path: Some(path@),
                current_action: action@,
                ..progress
            },
            ..job
        },
        ReclaimMessage::ItemFinished { index, bytes, result } => match result {
            Ok(how) => JobView {
                progress: ProgressView {
                    completed: progress.completed + 1,
                    reclaimed_count: progress.reclaimed_count + 1,
                    reclaimed_bytes: progress.reclaimed_bytes + bytes as nat,
                    ..progress
                },
                successes: job.successes.push(index),
                last_success: Some(how@),
                ..job
            },
            Err(error) => JobView {
                progress: ProgressView {
                    completed: progress.completed + 1,
                    failed_count: progress.failed_count + 1,
                    first_error: first_of(progress.first_error, error@),
                    ..progress
                },
                ..job
            },
        },
        ReclaimMessage::Finished { stopped } => JobView {
            progress: ProgressView {
                stopped,
                current_path: None,
                current_action: "Done"@,
                ..progress
            },
            ..job
        },
        ReclaimMessage::Disconnected => JobView {
            progress: ProgressView {
                failed_count: progress.failed_count + 1,
                first_error: first_of(progress.first_error, "reclaim worker stopped"@),
                ..progress
            },
            ..job
        },
    }
}

/// Whether a report ends the Reclaim.
pub open spec fn ends(message: ReclaimMessage) -> bool {
    message is Finished || message is Disconnected
}

/// Whether the counters can take in a report.
pub open spec fn counts_fit(progress: ProgressView, message: ReclaimMessage) -> bool {
    &&& progress.completed < usize::MAX
    &&& progress.reclaimed_count < usize::MAX
    &&& progress.failed_count < usize::MAX
    &&& message matches ReclaimMessage::ItemFinished { bytes, .. } ==> progress.reclaimed_bytes
        + bytes <= u64::MAX
}

impl ReclaimJob {
    /// Whether the counters can take in a report.
    pub fn can_take(&self, message: &ReclaimMessage) -> (r: bool)
        ensures
            r == counts_fit(self@.progress, *message),
    {
        let room: bool = self.progress.completed < usize::MAX && self.progress.reclaimed_count
            < usize::MAX && self.progress.failed_count < usize::MAX;
        match message {
            ReclaimMessage::ItemFinished { bytes, .. } => room
                && self.progress.reclaimed_bytes.checked_add(*bytes).is_some(),
            _ => room,
        }
    }

    /// Takes in a report of the worker.
    pub fn advance(&mut self, message: ReclaimMessage)
        requires
            counts_fit(old(self)@.progress, message),
        ensures
            final(self)@ == advanced(old(self)@, message),
    {
        let ghost before = self@;
        match message {
            ReclaimMessage::ItemStarted { ordinal, path, action } => {
                self.progress.current_ordinal = ordinal;
                self.progress.current_path = Some(path);
                self.progress.current_action = action;
            },
            ReclaimMessage::ItemFinished { index, bytes, result } => {
                self.progress.completed = self.progress.completed + 1;
                match result {
                    Ok(how) => {
                        self.progress.reclaimed_count = self.progress.reclaimed_count + 1;
                        self.progress.reclaimed_bytes = self.progress.reclaimed_bytes + bytes;
                        self.successful_indices.push(index);
                        self.last_success = Some(how);
                    },
                    Err(error) => {
                        self.progress.failed_count = self.progress.failed_count + 1;
                        if self.progress.first_error.is_none() {
                            self.progress.first_error = Some(error);
                        }
                    },
                }
            },
            ReclaimMessage::Finished { stopped } => {
                self.progress.stopped = stopped;
                self.progress.current_path = None;
                self.progress.current_action = "Done".to_owned();
            },
            ReclaimMessage::Disconnected => {
                if self.progress.first_error.is_none() {
                    self.progress.first_error = Some("reclaim worker stopped".to_owned());
                }
                self.progress.failed_count = self.progress.failed_count + 1;
            },
        }
        assert(self@ =~= advanced(before, message));
    }
}

/// What the worker does next.
#[derive(Debug, Clone, Copy, PartialEq, Eq, Structural)]
pub enum WorkerStep {
    /// Reclaim the Item at this place of the queue.
    Start { pos: usize },
    /// Report the end; `stopped` if Items were left because of a stop request.
    Finish { stopped: bool },
}

/// The next step of a worker that has dealt with the first `pos` Items of its
/// queue. The first Item always runs, and a stop request keeps the next one from
/// starting.
pub open spec fn worker_step(pos: nat, total: nat, stop_requested: bool) -> WorkerStep {
    if pos >= total {
        WorkerStep::Finish { stopped: false }
    } else if pos > 0 && stop_requested {
        WorkerStep::Finish { stopped: true }
    } else {
        WorkerStep::Start { pos: pos as usize }
    }
}

/// Decides the next step of the worker.
pub fn run_reclaim_worker(pos: usize, total: usize, stop_requested: bool) -> (r: WorkerStep)
    ensures
        r == worker_step(pos as nat, total as nat, stop_requested),
{
    if pos >= total {
        WorkerStep::Finish { stopped: false }
    } else if pos > 0 && stop_requested {
        WorkerStep::Finish { stopped: true }
    } else {
        WorkerStep::Start { pos }
    }
}

/// The report that an Item is being reclaimed, the first of the queue counting as
/// one.
pub fn started(pos: usize, queued: &QueuedItem, step: &ReclaimStep) -> (r: ReclaimMessage)
    requires
        pos < usize::MAX,
    ensures
        r matches ReclaimMessage::ItemStarted { ordinal, path, action } && ordinal == pos + 1
            && path@ == queued.item@.path && action@ == reclaim::action_text(step@),
{
    ReclaimMessage::ItemStarted {
        ordinal: pos + 1,
        path: queued.item.path.clone(),
        action: reclaim::planned_action(step),
    }
}

/// The report that an Item has been dealt with.
pub fn finished(queued: &QueuedItem, result: Result<Reclaimed, String>) -> (r: ReclaimMessage)
    ensures
        r is ItemFinished,
        r->ItemFinished_index == queued.index,
        r->ItemFinished_bytes == queued.item@.size,
        match result {
            Ok(done) => r->ItemFinished_result is Ok && r->ItemFinished_result->Ok_0@
                == reclaim::done_label(done@),
            Err(error) => r->ItemFinished_result is Err && r->ItemFinished_result->Err_0@
                == text::lossy_utf8(queued.item@.path) + ": "@ + error@,
        },
{
    ReclaimMessage::ItemFinished {
        index: queued.index,
        bytes: queued.item.size_on_disk,
        result: match result {
            Ok(done) => Ok(reclaim::reclaimed_label(done)),
            Err(error) => Err(
                queued.item.path.display().concat(": ").concat(error.as_str()),
            ),
        },
    }
}

/// How a finished Reclaim is reported.
pub open spec fn finished_status(progress: ProgressView, last_success: Option<Seq<char>>) -> Seq<
    char,
> {
    let reclaimed = scan::human_text(progress.reclaimed_bytes);
    let share = text::decimal(progress.reclaimed_count) + "/"@ + text::decimal(progress.total)
        + " "@ + progress.target_label + ", "@ + reclaimed;
    if progress.stopped {
        let untouched = if progress.total > progress.completed {
            (progress.total - progress.completed) as nat
        } else {
            0
        };
        let status = "Stopped after current Item. Reclaimed "@ + share + ". "@ + text::decimal(
            untouched,
        ) + " not touched."@;
        if progress.failed_count > 0 && progress.first_error is Some {
            status + " First failure: "@ + progress.first_error->0
        } else {
            status
        }
    } else if progress.failed_count > 0 {
        let error = match progress.first_error {
            Some(error) => error,
            None => "unknown reclaim failure"@,
        };
        "Reclaimed "@ + share + ". First failure: "@ + error
    } else if progress.total == 1 {
        let how = match last_success {
            Some(how) => how,
            None => "completed"@,
        };
        "Reclaimed "@ + reclaimed + " ("@ + how + ")."@
    } else {
        "Reclaimed "@ + text::decimal(progress.reclaimed_count) + " "@ + progress.target_label
            + ", "@ + reclaimed + "."@
    }
}

/// Reports a finished Reclaim.
pub fn reclaim_finished_status(
    progress: &ReclaimProgress,
    last_success: &Option<String>,
) -> (r: String)
    ensures
        r@ == finished_status(progress@, text_view(*last_success)),
{
    let reclaimed: String = scan::human(progress.reclaimed_bytes);
    let share: String = text::count_text(progress.reclaimed_count).concat("/").concat(
        text::count_text(progress.total).as_str(),
    ).concat(" ").concat(progress.target_label.as_str()).concat(", ").concat(reclaimed.as_str());
    if progress.stopped {
        let untouched: usize = if progress.total > progress.completed {
            progress.total - progress.completed
        } else {
            0
        };
        let status: String = "Stopped after current Item. Reclaimed ".to_owned().concat(
            share.as_str(),
        ).concat(". ").concat(text::count_text(untouched).as_str()).concat(" not touched.");
        if progress.failed_count > 0 {
            if let Some(error) = &progress.first_error {
                return status.concat(" First failure: ").concat(error.as_str());
            }
        }
        return status;
    }
    if progress.failed_count > 0 {
        let error: &str = match &progress.first_error {
            Some(error) => error.as_str(),
            None => "unknown reclaim failure",
        };
        return "Reclaimed ".to_owned().concat(share.as_str()).concat(". First failure: ").concat(
            error,
        );
    }
    if progress.total == 1 {
        let how: &str = match last_success {
            Some(how) => how.as_str(),
            None => "completed",
        };
        return "Reclaimed ".to_owned().concat(reclaimed.as_str()).concat(" (").concat(how).concat(
            ").",
        );
    }
    "Reclaimed ".to_owned().concat(text::count_text(progress.reclaimed_count).as_str()).concat(
        " ",
    ).concat(progress.target_label.as_str()).concat(", ").concat(reclaimed.as_str()).concat(".")
}

/// After a stop request no further Item starts, however many wait.
pub proof fn law_nothing_starts_after_a_stop(pos: nat, total: nat)
    requires
        pos > 0,
    ensures
        worker_step(pos, total, true) is Finish,
{
}

/// Without a stop request every Item of the queue gets its turn, in order.
pub proof fn law_every_queued_item_gets_its_turn(pos: nat, total: nat)
    requires
        total <= usize::MAX,
    ensures
        pos < total ==> worker_step(pos, total, false) == (WorkerStep::Start { pos: pos as usize }),
        pos >= total ==> worker_step(pos, total, false) == (WorkerStep::Finish { stopped: false }),
{
}

/// Every Item that was dealt with counts either as reclaimed or as failed.
pub proof fn law_counts_add_up(job: JobView, message: ReclaimMessage)
    requires
        !(message is Disconnected),
        job.progress.reclaimed_count + job.progress.failed_count == job.progress.completed,
        job.successes.len() == job.progress.reclaimed_count,
    ensures
        ({
            let after = advanced(job, message);
            &&& after.progress.reclaimed_count + after.progress.failed_count
                == after.progress.completed
            &&& after.successes.len() == after.progress.reclaimed_count
        }),
{
}

/// A Reclaim starts with its whole queue ahead of it: nothing done, nothing failed,
/// nothing stopped.
pub proof fn law_a_new_job_has_done_nothing(
    queue: Seq<(usize, ItemView)>,
    title: Seq<char>,
    target_label: Seq<char>,
)
    ensures
        ({
            let job = new_job(queue, title, target_label);
            &&& job.queue == queue && job.successes.len() == 0 && job.last_success is None
            &&& job.progress.total == queue.len()
            &&& job.progress.title == title && job.progress.target_label == target_label
            &&& job.progress.completed == 0 && job.progress.current_ordinal == 0
            &&& job.progress.reclaimed_count == 0 && job.progress.reclaimed_bytes == 0
            &&& job.progress.failed_count == 0 && job.progress.first_error is None
            &&& job.progress.current_path is None
            &&& !job.progress.stop_requested && !job.progress.stopped
        }),
{
}

/// A success is counted once, with the bytes that it freed, and its place is noted;
/// a failure is counted once, frees nothing, and only the first one is kept. No
/// report changes what is queued, or whether a stop was asked for.
pub proof fn law_a_report_counts_once(job: JobView, message: ReclaimMessage)
    ensures
        ({
            let was = job.progress;
            let after = advanced(job, message);
            let now = after.progress;
            &&& after.queue == job.queue
            &&& now.total == was.total && now.title == was.title && now.target_label
                == was.target_label
            &&& now.stop_requested == was.stop_requested
            &&& match message {
                ReclaimMessage::ItemFinished { index, bytes, result: Ok(how) } => {
                    &&& after.successes == job.successes.push(index)
                    &&& after.last_success == Some(how@)
                    &&& now.completed == was.completed + 1
                    &&& now.reclaimed_count == was.reclaimed_count + 1
                    &&& now.reclaimed_bytes == was.reclaimed_bytes + bytes
                    &&& now.failed_count == was.failed_count && now.first_error == was.first_error
                },
                ReclaimMessage::ItemFinished { index, bytes, result: Err(error) } => {
                    &&& after.successes == job.successes && after.last_success == job.last_success
                    &&& now.completed == was.completed + 1
                    &&& now.failed_count == was.failed_count + 1
                    &&& now.first_error == (if was.first_error is Some {
                        was.first_error
                    } else {
                        Some(error@)
                    })
                    &&& now.reclaimed_count == was.reclaimed_count && now.reclaimed_bytes
                        == was.reclaimed_bytes
                },
                ReclaimMessage::ItemStarted { ordinal, path, action } => {
                    &&& after.successes == job.successes && after.last_success == job.last_success
                    &&& now.current_ordinal == ordinal && now.current_path == Some(path@)
                        && now.current_action == action@
                    &&& now.completed == was.completed && now.reclaimed_count
                        == was.reclaimed_count && now.reclaimed_bytes == was.reclaimed_bytes
                    &&& now.failed_count == was.failed_count && now.first_error == was.first_error
                },
                ReclaimMessage::Finished { stopped } => {
                    &&& after.successes == job.successes && after.last_success == job.last_success
                    &&& now.stopped == stopped
                    &&& now.completed == was.completed && now.reclaimed_count
                        == was.reclaimed_count && now.reclaimed_bytes == was.reclaimed_bytes
                    &&& now.failed_count == was.failed_count && now.first_error == was.first_error
                },
                ReclaimMessage::Disconnected => {
                    &&& after.successes == job.successes && after.last_success == job.last_success
                    &&& now.failed_count == was.failed_count + 1 && now.first_error is Some
                    &&& now.completed == was.completed && now.reclaimed_count
                        == was.reclaimed_count && now.reclaimed_bytes == was.reclaimed_bytes
                },
            }
        }),
{
}

/// The reports that end a Reclaim are that it has finished and that its worker is
/// gone; no report about an Item does.
pub proof fn law_only_the_end_ends(message: ReclaimMessage)
    ensures
        match message {
            ReclaimMessage::ItemStarted { .. } => !ends(message),
            ReclaimMessage::ItemFinished { .. } => !ends(message),
            ReclaimMessage::Finished { .. } => ends(message),
            ReclaimMessage::Disconnected => ends(message),
        },
{
}

/// A stop is reported as one exactly if Items were left because of it: the first
/// Item always runs, and a stop asked for during the last one comes too late.
pub proof fn law_a_stop_leaves_items(pos: nat, total: nat, stop_requested: bool)
    requires
        total <= usize::MAX,
    ensures
        worker_step(pos, total, stop_requested) == (WorkerStep::Finish { stopped: true }) <==> 0
            < pos < total && stop_requested,
        worker_step(pos, total, stop_requested) == (WorkerStep::Finish { stopped: false })
            <==> pos >= total,
        worker_step(pos, total, stop_requested) is Start <==> pos < total && (pos == 0
            || !stop_requested),
        worker_step(pos, total, stop_requested) is Start ==> worker_step(
            pos,
            total,
            stop_requested,
        )->pos == pos,
{
}

/// The report of a finished Reclaim quotes what was reclaimed of how many, and how
/// much that freed; after a stop how many were left; and after a failure the first
/// one. A failure is never passed over.
pub proof fn law_the_end_is_reported(progress: ProgressView, last_success: Option<Seq<char>>)
    ensures
        ({
            let status = finished_status(progress, last_success);
            let freed = scan::human_text(progress.reclaimed_bytes);
            let share = "Reclaimed "@ + (text::decimal(progress.reclaimed_count) + "/"@
                + text::decimal(progress.total) + " "@ + progress.target_label + ", "@ + freed);
            &&& !progress.stopped && progress.failed_count > 0 && progress.first_error is Some
                ==> status == share + ". First failure: "@ + progress.first_error->0
            &&& !progress.stopped && progress.failed_count == 0 && progress.total == 1
                && last_success is Some ==> status == "Reclaimed "@ + freed + " ("@
                + last_success->0 + ")."@
            &&& !progress.stopped && progress.failed_count == 0 && progress.total != 1 ==> status
                == "Reclaimed "@ + text::decimal(progress.reclaimed_count) + " "@
                + progress.target_label + ", "@ + freed + "."@
            &&& progress.stopped && progress.completed <= progress.total && (progress.failed_count
                == 0 || progress.first_error is None) ==> status == "Stopped after current Item. "@
                + share + ". "@ + text::decimal((progress.total - progress.completed) as nat)
                + " not touched."@
            &&& progress.stopped && progress.completed <= progress.total && progress.failed_count
                > 0 && progress.first_error is Some ==> status == "Stopped after current Item. "@
                + share + ". "@ + text::decimal((progress.total - progress.completed) as nat)
                + " not touched. First failure: "@ + progress.first_error->0
        }),
{
    let share = text::decimal(progress.reclaimed_count) + "/"@ + text::decimal(progress.total)
        + " "@ + progress.target_label + ", "@ + scan::human_text(progress.reclaimed_bytes);
    let stopped = "Stopped after current Item. Reclaimed "@;
    reveal_strlit("Stopped after current Item. Reclaimed ");
    reveal_strlit("Stopped after current Item. ");
    reveal_strlit("Reclaimed ");
    reveal_strlit(" not touched.");
    reveal_strlit(" First failure: ");
    reveal_strlit(" not touched. First failure: ");
    assert(stopped =~= "Stopped after current Item. "@ + "Reclaimed "@);
    assert(" not touched. First failure: "@ =~= " not touched."@ + " First failure: "@);
    let left = text::decimal((progress.total - progress.completed) as nat);
    assert(stopped + share + ". "@ + left + " not touched."@ =~= "Stopped after current Item. "@ + (
    "Reclaimed "@ + share) + ". "@ + left + " not touched."@);
    if progress.first_error is Some {
        let error = progress.first_error->0;
        assert(stopped + share + ". "@ + left + " not touched."@ + " First failure: "@ + error
            =~= "Stopped after current Item. "@ + ("Reclaimed "@ + share) + ". "@ + left
            + " not touched. First failure: "@ + error);
    }
}

} // verus!

//! The scheduler of readings: at most one reading is under way at any time.
//!
//! The scheduler decides; it runs nothing itself. A trigger on an idle
//! scheduler turns the latest frame into a job, which the caller hands to a
//! background worker. The caller asks the worker once per tick, without
//! waiting, whether it is done, and tells the scheduler what it found. A
//! trigger while a reading is under way is not queued and cancels nothing: it
//! is simply passed over.

use crate::error::OcrError;
use crate::frame::{LatestImage, LatestImageView, RgbaFrame, RgbaFrameView};
use crate::geometry::UVec2;
use crate::layout::{first_fit, Config, OcrBounds};
use crate::ocr::{OcrResults, OcrResultsView};
use crate::projection::{covers_all, projected_results, Projection};
use vstd::prelude::*;

verus! {

/// Whether a reading is under way.
#[derive(Clone, Copy, Debug, PartialEq, Eq, Structural)]
pub enum SchedulerState {
    /// No reading is under way.
    Idle,
    /// Exactly one reading is under way.
    Running,
}

/// What happens to a scheduler.
#[derive(Clone, Copy, Debug, PartialEq, Eq, Structural)]
pub enum SchedulerEvent {
    /// A reading was asked for; `ready` tells whether there is a frame to
    /// read and a region to read in it.
    Trigger { ready: bool },
    /// The worker was found to be done.
    Completion,
}

/// What a worker needs for one reading.
#[derive(Debug)]
pub struct OcrJob {
    /// The frame to read.
    pub image: RgbaFrame,
    /// The region of the frame to read.
    pub bounds: OcrBounds,
    /// The gap threshold for clustering the words.
    pub column_gap: i64,
}

/// What became of a trigger.
#[derive(Debug)]
pub enum Trigger {
    /// A reading starts: the job is to be handed to a worker.
    Started(OcrJob),
    /// A reading is under way already; the trigger was passed over.
    Busy,
    /// There is no frame that can be read.
    NoFrame,
    /// The frame shows none of the configured layouts.
    NoLayoutMatch,
    /// The frame shows a layout whose region cannot be scaled to the frame.
    DegenerateCrop,
}

/// What an idle scheduler makes of the latest frame.
pub enum Plan {
    /// Read the region `bounds` of `image`.
    Run { image: RgbaFrameView, bounds: OcrBounds, column_gap: i64 },
    NoFrame,
    NoLayoutMatch,
    DegenerateCrop,
}

/// What there is to do with the latest frame under `config`: it has to give
/// an image, the image has to show a configured layout, and the first such
/// layout has to have a region at the image's resolution.
pub open spec fn plan(latest: LatestImageView, config: Config) -> Plan {
    match latest.image() {
        None => Plan::NoFrame,
        Some(image) => match first_fit(config.layouts@, image) {
            None => Plan::NoLayoutMatch,
            Some(layout) => match layout.bounds_at(UVec2 { x: image.width, y: image.height }) {
                None => Plan::DegenerateCrop,
                Some(bounds) => Plan::Run { image, bounds, column_gap: config.column_gap },
            },
        },
    }
}

/// The state after `event`: a trigger starts a reading only on an idle
/// scheduler with something to read, and a completion ends the reading that
/// is under way. Everything else changes nothing.
pub open spec fn next_state(state: SchedulerState, event: SchedulerEvent) -> SchedulerState {
    match (state, event) {
        (SchedulerState::Idle, SchedulerEvent::Trigger { ready: true }) => SchedulerState::Running,
        (SchedulerState::Running, SchedulerEvent::Completion) => SchedulerState::Idle,
        _ => state,
    }
}

/// Whether `event` starts a reading in `state`.
pub open spec fn starts(state: SchedulerState, event: SchedulerEvent) -> bool {
    state is Idle && event == (SchedulerEvent::Trigger { ready: true })
}

/// Whether `event` ends a reading in `state`.
pub open spec fn ends(state: SchedulerState, event: SchedulerEvent) -> bool {
    state is Running && event is Completion
}

/// The state of a scheduler that began idle and met `events` in order.
pub open spec fn state_after(events: Seq<SchedulerEvent>) -> SchedulerState
    decreases events.len(),
{
    if events.len() == 0 {
        SchedulerState::Idle
    } else {
        next_state(state_after(events.drop_last()), events.last())
    }
}

/// How many readings `events` started.
pub open spec fn started(events: Seq<SchedulerEvent>) -> nat
    decreases events.len(),
{
    if events.len() == 0 {
        0
    } else if starts(state_after(events.drop_last()), events.last()) {
        started(events.drop_last()) + 1
    } else {
        started(events.drop_last())
    }
}

/// How many readings `events` ended.
pub open spec fn ended(events: Seq<SchedulerEvent>) -> nat
    decreases events.len(),
{
    if events.len() == 0 {
        0
    } else if ends(state_after(events.drop_last()), events.last()) {
        ended(events.drop_last()) + 1
    } else {
        ended(events.drop_last())
    }
}

/// Whatever happens to a scheduler, and in whatever order, at most one
/// reading is under way: the readings started exceed the readings ended by
/// one while the scheduler is running, and by none while it is idle.
pub proof fn lemma_at_most_one_in_flight(events: Seq<SchedulerEvent>)
    ensures
        state_after(events) is Running ==> started(events) == ended(events) + 1,
        state_after(events) is Idle ==> started(events) == ended(events),
        started(events) - ended(events) <= 1,
    decreases events.len(),
{
    if events.len() > 0 {
        lemma_at_most_one_in_flight(events.drop_last());
    }
}

/// A trigger that comes while a reading is under way changes nothing: the
/// scheduler keeps running, and no reading starts or ends.
pub proof fn lemma_trigger_while_running_is_passed_over(events: Seq<SchedulerEvent>, ready: bool)
    requires
        state_after(events) is Running,
    ensures
        state_after(events.push(SchedulerEvent::Trigger { ready })) is Running,
        started(events.push(SchedulerEvent::Trigger { ready })) == started(events),
        ended(events.push(SchedulerEvent::Trigger { ready })) == ended(events),
{
    let longer = events.push(SchedulerEvent::Trigger { ready });
    assert(longer.drop_last() =~= events);
}

/// What is handed on when a worker is done: its failure as it is, its
/// results in display coordinates, or `ProjectionOverflow` if they do not
/// fit there.
pub open spec fn delivered(
    outcome: Result<OcrResultsView, OcrError>,
    projection: Projection,
) -> Result<OcrResultsView, OcrError> {
    match outcome {
        Err(error) => Err(error),
        Ok(results) => if results.space is Screen {
            Ok(results)
        } else if covers_all(projection, results) {
            Ok(projected_results(projection, results))
        } else {
            Err(OcrError::ProjectionOverflow)
        },
    }
}

/// The view of a reading's outcome.
pub open spec fn outcome_view(outcome: Result<OcrResults, OcrError>) -> Result<
    OcrResultsView,
    OcrError,
> {
    match outcome {
        Ok(results) => Ok(results@),
        Err(error) => Err(error),
    }
}

/// The scheduler of readings.
#[derive(Debug)]
pub struct OcrScheduler {
    state: SchedulerState,
}

impl View for OcrScheduler {
    type V = SchedulerState;

    closed spec fn view(&self) -> SchedulerState {
        self.state
    }
}

impl OcrScheduler {
    /// An idle scheduler.
    pub fn new() -> (r: OcrScheduler)
        ensures
            r@ is Idle,
    {
        OcrScheduler { state: SchedulerState::Idle }
    }

    /// Whether a reading is under way.
    pub fn state(&self) -> (s: SchedulerState)
        ensures
            s == self@,
    {
        self.state
    }

    /// Asks for a reading of the latest frame.
    ///
    /// While a reading is under way, nothing happens at all: `latest` keeps
    /// its frame. Otherwise the latest frame is taken, and if it gives an
    /// image that shows a configured layout whose region can be scaled to
    /// it, a reading starts.
    pub fn start_ocr_task(&mut self, latest: &mut LatestImage, config: &Config) -> (r: Trigger)
        ensures
            final(self)@ == next_state(
                old(self)@,
                SchedulerEvent::Trigger { ready: plan(old(latest)@, *config) is Run },
            ),
            old(self)@ is Running ==> r is Busy && final(latest)@ == old(latest)@,
            old(self)@ is Idle ==> final(latest)@ == old(latest)@.drained(),
            old(self)@ is Idle ==> match plan(old(latest)@, *config) {
                Plan::Run { image, bounds, column_gap } => r matches Trigger::Started(job)
                    && job.image@ == image && job.bounds == bounds && job.column_gap == column_gap
                    && job.image@.wf(),
                Plan::NoFrame => r is NoFrame,
                Plan::NoLayoutMatch => r is NoLayoutMatch,
                Plan::DegenerateCrop => r is DegenerateCrop,
            },
    {
        match self.state {
            SchedulerState::Running => {
                return Trigger::Busy;
            },
            SchedulerState::Idle => {},
        }
        let image = match latest.get_latest_rgba() {
            Some(image) => image,
            None => {
                return Trigger::NoFrame;
            },
        };
        let layout = match config.find_matching_layout(&image) {
            Some(layout) => *layout,
            None => {
                return Trigger::NoLayoutMatch;
            },
        };
        let (width, height) = image.dimensions();
        let bounds = match layout.ocr_bounds(UVec2 { x: width, y: height }) {
            Some(bounds) => bounds,
            None => {
                return Trigger::DegenerateCrop;
            },
        };
        self.state = SchedulerState::Running;
        Trigger::Started(OcrJob { image, bounds, column_gap: config.column_gap })
    }

    /// Takes note of what a poll of the worker found.
    ///
    /// `polled` is `None` while the worker is not done; then nothing changes.
    /// Once it is `Some`, the reading is over, failed or not: the scheduler
    /// is idle again, and the outcome is handed on, once, with the results'
    /// boxes moved to display coordinates. An outcome that comes while no
    /// reading is under way belongs to nobody and is dropped.
    pub fn get_ocr_result(
        &mut self,
        polled: Option<Result<OcrResults, OcrError>>,
        projection: &Projection,
    ) -> (r: Option<Result<OcrResults, OcrError>>)
        ensures
            polled is None ==> r is None && final(self)@ == old(self)@,
            polled is Some ==> final(self)@ == next_state(old(self)@, SchedulerEvent::Completion),
            polled is Some ==> final(self)@ is Idle,
            polled is Some && old(self)@ is Idle ==> r is None,
            polled is Some && old(self)@ is Running ==> r is Some && outcome_view(r->0)
                == delivered(outcome_view(polled->0), *projection),
    {
        let outcome = match polled {
            Some(outcome) => outcome,
            None => {
                return None;
            },
        };
        match self.state {
            SchedulerState::Idle => {
                return None;
            },
            SchedulerState::Running => {},
        }
        self.state = SchedulerState::Idle;
        match outcome {
            Ok(results) => {
                let mut results = results;
                match results.convert_aabbs_inplace(projection) {
                    Ok(()) => Some(Ok(results)),
                    Err(error) => Some(Err(error)),
                }
            },
            Err(error) => Some(Err(error)),
        }
    }
}

} // verus!

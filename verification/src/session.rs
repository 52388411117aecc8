use vstd::prelude::*;
use crate::capture_result::CaptureResult;
use crate::convert::{abgr_to_i420, converted};
use crate::frame::{DesktopFrame, I420Buffer};
use crate::source::CaptureSource;

verus! {

/// Rejection of a misused session operation. These are programming errors
/// of the caller, reported loudly instead of silently degrading.
#[derive(Clone, Copy, PartialEq, Eq, Structural, Debug)]
pub enum CaptureError {
    /// `start` was called while a capture was already running.
    AlreadyRunning,
    /// `start` was called before any source had been selected.
    NoSourceSelected,
}

/// What one delivered backend result led to.
#[derive(Clone, Copy, PartialEq, Eq, Structural, Debug)]
pub enum Delivery {
    /// The frame was converted and handed to the sink.
    Delivered,
    /// A temporary error: ignored, capture continues.
    Skipped,
    /// A fatal result: the session left the running state.
    Stopped,
    /// The session was not running; nothing was done.
    Inactive,
    /// Another delivery holds the reentrancy guard; nothing was done.
    Overlapping,
}

/// The downstream video sink: holds the one converted frame buffer that is
/// reused for every delivery, and counts the frames handed over.
pub struct VideoSink {
    pub buffer: I420Buffer,
    pub delivered: u64,
}

impl VideoSink {
    /// A sink whose buffer is sized once to the negotiated resolution.
    pub fn new(width: u32, height: u32) -> (s: Self)
        requires
            width * height <= usize::MAX,
            width < u32::MAX,
            height < u32::MAX,
        ensures
            s.buffer.wf(),
            s.buffer.width == width,
            s.buffer.height == height,
            s.delivered == 0,
    {
        VideoSink { buffer: I420Buffer::new(width, height), delivered: 0 }
    }

    /// How many frames have been delivered so far.
    pub fn delivered(&self) -> (r: u64)
        ensures
            r == self.delivered,
    {
        self.delivered
    }

    /// The converted frame buffer, for the publishing pipeline to read.
    pub fn buffer(&self) -> (r: &I420Buffer)
        ensures
            r == &self.buffer,
    {
        &self.buffer
    }
}

/// Whether the session is still running after one backend result: a fatal
/// result ends it, anything else leaves it as it was.
pub open spec fn next_running(running: bool, r: CaptureResult) -> bool {
    running && !r.is_fatal()
}

/// Whether one backend result leads to a frame delivery: only a success
/// arriving while the session runs does.
pub open spec fn delivers(running: bool, r: CaptureResult) -> bool {
    running && r is Success
}

/// The running state after a whole stream of backend results.
pub open spec fn running_after(init: bool, events: Seq<CaptureResult>) -> bool
    decreases events.len(),
{
    if events.len() == 0 {
        init
    } else {
        running_after(next_running(init, events[0]), events.drop_first())
    }
}

/// How many frames a whole stream of backend results delivers.
pub open spec fn deliveries(init: bool, events: Seq<CaptureResult>) -> nat
    decreases events.len(),
{
    if events.len() == 0 {
        0
    } else {
        (if delivers(init, events[0]) {
            1nat
        } else {
            0nat
        }) + deliveries(next_running(init, events[0]), events.drop_first())
    }
}

/// Processing one more backend result at the end of a stream stops the
/// session exactly when that result is fatal, and delivers exactly one more
/// frame when it is a success that still finds the session running.
pub proof fn lemma_stream_step(init: bool, events: Seq<CaptureResult>, e: CaptureResult)
    ensures
        running_after(init, events.push(e)) == next_running(running_after(init, events), e),
        deliveries(init, events.push(e)) == deliveries(init, events) + (if delivers(
            running_after(init, events),
            e,
        ) {
            1int
        } else {
            0int
        }),
    decreases events.len(),
{
    let whole = events.push(e);
    if events.len() == 0 {
        assert(whole[0] == e);
        assert(whole.drop_first() =~= Seq::<CaptureResult>::empty());
        assert(running_after(init, whole) == running_after(
            next_running(init, e), whole.drop_first()));
        assert(running_after(next_running(init, e), Seq::<CaptureResult>::empty())
            == next_running(init, e));
        assert(running_after(init, events) == init);
        assert(deliveries(init, whole) == (if delivers(init, e) {
            1nat
        } else {
            0nat
        }) + deliveries(next_running(init, e), whole.drop_first()));
        assert(deliveries(next_running(init, e), Seq::<CaptureResult>::empty()) == 0);
        assert(deliveries(init, events) == 0);
    } else {
        let next = next_running(init, events[0]);
        assert(whole[0] == events[0]);
        assert(whole.drop_first() =~= events.drop_first().push(e));
        lemma_stream_step(next, events.drop_first(), e);
        assert(running_after(init, whole) == running_after(next, whole.drop_first()));
        assert(running_after(init, events) == running_after(next, events.drop_first()));
        assert(deliveries(init, whole) == (if delivers(init, events[0]) {
            1nat
        } else {
            0nat
        }) + deliveries(next, whole.drop_first()));
        assert(deliveries(init, events) == (if delivers(init, events[0]) {
            1nat
        } else {
            0nat
        }) + deliveries(next, events.drop_first()));
    }
}

/// A stream never delivers more frames than it has events.
pub proof fn lemma_deliveries_bounded(init: bool, events: Seq<CaptureResult>)
    ensures
        deliveries(init, events) <= events.len(),
    decreases events.len(),
{
    if events.len() > 0 {
        lemma_deliveries_bounded(next_running(init, events[0]), events.drop_first());
    }
}

/// A session that is not running delivers nothing and never resumes by
/// itself, whatever results still arrive from the backend.
pub proof fn lemma_stopped_session_delivers_nothing(events: Seq<CaptureResult>)
    ensures
        !running_after(false, events),
        deliveries(false, events) == 0,
    decreases events.len(),
{
    if events.len() > 0 {
        lemma_stopped_session_delivers_nothing(events.drop_first());
    }
}

/// A fatal result ends the stream's effect: the session is stopped once it
/// is processed, and nothing after it is ever delivered.
pub proof fn lemma_fatal_result_ends_deliveries(
    init: bool,
    events: Seq<CaptureResult>,
    i: int,
)
    requires
        0 <= i < events.len(),
        events[i].is_fatal(),
    ensures
        !running_after(init, events.take(i + 1)),
        deliveries(init, events) == deliveries(init, events.take(i + 1)),
    decreases i,
{
    let rest = events.drop_first();
    let next = next_running(init, events[0]);
    let taken = events.take(i + 1);
    assert(taken.len() == i + 1);
    assert(taken[0] == events[0]);
    assert(running_after(init, taken) == running_after(next, taken.drop_first()));
    assert(deliveries(init, taken) == (if delivers(init, events[0]) {
        1nat
    } else {
        0nat
    }) + deliveries(next, taken.drop_first()));
    if i == 0 {
        assert(taken.drop_first() =~= Seq::<CaptureResult>::empty());
        assert(!next);
        lemma_stopped_session_delivers_nothing(rest);
        assert(deliveries(next, rest) == 0);
        assert(deliveries(next, taken.drop_first()) == 0);
    } else {
        assert(taken.drop_first() =~= rest.take(i));
        assert(rest[i - 1] == events[i]);
        lemma_fatal_result_ends_deliveries(next, rest, i - 1);
        assert(!running_after(next, rest.take(i)));
        assert(deliveries(next, rest) == deliveries(next, rest.take(i)));
    }
}

/// One capture session. It owns the decisions of the capture lifecycle:
/// which enumerated sources are current, which one is selected, whether a
/// capture runs, which applications are excluded, and what each backend
/// result leads to. The platform backend that actually grabs pixels runs
/// outside; it hands enumerations and per-frame results to this type and is
/// told by the return values what to do next.
pub struct DesktopCapturer {
    /// True for a window-capture session, false for screen capture. A
    /// session captures one kind only.
    pub window_capturer: bool,
    /// The sources of the most recent enumeration.
    pub sources: Vec<CaptureSource>,
    /// The source bound as the capture target, if any.
    pub selected_source: Option<CaptureSource>,
    /// Whether a capture is running.
    pub running: bool,
    /// Reentrancy guard: true while a delivery callback executes, so that
    /// overlapping invocations are refused instead of interleaving.
    pub in_callback: bool,
    /// Application ids whose windows must be omitted from captured frames.
    pub excluded_applications: Vec<u64>,
}

/// The parts of a session that a lifecycle step leaves untouched: its kind
/// and its configuration.
pub open spec fn config_unchanged(pre: DesktopCapturer, post: DesktopCapturer) -> bool {
    &&& post.window_capturer == pre.window_capturer
    &&& post.sources@ == pre.sources@
    &&& post.excluded_applications@ == pre.excluded_applications@
}

/// The first source of an enumeration that carries the given id.
pub open spec fn find_source(sources: Seq<CaptureSource>, id: u64) -> Option<CaptureSource>
    decreases sources.len(),
{
    if sources.len() == 0 {
        Option::None
    } else if sources[0].id == id {
        Option::Some(sources[0])
    } else {
        find_source(sources.drop_first(), id)
    }
}

impl DesktopCapturer {
    /// A fresh idle session of the given kind: nothing enumerated, nothing
    /// selected, nothing excluded, not running. Whether the platform
    /// backend itself can be brought up is its owner's concern, decided
    /// before this state exists.
    pub fn new(window_capturer: bool) -> (c: Self)
        ensures
            c.window_capturer == window_capturer,
            c.sources@.len() == 0,
            c.selected_source is None,
            !c.running,
            !c.in_callback,
            c.excluded_applications@.len() == 0,
    {
        DesktopCapturer {
            window_capturer,
            sources: Vec::new(),
            selected_source: Option::None,
            running: false,
            in_callback: false,
            excluded_applications: Vec::new(),
        }
    }

    /// Takes over the outcome of one fresh backend enumeration. Ids are
    /// valid only against the enumeration recorded last.
    pub fn record_enumeration(&mut self, sources: Vec<CaptureSource>)
        ensures
            final(self).sources@ == sources@,
            final(self).window_capturer == old(self).window_capturer,
            final(self).selected_source == old(self).selected_source,
            final(self).running == old(self).running,
            final(self).in_callback == old(self).in_callback,
            final(self).excluded_applications@ == old(self).excluded_applications@,
    {
        self.sources = sources;
    }

    /// The sources of the most recent enumeration, in the backend's order.
    pub fn get_source_list(&self) -> (r: Vec<CaptureSource>)
        ensures
            r@ == self.sources@,
    {
        let mut r: Vec<CaptureSource> = Vec::new();
        let mut i: usize = 0;
        while i < self.sources.len()
            invariant
                i <= self.sources@.len(),
                r@.len() == i,
                forall|j: int| 0 <= j < i ==> r@[j] == self.sources@[j],
            decreases self.sources@.len() - i,
        {
            r.push(self.sources[i].clone());
            i = i + 1;
        }
        proof {
            assert(r@ =~= self.sources@);
        }
        r
    }

    /// Binds the source with the given id as the capture target. Returns
    /// false, and leaves the selection untouched, when the id is not in the
    /// last enumeration (for instance because that window has closed).
    pub fn select_source(&mut self, id: u64) -> (ok: bool)
        ensures
            ok == (find_source(old(self).sources@, id) is Some),
            final(self).selected_source == (if ok {
                find_source(old(self).sources@, id)
            } else {
                old(self).selected_source
            }),
            final(self).running == old(self).running,
            final(self).in_callback == old(self).in_callback,
            config_unchanged(*old(self), *final(self)),
    {
        let ghost pre = *self;
        let n: usize = self.sources.len();
        proof {
            assert(self.sources@.skip(0) =~= self.sources@);
        }
        let mut i: usize = 0;
        while i < n
            invariant
                pre == *old(self),
                *self == pre,
                n == self.sources@.len(),
                i <= n,
                find_source(self.sources@, id) == find_source(self.sources@.skip(i as int), id),
                forall|j: int| 0 <= j < i ==> self.sources@[j].id != id,
            decreases n - i,
        {
            proof {
                assert(self.sources@.skip(i as int).len() > 0);
                assert(self.sources@.skip(i as int)[0] == self.sources@[i as int]);
                assert(self.sources@.skip(i as int).drop_first() =~= self.sources@.skip(
                    i as int + 1));
            }
            if self.sources[i].id() == id {
                let chosen = self.sources[i].clone();
                self.selected_source = Option::Some(chosen);
                return true;
            }
            i = i + 1;
        }
        proof {
            assert(self.sources@.skip(n as int) =~= Seq::<CaptureSource>::empty());
        }
        false
    }

    /// Begins asynchronous capture of the selected source. Starting twice
    /// without an intervening `stop`, or starting with no source selected,
    /// is a misuse and is rejected without touching the session.
    pub fn start(&mut self) -> (r: Result<(), CaptureError>)
        ensures
            old(self).running ==> r == Result::<(), CaptureError>::Err(
                CaptureError::AlreadyRunning) && *final(self) == *old(self),
            !old(self).running && old(self).selected_source is None ==> r == Result::<(
            ), CaptureError>::Err(CaptureError::NoSourceSelected) && *final(self) == *old(self),
            !old(self).running && old(self).selected_source is Some ==> r == Result::<(
            ), CaptureError>::Ok(()) && final(self).running,
            final(self).selected_source == old(self).selected_source,
            final(self).in_callback == old(self).in_callback,
            config_unchanged(*old(self), *final(self)),
    {
        if self.running {
            return Result::Err(CaptureError::AlreadyRunning);
        }
        if self.selected_source.is_none() {
            return Result::Err(CaptureError::NoSourceSelected);
        }
        self.running = true;
        Result::Ok(())
    }

    /// Selects the given source and begins capture in one step. Starting
    /// while already running is a misuse and is rejected without touching
    /// the session.
    pub fn start_capture(&mut self, source: CaptureSource) -> (r: Result<(), CaptureError>)
        ensures
            old(self).running ==> r == Result::<(), CaptureError>::Err(
                CaptureError::AlreadyRunning) && *final(self) == *old(self),
            !old(self).running ==> r == Result::<(), CaptureError>::Ok(()) && final(self).running
                && final(self).selected_source == Option::Some(source),
            final(self).in_callback == old(self).in_callback,
            config_unchanged(*old(self), *final(self)),
    {
        if self.running {
            return Result::Err(CaptureError::AlreadyRunning);
        }
        self.selected_source = Option::Some(source);
        self.running = true;
        Result::Ok(())
    }

    /// Halts capture. On an idle session this is a no-op, not an error.
    /// After it returns, no further delivery may begin.
    pub fn stop(&mut self)
        ensures
            !final(self).running,
            final(self).selected_source == old(self).selected_source,
            final(self).in_callback == old(self).in_callback,
            config_unchanged(*old(self), *final(self)),
    {
        self.running = false;
    }

    /// Asks whether an on-demand single-frame capture attempt should be
    /// issued now: only while the session runs. Poll-driven backends call
    /// this instead of streaming continuously.
    pub fn capture_frame(&self) -> (issue: bool)
        ensures
            issue == self.running,
    {
        self.running
    }

    /// Replaces the set of application ids whose content must be omitted
    /// from captured frames. Deterministic only when applied before
    /// `start`; while running the backend honours it best-effort, possibly
    /// only from a later frame on.
    pub fn set_excluded_applications(&mut self, applications: Vec<u64>)
        ensures
            final(self).excluded_applications@ == applications@,
            final(self).window_capturer == old(self).window_capturer,
            final(self).sources@ == old(self).sources@,
            final(self).selected_source == old(self).selected_source,
            final(self).running == old(self).running,
            final(self).in_callback == old(self).in_callback,
    {
        self.excluded_applications = applications;
    }

    /// Takes the reentrancy guard for one delivery. Returns false, changing
    /// nothing else, when a delivery is already in progress: two callback
    /// executions never overlap.
    pub fn try_begin_callback(&mut self) -> (acquired: bool)
        ensures
            acquired == !old(self).in_callback,
            final(self).in_callback,
            final(self).selected_source == old(self).selected_source,
            final(self).running == old(self).running,
            config_unchanged(*old(self), *final(self)),
    {
        let acquired = !self.in_callback;
        self.in_callback = true;
        acquired
    }

    /// Releases the reentrancy guard after a delivery has returned.
    pub fn end_callback(&mut self)
        ensures
            !final(self).in_callback,
            final(self).selected_source == old(self).selected_source,
            final(self).running == old(self).running,
            config_unchanged(*old(self), *final(self)),
    {
        self.in_callback = false;
    }

    /// Handles one backend capture result, the once-per-attempt callback of
    /// the frame-delivery contract. A success arriving while the session
    /// runs is converted into the sink's buffer and counted; a temporary
    /// error is ignored; a fatal result stops the session. Nothing is
    /// delivered once the session is stopped, and a result arriving while
    /// another delivery holds the guard is refused untouched. The frame
    /// accompanying a success must match the sink's negotiated resolution:
    /// a mismatch is a caller error, not a runtime condition.
    pub fn on_capture_result(
        &mut self,
        result: CaptureResult,
        frame: &DesktopFrame,
        sink: &mut VideoSink,
    ) -> (d: Delivery)
        requires
            old(sink).buffer.wf(),
            old(sink).delivered < u64::MAX,
            result is Success ==> frame.wf() && old(sink).buffer.width as int == frame.width as int
                && old(sink).buffer.height as int == frame.height as int,
        ensures
            final(self).in_callback == old(self).in_callback,
            final(self).selected_source == old(self).selected_source,
            config_unchanged(*old(self), *final(self)),
            final(sink).buffer.wf(),
            final(sink).buffer.width == old(sink).buffer.width,
            final(sink).buffer.height == old(sink).buffer.height,
            old(self).in_callback ==> d is Overlapping && *final(self) == *old(self) && *final(
                sink) == *old(sink),
            !old(self).in_callback ==> final(self).running == next_running(
                old(self).running, result),
            !old(self).in_callback ==> final(sink).delivered == old(sink).delivered + (
            if delivers(old(self).running, result) {
                1int
            } else {
                0int
            }),
            !old(self).in_callback && !old(self).running ==> d is Inactive && *final(sink)
                == *old(sink),
            !old(self).in_callback && delivers(old(self).running, result) ==> d is Delivered
                && converted(*frame, final(sink).buffer),
            !old(self).in_callback && old(self).running && result is ErrorTemporary ==> d
                is Skipped && *final(sink) == *old(sink),
            !old(self).in_callback && old(self).running && result.is_fatal() ==> d is Stopped
                && *final(sink) == *old(sink),
    {
        if self.in_callback {
            return Delivery::Overlapping;
        }
        if !self.running {
            return Delivery::Inactive;
        }
        self.in_callback = true;
        let d = match result {
            CaptureResult::Success => {
                abgr_to_i420(frame, &mut sink.buffer);
                sink.delivered = sink.delivered + 1;
                Delivery::Delivered
            },
            CaptureResult::ErrorTemporary => Delivery::Skipped,
            CaptureResult::ErrorPermanent => {
                self.running = false;
                Delivery::Stopped
            },
            CaptureResult::ErrorUserStopped => {
                self.running = false;
                Delivery::Stopped
            },
        };
        self.in_callback = false;
        d
    }

    /// Feeds a stream of backend results through the session in order, each
    /// with the same frame, as a backend that reuses one frame buffer does.
    /// Exactly the successes that arrive before the first fatal result are
    /// delivered, and the session ends stopped exactly when the stream
    /// holds a fatal result.
    pub fn process_results(
        &mut self,
        results: &Vec<CaptureResult>,
        frame: &DesktopFrame,
        sink: &mut VideoSink,
    )
        requires
            !old(self).in_callback,
            old(sink).buffer.wf(),
            frame.wf(),
            old(sink).buffer.width as int == frame.width as int,
            old(sink).buffer.height as int == frame.height as int,
            old(sink).delivered + results@.len() <= u64::MAX,
        ensures
            !final(self).in_callback,
            final(self).selected_source == old(self).selected_source,
            config_unchanged(*old(self), *final(self)),
            final(self).running == running_after(old(self).running, results@),
            final(sink).delivered == old(sink).delivered + deliveries(
                old(self).running, results@),
            final(sink).buffer.wf(),
            final(sink).buffer.width == old(sink).buffer.width,
            final(sink).buffer.height == old(sink).buffer.height,
            deliveries(old(self).running, results@) > 0 ==> converted(
                *frame, final(sink).buffer),
            deliveries(old(self).running, results@) == 0 ==> final(sink).buffer == old(
                sink).buffer,
    {
        let ghost pre = *self;
        let ghost sink0 = *sink;
        let n: usize = results.len();
        proof {
            assert(results@.take(0) =~= Seq::<CaptureResult>::empty());
        }
        let mut i: usize = 0;
        while i < n
            invariant
                pre == *old(self),
                sink0 == *old(sink),
                n == results@.len(),
                i <= n,
                !self.in_callback,
                self.selected_source == pre.selected_source,
                config_unchanged(pre, *self),
                self.running == running_after(pre.running, results@.take(i as int)),
                sink.buffer.wf(),
                sink.buffer.width == sink0.buffer.width,
                sink.buffer.height == sink0.buffer.height,
                sink0.buffer.width as int == frame.width as int,
                sink0.buffer.height as int == frame.height as int,
                frame.wf(),
                sink.delivered == sink0.delivered + deliveries(
                    pre.running, results@.take(i as int)),
                sink0.delivered + n <= u64::MAX,
                deliveries(pre.running, results@.take(i as int)) > 0 ==> converted(
                    *frame, sink.buffer),
                deliveries(pre.running, results@.take(i as int)) == 0 ==> sink.buffer
                    == sink0.buffer,
            decreases n - i,
        {
            proof {
                lemma_deliveries_bounded(pre.running, results@.take(i as int));
                lemma_stream_step(pre.running, results@.take(i as int), results@[i as int]);
                assert(results@.take(i as int + 1) =~= results@.take(i as int).push(
                    results@[i as int]));
            }
            let r = results[i];
            self.on_capture_result(r, frame, sink);
            i = i + 1;
        }
        proof {
            assert(results@.take(n as int) =~= results@);
        }
    }
}

} // verus!

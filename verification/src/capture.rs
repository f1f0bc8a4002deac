//! The capture engine: when to poll the screen, when to fall back to a full grab, what
//! to count and publish, and what a grab acquires and releases.
use crate::framebuffer::{
    frame_regions, packed_len, read_dirty_rects, rects_in, refreshed, resize_to, resized, row_readable,
    FrameBuffer, RawRect,
};
use crate::nv12::DirtyRect;
use crate::text::{call_error, failure_text};
use vstd::prelude::*;

verus! {

/// Why no frame could be captured.
pub enum CaptureError {
    /// The duplication of the screen was lost and can be set up again.
    AccessLost,
    /// Nothing helps, with the reason given.
    Fatal(String),
}

/// A captured frame: its size and the regions that have changed since the one before.
/// The pixels stay in the buffer of the backend.
pub struct CapturedFrame {
    pub width: u32,
    pub height: u32,
    /// Bytes of the packed BGRA frame.
    pub bytes: usize,
    pub dirty: Vec<DirtyRect>,
}

/// Takes raw frames (packed BGRA), to encode and send them.
///
/// `dirty` holds the regions that have changed since the frame before. It is called
/// only for frames with new content.
pub trait FrameSink: Send {
    fn on_frame(&mut self, width: u32, height: u32, bgra: &[u8], dirty: &[DirtyRect]);
}

// ---- Statistics ------------------------------------------------------------

/// Nanoseconds between two publications of the statistics, at least.
pub const STATS_INTERVAL_NS: u64 = 500_000_000;

/// Statistics of the capture engine. Rates are kept as what was counted in the last
/// window and the length of that window.
#[derive(Clone, Copy, PartialEq, Eq, Debug, Structural)]
pub struct CaptureStats {
    /// Frames captured in the last window.
    pub window_frames: u32,
    /// Raw bytes captured in the last window.
    pub window_bytes: u64,
    /// Length of the last window in nanoseconds.
    pub window_ns: u64,
    pub width: u32,
    pub height: u32,
    /// Frames since the engine was started.
    pub frames: u64,
    /// Raw bytes of the last frame.
    pub last_frame_bytes: usize,
    /// Whether the engine is capturing.
    pub running: bool,
}

/// Statistics before anything has been captured.
pub open spec fn no_stats() -> CaptureStats {
    CaptureStats {
        window_frames: 0,
        window_bytes: 0,
        window_ns: 0,
        width: 0,
        height: 0,
        frames: 0,
        last_frame_bytes: 0,
        running: false,
    }
}

impl Default for CaptureStats {
    fn default() -> (out: CaptureStats)
        ensures
            out == no_stats(),
    {
        CaptureStats {
            window_frames: 0,
            window_bytes: 0,
            window_ns: 0,
            width: 0,
            height: 0,
            frames: 0,
            last_frame_bytes: 0,
            running: false,
        }
    }
}

/// Counters of the capture loop: since its start, and in the current window.
#[derive(Clone, Copy, PartialEq, Eq, Debug, Structural)]
pub struct CaptureMeter {
    pub frames_total: u64,
    pub window_frames: u32,
    pub window_bytes: u64,
}

/// Counters after a frame of `bytes` raw bytes has been counted.
pub open spec fn one_more(meter: CaptureMeter, bytes: usize) -> CaptureMeter {
    CaptureMeter {
        frames_total: (meter.frames_total + 1) as u64,
        window_frames: (meter.window_frames + 1) as u32,
        window_bytes: (meter.window_bytes + bytes) as u64,
    }
}

/// What is published of the counters after a frame has been delivered, if anything, and the
/// counters after that.
pub open spec fn reported(
    meter: CaptureMeter,
    window_ns: u64,
    width: u32,
    height: u32,
    bytes: usize,
) -> (Option<CaptureStats>, CaptureMeter) {
    if window_ns < STATS_INTERVAL_NS {
        (None, meter)
    } else {
        (
            Some(
                CaptureStats {
                    window_frames: meter.window_frames,
                    window_bytes: meter.window_bytes,
                    window_ns,
                    width,
                    height,
                    frames: meter.frames_total,
                    last_frame_bytes: bytes,
                    running: true,
                },
            ),
            CaptureMeter { frames_total: meter.frames_total, window_frames: 0, window_bytes: 0 },
        )
    }
}

impl CaptureMeter {
    /// Counters at zero.
    pub fn new() -> (meter: CaptureMeter)
        ensures
            meter == (CaptureMeter { frames_total: 0, window_frames: 0, window_bytes: 0 }),
    {
        CaptureMeter { frames_total: 0, window_frames: 0, window_bytes: 0 }
    }

    /// Counts a frame of `bytes` raw bytes that is about to be delivered.
    pub fn count_frame(&mut self, bytes: usize)
        requires
            old(self).frames_total < u64::MAX,
            old(self).window_frames < u32::MAX,
            old(self).window_bytes + bytes <= u64::MAX,
        ensures
            final(self).frames_total == old(self).frames_total + 1,
            final(self).window_frames == old(self).window_frames + 1,
            final(self).window_bytes == old(self).window_bytes + bytes,
            *final(self) == one_more(*old(self), bytes),
    {
        self.frames_total = self.frames_total + 1;
        self.window_frames = self.window_frames + 1;
        self.window_bytes = self.window_bytes + bytes as u64;
    }

    /// After a frame has been delivered: once the window has lasted half a second,
    /// gives the statistics to publish and starts a new window.
    pub fn report(&mut self, window_ns: u64, width: u32, height: u32, bytes: usize) -> (stats: Option<
        CaptureStats,
    >)
        ensures
            window_ns < STATS_INTERVAL_NS ==> stats is None && *final(self) == *old(self),
            window_ns >= STATS_INTERVAL_NS ==> {
                &&& stats == Some(
                    CaptureStats {
                        window_frames: old(self).window_frames,
                        window_bytes: old(self).window_bytes,
                        window_ns,
                        width,
                        height,
                        frames: old(self).frames_total,
                        last_frame_bytes: bytes,
                        running: true,
                    },
                )
                &&& *final(self) == (CaptureMeter {
                    frames_total: old(self).frames_total,
                    window_frames: 0,
                    window_bytes: 0,
                })
            },
            (stats, *final(self)) == reported(*old(self), window_ns, width, height, bytes),
    {
        if window_ns < STATS_INTERVAL_NS {
            return None;
        }
        let stats = CaptureStats {
            window_frames: self.window_frames,
            window_bytes: self.window_bytes,
            window_ns,
            width,
            height,
            frames: self.frames_total,
            last_frame_bytes: bytes,
            running: true,
        };
        self.window_frames = 0;
        self.window_bytes = 0;
        Some(stats)
    }
}

// ---- Starting and stopping -------------------------------------------------

/// State of the engine: whether its loop is to run, whether there is a thread to wait
/// for, and the statistics published last.
#[derive(Clone, Copy, PartialEq, Eq, Debug, Structural)]
pub struct CaptureEngine {
    pub running: bool,
    pub thread: bool,
    pub stats: CaptureStats,
}

/// An engine that has been told to start.
pub open spec fn engine_started(engine: CaptureEngine) -> CaptureEngine {
    if engine.running {
        engine
    } else {
        CaptureEngine { running: true, thread: true, ..engine }
    }
}

/// An engine that has been told to stop.
pub open spec fn engine_stopped(engine: CaptureEngine) -> CaptureEngine {
    CaptureEngine { running: false, thread: false, ..engine }
}

/// Statistics of an engine that has been stopped: totals stay, rates are zero.
pub open spec fn at_rest(stats: CaptureStats) -> CaptureStats {
    CaptureStats { window_frames: 0, window_bytes: 0, running: false, ..stats }
}

impl CaptureEngine {
    /// An engine that has not been started.
    pub fn new() -> (engine: CaptureEngine)
        ensures
            engine == (CaptureEngine { running: false, thread: false, stats: no_stats() }),
    {
        CaptureEngine { running: false, thread: false, stats: CaptureStats::default() }
    }

    /// Whether the engine is capturing.
    pub fn is_running(&self) -> (out: bool)
        ensures
            out == self.running,
    {
        self.running
    }

    /// The statistics published last.
    pub fn stats(&self) -> (out: CaptureStats)
        ensures
            out == self.stats,
    {
        self.stats
    }

    /// Starts the engine. The result says whether the capture thread has to be
    /// spawned: it does not where the engine was running already.
    pub fn start(&mut self) -> (spawn: bool)
        ensures
            spawn == !old(self).running,
            *final(self) == if old(self).running {
                *old(self)
            } else {
                CaptureEngine { running: true, thread: true, ..*old(self) }
            },
            *final(self) == engine_started(*old(self)),
    {
        if self.running {
            return false;
        }
        self.running = true;
        self.thread = true;
        true
    }

    /// Takes over statistics that the capture thread has measured.
    pub fn publish(&mut self, stats: CaptureStats)
        ensures
            *final(self) == (CaptureEngine { stats, ..*old(self) }),
    {
        self.stats = stats;
    }

    /// The capture loop has come to its end by itself.
    pub fn finished(&mut self)
        ensures
            *final(self) == (CaptureEngine { running: false, ..*old(self) }),
    {
        self.running = false;
    }

    /// Tells the capture loop to stop. The result says whether there is a thread to
    /// wait for.
    pub fn stop(&mut self) -> (join: bool)
        ensures
            join == old(self).thread,
            *final(self) == (CaptureEngine { running: false, thread: false, ..*old(self) }),
            *final(self) == engine_stopped(*old(self)),
    {
        let join = self.thread;
        self.running = false;
        self.thread = false;
        join
    }

    /// The capture thread has ended: the rates drop to zero.
    pub fn stopped(&mut self)
        ensures
            *final(self) == (CaptureEngine { stats: at_rest(old(self).stats), ..*old(self) }),
    {
        self.stats.running = false;
        self.stats.window_frames = 0;
        self.stats.window_bytes = 0;
    }
}

impl Default for CaptureEngine {
    fn default() -> (engine: CaptureEngine)
        ensures
            engine == (CaptureEngine { running: false, thread: false, stats: no_stats() }),
    {
        CaptureEngine::new()
    }
}

// ---- The capture loop ------------------------------------------------------

/// Nanoseconds without a frame after which the fallback takes one.
pub const IDLE_LIMIT_NS: u64 = 700_000_000;

/// Where the capture loop stands.
#[derive(Clone, Copy, PartialEq, Eq, Debug, Structural)]
pub enum LoopPhase {
    /// At the start of a pass.
    Begin,
    /// Waiting for the native backend's next frame.
    Polling,
    /// Delivering a frame of the native backend.
    DeliveringNative,
    /// Setting the native backend up again.
    Reinitialising,
    /// Resting after that has failed.
    RestingAfterReinit,
    /// Measuring how long ago the last frame was delivered.
    CheckingIdle,
    /// Taking a full frame with the fallback.
    Grabbing,
    /// Delivering the fallback's frame.
    DeliveringGrab,
    /// Resting after the fallback has failed.
    RestingAfterGrab,
    /// Pacing a loop without a native backend.
    Pacing,
    /// The loop has ended.
    Stopped,
}

/// The capture loop: its phase, whether the native backend is there, and whether the
/// platform has a fallback.
#[derive(Clone, Copy, PartialEq, Eq, Debug, Structural)]
pub struct CaptureLoop {
    pub phase: LoopPhase,
    pub native: bool,
    pub fallback: bool,
}

/// What has happened in a phase.
#[derive(Clone, Copy, PartialEq, Eq, Debug, Structural)]
pub enum LoopEvent {
    /// What the phase asks for is done.
    Done,
    /// The native backend has a frame.
    Frame,
    /// The native backend has nothing new.
    NothingNew,
    /// The native backend has lost access to the screen.
    AccessLost,
    /// The native backend is beyond help.
    Fatal,
    /// What the phase asks for has failed.
    Failed,
    /// This many nanoseconds have passed since the last delivery.
    Idle(u64),
}

/// What a phase asks for.
#[derive(Clone, Copy, PartialEq, Eq, Debug, Structural)]
pub enum LoopAction {
    /// Start another pass, unless the engine has been stopped.
    NextPass,
    /// Poll the native backend, waiting this many milliseconds at most.
    Poll(u32),
    /// Deliver the native backend's frame.
    DeliverNative,
    /// Set the native backend up again.
    Reinit,
    /// Measure the time since the last delivery.
    MeasureIdle,
    /// Grab a full frame.
    Grab,
    /// Deliver the grabbed frame.
    DeliverGrab,
    /// Sleep for this many milliseconds.
    Sleep(u64),
    /// End the loop.
    Stop,
}

/// Phase at the end of a pass: without a native backend the loop is paced.
pub open spec fn end_of_pass(native: bool) -> LoopPhase {
    if native {
        LoopPhase::Begin
    } else {
        LoopPhase::Pacing
    }
}

/// The loop after an event.
pub open spec fn loop_after(s: CaptureLoop, event: LoopEvent) -> CaptureLoop {
    match (s.phase, event) {
        (LoopPhase::Begin, _) => CaptureLoop {
            phase: if s.native {
                LoopPhase::Polling
            } else {
                LoopPhase::CheckingIdle
            },
            ..s
        },
        (LoopPhase::Polling, LoopEvent::Frame) => CaptureLoop {
            phase: LoopPhase::DeliveringNative,
            ..s
        },
        (LoopPhase::Polling, LoopEvent::AccessLost) => CaptureLoop {
            phase: LoopPhase::Reinitialising,
            ..s
        },
        (LoopPhase::Polling, LoopEvent::Fatal) => CaptureLoop {
            phase: LoopPhase::CheckingIdle,
            native: false,
            ..s
        },
        (LoopPhase::Polling, _) => CaptureLoop { phase: LoopPhase::CheckingIdle, ..s },
        (LoopPhase::Reinitialising, LoopEvent::Failed) => CaptureLoop {
            phase: LoopPhase::RestingAfterReinit,
            ..s
        },
        (LoopPhase::Reinitialising, _) => CaptureLoop { phase: LoopPhase::CheckingIdle, ..s },
        (LoopPhase::RestingAfterReinit, _) => CaptureLoop { phase: LoopPhase::CheckingIdle, ..s },
        (LoopPhase::CheckingIdle, LoopEvent::Idle(ns)) => CaptureLoop {
            phase: if ns < IDLE_LIMIT_NS {
                end_of_pass(s.native)
            } else if s.fallback {
                LoopPhase::Grabbing
            } else if s.native {
                LoopPhase::Begin
            } else {
                LoopPhase::Stopped
            },
            ..s
        },
        (LoopPhase::Grabbing, LoopEvent::Failed) => CaptureLoop {
            phase: LoopPhase::RestingAfterGrab,
            ..s
        },
        (LoopPhase::Grabbing, _) => CaptureLoop { phase: LoopPhase::DeliveringGrab, ..s },
        (LoopPhase::DeliveringNative, _) => CaptureLoop { phase: end_of_pass(s.native), ..s },
        (LoopPhase::DeliveringGrab, _) => CaptureLoop { phase: end_of_pass(s.native), ..s },
        (LoopPhase::RestingAfterGrab, _) => CaptureLoop { phase: end_of_pass(s.native), ..s },
        (LoopPhase::Pacing, _) => CaptureLoop { phase: LoopPhase::Begin, ..s },
        (LoopPhase::CheckingIdle, _) => s,
        (LoopPhase::Stopped, _) => s,
    }
}

/// What the loop asks for.
pub open spec fn action_of(s: CaptureLoop) -> LoopAction {
    match s.phase {
        LoopPhase::Begin => LoopAction::NextPass,
        LoopPhase::Polling => LoopAction::Poll(150),
        LoopPhase::DeliveringNative => LoopAction::DeliverNative,
        LoopPhase::Reinitialising => LoopAction::Reinit,
        LoopPhase::RestingAfterReinit => LoopAction::Sleep(200),
        LoopPhase::CheckingIdle => LoopAction::MeasureIdle,
        LoopPhase::Grabbing => LoopAction::Grab,
        LoopPhase::DeliveringGrab => LoopAction::DeliverGrab,
        LoopPhase::RestingAfterGrab => LoopAction::Sleep(
            if s.native {
                300
            } else {
                1000
            },
        ),
        LoopPhase::Pacing => LoopAction::Sleep(120),
        LoopPhase::Stopped => LoopAction::Stop,
    }
}

impl CaptureLoop {
    /// A loop about to begin. With neither a native backend nor a fallback there is
    /// nothing to capture with, and it has ended already.
    pub fn new(native: bool, fallback: bool) -> (out: CaptureLoop)
        ensures
            out.native == native,
            out.fallback == fallback,
            out.phase == if native || fallback {
                LoopPhase::Begin
            } else {
                LoopPhase::Stopped
            },
    {
        let phase = if native || fallback {
            LoopPhase::Begin
        } else {
            LoopPhase::Stopped
        };
        CaptureLoop { phase, native, fallback }
    }

    /// What to do next.
    pub fn action(&self) -> (out: LoopAction)
        ensures
            out == action_of(*self),
    {
        match self.phase {
            LoopPhase::Begin => LoopAction::NextPass,
            LoopPhase::Polling => LoopAction::Poll(150),
            LoopPhase::DeliveringNative => LoopAction::DeliverNative,
            LoopPhase::Reinitialising => LoopAction::Reinit,
            LoopPhase::RestingAfterReinit => LoopAction::Sleep(200),
            LoopPhase::CheckingIdle => LoopAction::MeasureIdle,
            LoopPhase::Grabbing => LoopAction::Grab,
            LoopPhase::DeliveringGrab => LoopAction::DeliverGrab,
            LoopPhase::RestingAfterGrab => {
                if self.native {
                    LoopAction::Sleep(300)
                } else {
                    LoopAction::Sleep(1000)
                }
            },
            LoopPhase::Pacing => LoopAction::Sleep(120),
            LoopPhase::Stopped => LoopAction::Stop,
        }
    }

    /// Takes the outcome of the current action.
    pub fn handle(&mut self, event: LoopEvent)
        ensures
            *final(self) == loop_after(*old(self), event),
    {
        let pass_end = if self.native {
            LoopPhase::Begin
        } else {
            LoopPhase::Pacing
        };
        match self.phase {
            LoopPhase::Begin => {
                self.phase = if self.native {
                    LoopPhase::Polling
                } else {
                    LoopPhase::CheckingIdle
                };
            },
            LoopPhase::Polling => match event {
                LoopEvent::Frame => {
                    self.phase = LoopPhase::DeliveringNative;
                },
                LoopEvent::AccessLost => {
                    self.phase = LoopPhase::Reinitialising;
                },
                LoopEvent::Fatal => {
                    self.native = false;
                    self.phase = LoopPhase::CheckingIdle;
                },
                _ => {
                    self.phase = LoopPhase::CheckingIdle;
                },
            },
            LoopPhase::Reinitialising => {
                self.phase = if event == LoopEvent::Failed {
                    LoopPhase::RestingAfterReinit
                } else {
                    LoopPhase::CheckingIdle
                };
            },
            LoopPhase::RestingAfterReinit => {
                self.phase = LoopPhase::CheckingIdle;
            },
            LoopPhase::CheckingIdle => {
                if let LoopEvent::Idle(ns) = event {
                    self.phase = if ns < IDLE_LIMIT_NS {
                        pass_end
                    } else if self.fallback {
                        LoopPhase::Grabbing
                    } else if self.native {
                        LoopPhase::Begin
                    } else {
                        LoopPhase::Stopped
                    };
                }
            },
            LoopPhase::Grabbing => {
                self.phase = if event == LoopEvent::Failed {
                    LoopPhase::RestingAfterGrab
                } else {
                    LoopPhase::DeliveringGrab
                };
            },
            LoopPhase::DeliveringNative => {
                self.phase = pass_end;
            },
            LoopPhase::DeliveringGrab => {
                self.phase = pass_end;
            },
            LoopPhase::RestingAfterGrab => {
                self.phase = pass_end;
            },
            LoopPhase::Pacing => {
                self.phase = LoopPhase::Begin;
            },
            LoopPhase::Stopped => {},
        }
    }
}

/// A native backend that is lost stays lost, a platform keeps its fallback, and an
/// ended loop stays ended.
pub proof fn law_losses_are_final(s: CaptureLoop, event: LoopEvent)
    ensures
        loop_after(s, event).native ==> s.native,
        loop_after(s, event).fallback == s.fallback,
        s.phase is Stopped ==> loop_after(s, event).phase is Stopped,
{
}

/// A loop with a fallback, or with a native backend that does not fail beyond help,
/// never ends by itself.
pub proof fn law_a_loop_that_can_capture_goes_on(s: CaptureLoop, event: LoopEvent)
    requires
        s.phase !is Stopped,
        s.fallback || loop_after(s, event).native,
    ensures
        loop_after(s, event).phase !is Stopped,
{
}

/// Without a native backend and without a fallback the loop ends as soon as the last
/// frame lies back as far as the limit.
pub proof fn law_a_loop_that_cannot_capture_ends(s: CaptureLoop, ns: u64)
    requires
        s.phase is CheckingIdle,
        !s.native,
        !s.fallback,
        ns >= IDLE_LIMIT_NS,
    ensures
        action_of(loop_after(s, LoopEvent::Idle(ns))) == LoopAction::Stop,
{
}

/// The first picture comes at once even from a still screen: where a second has passed
/// since the last delivery, which is what a starting loop assumes, and the first poll
/// brings nothing, the fallback takes a frame.
pub proof fn law_first_frame_is_immediate(s: CaptureLoop, quiet: LoopEvent, ns: u64)
    requires
        s.phase is Begin,
        s.fallback,
        quiet is NothingNew || quiet is Fatal,
        ns >= 1_000_000_000,
    ensures
        ({
            let begun = loop_after(s, LoopEvent::Done);
            let polled = if s.native {
                loop_after(begun, quiet)
            } else {
                begun
            };
            action_of(loop_after(polled, LoopEvent::Idle(ns))) == LoopAction::Grab
        }),
{
}

/// A pass delivers one frame at most: after a delivery the pass is at its end.
pub proof fn law_one_delivery_a_pass(s: CaptureLoop, event: LoopEvent)
    requires
        s.phase is DeliveringNative || s.phase is DeliveringGrab,
    ensures
        action_of(loop_after(s, event)) == LoopAction::NextPass || (action_of(loop_after(s, event))
            == LoopAction::Sleep(120) && action_of(
            loop_after(loop_after(s, event), LoopEvent::Done),
        ) == LoopAction::NextPass),
{
}

// ---- The native backend ----------------------------------------------------

/// What asking the system for the next desktop update has brought.
pub enum Acquired {
    /// An update.
    Update,
    /// Nothing in time.
    Timeout,
    /// The duplication is lost.
    AccessLost,
    /// A failure, with the reason given.
    Failed(String),
}

/// Whether there is an update to look at, or what is wrong.
pub fn acquire_outcome(acquired: Acquired) -> (out: Result<bool, CaptureError>)
    ensures
        match acquired {
            Acquired::Update => out == Ok::<bool, CaptureError>(true),
            Acquired::Timeout => out == Ok::<bool, CaptureError>(false),
            Acquired::AccessLost => out is Err && out->Err_0 is AccessLost,
            Acquired::Failed(why) => out is Err && out->Err_0 is Fatal && out->Err_0->Fatal_0@
                == failure_text("AcquireNextFrame"@, why@),
        },
{
    match acquired {
        Acquired::Update => Ok(true),
        Acquired::Timeout => Ok(false),
        Acquired::AccessLost => Err(CaptureError::AccessLost),
        Acquired::Failed(why) => Err(
            CaptureError::Fatal(call_error("AcquireNextFrame", why.as_str())),
        ),
    }
}

/// The texture that frames are copied through: its size, where there is one.
#[derive(Clone, Copy, Debug)]
pub struct Staging {
    pub size: Option<(u32, u32)>,
}

impl Staging {
    /// No texture yet.
    pub fn new() -> (out: Staging)
        ensures
            out.size is None,
    {
        Staging { size: None }
    }

    /// Whether a texture has to be made for a frame of this size.
    pub fn ensure_staging(&self, width: u32, height: u32) -> (make: bool)
        ensures
            make == (self.size != Some((width, height))),
    {
        match self.size {
            Some((w, h)) => w != width || h != height,
            None => true,
        }
    }

    /// A texture of this size has been made.
    pub fn made(&mut self, width: u32, height: u32)
        ensures
            final(self).size == Some((width, height)),
    {
        self.size = Some((width, height));
    }

    /// The duplication has been set up again, maybe with another resolution: the texture
    /// is not used any more.
    pub fn reinit(&mut self)
        ensures
            final(self).size is None,
    {
        self.size = None;
    }
}

/// Copies a mapped image, whose rows start `pitch` bytes apart, into the buffer, and gives
/// the frame. `reported` holds the rectangles that the system reports as dirty, of which
/// `needed` bytes count; a frame of another size than the buffer's, and one without a
/// report, is copied whole. What is not copied keeps the content of earlier frames.
pub fn copy_frame(
    buffer: &mut FrameBuffer,
    src: &[u8],
    pitch: usize,
    width: u32,
    height: u32,
    reported: Option<&[RawRect]>,
    needed: u32,
) -> (out: CapturedFrame)
    requires
        old(buffer).well_formed(),
        packed_len(width as int, height as int) <= usize::MAX,
        old(buffer).size() == (width, height) && reported is Some ==> rects_in(needed)
            <= reported->0@.len(),
        forall|k: int|
            0 <= k < frame_regions(old(buffer).size(), width, height, reported, needed).len()
                ==> row_readable(
                #[trigger] frame_regions(old(buffer).size(), width, height, reported, needed)[k],
                width as int,
                height as int,
                pitch as int,
                src@.len() as int,
            ),
    ensures
        out.width == width,
        out.height == height,
        out.bytes == packed_len(width as int, height as int),
        out.dirty@ == frame_regions(old(buffer).size(), width, height, reported, needed),
        final(buffer).well_formed(),
        final(buffer).size() == (width, height),
        forall|i: int|
            0 <= i < final(buffer)@.len() ==> #[trigger] final(buffer)@[i] == refreshed(
                resized(old(buffer)@, packed_len(width as int, height as int)),
                width as int,
                src@,
                pitch as int,
                frame_regions(old(buffer).size(), width, height, reported, needed),
                i,
            ),
{
    let dirty = match buffer.fit(width, height) {
        Some(whole) => whole,
        None => read_dirty_rects(reported, needed, width, height),
    };
    assert(dirty@ == frame_regions(old(buffer).size(), width, height, reported, needed));
    assert(buffer@ =~= resized(old(buffer)@, packed_len(width as int, height as int)));
    buffer.copy_dirty(src, pitch, width, height, dirty.as_slice());
    CapturedFrame { width, height, bytes: buffer.bytes().len(), dirty }
}

/// Milliseconds that a backend rests which takes whole frames whenever it is asked.
pub fn pull_wait_ms(timeout_ms: u32) -> (out: u32)
    ensures
        out == if timeout_ms < 30 {
            timeout_ms
        } else {
            30
        },
{
    if timeout_ms < 30 {
        timeout_ms
    } else {
        30
    }
}

// ---- The fallback: grabbing the whole screen -------------------------------

/// A system object that a grab acquires.
#[derive(Clone, Copy, PartialEq, Eq, Debug, Structural)]
pub enum GdiHandle {
    ScreenDc,
    MemoryDc,
    Bitmap,
}

/// The objects that a grab needs, in the order in which it acquires them.
pub open spec fn needed_handles() -> Seq<GdiHandle> {
    seq![GdiHandle::ScreenDc, GdiHandle::MemoryDc, GdiHandle::Bitmap]
}

/// Message for an object that could not be acquired.
pub open spec fn missing_handle_text(handle: GdiHandle) -> Seq<char> {
    match handle {
        GdiHandle::ScreenDc => "GDI: GetDC devolvio nulo"@,
        GdiHandle::MemoryDc => "GDI: CreateCompatibleDC nulo"@,
        GdiHandle::Bitmap => "GDI: CreateCompatibleBitmap nulo"@,
    }
}

/// A grab in progress: the size of the screen and the objects acquired so far.
pub struct GdiGrab {
    width: i32,
    height: i32,
    held: Vec<GdiHandle>,
}

/// A grab that cannot go on: what to release, in order, and the error.
pub struct GdiAbort {
    pub release: Vec<GdiHandle>,
    pub error: CaptureError,
}

impl GdiGrab {
    /// Width and height of the screen.
    pub closed spec fn size(&self) -> (i32, i32) {
        (self.width, self.height)
    }

    /// The objects acquired so far.
    pub closed spec fn held(&self) -> Seq<GdiHandle> {
        self.held@
    }

    /// Whether the grab has a screen to copy and holds the first of the objects it
    /// needs.
    pub open spec fn well_formed(&self) -> bool {
        &&& self.size().0 > 0
        &&& self.size().1 > 0
        &&& self.held().len() <= 3
        &&& self.held() == needed_handles().take(self.held().len() as int)
    }

    /// The object to acquire next; none once all are there and the screen can be
    /// copied.
    pub fn wanted(&self) -> (out: Option<GdiHandle>)
        requires
            self.well_formed(),
        ensures
            out == if self.held().len() < 3 {
                Some(needed_handles()[self.held().len() as int])
            } else {
                None
            },
    {
        let n: usize = self.held.len();
        if n == 0 {
            Some(GdiHandle::ScreenDc)
        } else if n == 1 {
            Some(GdiHandle::MemoryDc)
        } else if n == 2 {
            Some(GdiHandle::Bitmap)
        } else {
            None
        }
    }

    /// What is held, the latest first: the order in which it is released.
    pub fn releases(&self) -> (out: Vec<GdiHandle>)
        ensures
            out@ == self.held().reverse(),
    {
        let n: usize = self.held.len();
        let mut out: Vec<GdiHandle> = Vec::new();
        for i in 0..n
            invariant
                n == self.held@.len(),
                out@ == self.held@.reverse().take(i as int),
        {
            out.push(self.held[n - 1 - i]);
            assert(self.held@.reverse().take(i + 1) =~= self.held@.reverse().take(i as int).push(
                self.held@[n - 1 - i],
            ));
        }
        assert(self.held@.reverse().take(n as int) =~= self.held@.reverse());
        out
    }

    /// Takes the outcome of acquiring the wanted object. Where it failed, everything
    /// held so far is to be released.
    pub fn acquired(&mut self, valid: bool) -> (out: Result<(), GdiAbort>)
        requires
            old(self).well_formed(),
            old(self).held().len() < 3,
        ensures
            final(self).well_formed(),
            final(self).size() == old(self).size(),
            valid ==> out is Ok && final(self).held().len() == old(self).held().len() + 1,
            !valid ==> {
                &&& out is Err
                &&& out->Err_0.release@ == old(self).held().reverse()
                &&& out->Err_0.error is Fatal
                &&& out->Err_0.error->Fatal_0@ == missing_handle_text(
                    needed_handles()[old(self).held().len() as int],
                )
                &&& final(self).held() == old(self).held()
            },
    {
        let n: usize = self.held.len();
        let (handle, text) = if n == 0 {
            (GdiHandle::ScreenDc, "GDI: GetDC devolvio nulo")
        } else if n == 1 {
            (GdiHandle::MemoryDc, "GDI: CreateCompatibleDC nulo")
        } else {
            (GdiHandle::Bitmap, "GDI: CreateCompatibleBitmap nulo")
        };
        if !valid {
            return Err(
                GdiAbort {
                    release: self.releases(),
                    error: CaptureError::Fatal(text.to_owned()),
                },
            );
        }
        self.held.push(handle);
        assert(self.held@ =~= needed_handles().take(n + 1));
        Ok(())
    }
}

/// Takes full frames of the screen where the native backend brings none.
pub struct GdiGrabber {
    buffer: Vec<u8>,
}

impl View for GdiGrabber {
    type V = Seq<u8>;

    closed spec fn view(&self) -> Seq<u8> {
        self.buffer@
    }
}

impl GdiGrabber {
    /// A grabber that has taken no frame yet.
    pub fn new() -> (out: GdiGrabber)
        ensures
            out@ == Seq::<u8>::empty(),
    {
        GdiGrabber { buffer: Vec::new() }
    }

    /// The bytes of the last frame.
    pub fn buffer(&self) -> (out: &[u8])
        ensures
            out@ == self@,
    {
        self.buffer.as_slice()
    }

    /// Begins a grab of a screen of the given size.
    pub fn grab(&self, width: i32, height: i32) -> (out: Result<GdiGrab, CaptureError>)
        ensures
            width <= 0 || height <= 0 ==> {
                &&& out is Err
                &&& out->Err_0 is Fatal
                &&& out->Err_0->Fatal_0@ == "GDI: dimensiones de pantalla invalidas"@
            },
            width > 0 && height > 0 ==> {
                &&& out is Ok
                &&& out->Ok_0.well_formed()
                &&& out->Ok_0.size() == (width, height)
                &&& out->Ok_0.held().len() == 0
            },
    {
        if width <= 0 || height <= 0 {
            return Err(CaptureError::Fatal("GDI: dimensiones de pantalla invalidas".to_owned()));
        }
        let held: Vec<GdiHandle> = Vec::new();
        assert(held@ =~= needed_handles().take(0));
        Ok(GdiGrab { width, height, held })
    }

    /// The buffer that the copied screen is read into, with the size of the frame.
    pub fn target(&mut self, grab: &GdiGrab) -> (out: &mut [u8])
        requires
            grab.well_formed(),
            packed_len(grab.size().0 as int, grab.size().1 as int) <= usize::MAX,
        ensures
            out@ == resized(old(self)@, packed_len(grab.size().0 as int, grab.size().1 as int)),
            final(self)@ == final(out)@,
    {
        resize_to(&mut self.buffer, grab.width as u32, grab.height as u32);
        self.buffer.as_mut_slice()
    }

    /// Ends a grab whose screen has been copied and whose objects have been released:
    /// `copied` says whether the copy succeeded, `lines` how many lines were read.
    /// The frame counts as dirty throughout.
    pub fn finish(&self, grab: &GdiGrab, copied: bool, lines: i32) -> (out: Result<
        CapturedFrame,
        CaptureError,
    >)
        requires
            grab.well_formed(),
        ensures
            !copied ==> out is Err && out->Err_0 is Fatal && out->Err_0->Fatal_0@
                == "GDI: BitBlt fallo"@,
            copied && lines == 0 ==> out is Err && out->Err_0 is Fatal && out->Err_0->Fatal_0@
                == "GDI: GetDIBits copio 0 lineas"@,
            copied && lines != 0 ==> {
                &&& out is Ok
                &&& out->Ok_0.width == grab.size().0
                &&& out->Ok_0.height == grab.size().1
                &&& out->Ok_0.bytes == self@.len()
                &&& out->Ok_0.dirty@ == seq![
                    (0u32, 0u32, grab.size().0 as u32, grab.size().1 as u32),
                ]
            },
    {
        if !copied {
            return Err(CaptureError::Fatal("GDI: BitBlt fallo".to_owned()));
        }
        if lines == 0 {
            return Err(CaptureError::Fatal("GDI: GetDIBits copio 0 lineas".to_owned()));
        }
        let width: u32 = grab.width as u32;
        let height: u32 = grab.height as u32;
        let mut dirty: Vec<DirtyRect> = Vec::new();
        dirty.push((0, 0, width, height));
        Ok(CapturedFrame { width, height, bytes: self.buffer.len(), dirty })
    }
}

/// Releasing what is held, the latest first, releases each object once and no other:
/// a grab leaks nothing, wherever it ends.
pub proof fn law_grab_releases_what_it_holds(grab: GdiGrab, handle: GdiHandle)
    requires
        grab.well_formed(),
    ensures
        grab.held().reverse().no_duplicates(),
        grab.held().reverse().contains(handle) == grab.held().contains(handle),
{
    let held = grab.held();
    let back = held.reverse();
    assert forall|i: int, j: int| 0 <= i < back.len() && 0 <= j < back.len() && i != j implies back[i]
        != back[j] by {
        assert(back[i] == needed_handles()[held.len() - 1 - i]);
        assert(back[j] == needed_handles()[held.len() - 1 - j]);
    }
    if held.contains(handle) {
        let i = choose|i: int| 0 <= i < held.len() && held[i] == handle;
        assert(back[held.len() - 1 - i] == handle);
    }
    if back.contains(handle) {
        let i = choose|i: int| 0 <= i < back.len() && back[i] == handle;
        assert(held[held.len() - 1 - i] == handle);
    }
}

// ---- Laws of capturing -----------------------------------------------------

/// A pass of the loop with a native backend: it is polled for 150 milliseconds at most. A frame
/// is delivered; a lost access is followed by setting the backend up again, and by a rest of
/// 200 milliseconds where that fails; a backend that is beyond help is given up. Whatever does
/// not bring a frame leads to looking how long the last delivery lies back.
pub proof fn law_a_pass_polls_and_delivers(fallback: bool, event: LoopEvent)
    ensures
        ({
            let begin = CaptureLoop { phase: LoopPhase::Begin, native: true, fallback };
            let polling = loop_after(begin, event);
            let framed = loop_after(polling, LoopEvent::Frame);
            let quiet = loop_after(polling, LoopEvent::NothingNew);
            let lost = loop_after(polling, LoopEvent::AccessLost);
            let failed = loop_after(polling, LoopEvent::Fatal);
            &&& action_of(begin) == LoopAction::NextPass
            &&& action_of(polling) == LoopAction::Poll(150)
            &&& action_of(framed) == LoopAction::DeliverNative && framed.native
            &&& action_of(loop_after(framed, event)) == LoopAction::NextPass
            &&& action_of(quiet) == LoopAction::MeasureIdle && quiet.native
            &&& action_of(lost) == LoopAction::Reinit && lost.native
            &&& action_of(loop_after(lost, LoopEvent::Done)) == LoopAction::MeasureIdle
            &&& action_of(loop_after(lost, LoopEvent::Failed)) == LoopAction::Sleep(200)
            &&& action_of(loop_after(loop_after(lost, LoopEvent::Failed), event))
                == LoopAction::MeasureIdle
            &&& loop_after(loop_after(lost, LoopEvent::Failed), event).native
            &&& action_of(failed) == LoopAction::MeasureIdle && !failed.native
        }),
{
}

/// A loop without a native backend does not poll, but looks at once how long the last delivery
/// lies back.
pub proof fn law_without_a_backend_nothing_is_polled(fallback: bool, event: LoopEvent)
    ensures
        ({
            let begin = CaptureLoop { phase: LoopPhase::Begin, native: false, fallback };
            action_of(loop_after(begin, event)) == LoopAction::MeasureIdle && !loop_after(
                begin,
                event,
            ).native
        }),
{
}

/// Where the last delivery lies back 700 milliseconds the fallback grabs a frame, which is
/// delivered. Before that, and after it, the pass ends: at once with a native backend, and
/// after 120 milliseconds without one. After a grab that failed the loop rests, for 300
/// milliseconds or for a second.
pub proof fn law_the_fallback_takes_over_after_a_while(native: bool, ns: u64, event: LoopEvent)
    ensures
        ({
            let looking = CaptureLoop { phase: LoopPhase::CheckingIdle, native, fallback: true };
            let next = loop_after(looking, LoopEvent::Idle(ns));
            let grabbing = CaptureLoop { phase: LoopPhase::Grabbing, native, fallback: true };
            let taken = loop_after(grabbing, LoopEvent::Done);
            let failed = loop_after(grabbing, LoopEvent::Failed);
            let end = if native {
                LoopAction::NextPass
            } else {
                LoopAction::Sleep(120)
            };
            &&& ns >= 700_000_000 ==> action_of(next) == LoopAction::Grab
            &&& ns < 700_000_000 ==> action_of(next) == end
            &&& action_of(taken) == LoopAction::DeliverGrab
            &&& action_of(loop_after(taken, event)) == end
            &&& action_of(failed) == LoopAction::Sleep(
                if native {
                    300
                } else {
                    1000
                },
            )
            &&& action_of(loop_after(failed, event)) == end
            &&& next.native == native && taken.native == native && failed.native == native
        }),
        ({
            let paced = CaptureLoop { phase: LoopPhase::Pacing, native, fallback: true };
            action_of(loop_after(paced, event)) == LoopAction::NextPass
        }),
{
}

/// Without a fallback a quiet screen is polled again, as long as there is a native backend.
pub proof fn law_without_a_fallback_the_backend_is_polled_on(ns: u64)
    ensures
        ({
            let looking = CaptureLoop {
                phase: LoopPhase::CheckingIdle,
                native: true,
                fallback: false,
            };
            action_of(loop_after(looking, LoopEvent::Idle(ns))) == LoopAction::NextPass
        }),
{
}

/// Counters after some frames of the given sizes have been counted.
pub open spec fn counted(meter: CaptureMeter, sizes: Seq<usize>) -> CaptureMeter
    decreases sizes.len(),
{
    if sizes.len() == 0 {
        meter
    } else {
        one_more(counted(meter, sizes.drop_last()), sizes.last())
    }
}

/// The sum of some sizes.
pub open spec fn sum_of(sizes: Seq<usize>) -> int
    decreases sizes.len(),
{
    if sizes.len() == 0 {
        0
    } else {
        sum_of(sizes.drop_last()) + sizes.last()
    }
}

/// Every frame that is counted counts once, in the total and in the window, and all of its
/// bytes count.
pub proof fn law_every_frame_counts_once(meter: CaptureMeter, sizes: Seq<usize>)
    requires
        meter.frames_total + sizes.len() <= u64::MAX,
        meter.window_frames + sizes.len() <= u32::MAX,
        meter.window_bytes + sum_of(sizes) <= u64::MAX,
    ensures
        counted(meter, sizes).frames_total == meter.frames_total + sizes.len(),
        counted(meter, sizes).window_frames == meter.window_frames + sizes.len(),
        counted(meter, sizes).window_bytes == meter.window_bytes + sum_of(sizes),
    decreases sizes.len(),
{
    if sizes.len() > 0 {
        law_every_frame_counts_once(meter, sizes.drop_last());
    }
}

/// An engine that has been stopped shows no rates and does not run, but its totals and the
/// last picture's size stay.
pub proof fn law_a_stopped_engine_keeps_its_totals(stats: CaptureStats)
    ensures
        at_rest(stats).window_frames == 0,
        at_rest(stats).window_bytes == 0,
        !at_rest(stats).running,
        at_rest(stats).frames == stats.frames,
        at_rest(stats).width == stats.width,
        at_rest(stats).height == stats.height,
        at_rest(stats).last_frame_bytes == stats.last_frame_bytes,
        at_rest(stats).window_ns == stats.window_ns,
        no_stats().frames == 0 && no_stats().width == 0 && no_stats().height == 0,
        no_stats() == at_rest(no_stats()),
{
}

/// A grab acquires the screen, then a memory context, then a bitmap, and releases them the
/// other way round.
pub proof fn law_objects_are_released_the_other_way_round()
    ensures
        needed_handles().len() == 3,
        needed_handles()[0] is ScreenDc,
        needed_handles()[1] is MemoryDc,
        needed_handles()[2] is Bitmap,
        needed_handles().reverse() == seq![
            GdiHandle::Bitmap,
            GdiHandle::MemoryDc,
            GdiHandle::ScreenDc,
        ],
        missing_handle_text(GdiHandle::ScreenDc) == "GDI: GetDC devolvio nulo"@,
        missing_handle_text(GdiHandle::MemoryDc) == "GDI: CreateCompatibleDC nulo"@,
        missing_handle_text(GdiHandle::Bitmap) == "GDI: CreateCompatibleBitmap nulo"@,
{
    assert(needed_handles().reverse() =~= seq![
        GdiHandle::Bitmap,
        GdiHandle::MemoryDc,
        GdiHandle::ScreenDc,
    ]);
}

/// Starting an engine twice is starting it once: the second start changes nothing and spawns
/// no thread. An engine that is stopped can be started again, and there is nothing to wait for
/// where none was started.
pub proof fn law_an_engine_runs_once(engine: CaptureEngine)
    ensures
        engine_started(engine).running,
        engine_started(engine_started(engine)) == engine_started(engine),
        !engine_stopped(engine).running && !engine_stopped(engine).thread,
        engine_stopped(engine_stopped(engine)) == engine_stopped(engine),
        engine_started(engine_stopped(engine)) == (CaptureEngine {
            running: true,
            thread: true,
            stats: engine.stats,
        }),
        engine.running ==> engine_started(engine) == engine,
        engine_stopped(engine).stats == engine.stats,
{
}

/// Only a failure beyond help while polling makes the loop give up its native backend.
pub proof fn law_only_a_fatal_poll_gives_up_the_backend(s: CaptureLoop, event: LoopEvent)
    ensures
        loop_after(s, event).native <==> s.native && !(s.phase is Polling && event is Fatal),
        loop_after(s, event).fallback == s.fallback,
{
}

/// Statistics are published twice a second at most.
pub proof fn law_statistics_come_twice_a_second()
    ensures
        2 * STATS_INTERVAL_NS == 1_000_000_000,
{
}

/// What was counted is published once, and nothing is lost: what the statistics show of a window
/// and what the counters keep of it are together what was counted, and the total goes on. The
/// statistics come after half a second and not before.
pub proof fn law_what_was_counted_is_published_once(
    meter: CaptureMeter,
    window_ns: u64,
    width: u32,
    height: u32,
    bytes: usize,
)
    ensures
        ({
            let (stats, after) = reported(meter, window_ns, width, height, bytes);
            &&& stats is Some <==> window_ns >= 500_000_000
            &&& after.frames_total == meter.frames_total
            &&& stats is None ==> after == meter
            &&& stats is Some ==> {
                &&& stats->0.window_frames == meter.window_frames && after.window_frames == 0
                &&& stats->0.window_bytes == meter.window_bytes && after.window_bytes == 0
                &&& stats->0.frames == meter.frames_total
                &&& stats->0.width == width && stats->0.height == height
                &&& stats->0.last_frame_bytes == bytes
                &&& stats->0.window_ns == window_ns
                &&& stats->0.running
            }
        }),
{
}

} // verus!

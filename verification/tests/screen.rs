use otiscorp_remote::capture::{
    acquire_outcome, pull_wait_ms, Acquired, CaptureEngine, CaptureError, CaptureLoop,
    CaptureMeter, CaptureStats, FrameSink, GdiGrabber, GdiHandle, LoopAction, LoopEvent, LoopPhase,
    Staging,
};

fn fatal(e: CaptureError) -> String {
    match e {
        CaptureError::Fatal(text) => text,
        CaptureError::AccessLost => panic!("not fatal"),
    }
}

struct Counting {
    frames: u32,
}

impl FrameSink for Counting {
    fn on_frame(&mut self, _width: u32, _height: u32, _bgra: &[u8], dirty: &[(u32, u32, u32, u32)]) {
        self.frames += dirty.len() as u32;
    }
}

#[test]
fn sinks_get_the_dirty_regions() {
    let mut sink = Counting { frames: 0 };
    sink.on_frame(1, 1, &[0; 4], &[(0, 0, 1, 1)]);
    assert_eq!(sink.frames, 1);
}

#[test]
fn statistics_are_published_twice_a_second() {
    let mut meter = CaptureMeter::new();
    meter.count_frame(400);
    assert_eq!(meter.report(499_999_999, 10, 10, 400), None);
    meter.count_frame(400);
    assert_eq!(
        meter.report(500_000_000, 10, 10, 400),
        Some(CaptureStats {
            window_frames: 2,
            window_bytes: 800,
            window_ns: 500_000_000,
            width: 10,
            height: 10,
            frames: 2,
            last_frame_bytes: 400,
            running: true,
        })
    );
    assert_eq!(meter, CaptureMeter { frames_total: 2, window_frames: 0, window_bytes: 0 });
}

#[test]
fn an_engine_starts_once_and_rests_when_stopped() {
    let mut engine = CaptureEngine::default();
    assert!(!engine.is_running());
    assert!(engine.start());
    assert!(!engine.start());
    let mut stats = CaptureStats::default();
    stats.window_frames = 7;
    stats.frames = 99;
    stats.running = true;
    engine.publish(stats);
    assert_eq!(engine.stats().frames, 99);
    assert!(engine.stop());
    engine.stopped();
    assert!(!engine.is_running());
    assert_eq!(engine.stats().window_frames, 0);
    assert_eq!(engine.stats().frames, 99);
    assert!(!engine.stats().running);
    assert!(!engine.stop());
    assert!(engine.start());
    engine.finished();
    assert!(!engine.is_running());
    assert!(engine.start());
}

#[test]
fn a_still_screen_gets_its_first_frame_from_the_fallback() {
    let mut state = CaptureLoop::new(true, true);
    assert_eq!(state.action(), LoopAction::NextPass);
    state.handle(LoopEvent::Done);
    assert_eq!(state.action(), LoopAction::Poll(150));
    state.handle(LoopEvent::NothingNew);
    assert_eq!(state.action(), LoopAction::MeasureIdle);
    state.handle(LoopEvent::Idle(1_000_000_000));
    assert_eq!(state.action(), LoopAction::Grab);
    state.handle(LoopEvent::Done);
    assert_eq!(state.action(), LoopAction::DeliverGrab);
    state.handle(LoopEvent::Done);
    assert_eq!(state.action(), LoopAction::NextPass);
}

#[test]
fn a_native_frame_is_delivered_without_a_look_at_the_clock() {
    let mut state = CaptureLoop::new(true, false);
    state.handle(LoopEvent::Done);
    state.handle(LoopEvent::Frame);
    assert_eq!(state.action(), LoopAction::DeliverNative);
    state.handle(LoopEvent::Done);
    assert_eq!(state.action(), LoopAction::NextPass);
}

#[test]
fn lost_access_is_set_up_again() {
    let mut state = CaptureLoop::new(true, true);
    state.handle(LoopEvent::Done);
    state.handle(LoopEvent::AccessLost);
    assert_eq!(state.action(), LoopAction::Reinit);
    state.handle(LoopEvent::Failed);
    assert_eq!(state.action(), LoopAction::Sleep(200));
    state.handle(LoopEvent::Done);
    state.handle(LoopEvent::Idle(10));
    assert_eq!(state.action(), LoopAction::NextPass);
    assert!(state.native);
}

#[test]
fn a_dead_backend_is_replaced_by_the_fallback_at_a_slow_pace() {
    let mut state = CaptureLoop::new(true, true);
    state.handle(LoopEvent::Done);
    state.handle(LoopEvent::Fatal);
    assert!(!state.native);
    state.handle(LoopEvent::Idle(699_999_999));
    assert_eq!(state.action(), LoopAction::Sleep(120));
    state.handle(LoopEvent::Done);
    state.handle(LoopEvent::Done);
    assert_eq!(state.action(), LoopAction::MeasureIdle);
    state.handle(LoopEvent::Idle(700_000_000));
    assert_eq!(state.action(), LoopAction::Grab);
    state.handle(LoopEvent::Failed);
    assert_eq!(state.action(), LoopAction::Sleep(1000));
    state.handle(LoopEvent::Done);
    assert_eq!(state.action(), LoopAction::Sleep(120));
}

#[test]
fn a_failed_grab_rests_less_beside_a_native_backend() {
    let mut state = CaptureLoop { phase: LoopPhase::Grabbing, native: true, fallback: true };
    state.handle(LoopEvent::Failed);
    assert_eq!(state.action(), LoopAction::Sleep(300));
}

#[test]
fn without_any_backend_the_loop_ends() {
    assert_eq!(CaptureLoop::new(false, false).action(), LoopAction::Stop);
    let mut state = CaptureLoop::new(true, false);
    state.handle(LoopEvent::Done);
    state.handle(LoopEvent::Fatal);
    state.handle(LoopEvent::Idle(700_000_000));
    assert_eq!(state.action(), LoopAction::Stop);
    state.handle(LoopEvent::Done);
    assert_eq!(state.action(), LoopAction::Stop);
}

#[test]
fn updates_are_told_from_failures() {
    assert!(matches!(acquire_outcome(Acquired::Update), Ok(true)));
    assert!(matches!(acquire_outcome(Acquired::Timeout), Ok(false)));
    assert!(matches!(acquire_outcome(Acquired::AccessLost), Err(CaptureError::AccessLost)));
    match acquire_outcome(Acquired::Failed("e".to_string())) {
        Err(e) => assert_eq!(fatal(e), "AcquireNextFrame: e"),
        Ok(_) => panic!("a failure is no update"),
    }
}

#[test]
fn the_texture_is_made_anew_for_another_size() {
    let mut staging = Staging::new();
    assert!(staging.ensure_staging(10, 20));
    staging.made(10, 20);
    assert!(!staging.ensure_staging(10, 20));
    assert!(staging.ensure_staging(10, 21));
    staging.reinit();
    assert!(staging.ensure_staging(10, 20));
    assert_eq!(pull_wait_ms(150), 30);
    assert_eq!(pull_wait_ms(5), 5);
}

#[test]
fn a_grab_takes_the_whole_screen() {
    let mut grabber = GdiGrabber::new();
    assert!(grabber.buffer().is_empty());
    let mut grab = match grabber.grab(2, 3) {
        Ok(grab) => grab,
        Err(_) => panic!("the screen has a size"),
    };
    for handle in [GdiHandle::ScreenDc, GdiHandle::MemoryDc, GdiHandle::Bitmap] {
        assert_eq!(grab.wanted(), Some(handle));
        assert!(grab.acquired(true).is_ok());
    }
    assert_eq!(grab.wanted(), None);
    grabber.target(&grab).fill(5);
    assert_eq!(
        grab.releases(),
        vec![GdiHandle::Bitmap, GdiHandle::MemoryDc, GdiHandle::ScreenDc]
    );
    let frame = match grabber.finish(&grab, true, 3) {
        Ok(frame) => frame,
        Err(_) => panic!("the grab succeeded"),
    };
    assert_eq!((frame.width, frame.height, frame.bytes), (2, 3, 24));
    assert_eq!(frame.dirty, vec![(0, 0, 2, 3)]);
    assert_eq!(grabber.buffer(), [5u8; 24]);
}

#[test]
fn a_grab_that_fails_releases_what_it_holds() {
    let grabber = GdiGrabber::new();
    for (w, h) in [(0, 5), (5, 0), (-1, 5)] {
        match grabber.grab(w, h) {
            Err(e) => assert_eq!(fatal(e), "GDI: dimensiones de pantalla invalidas"),
            Ok(_) => panic!("there is no screen"),
        }
    }
    let texts = [
        "GDI: GetDC devolvio nulo",
        "GDI: CreateCompatibleDC nulo",
        "GDI: CreateCompatibleBitmap nulo",
    ];
    let releases = [vec![], vec![GdiHandle::ScreenDc], vec![GdiHandle::MemoryDc, GdiHandle::ScreenDc]];
    for held in 0..3 {
        let mut grab = grabber.grab(4, 4).ok().unwrap();
        for _ in 0..held {
            assert!(grab.acquired(true).is_ok());
        }
        match grab.acquired(false) {
            Err(abort) => {
                assert_eq!(abort.release, releases[held]);
                assert_eq!(fatal(abort.error), texts[held]);
            }
            Ok(()) => panic!("the handle is missing"),
        }
    }
    let grab = grabber.grab(4, 4).ok().unwrap();
    assert_eq!(fatal(grabber.finish(&grab, false, 0).err().unwrap()), "GDI: BitBlt fallo");
    assert_eq!(fatal(grabber.finish(&grab, true, 0).err().unwrap()), "GDI: GetDIBits copio 0 lineas");
}

use otiscorp_remote::capture::copy_frame;
use otiscorp_remote::framebuffer::{
    clamp_rect, has_new_content, read_dirty_rects, FrameBuffer, RawRect,
};
use otiscorp_remote::h264enc::{
    contains_idr_or_sps, copied_len, drain_output, level_for, low_latency_tuning, make_video_type,
    packed_pair, Candidate, CodecProperty, DrainStep, EncodedFrame, EncoderSetup, FeedStep,
    H264Encoder, OutputEvent, SetupEvent, SetupStep, VideoAttribute,
};
use otiscorp_remote::nv12::{
    clamp_u8, nv12_size, patch_nv12_from_bgra, rgb_to_u, rgb_to_v, rgb_to_y,
};

#[test]
fn patch_only_touches_dirty_rows() {
    let w = 8usize;
    let h = 8usize;
    let mut nv12 = vec![7u8; nv12_size(w, h)];
    let mut bgra = vec![0u8; w * h * 4];
    for y in 0..4 {
        for x in 0..w {
            let i = (y * w + x) * 4;
            bgra[i] = 255;
            bgra[i + 1] = 255;
            bgra[i + 2] = 255;
            bgra[i + 3] = 255;
        }
    }
    patch_nv12_from_bgra(&mut nv12, w, h, &bgra, &[(0, 0, w as u32, 4)]);

    let y_plane = &nv12[..w * h];
    for y in 0..4 {
        for x in 0..w {
            assert_ne!(y_plane[y * w + x], 7, "row {y} should have been repainted");
        }
    }
    for y in 4..8 {
        for x in 0..w {
            assert_eq!(y_plane[y * w + x], 7, "row {y} should not have been touched");
        }
    }
}

#[test]
fn idr_detection_finds_nal_type_5_and_7() {
    let sps = [0x00, 0x00, 0x00, 0x01, 0x67, 0xAA, 0xBB];
    assert!(contains_idr_or_sps(&sps));
    let non_idr = [0x00, 0x00, 0x00, 0x01, 0x41, 0xAA, 0xBB];
    assert!(!contains_idr_or_sps(&non_idr));
}

#[test]
fn idr_is_found_behind_other_units_and_short_buffers_hold_none() {
    assert!(contains_idr_or_sps(&[0, 0, 1, 0x41, 9, 0, 0, 1, 0x65]));
    assert!(contains_idr_or_sps(&[0, 0, 1, 0x65]));
    assert!(!contains_idr_or_sps(&[0, 0, 1]));
    assert!(!contains_idr_or_sps(&[]));
    assert!(!contains_idr_or_sps(&[0, 0, 0, 1]));
}

#[test]
fn colours_have_their_studio_values() {
    assert_eq!((rgb_to_y(255, 255, 255), rgb_to_u(255, 255, 255), rgb_to_v(255, 255, 255)), (235, 128, 128));
    assert_eq!((rgb_to_y(0, 0, 0), rgb_to_u(0, 0, 0), rgb_to_v(0, 0, 0)), (16, 128, 128));
    assert_eq!((rgb_to_y(255, 0, 0), rgb_to_u(255, 0, 0), rgb_to_v(255, 0, 0)), (82, 90, 240));
    assert_eq!((rgb_to_y(0, 255, 0), rgb_to_u(0, 255, 0), rgb_to_v(0, 255, 0)), (144, 54, 34));
    assert_eq!((rgb_to_y(0, 0, 255), rgb_to_u(0, 0, 255), rgb_to_v(0, 0, 255)), (41, 240, 110));
}

#[test]
fn every_colour_stays_in_the_studio_range() {
    for r in (0..=255u32).step_by(15) {
        for g in (0..=255u32).step_by(15) {
            for b in (0..=255u32).step_by(15) {
                let (r, g, b) = (r as u8, g as u8, b as u8);
                assert!((16..=235).contains(&rgb_to_y(r, g, b)));
                assert!((16..=240).contains(&rgb_to_u(r, g, b)));
                assert!((16..=240).contains(&rgb_to_v(r, g, b)));
            }
        }
    }
}

#[test]
fn clamping_holds_numbers_to_bytes() {
    assert_eq!(clamp_u8(-1), 0);
    assert_eq!(clamp_u8(300), 255);
    assert_eq!(clamp_u8(77), 77);
}

#[test]
fn canvas_sizes_round_chroma_up() {
    assert_eq!(nv12_size(8, 8), 96);
    assert_eq!(nv12_size(3, 3), 17);
    assert_eq!(nv12_size(0, 0), 0);
}

fn picture(w: usize, h: usize, seed: usize) -> Vec<u8> {
    (0..w * h * 4).map(|i| ((i * 37 + seed * 101) % 251) as u8).collect()
}

#[test]
fn whole_frame_repaints_and_no_region_changes_nothing() {
    let (w, h) = (5usize, 3usize);
    let bgra = picture(w, h, 1);
    let mut a = vec![1u8; nv12_size(w, h)];
    let mut b = vec![2u8; nv12_size(w, h)];
    patch_nv12_from_bgra(&mut a, w, h, &bgra, &[(0, 0, w as u32, h as u32)]);
    patch_nv12_from_bgra(&mut b, w, h, &bgra, &[(0, 0, w as u32, h as u32)]);
    assert_eq!(a, b);
    assert_eq!(a[0], rgb_to_y(bgra[2], bgra[1], bgra[0]));
    let before = a.clone();
    patch_nv12_from_bgra(&mut a, w, h, &picture(w, h, 2), &[]);
    assert_eq!(a, before);
}

#[test]
fn patching_a_change_equals_painting_afresh() {
    let (w, h) = (6usize, 6usize);
    let old = picture(w, h, 3);
    let mut new = old.clone();
    for y in 2..4 {
        for x in 2..4 {
            new[(y * w + x) * 4] ^= 0x55;
        }
    }
    let mut patched = vec![0u8; nv12_size(w, h)];
    patch_nv12_from_bgra(&mut patched, w, h, &old, &[(0, 0, 6, 6)]);
    patch_nv12_from_bgra(&mut patched, w, h, &new, &[(2, 2, 2, 2)]);
    let mut fresh = vec![0u8; nv12_size(w, h)];
    patch_nv12_from_bgra(&mut fresh, w, h, &new, &[(0, 0, 6, 6)]);
    assert_eq!(patched, fresh);
}

#[test]
fn luma_that_no_region_covers_is_kept() {
    let white = [255u8; 16];
    let mut canvas = vec![7u8; 6];
    patch_nv12_from_bgra(&mut canvas, 2, 2, &white, &[(0, 1, 2, 1)]);
    assert_eq!(canvas, [7, 7, 235, 235, 128, 128]);
    let mut canvas = vec![7u8; 6];
    patch_nv12_from_bgra(&mut canvas, 2, 2, &white, &[(1, 0, 1, 2)]);
    assert_eq!(canvas, [7, 235, 7, 235, 128, 128]);
    let mut canvas = vec![7u8; 6];
    patch_nv12_from_bgra(&mut canvas, 2, 2, &white, &[(2, 2, 5, 5), (0, 0, 0, 0)]);
    assert_eq!(canvas, [7u8; 6]);
    // The far edges of a region may lie beyond any canvas.
    patch_nv12_from_bgra(&mut canvas, 2, 2, &white, &[(1, 1, u32::MAX, u32::MAX)]);
    assert_eq!(canvas, [7, 7, 7, 235, 128, 128]);
}

#[test]
fn patching_regions_with_odd_edges_equals_painting_afresh() {
    let (w, h) = (7usize, 5usize);
    let old = picture(w, h, 5);
    for rect in [(1u32, 1u32, 1u32, 1u32), (3, 1, 3, 2), (5, 3, 2, 2), (0, 1, 7, 3)] {
        let mut new = old.clone();
        for y in rect.1..rect.1 + rect.3 {
            for x in rect.0..rect.0 + rect.2 {
                new[(y as usize * w + x as usize) * 4 + 1] ^= 0x5a;
            }
        }
        let whole = [(0, 0, w as u32, h as u32)];
        let mut patched = vec![0u8; nv12_size(w, h)];
        patch_nv12_from_bgra(&mut patched, w, h, &old, &whole);
        patch_nv12_from_bgra(&mut patched, w, h, &new, &[rect]);
        let mut fresh = vec![9u8; nv12_size(w, h)];
        patch_nv12_from_bgra(&mut fresh, w, h, &new, &whole);
        assert_eq!(patched, fresh);
    }
}

#[test]
fn a_canvas_that_is_too_small_is_left_alone() {
    let mut canvas = vec![9u8; 10];
    patch_nv12_from_bgra(&mut canvas, 8, 8, &picture(8, 8, 1), &[(0, 0, 8, 8)]);
    assert_eq!(canvas, vec![9u8; 10]);
}

#[test]
fn rectangles_are_cut_to_the_frame() {
    let r = |left, top, right, bottom| RawRect { left, top, right, bottom };
    assert_eq!(clamp_rect(&r(-5, -5, 10, 10), 100, 50), Some((0, 0, 10, 10)));
    assert_eq!(clamp_rect(&r(90, 40, 200, 200), 100, 50), Some((90, 40, 10, 10)));
    assert_eq!(clamp_rect(&r(10, 10, 10, 20), 100, 50), None);
    assert_eq!(clamp_rect(&r(-9, 0, -1, 20), 100, 50), None);
}

#[test]
fn dirty_regions_are_read_or_taken_to_be_the_whole_frame() {
    let rects = [
        RawRect { left: 0, top: 0, right: 4, bottom: 4 },
        RawRect { left: 9, top: 9, right: 9, bottom: 9 },
        RawRect { left: 2, top: 2, right: 99, bottom: 3 },
    ];
    assert_eq!(read_dirty_rects(Some(&rects), 48, 10, 10), vec![(0, 0, 4, 4), (2, 2, 8, 1)]);
    assert_eq!(read_dirty_rects(Some(&rects), 31, 10, 10), vec![(0, 0, 4, 4)]);
    assert_eq!(read_dirty_rects(None, 0, 10, 20), vec![(0, 0, 10, 20)]);
}

#[test]
fn a_moved_cursor_is_no_new_content() {
    assert!(has_new_content(true, 1));
    assert!(!has_new_content(true, 0));
    assert!(!has_new_content(false, 3));
}

#[test]
fn the_buffer_keeps_what_is_not_dirty() {
    let mut buffer = FrameBuffer::new();
    assert_eq!(buffer.fit(3, 2), Some(vec![(0, 0, 3, 2)]));
    assert_eq!(buffer.fit(3, 2), None);
    assert_eq!(buffer.bytes().len(), 24);
    // Rows of the source start 16 bytes apart.
    let first: Vec<u8> = (0..32).collect();
    let whole = [RawRect { left: 0, top: 0, right: 3, bottom: 2 }];
    let frame = copy_frame(&mut buffer, &first, 16, 3, 2, Some(&whole), 16);
    assert_eq!(frame.dirty, vec![(0, 0, 3, 2)]);
    assert_eq!((frame.width, frame.height, frame.bytes), (3, 2, 24));
    assert_eq!(buffer.bytes()[..12], first[..12]);
    assert_eq!(buffer.bytes()[12..], first[16..28]);
    let second = vec![200u8; 32];
    let corner = [RawRect { left: 1, top: 1, right: 6, bottom: 6 }];
    let frame = copy_frame(&mut buffer, &second, 16, 3, 2, Some(&corner), 16);
    assert_eq!(frame.dirty, vec![(1, 1, 2, 1)]);
    assert_eq!(buffer.bytes()[..16], [0, 1, 2, 3, 4, 5, 6, 7, 8, 9, 10, 11, 16, 17, 18, 19]);
    assert_eq!(buffer.bytes()[16..], [200u8; 8]);
    let third = vec![7u8; 32];
    let frame = copy_frame(&mut buffer, &third, 16, 3, 2, None, 0);
    assert_eq!(frame.dirty, vec![(0, 0, 3, 2)]);
    assert_eq!(buffer.bytes(), [7u8; 24]);
    buffer.copy_dirty(&second, 16, 3, 2, &[(2, 1, 5, 5)]);
    assert_eq!(buffer.bytes()[..20], [7u8; 20]);
    assert_eq!(buffer.bytes()[20..], [200u8; 4]);
}

#[test]
fn a_new_resolution_is_copied_whole_though_it_has_as_many_pixels() {
    let mut buffer = FrameBuffer::new();
    let wide: Vec<u8> = (0..24).collect();
    let frame = copy_frame(&mut buffer, &wide, 12, 3, 2, Some(&[]), 0);
    assert_eq!(frame.dirty, vec![(0, 0, 3, 2)]);
    assert_eq!(buffer.bytes(), wide);
    // The screen is turned, and the system reports a corner.
    let tall = vec![99u8; 24];
    let corner = [RawRect { left: 0, top: 0, right: 1, bottom: 1 }];
    let frame = copy_frame(&mut buffer, &tall, 8, 2, 3, Some(&corner), 16);
    assert_eq!((frame.width, frame.height, frame.dirty), (2, 3, vec![(0, 0, 2, 3)]));
    assert_eq!(buffer.bytes(), tall);
    let frame = copy_frame(&mut buffer, &wide, 8, 2, 3, Some(&corner), 16);
    assert_eq!(frame.dirty, vec![(0, 0, 1, 1)]);
    assert_eq!(buffer.bytes()[..4], [0, 1, 2, 3]);
    assert_eq!(buffer.bytes()[4..], [99u8; 20]);

    let mut buffer = FrameBuffer::new();
    assert_eq!(buffer.fit(1920, 1080), Some(vec![(0, 0, 1920, 1080)]));
    assert_eq!(buffer.fit(1920, 1080), None);
    assert_eq!(buffer.fit(1080, 1920), Some(vec![(0, 0, 1080, 1920)]));
}

#[test]
fn rows_that_are_missing_are_left_out() {
    let mut buffer = FrameBuffer::new();
    buffer.fit(1, 3);
    buffer.copy_rows(&[1, 2, 3, 4, 0, 5, 6, 7, 8, 0, 9], 5, 1, 3);
    assert_eq!(buffer.bytes(), [1, 2, 3, 4, 5, 6, 7, 8, 0, 0, 0, 0]);
}

#[test]
fn levels_follow_the_frame_size() {
    assert_eq!(level_for(1280, 720), 31);
    assert_eq!(level_for(1281, 720), 40);
    assert_eq!(level_for(1920, 1080), 40);
    assert_eq!(level_for(3840, 2160), 42);
    assert_eq!(packed_pair(1920, 1080), 0x780_0000_0438);
}

#[test]
fn video_formats_list_their_attributes() {
    assert_eq!(
        make_video_type(true, 64, 32, 30, Some(500_000), Some(66)),
        vec![
            VideoAttribute::Video,
            VideoAttribute::CodedH264,
            VideoAttribute::FrameSize(0x40_0000_0020),
            VideoAttribute::FrameRate(0x1e_0000_0001),
            VideoAttribute::Progressive,
            VideoAttribute::SamplesIndependent,
            VideoAttribute::AverageBitrate(500_000),
            VideoAttribute::Profile(66),
        ]
    );
    let raw = make_video_type(false, 64, 32, 30, None, None);
    assert_eq!(raw.len(), 6);
    assert_eq!(raw[1], VideoAttribute::RawNv12);
}

#[test]
fn setup_takes_the_first_synchronous_encoder() {
    let mut setup = EncoderSetup::new();
    assert_eq!(setup.handle(SetupEvent::Done), Ok(()));
    assert_eq!(setup.handle(SetupEvent::Done), Ok(()));
    assert_eq!(setup.handle(SetupEvent::Encoders(3)), Ok(()));
    assert_eq!(setup.handle(SetupEvent::Tried(Candidate::Failed("x".to_string()))), Ok(()));
    assert_eq!(setup.handle(SetupEvent::Tried(Candidate::Asynchronous)), Ok(()));
    assert_eq!(setup.step, SetupStep::Activate);
    assert_eq!(setup.handle(SetupEvent::Tried(Candidate::Synchronous)), Ok(()));
    assert_eq!(setup.step, SetupStep::DescribeOutput);
    for _ in 0..8 {
        assert_eq!(setup.handle(SetupEvent::Done), Ok(()));
    }
    assert_eq!(setup.step, SetupStep::Ready);
}

#[test]
fn setup_says_what_went_wrong() {
    let mut setup = EncoderSetup::new();
    assert_eq!(setup.handle(SetupEvent::Failed("0x1".to_string())), Err("CoInitializeEx: 0x1".to_string()));
    setup.step = SetupStep::Enumerate;
    assert_eq!(
        setup.handle(SetupEvent::Encoders(0)),
        Err("no hay ningun encoder H.264 disponible (MFTEnumEx devolvio 0)".to_string())
    );
    setup.step = SetupStep::Activate;
    assert_eq!(setup.handle(SetupEvent::Exhausted), Err("MFTEnumEx: lista vacia".to_string()));
    assert_eq!(setup.handle(SetupEvent::Tried(Candidate::Failed("no".to_string()))), Ok(()));
    assert_eq!(setup.handle(SetupEvent::Exhausted), Err("ActivateObject: no".to_string()));
    assert_eq!(setup.handle(SetupEvent::Tried(Candidate::Asynchronous)), Ok(()));
    assert_eq!(
        setup.handle(SetupEvent::Exhausted),
        Err("MFT asincrono (no soportado): saltado".to_string())
    );
}

#[test]
fn tuning_asks_for_little_delay() {
    assert_eq!(
        low_latency_tuning(600_000, 30),
        vec![
            CodecProperty::LowLatencyMode(true),
            CodecProperty::CommonLowLatency(true),
            CodecProperty::CommonRealTime(true),
            CodecProperty::DefaultBPictureCount(0),
            CodecProperty::ConstantBitRate,
            CodecProperty::MeanBitRate(600_000),
            CodecProperty::GopSize(60),
        ]
    );
    assert_eq!(low_latency_tuning(1, 0)[6], CodecProperty::GopSize(2));
}

#[test]
fn frames_are_fed_in_order_and_time_moves_on() {
    let mut encoder = H264Encoder::new(64, 64, 30, true, false, 100);
    assert_eq!(encoder.output_min_size, 65536);
    assert_eq!(encoder.output_buffer(), Some(65536));
    assert_eq!(encoder.timing().duration_100ns, 333_333);
    for frame in 0..3i64 {
        assert_eq!(encoder.timing().pts_100ns, frame * 333_333);
        let mut step = FeedStep::CreateBuffer;
        for _ in 0..8 {
            step = encoder.encode(step, Ok(())).unwrap();
        }
        assert_eq!(step, FeedStep::Fed);
    }
    assert_eq!(
        encoder.encode(FeedStep::SetTime, Err("bad".to_string())),
        Err("SetSampleTime: bad".to_string())
    );
    assert_eq!(encoder.timing().pts_100ns, 999_999);
    assert_eq!(encoder.set_bitrate(9), vec![CodecProperty::MeanBitRate(9)]);
    assert_eq!(encoder.request_keyframe(), vec![CodecProperty::ForceKeyFrame(true)]);
    let plain = H264Encoder::new(4096, 4096, 0, false, true, 9_000_000);
    assert_eq!(plain.output_min_size, 9_000_000);
    assert_eq!(plain.output_buffer(), None);
    assert_eq!(plain.frame_duration_100ns, 10_000_000);
    assert!(plain.set_bitrate(9).is_empty());
    assert!(plain.request_keyframe().is_empty());
    assert_eq!(copied_len(10, 4), 4);
    assert_eq!(copied_len(3, 4), 3);
}

#[test]
fn output_is_drained_until_more_input_is_needed() {
    let mut out: Vec<EncodedFrame> = Vec::new();
    assert!(matches!(drain_output(&mut out, OutputEvent::Unit(vec![0, 0, 1, 0x65])), DrainStep::Again));
    assert!(matches!(drain_output(&mut out, OutputEvent::Unit(vec![0, 0, 1, 0x41])), DrainStep::Again));
    assert!(matches!(drain_output(&mut out, OutputEvent::Nothing), DrainStep::Again));
    assert!(matches!(drain_output(&mut out, OutputEvent::NeedMoreInput), DrainStep::Finished));
    assert_eq!(out.len(), 2);
    assert!(out[0].keyframe);
    assert!(!out[1].keyframe);
    for (event, text) in [
        (OutputEvent::Failed("e".to_string()), "ProcessOutput: e"),
        (OutputEvent::NoBuffer("e".to_string()), "MFCreateMemoryBuffer(out): e"),
        (OutputEvent::NoSample("e".to_string()), "MFCreateSample(out): e"),
        (OutputEvent::NotAdded("e".to_string()), "AddBuffer(out): e"),
    ] {
        match drain_output(&mut out, event) {
            DrainStep::Failed(message) => assert_eq!(message, text),
            _ => panic!("a failure has to end the draining"),
        }
    }
}

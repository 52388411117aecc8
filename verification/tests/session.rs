use desktop_capture::capture_result::{capture_result_from_sys, CaptureResult};
use desktop_capture::convert::abgr_to_i420;
use desktop_capture::frame::{DesktopFrame, I420Buffer};
use desktop_capture::session::{CaptureError, Delivery, DesktopCapturer, VideoSink};
use desktop_capture::source::CaptureSource;

fn uniform_frame(width: i32, height: i32, stride: u32, r: u8, g: u8, b: u8) -> DesktopFrame {
    let mut data = Vec::new();
    for _row in 0..height {
        let mut written = 0u32;
        for _col in 0..width {
            data.push(r);
            data.push(g);
            data.push(b);
            data.push(255);
            written += 4;
        }
        while written < stride {
            data.push(0xAB);
            written += 1;
        }
    }
    DesktopFrame::new(width, height, stride, 0, 0, data)
}

fn two_sources() -> Vec<CaptureSource> {
    vec![
        CaptureSource::new(11, String::from("Primary Monitor"), 0),
        CaptureSource::new(42, String::from("Editor Window"), -1),
    ]
}

#[test]
fn result_codes_map_in_order() {
    assert!(matches!(capture_result_from_sys(0), CaptureResult::Success));
    assert!(matches!(capture_result_from_sys(1), CaptureResult::ErrorTemporary));
    assert!(matches!(capture_result_from_sys(2), CaptureResult::ErrorPermanent));
    assert!(matches!(capture_result_from_sys(3), CaptureResult::ErrorUserStopped));
}

#[test]
fn unknown_result_code_is_permanent() {
    assert!(matches!(capture_result_from_sys(4), CaptureResult::ErrorPermanent));
    assert!(matches!(capture_result_from_sys(-1), CaptureResult::ErrorPermanent));
    assert!(matches!(capture_result_from_sys(i32::MAX), CaptureResult::ErrorPermanent));
}

#[test]
fn source_descriptor_reports_its_fields() {
    let s = CaptureSource::new(42, String::from("Editor Window"), -1);
    assert_eq!(s.id(), 42);
    assert_eq!(s.title(), "Editor Window");
    assert_eq!(s.display_id(), -1);
    let c = s.clone();
    assert_eq!(c.id(), 42);
    assert_eq!(c.title(), "Editor Window");
    assert_eq!(c.display_id(), -1);
}

#[test]
fn enumeration_is_returned_in_order() {
    let mut cap = DesktopCapturer::new(false);
    assert!(cap.get_source_list().is_empty());
    cap.record_enumeration(two_sources());
    let listed = cap.get_source_list();
    assert_eq!(listed.len(), 2);
    assert_eq!(listed[0].id(), 11);
    assert_eq!(listed[1].id(), 42);
}

#[test]
fn select_absent_id_returns_false_and_keeps_selection() {
    let mut cap = DesktopCapturer::new(false);
    cap.record_enumeration(two_sources());
    assert!(!cap.select_source(7));
    assert!(cap.selected_source.is_none());
    assert!(cap.select_source(42));
    assert_eq!(cap.selected_source.as_ref().unwrap().id(), 42);
    assert!(!cap.select_source(7));
    assert_eq!(cap.selected_source.as_ref().unwrap().id(), 42);
}

#[test]
fn select_found_id_binds_that_source() {
    let mut cap = DesktopCapturer::new(true);
    cap.record_enumeration(two_sources());
    assert!(cap.select_source(11));
    let sel = cap.selected_source.as_ref().unwrap();
    assert_eq!(sel.id(), 11);
    assert_eq!(sel.title(), "Primary Monitor");
    assert_eq!(sel.display_id(), 0);
}

#[test]
fn stop_on_idle_session_is_a_no_op() {
    let mut cap = DesktopCapturer::new(false);
    cap.record_enumeration(two_sources());
    assert!(cap.select_source(11));
    cap.stop();
    assert!(!cap.running);
    assert_eq!(cap.selected_source.as_ref().unwrap().id(), 11);
    cap.stop();
    assert!(!cap.running);
}

#[test]
fn start_without_selection_is_rejected() {
    let mut cap = DesktopCapturer::new(false);
    assert_eq!(cap.start(), Err(CaptureError::NoSourceSelected));
    assert!(!cap.running);
}

#[test]
fn start_twice_without_stop_is_rejected() {
    let mut cap = DesktopCapturer::new(false);
    cap.record_enumeration(two_sources());
    assert!(cap.select_source(11));
    assert_eq!(cap.start(), Ok(()));
    assert!(cap.running);
    assert_eq!(cap.start(), Err(CaptureError::AlreadyRunning));
    assert!(cap.running);
    cap.stop();
    assert_eq!(cap.start(), Ok(()));
}

#[test]
fn start_capture_twice_is_rejected() {
    let mut cap = DesktopCapturer::new(false);
    let first = CaptureSource::new(11, String::from("Primary Monitor"), 0);
    let second = CaptureSource::new(42, String::from("Editor Window"), -1);
    assert_eq!(cap.start_capture(first), Ok(()));
    assert!(cap.running);
    assert_eq!(cap.start_capture(second), Err(CaptureError::AlreadyRunning));
    assert_eq!(cap.selected_source.as_ref().unwrap().id(), 11);
}

#[test]
fn capture_frame_is_issued_only_while_running() {
    let mut cap = DesktopCapturer::new(false);
    assert!(!cap.capture_frame());
    let src = CaptureSource::new(11, String::from("Primary Monitor"), 0);
    assert_eq!(cap.start_capture(src), Ok(()));
    assert!(cap.capture_frame());
    cap.stop();
    assert!(!cap.capture_frame());
}

#[test]
fn excluded_applications_are_stored() {
    let mut cap = DesktopCapturer::new(false);
    assert!(cap.excluded_applications.is_empty());
    cap.set_excluded_applications(vec![100, 200]);
    assert_eq!(cap.excluded_applications, vec![100, 200]);
}

#[test]
fn result_stream_delivers_twice_then_stops() {
    let mut cap = DesktopCapturer::new(false);
    let src = CaptureSource::new(11, String::from("Primary Monitor"), 0);
    assert_eq!(cap.start_capture(src), Ok(()));
    let mut sink = VideoSink::new(4, 2);
    let frame = uniform_frame(4, 2, 16, 10, 20, 30);
    let stream = [
        CaptureResult::Success,
        CaptureResult::ErrorTemporary,
        CaptureResult::Success,
        CaptureResult::ErrorPermanent,
    ];
    let mut outcomes = Vec::new();
    for result in stream {
        outcomes.push(cap.on_capture_result(result, &frame, &mut sink));
    }
    assert_eq!(
        outcomes,
        vec![Delivery::Delivered, Delivery::Skipped, Delivery::Delivered, Delivery::Stopped]
    );
    assert_eq!(sink.delivered(), 2);
    assert!(!cap.running);
    let after = cap.on_capture_result(CaptureResult::Success, &frame, &mut sink);
    assert_eq!(after, Delivery::Inactive);
    assert_eq!(sink.delivered(), 2);
}

#[test]
fn processing_a_stream_matches_single_deliveries() {
    let stream = vec![
        CaptureResult::Success,
        CaptureResult::ErrorTemporary,
        CaptureResult::Success,
        CaptureResult::ErrorPermanent,
        CaptureResult::Success,
        CaptureResult::Success,
    ];
    let frame = uniform_frame(4, 2, 16, 10, 20, 30);

    let mut one_by_one = DesktopCapturer::new(false);
    let src = CaptureSource::new(11, String::from("Primary Monitor"), 0);
    assert_eq!(one_by_one.start_capture(src.clone()), Ok(()));
    let mut sink_a = VideoSink::new(4, 2);
    for &result in &stream {
        one_by_one.on_capture_result(result, &frame, &mut sink_a);
    }

    let mut batched = DesktopCapturer::new(false);
    assert_eq!(batched.start_capture(src), Ok(()));
    let mut sink_b = VideoSink::new(4, 2);
    batched.process_results(&stream, &frame, &mut sink_b);

    assert_eq!(sink_a.delivered(), 2);
    assert_eq!(sink_b.delivered(), 2);
    assert!(!one_by_one.running);
    assert!(!batched.running);
    assert_eq!(sink_a.buffer().y, sink_b.buffer().y);

    // the delivered successes really converted the frame into the sink
    let mut direct = I420Buffer::new(4, 2);
    abgr_to_i420(&frame, &mut direct);
    assert_eq!(sink_b.buffer().y, direct.y);
    assert_eq!(sink_b.buffer().u, direct.u);
    assert_eq!(sink_b.buffer().v, direct.v);
}

#[test]
fn user_stop_result_ends_the_session() {
    let mut cap = DesktopCapturer::new(false);
    let src = CaptureSource::new(11, String::from("Primary Monitor"), 0);
    assert_eq!(cap.start_capture(src), Ok(()));
    let mut sink = VideoSink::new(2, 2);
    let frame = uniform_frame(2, 2, 8, 0, 0, 0);
    let d = cap.on_capture_result(CaptureResult::ErrorUserStopped, &frame, &mut sink);
    assert_eq!(d, Delivery::Stopped);
    assert!(!cap.running);
    assert_eq!(sink.delivered(), 0);
}

#[test]
fn overlapping_delivery_is_refused_by_the_guard() {
    let mut cap = DesktopCapturer::new(false);
    let src = CaptureSource::new(11, String::from("Primary Monitor"), 0);
    assert_eq!(cap.start_capture(src), Ok(()));
    let mut sink = VideoSink::new(2, 2);
    let frame = uniform_frame(2, 2, 8, 50, 60, 70);

    assert!(cap.try_begin_callback());
    assert!(!cap.try_begin_callback());
    let d = cap.on_capture_result(CaptureResult::Success, &frame, &mut sink);
    assert_eq!(d, Delivery::Overlapping);
    assert_eq!(sink.delivered(), 0);
    assert!(cap.running);

    cap.end_callback();
    let d2 = cap.on_capture_result(CaptureResult::Success, &frame, &mut sink);
    assert_eq!(d2, Delivery::Delivered);
    assert_eq!(sink.delivered(), 1);
}

#[test]
fn sink_buffer_is_sized_once_and_zeroed() {
    let sink = VideoSink::new(6, 4);
    assert_eq!(sink.buffer().width(), 6);
    assert_eq!(sink.buffer().height(), 4);
    assert_eq!(sink.buffer().y.len(), 24);
    assert_eq!(sink.buffer().u.len(), 6);
    assert_eq!(sink.buffer().v.len(), 6);
    assert!(sink.buffer().y.iter().all(|&b| b == 0));
    assert_eq!(sink.delivered(), 0);
}

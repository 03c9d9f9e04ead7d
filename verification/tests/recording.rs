use obscura::video::{
    CANDIDATES, Crop, Ending, Recorder, RecordError, SOURCES, Search, audio_source, candidate, clock, crop, encode_size, encoder, file_stem, gst, gst_format, probe,
    recording, rotation_tag, source, stop,
};

fn code(c: &[u8; 4]) -> u32 {
    u32::from_le_bytes(*c)
}

#[test]
fn the_search_stops_at_the_first_that_works() {
    let (mut kept, mut tried) = (None, Vec::new());
    for i in 0..CANDIDATES {
        assert_eq!((encoder(&mut kept, &tried), kept), (Search::Try(i), None));
        tried.push(i == 5);
        if i == 5 {
            break;
        }
    }
    assert_eq!((encoder(&mut kept, &tried), kept), (Search::Found(5), Some(Some(5))));
    // The pick is kept: nothing is probed again.
    assert_eq!((encoder(&mut kept, &vec![]), kept), (Search::Found(5), Some(Some(5))));
    assert_eq!(candidate(5).element, "x264enc");
    let mut kept = None;
    assert_eq!(encoder(&mut kept, &vec![false; CANDIDATES]), Search::Exhausted);
    assert_eq!((encoder(&mut kept, &vec![true]), kept), (Search::Exhausted, Some(None)));
    assert_eq!(audio_source(&vec![]), Search::Try(0));
    assert_eq!(audio_source(&vec![false, true]), Search::Found(1));
    assert_eq!(audio_source(&vec![false; SOURCES]), Search::Exhausted);
    assert_eq!((source(0), source(1)), ("pulsesrc", "pipewiresrc"));
}

#[test]
fn hardware_encoders_come_first() {
    let names: Vec<_> = (0..CANDIDATES).map(|i| candidate(i).element).collect();
    assert_eq!(names, vec!["v4l2h264enc", "vah264lpenc", "vah264enc", "v4l2h265enc", "vah265enc", "x264enc", "openh264enc"]);
    assert_eq!((candidate(3).parser, candidate(6).properties), ("h265parse", "bitrate=12000000"));
    assert_eq!(
        probe(&candidate(6)),
        "videotestsrc num-buffers=3 ! video/x-raw,format=NV12,width=640,height=480,framerate=30/1 ! openh264enc bitrate=12000000 ! h264parse ! fakesink"
    );
}

#[test]
fn the_media_framework_is_set_up_once() {
    let mut started = false;
    assert!(gst(&mut started) && !gst(&mut started) && started);
}

#[test]
fn streams_are_cropped_to_a_standard_size_they_cover() {
    assert_eq!(encode_size(4000, 1800), (1920, 1080));
    assert_eq!(encode_size(4000, 2000), (1920, 1080));
    assert_eq!(encode_size(4000, 700), (4000, 688));
    assert_eq!(encode_size(u32::MAX, u32::MAX), (3840, 2160));
    assert_eq!(encode_size(1280, 720), (1280, 720));
    assert_eq!(encode_size(0, 0), (0, 0));
    assert_eq!(encode_size(15, 31), (0, 16));
}

#[test]
fn the_crop_leaves_the_encoded_frame() {
    assert_eq!(crop(4024, 2268), Crop { left: 92, right: 92, top: 54, bottom: 54 });
    for (w, h) in [(4024, 2268), (2013, 1133), (1001, 999), (640, 480)] {
        let (c, e) = (crop(w, h), encode_size(w, h));
        assert_eq!((c.left + e.0 + c.right, c.top + e.1 + c.bottom), (w, h));
        assert!(c.right - c.left <= 1 && c.bottom - c.top <= 1);
    }
}

#[test]
fn a_recording_is_described_to_the_media_framework() {
    let r = Recorder::start(4024, 2268, code(b"XB24"), Some(candidate(0))).unwrap();
    assert_eq!((r.format, r.width, r.height, r.encoder.element), ("RGBx", 4024, 2268, "v4l2h264enc"));
    let silent = recording(&r.crop, &r.encoder, "/v/VID_1.mp4", None);
    assert_eq!(
        silent,
        "appsrc name=src is-live=true do-timestamp=true format=time max-buffers=3 leaky-type=downstream ! queue max-size-buffers=3 leaky=downstream ! videocrop left=92 right=92 top=54 bottom=54 ! videoconvert n-threads=4 ! video/x-raw,format=NV12 ! v4l2h264enc  ! h264parse ! queue ! mp4mux name=mux ! filesink location=\"/v/VID_1.mp4\""
    );
    let loud = recording(&r.crop, &r.encoder, "/v/VID_1.mp4", Some("pulsesrc"));
    assert_eq!(loud, format!("{silent} pulsesrc ! queue ! audioconvert ! audioresample ! opusenc ! queue ! mux."));
    assert_eq!(file_stem("20260102_030405"), "VID_20260102_030405");
}

#[test]
fn recordings_need_an_encoder_and_a_format() {
    let e = Recorder::start(640, 480, code(b"XB24"), None).unwrap_err();
    assert_eq!((e, e.message()), (RecordError::NoEncoder, "no working video encoder"));
    let e = Recorder::start(640, 480, code(b"RG10"), Some(candidate(0))).unwrap_err();
    assert_eq!((e, e.message()), (RecordError::Format, "viewfinder format cannot be recorded"));
    assert_eq!((gst_format(code(b"YUYV")), gst_format(code(b"NV12")), gst_format(code(b"AR24"))), (Some("YUY2"), Some("NV12"), Some("BGRA")));
}

#[test]
fn colour_has_a_plane_of_its_own_in_nv12() {
    let mut r = Recorder::start(640, 480, code(b"NV12"), Some(candidate(0))).unwrap();
    let p = r.planes(704);
    assert_eq!((p.offsets, p.strides), (vec![0, 704 * 480], vec![704, 704]));
    r.count(true);
    r.count(true);
    r.count(false);
    assert_eq!((r.pushed, r.dropped), (2, 1));
    let p = Recorder::start(640, 480, code(b"XB24"), Some(candidate(0))).unwrap().planes(2560);
    assert_eq!((p.offsets, p.strides), (vec![0], vec![2560]));
}

#[test]
fn recordings_end_well_or_say_why() {
    assert_eq!(stop(Ending::Done), Ok(()));
    assert_eq!(stop(Ending::Failed("disk full".into())), Err("disk full".into()));
    assert_eq!(stop(Ending::Late), Err("recording did not finish".into()));
}

#[test]
fn the_container_says_how_to_turn() {
    assert_eq!([0, 90, 180, 270, -90, 360, 12].map(rotation_tag), ["rotate-0", "rotate-90", "rotate-180", "rotate-270", "rotate-270", "rotate-0", "rotate-0"]);
}

#[test]
fn the_clock_shows_minutes_and_seconds() {
    assert_eq!([0, 9, 61, 600, 3725].map(clock), ["0:00", "0:09", "1:01", "10:00", "62:05"]);
}

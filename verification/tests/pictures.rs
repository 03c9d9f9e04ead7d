use obscura::camera::{CameraInfo, Facing, RawImage, Still};
use obscura::dng::{Development, DngError, Ifd, layout, unpack};
use obscura::number::Number;
use obscura::photo::{JpegError, Region, SaveStep, Written, crop, file_stem, flip_method, gather_rows, gst_format, jpeg_pipeline, save, save_jpeg};
use obscura::settings::Metadata;

fn n(x: f64) -> Number {
    Number::from_bits(x.to_bits())
}

fn code(c: &[u8; 4]) -> u32 {
    u32::from_le_bytes(*c)
}

fn still(width: u32, height: u32, stride: u32, rgba: Vec<u8>) -> Still {
    Still {
        width,
        height,
        stride,
        fourcc: code(b"XB24"),
        rgba,
        raw: None,
        metadata: Metadata::new(),
        info: CameraInfo { id: "back".into(), model: "imx362".into(), facing: Facing::Back, rotation: 270 },
        zoom: n(1.0),
    }
}

fn raw(width: u32, height: u32, stride: u32, format: &str, data: Vec<u8>) -> RawImage {
    RawImage { width, height, stride, format: format.into(), data }
}

fn development() -> Development {
    Development {
        exposure: Some(20_000),
        iso: Some(400),
        colour_matrix: [1_000_000, 0, 0, 0, 1_000_000, 0, 0, 0, -1],
        neutral: [500_000, 1_000_000, 2_000_000],
        datetime: "2026:01:02 03:04:05".into(),
    }
}

#[test]
fn layouts_are_read_from_format_names() {
    for (name, cfa) in [("RGGB", [0, 1, 1, 2]), ("GRBG", [1, 0, 2, 1]), ("GBRG", [1, 2, 0, 1]), ("BGGR", [2, 1, 1, 0])] {
        let l = layout(&format!("S{name}12")).unwrap();
        assert_eq!((l.cfa, l.bits, l.packed), (cfa, 12, false));
    }
    for bad in ["", "RGGB10", "SRGB888", "SRGGB", "SRGGB_CSI2P", "SXGGB8", "SRGGB99999999999"] {
        assert!(layout(bad).is_none(), "{bad}");
    }
}

#[test]
fn unpacks_the_other_layouts() {
    let l = layout("SBGGR12_CSI2P").unwrap();
    assert_eq!(unpack(&raw(2, 1, 3, "SBGGR12_CSI2P", vec![0xab, 0x12, 0x5c]), &l).unwrap(), vec![0xabc, 0x125]);
    let l = layout("SRGGB8").unwrap();
    assert_eq!(unpack(&raw(2, 2, 3, "SRGGB8", vec![1, 2, 9, 3, 4]), &l).unwrap(), vec![1, 2, 3, 4]);
    let l = layout("SRGGB16").unwrap();
    assert_eq!(unpack(&raw(1, 1, 2, "SRGGB16", vec![0x34, 0x12]), &l).unwrap(), vec![0x1234]);
}

#[test]
fn packed_groups_stand_side_by_side() {
    let l = layout("SRGGB10_CSI2P").unwrap();
    let data = vec![0, 0, 0, 0, 0, 0xff, 0x00, 0x80, 0x00, 0b11_00_00_11];
    assert_eq!(unpack(&raw(8, 1, 10, "SRGGB10_CSI2P", data), &l).unwrap(), vec![0, 0, 0, 0, 1023, 0, 512, 3]);
}

#[test]
fn raw_errors_say_what_is_wrong() {
    let l = layout("SRGGB8").unwrap();
    let e = unpack(&raw(1, 4, 2, "SRGGB8", vec![1, 0, 2]), &l).unwrap_err();
    assert!(matches!(e, DngError::Short(2)));
    assert_eq!(e.message(), "raw frame is short at row 2");
    let l = layout("SRGGB14_CSI2P").unwrap();
    let e = unpack(&raw(1, 1, 2, "SRGGB14_CSI2P", vec![1, 0]), &l).unwrap_err();
    assert_eq!(e.message(), "unsupported raw layout");
    let e = obscura::dng::write(&raw(1, 1, 2, "YUYV", vec![1, 0]), &still(1, 1, 4, vec![0; 4]), &development()).unwrap_err();
    assert_eq!(e.message(), "not a Bayer format: YUYV");
}

fn u16_at(b: &[u8], i: usize) -> u16 {
    u16::from_le_bytes([b[i], b[i + 1]])
}

fn u32_at(b: &[u8], i: usize) -> u32 {
    u32::from_le_bytes([b[i], b[i + 1], b[i + 2], b[i + 3]])
}

/// The entries of a directory: tag, type, count, and where the value stands.
fn directory(b: &[u8], at: usize) -> Vec<(u16, u16, u32, usize)> {
    (0..u16_at(b, at) as usize)
        .map(|i| {
            let e = at + 2 + 12 * i;
            let (ty, count) = (u16_at(b, e + 2), u32_at(b, e + 4));
            let size = count as usize * match ty { 1 | 2 => 1, 3 => 2, 4 => 4, _ => 8 };
            (u16_at(b, e), ty, count, if size <= 4 { e + 8 } else { u32_at(b, e + 8) as usize })
        })
        .collect()
}

#[test]
fn a_written_file_reads_back() {
    let mut s = still(4, 2, 16, vec![0; 32]);
    s.metadata.insert("SensorBlackLevels".into(), vec![n(4096.0), n(4100.9), n(4160.0), n(8192.0)]);
    let data = vec![0xff, 0x00, 0x80, 0x00, 0b11_00_00_11, 1, 2, 3, 4, 0];
    let r = raw(4, 2, 5, "SRGGB10_CSI2P", data);
    let file = obscura::dng::write(&r, &s, &development()).unwrap();
    assert_eq!(&file[..8], b"II\x2a\0\x08\0\0\0");
    let main = directory(&file, 8);
    let tags: Vec<u16> = main.iter().map(|e| e.0).collect();
    let mut sorted = tags.clone();
    sorted.sort();
    assert_eq!(tags, sorted);
    let find = |tag: u16| *main.iter().find(|e| e.0 == tag).unwrap();
    let value = |tag: u16| u32_at(&file, find(tag).3);
    assert_eq!((value(256), value(257), value(278), value(279)), (4, 2, 2, 16));
    assert_eq!(u16_at(&file, find(258).3), 16);
    assert_eq!(u16_at(&file, find(262).3), 32803);
    assert_eq!(u16_at(&file, find(274).3), 8);
    assert_eq!(&file[find(272).3..find(272).3 + 7], b"imx362\0");
    assert_eq!(&file[find(306).3..find(306).3 + 20], b"2026:01:02 03:04:05\0");
    assert_eq!(&file[find(33422).3..find(33422).3 + 4], &[0, 1, 1, 2]);
    // Black levels are 16-bit-scaled, in R, Gr, Gb, B order.
    let black: Vec<u32> = (0..4).map(|i| u32_at(&file, find(50714).3 + 4 * i)).collect();
    assert_eq!(black, vec![64, 64, 65, 128]);
    assert_eq!(value(50717), 1023);
    let m = find(50721);
    assert_eq!((m.1, m.2), (10, 9));
    assert_eq!((u32_at(&file, m.3) as i32, u32_at(&file, m.3 + 4)), (1_000_000, 1_000_000));
    assert_eq!(u32_at(&file, m.3 + 64) as i32, -1);
    assert_eq!(u32_at(&file, find(50728).3), 500_000);
    // The offsets point right.
    let exif = directory(&file, value(34665) as usize);
    assert_eq!(exif.iter().map(|e| (e.0, e.1)).collect::<Vec<_>>(), vec![(33434, 5), (34855, 3)]);
    assert_eq!((u32_at(&file, exif[0].3), u16_at(&file, exif[1].3)), (20_000, 400));
    let strip = value(273) as usize;
    assert_eq!(file.len(), strip + 16);
    let pixels: Vec<u16> = (0..4).map(|i| u16_at(&file, strip + 2 * i)).collect();
    assert_eq!(pixels, vec![1023, 0, 512, 3]);
}

#[test]
fn black_levels_follow_the_colours_of_a_row() {
    // R, Gr, Gb, B: a green is Gr where its row holds a red.
    for (format, levels) in [
        ("SRGGB8", [16, 20, 24, 28]),
        ("SGRBG8", [20, 16, 28, 24]),
        ("SGBRG8", [24, 28, 16, 20]),
        ("SBGGR8", [28, 24, 20, 16]),
    ] {
        let mut s = still(2, 2, 8, vec![0; 16]);
        s.metadata.insert("SensorBlackLevels".into(), vec![n(4096.0), n(5120.0), n(6144.0), n(7168.0)]);
        let file = obscura::dng::write(&raw(2, 2, 2, format, vec![0; 4]), &s, &development()).unwrap();
        let at = directory(&file, 8).iter().find(|e| e.0 == 50714).unwrap().3;
        assert_eq!([0, 4, 8, 12].map(|i| u32_at(&file, at + i)), levels, "{format}");
    }
}

#[test]
fn what_cannot_be_read_is_not_written() {
    let mut s = still(2, 2, 8, vec![0; 16]);
    s.metadata.insert("SensorBlackLevels".into(), vec![n(4096.0)]);
    let write = |r: RawImage| obscura::dng::write(&r, &s, &development()).unwrap_err().message();
    assert_eq!(write(raw(2, 2, 2, "XRGB8888", vec![0; 4])), "not a Bayer format: XRGB8888");
    assert_eq!(write(raw(2, 2, 10, "SRGGB40_CSI2P", vec![0; 20])), "unsupported raw layout");
    assert_eq!(write(raw(1, 3, 4, "SRGGB40", vec![0; 7])), "raw frame is short at row 2");
    assert_eq!(write(raw(1, u32::MAX, 2, "SRGGB8", vec![0; 3])), "raw frame is short at row 2");
}

#[test]
fn directories_are_ordered_and_padded() {
    let mut ifd = Ifd::new();
    ifd.ascii(305, "Obscura");
    ifd.byte(254, &[1, 2]);
    ifd.rational(300, &[3]);
    let b = ifd.bytes(100, 7);
    assert_eq!(directory(&b, 0).iter().map(|e| e.0).collect::<Vec<_>>(), vec![254, 300, 305]);
    assert_eq!(&b[10..14], &[1, 2, 0, 0]);
    assert_eq!(u32_at(&b, 2 + 36), 7);
    // Values that do not fit an entry follow the directory.
    assert_eq!(u32_at(&b, 2 + 12 + 8), 100 + 42);
    assert_eq!(&b[42..50], &[3, 0, 0, 0, 0x40, 0x42, 0x0f, 0]);
    assert_eq!(&b[50..58], b"Obscura\0");
    // An odd value is padded.
    let mut odd = Ifd::new();
    odd.ascii(271, "abcd");
    odd.ascii(272, "efgh");
    let b = odd.bytes(0, 0);
    assert_eq!((odd.size(), b.len(), u32_at(&b, 22)), (42, 42, 36));
    // Entries of the same tag stay in the order they were added in.
    let mut twice = Ifd::new();
    for (tag, v) in [(300, 1), (299, 2), (300, 3), (299, 4)] {
        twice.short(tag, &[v]);
    }
    let b = twice.bytes(0, 0);
    assert_eq!([0, 1, 2, 3].map(|i| (u16_at(&b, 2 + 12 * i), u32_at(&b, 2 + 12 * i + 8))), [(299, 2), (299, 4), (300, 1), (300, 3)]);
    assert_eq!((u16_at(&b, 0), u32_at(&b, 50)), (4, 0));
}

#[test]
fn rows_lose_their_padding() {
    let s = still(1, 2, 6, vec![1, 2, 3, 4, 0, 0, 5, 6, 7, 8]);
    assert_eq!(save_jpeg(&s, "a").unwrap().pixels, vec![1, 2, 3, 4, 5, 6, 7, 8]);
    assert_eq!(gather_rows(&s.rgba, 1, 6, 2, 2), vec![2, 3, 6, 7]);
    let short = still(1, 3, 6, vec![1, 2, 3, 4, 0, 0, 5, 6, 7, 8]);
    let e = save_jpeg(&short, "a").unwrap_err();
    assert_eq!((e, e.message()), (JpegError::Short(8, 12), "short frame: 8 of 12 bytes".to_string()));
}

#[test]
fn zoomed_photos_are_cropped_to_the_middle() {
    let region = |left, top, width, height| Region { left, top, width, height };
    assert_eq!(crop(4032, 3024, n(1.0)), region(0, 0, 4032, 3024));
    assert_eq!(crop(4032, 3024, n(2.0)), region(1008, 756, 2016, 1512));
    assert_eq!(crop(4032, 3024, n(2.5)), region(1210, 907, 1612, 1209));
    assert_eq!(crop(4032, 3024, n(4.0)), region(1512, 1134, 1008, 756));
    assert_eq!(crop(3, 1, n(4.0)), region(1, 0, 1, 1));
    assert_eq!(crop(10, 10, n(0.5)), region(0, 0, 10, 10));
    assert_eq!(crop(10, 0, n(f64::NAN)), region(0, 0, 10, 0));
    assert_eq!(crop(10, 10, n(f64::INFINITY)), region(4, 4, 1, 1));
    for zoom in [1.1, 1.3, 1.7, 2.0, 2.2, 3.3, 3.9, 1e9, 1e18] {
        for side in [1u32, 2, 7, 1080, 3024, u32::MAX] {
            assert_eq!(crop(side, side, n(zoom)).width, ((side as f64 / zoom).floor() as u32).max(1), "{side} {zoom}");
        }
    }
    // Four pixels a row, and one of padding.
    let mut s = still(4, 4, 20, (0..80).collect());
    s.zoom = n(2.0);
    let j = save_jpeg(&s, "a").unwrap();
    assert_eq!((j.width, j.height), (2, 2));
    assert_eq!(j.pixels, [24, 25, 26, 27, 28, 29, 30, 31, 44, 45, 46, 47, 48, 49, 50, 51]);
}

#[test]
fn jpegs_are_turned_upright() {
    assert_eq!([0, 90, 180, 270, -90, 45].map(flip_method), ["none", "clockwise", "rotate-180", "counterclockwise", "counterclockwise", "none"]);
    let mut s = still(1, 1, 4, vec![9, 8, 7, 6]);
    s.metadata.insert("ExposureTime".into(), vec![n(16666.5)]);
    let j = save_jpeg(&s, "/tmp/a.jpg").unwrap();
    assert_eq!((j.format, j.pixels, j.shutter), ("RGBx", vec![9, 8, 7, 6], Some(16667)));
    assert_eq!(
        j.pipeline,
        "appsrc name=src ! videoconvert ! videoflip method=counterclockwise ! jpegenc quality=92 ! jifmux name=mux ! filesink location=\"/tmp/a.jpg\""
    );
    assert_eq!(jpeg_pipeline(270, "/tmp/a.jpg"), j.pipeline);
    s.fourcc = code(b"NV12");
    let e = save_jpeg(&s, "/tmp/a.jpg").unwrap_err();
    assert_eq!((e, e.message()), (JpegError::Format, "viewfinder format has no JPEG path".to_string()));
}

#[test]
fn jpeg_formats() {
    let names: Vec<_> = [b"XB24", b"AB24", b"XR24", b"AR24", b"NV12"].into_iter().map(|c| gst_format(code(c))).collect();
    assert_eq!(names, vec![Some("RGBx"), Some("RGBA"), Some("BGRx"), Some("BGRA"), None]);
}

#[test]
fn photos_are_saved_with_raw_where_there_is_some() {
    assert_eq!(file_stem("20260102_030405"), "IMG_20260102_030405");
    let mut s = still(1, 1, 4, vec![0; 4]);
    let f = save(&s, true, "IMG_1");
    assert_eq!((f.jpeg.as_str(), f.dng), ("IMG_1.jpg", None));
    s.raw = Some(raw(1, 1, 1, "SRGGB8", vec![0]));
    assert_eq!(save(&s, true, "IMG_1").dng.as_deref(), Some("IMG_1.dng"));
    assert_eq!(save(&s, false, "IMG_1").dng, None);
}

#[test]
fn a_failed_save_says_so() {
    let mut s = still(1, 1, 4, vec![0; 4]);
    s.raw = Some(raw(1, 1, 1, "SRGGB8", vec![0]));
    let both = save(&s, true, "IMG_1");
    assert!(matches!(both.next::<i32>(Written::Nothing), SaveStep::Jpeg(name) if name == "IMG_1.jpg"));
    assert!(matches!(both.next(Written::Jpeg(Err(7))), SaveStep::Failed(7)));
    assert!(matches!(both.next::<i32>(Written::Jpeg(Ok(()))), SaveStep::Dng(name) if name == "IMG_1.dng"));
    assert!(matches!(both.next(Written::Dng(Err(8))), SaveStep::Failed(8)));
    assert!(matches!(both.next::<i32>(Written::Dng(Ok(()))), SaveStep::Saved(name) if name == "IMG_1.jpg"));
    let alone = save(&s, false, "IMG_1");
    assert!(matches!(alone.next::<i32>(Written::Jpeg(Ok(()))), SaveStep::Saved(name) if name == "IMG_1.jpg"));
    assert!(matches!(alone.next(Written::Jpeg(Err(9))), SaveStep::Failed(9)));
}

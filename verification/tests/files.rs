use obscura::camera::RawImage;
use obscura::dng::{Ifd, layout, unpack};
use obscura::video::encode_size;

#[test]
fn unpacks_csi2p() {
    let l = layout("SRGGB10_CSI2P").unwrap();
    assert_eq!((l.bits, l.packed, l.cfa), (10, true, [0, 1, 1, 2]));
    // pixels 1023, 0, 512, 3 -> high bytes ff 00 80 00, low bits 3,0,0,3
    let raw = RawImage { width: 4, height: 1, stride: 5, format: "SRGGB10_CSI2P".into(), data: vec![0xff, 0x00, 0x80, 0x00, 0b11_00_00_11] };
    assert_eq!(unpack(&raw, &l).unwrap(), vec![1023, 0, 512, 3]);
}

#[test]
fn ifd_sizes_match_serialisation() {
    let mut ifd = Ifd::new();
    ifd.ascii(271, "Obscura");
    ifd.short(274, &[1]);
    ifd.srational(50721, &[1_000_000; 9]);
    let size = ifd.size();
    assert_eq!(ifd.bytes(8, 0).len() as u32, size);
}

#[test]
fn encode_sizes() {
    assert_eq!(encode_size(4024, 2268), (3840, 2160));
    assert_eq!(encode_size(2012, 1132), (1920, 1080));
    assert_eq!(encode_size(4024, 3032), (3840, 2160));
    assert_eq!(encode_size(640, 480), (640, 480));
    assert_eq!(encode_size(1000, 999), (992, 992));
}

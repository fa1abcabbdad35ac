use nclr_core::meta::{Rational, ResUnit, TiffMeta};
use nclr_core::pixel::{Rgb16, Rgb8};
use nclr_core::tiff_read::{parse_tiff_meta, TiffError};
use nclr_core::tiff_write::{write_tiff_rgb16, write_tiff_rgb8};

fn sample_icc() -> Vec<u8> {
    let mut icc = Vec::new();
    for i in 0..200u16 {
        icc.push((i % 251) as u8);
    }
    icc
}

#[test]
fn rgb8_roundtrip_preserves_icc_exactly() {
    let icc = sample_icc();
    let pix = vec![Rgb8 { r: 1, g: 2, b: 3 }; 20 * 10];
    let meta = TiffMeta {
        icc: Some(icc.clone()),
        x_res: Some(Rational { n: 300, d: 1 }),
        y_res: Some(Rational { n: 300, d: 1 }),
        unit: Some(ResUnit::Inch),
    };
    let bytes = write_tiff_rgb8(20, 10, &pix, Some(&icc), Some(&meta)).unwrap();
    // The ICC directory entry (the thirteenth, at offset 154) carries tag
    // 34675 with wire type UNDEFINED (7), not BYTE (1).
    assert_eq!(&bytes[154..158], &[0x73, 0x87, 7, 0]);
    let back = parse_tiff_meta(&bytes).unwrap();
    assert_eq!(back.icc, Some(icc));
    assert_eq!(back.x_res, Some(Rational { n: 300, d: 1 }));
    assert_eq!(back.y_res, Some(Rational { n: 300, d: 1 }));
    assert_eq!(back.unit, Some(ResUnit::Inch));
}

#[test]
fn rgb16_roundtrip_preserves_icc_exactly() {
    let icc = sample_icc();
    let pix = vec![Rgb16 { r: 500, g: 60000, b: 12345 }; 130 * 70];
    let bytes = write_tiff_rgb16(130, 70, &pix, Some(&icc), None).unwrap();
    let back = parse_tiff_meta(&bytes).unwrap();
    assert_eq!(back.icc, Some(icc));
    // No source metadata: the 600/1 inch default is written.
    assert_eq!(back.x_res, Some(Rational { n: 600, d: 1 }));
    assert_eq!(back.y_res, Some(Rational { n: 600, d: 1 }));
    assert_eq!(back.unit, Some(ResUnit::Inch));
}

#[test]
fn read_then_rewrite_preserves_icc() {
    // Write once with an embedded profile, read it back, and rewrite a new
    // image embedding the recovered bytes: the profile survives unchanged.
    let icc = sample_icc();
    let pix = vec![Rgb8 { r: 9, g: 9, b: 9 }; 4];
    let first = write_tiff_rgb8(2, 2, &pix, Some(&icc), None).unwrap();
    let meta = parse_tiff_meta(&first).unwrap();
    let recovered = meta.icc.clone().unwrap();
    let second = write_tiff_rgb8(2, 2, &pix, Some(&recovered), Some(&meta)).unwrap();
    let back = parse_tiff_meta(&second).unwrap();
    assert_eq!(back.icc, Some(icc));
}

#[test]
fn no_icc_written_means_none_read() {
    let pix = vec![Rgb8 { r: 0, g: 0, b: 0 }; 6];
    let bytes = write_tiff_rgb8(3, 2, &pix, None, None).unwrap();
    let back = parse_tiff_meta(&bytes).unwrap();
    assert!(back.icc.is_none());
}

#[test]
fn short_inline_icc_survives() {
    // Three bytes fit the entry's inline value field.
    let icc = vec![0xAA, 0xBB, 0xCC];
    let pix = vec![Rgb8 { r: 0, g: 0, b: 0 }; 1];
    let bytes = write_tiff_rgb8(1, 1, &pix, Some(&icc), None).unwrap();
    let back = parse_tiff_meta(&bytes).unwrap();
    assert_eq!(back.icc, Some(icc));
}

#[test]
fn unit_none_promoted_to_inch() {
    let pix = vec![Rgb8 { r: 0, g: 0, b: 0 }; 1];
    let meta = TiffMeta {
        icc: None,
        x_res: Some(Rational { n: 72, d: 1 }),
        y_res: None,
        unit: Some(ResUnit::NoUnit),
    };
    let bytes = write_tiff_rgb8(1, 1, &pix, None, Some(&meta)).unwrap();
    let back = parse_tiff_meta(&bytes).unwrap();
    assert_eq!(back.unit, Some(ResUnit::Inch));
    // The known X axis is mirrored onto the missing Y axis.
    assert_eq!(back.x_res, Some(Rational { n: 72, d: 1 }));
    assert_eq!(back.y_res, Some(Rational { n: 72, d: 1 }));
}

#[test]
fn written_tiff_decodes_with_external_reader() {
    // An independent TIFF implementation must agree on dimensions, samples
    // and pixel values.
    let mut pix = Vec::new();
    for i in 0..(5 * 4) {
        pix.push(Rgb8 { r: i as u8, g: (i * 2) as u8, b: (i * 3) as u8 });
    }
    let bytes = write_tiff_rgb8(5, 4, &pix, None, None).unwrap();
    let mut dec = tiff::decoder::Decoder::new(std::io::Cursor::new(bytes)).unwrap();
    assert_eq!(dec.dimensions().unwrap(), (5, 4));
    match dec.read_image().unwrap() {
        tiff::decoder::DecodingResult::U8(data) => {
            assert_eq!(data.len(), 5 * 4 * 3);
            for i in 0..(5 * 4) {
                assert_eq!(data[i * 3], pix[i].r);
                assert_eq!(data[i * 3 + 1], pix[i].g);
                assert_eq!(data[i * 3 + 2], pix[i].b);
            }
        }
        _ => panic!("expected 8-bit data"),
    }
}

#[test]
fn written_tiff16_decodes_with_external_reader_multistrip() {
    // 70 rows at 64 rows per strip: two strips, exercising the external
    // strip arrays.
    let mut pix = Vec::new();
    for i in 0..(3 * 70) {
        pix.push(Rgb16 { r: (i * 7) as u16, g: (i * 11) as u16, b: (i * 13) as u16 });
    }
    let bytes = write_tiff_rgb16(3, 70, &pix, None, None).unwrap();
    let mut dec = tiff::decoder::Decoder::new(std::io::Cursor::new(bytes)).unwrap();
    assert_eq!(dec.dimensions().unwrap(), (3, 70));
    match dec.read_image().unwrap() {
        tiff::decoder::DecodingResult::U16(data) => {
            assert_eq!(data.len(), 3 * 70 * 3);
            for i in 0..(3 * 70) {
                assert_eq!(data[i * 3], pix[i].r);
                assert_eq!(data[i * 3 + 1], pix[i].g);
                assert_eq!(data[i * 3 + 2], pix[i].b);
            }
        }
        _ => panic!("expected 16-bit data"),
    }
}

#[test]
fn bigtiff_wrong_offset_size_is_rejected() {
    // A BigTIFF header declaring 4-byte offsets must fail with the
    // unsupported-offset-size condition, never be silently misparsed.
    let mut d = vec![0x49, 0x49, 43, 0, 4, 0, 0, 0, 16, 0, 0, 0, 0, 0, 0, 0];
    d.extend_from_slice(&[0u8; 16]);
    assert_eq!(
        parse_tiff_meta(&d),
        Err(TiffError::UnsupportedOffsetSize { size: 4 })
    );
}

#[test]
fn bad_endian_marker_is_rejected() {
    let d = vec![0x4A, 0x49, 42, 0, 8, 0, 0, 0, 0, 0, 0, 0, 0, 0, 0, 0];
    assert_eq!(parse_tiff_meta(&d), Err(TiffError::BadEndianMarker));
}

#[test]
fn unknown_magic_is_rejected() {
    let d = vec![0x49, 0x49, 44, 0, 8, 0, 0, 0, 0, 0, 0, 0, 0, 0, 0, 0];
    assert_eq!(parse_tiff_meta(&d), Err(TiffError::BadMagic { magic: 44 }));
}

#[test]
fn truncated_header_is_io_error() {
    let d = vec![0x49, 0x49, 42, 0];
    assert_eq!(parse_tiff_meta(&d), Err(TiffError::Io { offset: 0, len: 16 }));
}

#[test]
fn zero_denominator_resolution_is_discarded_by_reader() {
    // Hand-built little-endian classic TIFF: one XResolution entry whose
    // rational has denominator zero.
    let mut d = Vec::new();
    d.extend_from_slice(&[0x49, 0x49, 42, 0, 16, 0, 0, 0]); // header, IFD0 at 16
    d.extend_from_slice(&[0, 0, 0, 0, 0, 0, 0, 0]); // padding to offset 16
    d.extend_from_slice(&[1, 0]); // one entry
    // tag 282, type RATIONAL (5), count 1, value offset 34
    d.extend_from_slice(&[26, 1, 5, 0, 1, 0, 0, 0, 34, 0, 0, 0]);
    d.extend_from_slice(&[0, 0, 0, 0]); // next IFD
    d.extend_from_slice(&[44, 1, 0, 0, 0, 0, 0, 0]); // 300 / 0
    let m = parse_tiff_meta(&d).unwrap();
    assert!(m.x_res.is_none());
}

#[test]
fn big_endian_classic_tiff_is_read() {
    // Hand-built big-endian classic TIFF with a ResolutionUnit entry.
    let mut d = Vec::new();
    d.extend_from_slice(&[0x4D, 0x4D, 0, 42, 0, 0, 0, 16]);
    d.extend_from_slice(&[0, 0, 0, 0, 0, 0, 0, 0]);
    d.extend_from_slice(&[0, 1]); // one entry
    // tag 296, type SHORT (3), count 1, value 3 (centimeter) inline
    d.extend_from_slice(&[1, 40, 0, 3, 0, 0, 0, 1, 0, 3, 0, 0]);
    d.extend_from_slice(&[0, 0, 0, 0]);
    let m = parse_tiff_meta(&d).unwrap();
    assert_eq!(m.unit, Some(ResUnit::Centimeter));
}

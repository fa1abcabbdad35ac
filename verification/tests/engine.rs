use nclr_core::batch::{
    batch_failed, dest_file_name, is_jpeg_path, is_supported_image_path, is_tiff_path,
    normalize_out_ext, should_skip, sidecar_path_for, summarize, BatchError, Outcome, Summary,
};
use nclr_core::endian::{read_u16_at, read_u32_at, read_u64_at};
use nclr_core::jpeg_icc::{jpeg_icc, JpegIccError};
use nclr_core::meta::{normalize_resolution, Rational, ResUnit, TiffMeta};
use nclr_core::pixel::{Rgb16, Rgb8};
use nclr_core::policy::{
    compute_effective, plan_conversion, resolve_input_profile, resolve_output_profile, BitDepth,
    ConversionPlan, InputChoice, InputIccMode, OutputChoice, Overrides, PolicyError, Preset,
    RenderIntent,
};
use nclr_core::quantize::{base_identity, base_sqrt, quantize_bases, quantize_rgb16, Tone};

fn round_curve(x: u16, perceptual: bool) -> u8 {
    let v = x as f64 / 65535.0;
    let c = if perceptual { v.sqrt() } else { v };
    let r = (c * 255.0).round();
    if r < 0.0 {
        0
    } else if r > 255.0 {
        255
    } else {
        r as u8
    }
}

#[test]
fn identity_base_matches_rounding_formula() {
    for &x in &[0u16, 1, 128, 257, 32768, 33024, 65534, 65535] {
        assert_eq!(base_identity(x), round_curve(x, false), "x={}", x);
    }
    assert_eq!(base_identity(0), 0);
    assert_eq!(base_identity(65535), 255);
    assert_eq!(base_identity(32768), 128);
}

#[test]
fn perceptual_base_matches_rounding_formula() {
    for x in (0u32..=65535).step_by(97) {
        let x = x as u16;
        assert_eq!(base_sqrt(x), round_curve(x, true), "x={}", x);
    }
    assert_eq!(base_sqrt(0), 0);
    assert_eq!(base_sqrt(65535), 255);
    assert_eq!(base_sqrt(16384), 128);
}

#[test]
fn undithered_quantization_is_pointwise() {
    let pix = vec![
        Rgb16 { r: 0, g: 65535, b: 32768 },
        Rgb16 { r: 100, g: 40000, b: 7 },
        Rgb16 { r: 12345, g: 54321, b: 65000 },
        Rgb16 { r: 1, g: 2, b: 3 },
    ];
    let out = quantize_rgb16(&pix, 2, 2, Tone::Identity, false).unwrap();
    assert_eq!(out.len(), pix.len());
    for i in 0..pix.len() {
        assert_eq!(out[i].r, round_curve(pix[i].r, false));
        assert_eq!(out[i].g, round_curve(pix[i].g, false));
        assert_eq!(out[i].b, round_curve(pix[i].b, false));
    }
    let out_p = quantize_rgb16(&pix, 2, 2, Tone::Perceptual, false).unwrap();
    for i in 0..pix.len() {
        assert_eq!(out_p[i].r, round_curve(pix[i].r, true));
    }
}

#[test]
fn gamma_needs_external_bases() {
    let pix = vec![Rgb16 { r: 0, g: 0, b: 0 }; 4];
    assert!(quantize_rgb16(&pix, 2, 2, Tone::Gamma, false).is_none());
}

#[test]
fn dither_mean_approximates_true_value_on_flat_image() {
    // 33024/65535*255 = 128.4989…: undithered everything rounds to 128, and
    // the dithered mean over a large flat region stays within one unit.
    let w = 64usize;
    let h = 16usize;
    let pix = vec![Rgb16 { r: 33024, g: 33024, b: 33024 }; w * h];
    let undithered = quantize_rgb16(&pix, w, h, Tone::Identity, false).unwrap();
    assert_eq!(undithered[0].r, 128);
    let dithered = quantize_rgb16(&pix, w, h, Tone::Identity, true).unwrap();
    let sum: u64 = dithered.iter().map(|p| p.r as u64).sum();
    let mean = sum as f64 / (w * h) as f64;
    assert!((mean - 128.0).abs() <= 1.0, "mean {}", mean);
    // The recipe quantizes each channel to the 8-bit grid before measuring
    // the error, so the scan leaves the rounded values unchanged.
    assert_eq!(dithered, undithered);
    // Dithering is deterministic: a second run is bit-identical.
    let again = quantize_rgb16(&pix, w, h, Tone::Identity, true).unwrap();
    assert_eq!(dithered, again);
}

#[test]
fn dither_passthrough_on_exact_values() {
    // 257·k maps exactly to k: no quantization error, so dithering changes
    // nothing.
    let pix = vec![Rgb16 { r: 257 * 80, g: 257 * 81, b: 257 * 82 }; 12];
    let plain = quantize_rgb16(&pix, 4, 3, Tone::Identity, false).unwrap();
    let dith = quantize_rgb16(&pix, 4, 3, Tone::Identity, true).unwrap();
    assert_eq!(plain, dith);
    assert_eq!(plain[0], Rgb8 { r: 80, g: 81, b: 82 });
}

#[test]
fn quantize_bases_identity_when_undithered() {
    let bases = vec![Rgb8 { r: 10, g: 20, b: 30 }, Rgb8 { r: 40, g: 50, b: 60 }];
    let out = quantize_bases(&bases, 2, 1, false);
    assert_eq!(out, bases);
}

#[test]
fn effective_defaults_and_overrides() {
    let defaults = Overrides {
        preset: None,
        intent: None,
        tone_map: None,
        dither: None,
        bpc: true,
        out_depth: None,
    };
    let eff = compute_effective(&defaults);
    assert_eq!(eff.preset, Preset::AccessII);
    assert_eq!(eff.out_depth, BitDepth::B8);
    assert_eq!(eff.intent, RenderIntent::Perceptual);
    assert_eq!(eff.tone_map, Tone::Identity);
    assert!(!eff.dither);
    assert!(eff.bpc);

    let master = Overrides { preset: Some(Preset::Master), ..defaults };
    assert_eq!(compute_effective(&master).out_depth, BitDepth::B16);

    let explicit = Overrides {
        preset: Some(Preset::Master),
        intent: Some(RenderIntent::Absolute),
        tone_map: Some(Tone::Perceptual),
        dither: Some(true),
        bpc: false,
        out_depth: Some(BitDepth::B8),
    };
    let eff2 = compute_effective(&explicit);
    assert_eq!(eff2.out_depth, BitDepth::B8);
    assert_eq!(eff2.intent, RenderIntent::Absolute);
    assert_eq!(eff2.tone_map, Tone::Perceptual);
    assert!(eff2.dither);
    assert!(!eff2.bpc);
}

#[test]
fn input_profile_resolution() {
    assert_eq!(
        resolve_input_profile(InputIccMode::Srgb, false, true, true),
        Ok(InputChoice::Srgb)
    );
    assert_eq!(
        resolve_input_profile(InputIccMode::FromFile, true, false, false),
        Ok(InputChoice::FromFile)
    );
    assert_eq!(
        resolve_input_profile(InputIccMode::FromFile, false, false, false),
        Err(PolicyError::MissingInputIccFile)
    );
    assert_eq!(
        resolve_input_profile(InputIccMode::Auto, false, true, true),
        Ok(InputChoice::TiffEmbedded)
    );
    assert_eq!(
        resolve_input_profile(InputIccMode::Auto, false, false, true),
        Ok(InputChoice::JpegEmbedded)
    );
    assert_eq!(
        resolve_input_profile(InputIccMode::Auto, false, false, false),
        Ok(InputChoice::Srgb)
    );
}

#[test]
fn access_tier_one_passes_color_through() {
    // No explicit output profile override, force flag unset: no output
    // management, whatever else holds.
    assert_eq!(
        resolve_output_profile(Preset::AccessI, false, false, false),
        OutputChoice::NoManagement
    );
    assert_eq!(
        resolve_output_profile(Preset::AccessI, true, false, true),
        OutputChoice::NoManagement
    );
    assert_eq!(
        resolve_output_profile(Preset::AccessI, true, true, false),
        OutputChoice::FromFile
    );
    assert_eq!(
        resolve_output_profile(Preset::AccessI, false, true, false),
        OutputChoice::Srgb
    );
}

#[test]
fn output_policy_tier_two_and_master() {
    assert_eq!(
        resolve_output_profile(Preset::AccessII, true, false, true),
        OutputChoice::FromFile
    );
    assert_eq!(
        resolve_output_profile(Preset::AccessII, false, false, true),
        OutputChoice::Srgb
    );
    assert_eq!(
        resolve_output_profile(Preset::Master, true, false, true),
        OutputChoice::FromFile
    );
    assert_eq!(
        resolve_output_profile(Preset::Master, false, false, true),
        OutputChoice::PreserveEmbedded
    );
    assert_eq!(
        resolve_output_profile(Preset::Master, false, false, false),
        OutputChoice::SameAsInput
    );
}

fn jpeg_with_chunks(chunks: &[(u8, &[u8])]) -> Vec<u8> {
    let mut d = vec![0xFF, 0xD8];
    for (seq, payload) in chunks {
        d.push(0xFF);
        d.push(0xE2);
        let body_len = 12 + 2 + payload.len();
        let seg_len = (body_len + 2) as u16;
        d.push((seg_len >> 8) as u8);
        d.push((seg_len & 0xFF) as u8);
        d.extend_from_slice(b"ICC_PROFILE\0");
        d.push(*seq);
        d.push(chunks.len() as u8);
        d.extend_from_slice(payload);
    }
    d.push(0xFF);
    d.push(0xD9);
    d
}

#[test]
fn jpeg_chunks_out_of_order_reassemble_identically() {
    let in_order = jpeg_with_chunks(&[(1, b"AAAA"), (2, b"BBBB"), (3, b"CC")]);
    let out_of_order = jpeg_with_chunks(&[(3, b"CC"), (1, b"AAAA"), (2, b"BBBB")]);
    let a = jpeg_icc(&in_order).unwrap().unwrap();
    let b = jpeg_icc(&out_of_order).unwrap().unwrap();
    assert_eq!(a, b"AAAABBBBCC".to_vec());
    assert_eq!(a, b);
}

#[test]
fn jpeg_without_chunks_or_soi_gives_none() {
    assert!(jpeg_icc(&vec![0xFF, 0xD8, 0xFF, 0xD9]).unwrap().is_none());
    assert!(jpeg_icc(&vec![0x00, 0x01, 0x02, 0x03]).unwrap().is_none());
    assert!(jpeg_icc(&Vec::new()).unwrap().is_none());
}

#[test]
fn jpeg_non_icc_app2_is_ignored() {
    // An APP2 segment without the signature contributes nothing.
    let mut d = vec![0xFF, 0xD8, 0xFF, 0xE2, 0x00, 0x06, 1, 2, 3, 4];
    d.push(0xFF);
    d.push(0xD9);
    assert!(jpeg_icc(&d).unwrap().is_none());
}

#[test]
fn jpeg_malformed_segment_is_format_error() {
    // A length field below 2 is a format error, never a silent stop.
    let short_len = vec![0xFF, 0xD8, 0xFF, 0xE2, 0x00, 0x01];
    assert_eq!(jpeg_icc(&short_len), Err(JpegIccError::MalformedSegment));
    // A segment body running past the end of the data likewise.
    let truncated = vec![0xFF, 0xD8, 0xFF, 0xE2, 0x00, 0x20, 1, 2];
    assert_eq!(jpeg_icc(&truncated), Err(JpegIccError::MalformedSegment));
    // Any marker's segment is held to its length field, not only APP2.
    let other_marker = vec![0xFF, 0xD8, 0xFF, 0xE0, 0x00, 0x00];
    assert_eq!(jpeg_icc(&other_marker), Err(JpegIccError::MalformedSegment));
}

#[test]
fn resolution_normalization_all_combinations() {
    let r300 = Rational { n: 300, d: 1 };
    let r200 = Rational { n: 200, d: 1 };
    let none_meta: Option<&TiffMeta> = None;
    let (u, x, y) = normalize_resolution(none_meta);
    assert_eq!((u, x, y), (ResUnit::Inch, Rational { n: 600, d: 1 }, Rational { n: 600, d: 1 }));

    let both = TiffMeta { icc: None, x_res: Some(r300), y_res: Some(r200), unit: Some(ResUnit::Centimeter) };
    assert_eq!(normalize_resolution(Some(&both)), (ResUnit::Centimeter, r300, r200));

    let only_x = TiffMeta { icc: None, x_res: Some(r300), y_res: None, unit: None };
    assert_eq!(normalize_resolution(Some(&only_x)), (ResUnit::Inch, r300, r300));

    let only_y = TiffMeta { icc: None, x_res: None, y_res: Some(r200), unit: None };
    assert_eq!(normalize_resolution(Some(&only_y)), (ResUnit::Inch, r200, r200));

    let neither = TiffMeta { icc: None, x_res: None, y_res: None, unit: None };
    assert_eq!(
        normalize_resolution(Some(&neither)),
        (ResUnit::Inch, Rational { n: 600, d: 1 }, Rational { n: 600, d: 1 })
    );

    let zero_den = TiffMeta {
        icc: None,
        x_res: Some(Rational { n: 300, d: 0 }),
        y_res: Some(r200),
        unit: None,
    };
    assert_eq!(
        normalize_resolution(Some(&zero_den)),
        (ResUnit::Inch, Rational { n: 600, d: 1 }, r200)
    );
}

#[test]
fn path_classification() {
    assert!(is_supported_image_path(&b"dir/photo.TIF".to_vec()));
    assert!(is_supported_image_path(&b"a.jpeg".to_vec()));
    assert!(is_supported_image_path(&b"b.png".to_vec()));
    assert!(!is_supported_image_path(&b"c.bmp".to_vec()));
    assert!(!is_supported_image_path(&b"noext".to_vec()));
    assert!(!is_supported_image_path(&b"dir.tif/noext".to_vec()));
    assert!(is_tiff_path(&b"x/y.tiff".to_vec()));
    assert!(!is_tiff_path(&b"x/y.jpg".to_vec()));
    assert!(is_jpeg_path(&b"x/y.JPG".to_vec()));
    assert!(!is_jpeg_path(&b"x/y.tif".to_vec()));
}

#[test]
fn out_ext_normalization() {
    assert_eq!(normalize_out_ext(&b" .TIF ".to_vec()), Ok(b"tif".to_vec()));
    assert_eq!(normalize_out_ext(&b"jpeg".to_vec()), Ok(b"jpeg".to_vec()));
    assert_eq!(normalize_out_ext(&b"bmp".to_vec()), Err(BatchError::UnsupportedOutExt));
    assert_eq!(normalize_out_ext(&b"".to_vec()), Err(BatchError::UnsupportedOutExt));
}

#[test]
fn destination_names_and_sidecars() {
    assert_eq!(
        dest_file_name(&b"scan01".to_vec(), &b"_uc-ii".to_vec(), &b"tif".to_vec()),
        b"scan01_uc-ii.tif".to_vec()
    );
    assert_eq!(sidecar_path_for(&b"out/scan01.tif".to_vec()), b"out/scan01.icc".to_vec());
    assert_eq!(sidecar_path_for(&b"out/noext".to_vec()), b"out/noext.icc".to_vec());
}

#[test]
fn skip_and_summary_accounting() {
    // Five files, two destinations pre-exist, overwriting off, one failure:
    // exactly two skips and 5 - 2 - 1 = 2 conversions.
    let exists = [false, true, false, true, false];
    let ok = [true, true, false, true, true];
    let mut outcomes = Vec::new();
    for i in 0..5 {
        if should_skip(exists[i], false) {
            outcomes.push(Outcome::Skipped);
        } else if ok[i] {
            outcomes.push(Outcome::Converted);
        } else {
            outcomes.push(Outcome::Failed);
        }
    }
    let s = summarize(&outcomes);
    assert_eq!(s, Summary { converted: 2, skipped: 2, failed: 1 });
    assert_eq!(s.converted, 5 - 2 - s.failed);
    // The batch fails exactly when some file failed; skips never fail it.
    assert!(batch_failed(&s));
    assert!(!batch_failed(&Summary { converted: 0, skipped: 3, failed: 0 }));
    // With overwriting on, nothing is skipped.
    assert!(!should_skip(true, true));
}

#[test]
fn endian_readers() {
    let d = vec![0x01, 0x02, 0x03, 0x04, 0x05, 0x06, 0x07, 0x08];
    assert_eq!(read_u16_at(&d, 0, true), 0x0201);
    assert_eq!(read_u16_at(&d, 0, false), 0x0102);
    assert_eq!(read_u32_at(&d, 0, true), 0x04030201);
    assert_eq!(read_u32_at(&d, 0, false), 0x01020304);
    assert_eq!(read_u64_at(&d, 0, true), 0x0807060504030201);
    assert_eq!(read_u64_at(&d, 0, false), 0x0102030405060708);
}

#[test]
fn discovered_paths_sort_lexicographically() {
    let paths = vec![
        b"dir/b.tif".to_vec(),
        b"dir/a.tif".to_vec(),
        b"dir/a.tif".to_vec(),
        b"adir/z.png".to_vec(),
        b"dir".to_vec(),
    ];
    let sorted = nclr_core::batch::sort_paths(paths);
    assert_eq!(
        sorted,
        vec![
            b"adir/z.png".to_vec(),
            b"dir".to_vec(),
            b"dir/a.tif".to_vec(),
            b"dir/a.tif".to_vec(),
            b"dir/b.tif".to_vec(),
        ]
    );
}

#[test]
fn conversion_plan_follows_policy() {
    // Tier I unforced: no transform, no embedded profile, depth only.
    let p = plan_conversion(false, OutputChoice::NoManagement, BitDepth::B8, true);
    assert_eq!(
        p,
        ConversionPlan { apply_transform: false, embed_icc: false, quantize_to_8: true, write_tiff: true }
    );
    // Managed TIFF output embeds the profile.
    let q = plan_conversion(false, OutputChoice::Srgb, BitDepth::B16, true);
    assert_eq!(
        q,
        ConversionPlan { apply_transform: true, embed_icc: true, quantize_to_8: false, write_tiff: true }
    );
    // The no-icc flag turns the transform off even with a resolved profile.
    let r = plan_conversion(true, OutputChoice::Srgb, BitDepth::B8, false);
    assert!(!r.apply_transform);
    assert!(!r.embed_icc);
    assert!(!r.write_tiff);
}

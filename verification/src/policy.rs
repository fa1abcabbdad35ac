//! The profile selection policy: merging preset defaults with explicit
//! overrides, choosing the effective input profile source, and resolving the
//! output profile under the archival policy — derived and access copies
//! normalize color, master copies preserve it. All of it is pure decision
//! logic; profile handles are constructed elsewhere from these decisions.
use vstd::prelude::*;

use crate::quantize::Tone;

verus! {

/// The archival preset: master copy, or the two access-copy tiers.
#[derive(Debug, Clone, Copy, PartialEq, Eq, Structural)]
pub enum Preset {
    /// Master copy: preserves the source's color description.
    Master,
    /// Access copy, tier I: no output color management unless forced.
    AccessI,
    /// Access copy, tier II: output color management always on.
    AccessII,
}

/// Output bit depth.
#[derive(Debug, Clone, Copy, PartialEq, Eq, Structural)]
pub enum BitDepth {
    B8,
    B16,
}

/// The rendering intent handed to the color transform.
#[derive(Debug, Clone, Copy, PartialEq, Eq, Structural)]
pub enum RenderIntent {
    Perceptual,
    Relative,
    Absolute,
    Saturation,
}

/// How the input ICC profile is picked.
#[derive(Debug, Clone, Copy, PartialEq, Eq, Structural)]
pub enum InputIccMode {
    /// Prefer embedded profiles, fall back to sRGB.
    Auto,
    /// Always sRGB.
    Srgb,
    /// A profile file given explicitly.
    FromFile,
}

/// The explicit options a run was given; `None` means "not specified, use
/// the preset default".
#[derive(Debug, Clone, Copy)]
pub struct Overrides {
    pub preset: Option<Preset>,
    pub intent: Option<RenderIntent>,
    pub tone_map: Option<Tone>,
    pub dither: Option<bool>,
    pub bpc: bool,
    pub out_depth: Option<BitDepth>,
}

/// The settings a run actually uses, resolved once by merging explicit
/// overrides over preset defaults; immutable thereafter.
#[derive(Debug, Clone, Copy, PartialEq, Eq, Structural)]
pub struct EffectiveSettings {
    pub preset: Preset,
    pub out_depth: BitDepth,
    pub intent: RenderIntent,
    pub tone_map: Tone,
    pub dither: bool,
    pub bpc: bool,
}

/// Applies preset defaults without overriding anything given explicitly:
/// explicit always wins. The default preset is access tier II; the default
/// intent is perceptual, the default tone curve identity, dithering off; the
/// default depth is 16-bit for master copies and 8-bit otherwise.
pub fn compute_effective(o: &Overrides) -> (r: EffectiveSettings)
    ensures
        r.preset == (match o.preset {
            Some(p) => p,
            None => Preset::AccessII,
        }),
        r.intent == (match o.intent {
            Some(i) => i,
            None => RenderIntent::Perceptual,
        }),
        r.tone_map == (match o.tone_map {
            Some(t) => t,
            None => Tone::Identity,
        }),
        r.dither == (match o.dither {
            Some(d) => d,
            None => false,
        }),
        r.bpc == o.bpc,
        r.out_depth == (match o.out_depth {
            Some(d) => d,
            None => (if (match o.preset {
                Some(p) => p,
                None => Preset::AccessII,
            }) is Master {
                BitDepth::B16
            } else {
                BitDepth::B8
            }),
        }),
{
    let preset = match o.preset {
        Some(p) => p,
        None => Preset::AccessII,
    };
    let intent = match o.intent {
        Some(i) => i,
        None => RenderIntent::Perceptual,
    };
    let tone_map = match o.tone_map {
        Some(t) => t,
        None => Tone::Identity,
    };
    let dither = match o.dither {
        Some(d) => d,
        None => false,
    };
    let out_depth = match o.out_depth {
        Some(d) => d,
        None => match preset {
            Preset::Master => BitDepth::B16,
            _ => BitDepth::B8,
        },
    };
    EffectiveSettings { preset, out_depth, intent, tone_map, dither, bpc: o.bpc }
}

/// A policy failure: a detection mode was selected without its required
/// parameter.
#[derive(Debug, Clone, Copy, PartialEq, Eq, Structural)]
pub enum PolicyError {
    /// The file detection mode needs an explicit input profile file.
    MissingInputIccFile,
}

/// Where the input profile comes from. The caller holds the actual bytes or
/// paths; this is the pure decision.
#[derive(Debug, Clone, Copy, PartialEq, Eq, Structural)]
pub enum InputChoice {
    /// The canonical sRGB profile.
    Srgb,
    /// The explicitly given profile file.
    FromFile,
    /// The ICC bytes embedded in the input TIFF.
    TiffEmbedded,
    /// The ICC bytes reassembled from the input JPEG's APP2 segments.
    JpegEmbedded,
}

/// The input profile decision. Explicit sRGB and explicit file win outright
/// (the file mode fails without its file); auto-detection prefers
/// TIFF-embedded ICC bytes, then JPEG-embedded bytes, then sRGB.
pub open spec fn spec_resolve_input(
    mode: InputIccMode,
    has_icc_file: bool,
    has_tiff_icc: bool,
    has_jpeg_icc: bool,
) -> Result<InputChoice, PolicyError> {
    match mode {
        InputIccMode::Srgb => Ok(InputChoice::Srgb),
        InputIccMode::FromFile => if has_icc_file {
            Ok(InputChoice::FromFile)
        } else {
            Err(PolicyError::MissingInputIccFile)
        },
        InputIccMode::Auto => if has_tiff_icc {
            Ok(InputChoice::TiffEmbedded)
        } else if has_jpeg_icc {
            Ok(InputChoice::JpegEmbedded)
        } else {
            Ok(InputChoice::Srgb)
        },
    }
}

pub fn resolve_input_profile(
    mode: InputIccMode,
    has_icc_file: bool,
    has_tiff_icc: bool,
    has_jpeg_icc: bool,
) -> (r: Result<InputChoice, PolicyError>)
    ensures
        r == spec_resolve_input(mode, has_icc_file, has_tiff_icc, has_jpeg_icc),
{
    match mode {
        InputIccMode::Srgb => Ok(InputChoice::Srgb),
        InputIccMode::FromFile => if has_icc_file {
            Ok(InputChoice::FromFile)
        } else {
            Err(PolicyError::MissingInputIccFile)
        },
        InputIccMode::Auto => if has_tiff_icc {
            Ok(InputChoice::TiffEmbedded)
        } else if has_jpeg_icc {
            Ok(InputChoice::JpegEmbedded)
        } else {
            Ok(InputChoice::Srgb)
        },
    }
}

/// Where the output profile comes from, or that the output is not color
/// managed at all.
#[derive(Debug, Clone, Copy, PartialEq, Eq, Structural)]
pub enum OutputChoice {
    /// No output color management: pixels pass through color-untouched.
    NoManagement,
    /// The explicitly given output profile file.
    FromFile,
    /// The canonical sRGB profile.
    Srgb,
    /// The ICC bytes embedded in the input, preserved verbatim.
    PreserveEmbedded,
    /// Whatever profile the input resolved to, exported and re-used.
    SameAsInput,
}

/// The output profile policy. Access tier I: off unless forced, then the
/// explicit file or sRGB. Access tier II: always on, the explicit file or
/// sRGB. Master: the explicit file, else the embedded input profile
/// verbatim, else whatever the input profile was.
pub open spec fn spec_resolve_output(
    preset: Preset,
    has_out_icc: bool,
    force_out_icc: bool,
    has_embedded: bool,
) -> OutputChoice {
    match preset {
        Preset::AccessI => if force_out_icc {
            if has_out_icc {
                OutputChoice::FromFile
            } else {
                OutputChoice::Srgb
            }
        } else {
            OutputChoice::NoManagement
        },
        Preset::AccessII => if has_out_icc {
            OutputChoice::FromFile
        } else {
            OutputChoice::Srgb
        },
        Preset::Master => if has_out_icc {
            OutputChoice::FromFile
        } else if has_embedded {
            OutputChoice::PreserveEmbedded
        } else {
            OutputChoice::SameAsInput
        },
    }
}

pub fn resolve_output_profile(
    preset: Preset,
    has_out_icc: bool,
    force_out_icc: bool,
    has_embedded: bool,
) -> (r: OutputChoice)
    ensures
        r == spec_resolve_output(preset, has_out_icc, force_out_icc, has_embedded),
{
    match preset {
        Preset::AccessI => if force_out_icc {
            if has_out_icc {
                OutputChoice::FromFile
            } else {
                OutputChoice::Srgb
            }
        } else {
            OutputChoice::NoManagement
        },
        Preset::AccessII => if has_out_icc {
            OutputChoice::FromFile
        } else {
            OutputChoice::Srgb
        },
        Preset::Master => if has_out_icc {
            OutputChoice::FromFile
        } else if has_embedded {
            OutputChoice::PreserveEmbedded
        } else {
            OutputChoice::SameAsInput
        },
    }
}

/// Whether a conversion applies the color transform at all: not when the
/// run disables color management outright, and not when the policy resolved
/// no output profile.
pub open spec fn spec_applies_transform(no_icc: bool, out: OutputChoice) -> bool {
    !no_icc && !(out is NoManagement)
}


/// The per-file conversion plan: what the pipeline does between decoding
/// and writing, resolved from the run's flags and the output policy.
#[derive(Debug, Clone, Copy, PartialEq, Eq, Structural)]
pub struct ConversionPlan {
    /// Run the color transform between the input and output profiles.
    pub apply_transform: bool,
    /// Embed the output profile's bytes in the written TIFF.
    pub embed_icc: bool,
    /// Quantize 16-bit samples down to 8.
    pub quantize_to_8: bool,
    /// Write with this crate's TIFF writer (else an external encoder).
    pub write_tiff: bool,
}

/// Resolves the plan: the transform runs unless color management is off for
/// this run or the policy resolved no output profile; ICC bytes are embedded
/// only into TIFF outputs that are color managed; depth conversion follows
/// the effective output depth.
pub open spec fn spec_plan_conversion(
    no_icc: bool,
    out: OutputChoice,
    out_depth: BitDepth,
    out_is_tiff: bool,
) -> ConversionPlan {
    ConversionPlan {
        apply_transform: spec_applies_transform(no_icc, out),
        embed_icc: out_is_tiff && spec_applies_transform(no_icc, out),
        quantize_to_8: out_depth is B8,
        write_tiff: out_is_tiff,
    }
}

pub fn plan_conversion(
    no_icc: bool,
    out: OutputChoice,
    out_depth: BitDepth,
    out_is_tiff: bool,
) -> (r: ConversionPlan)
    ensures
        r == spec_plan_conversion(no_icc, out, out_depth, out_is_tiff),
{
    let managed = !no_icc && !matches!(out, OutputChoice::NoManagement);
    ConversionPlan {
        apply_transform: managed,
        embed_icc: out_is_tiff && managed,
        quantize_to_8: matches!(out_depth, BitDepth::B8),
        write_tiff: out_is_tiff,
    }
}

/// Law: under the access tier I preset with the force flag unset, the
/// resolved output profile is none, whatever other inputs the run was given
/// — and no color transform applies: pixels pass through color-untouched,
/// only depth-converted.
pub proof fn lemma_access_tier_one_untouched(
    has_out_icc: bool,
    has_embedded: bool,
    no_icc: bool,
)
    ensures
        spec_resolve_output(Preset::AccessI, has_out_icc, false, has_embedded)
            == OutputChoice::NoManagement,
        !spec_applies_transform(
            no_icc,
            spec_resolve_output(Preset::AccessI, has_out_icc, false, has_embedded),
        ),
{
}

} // verus!

//! The metadata recovered from a TIFF file's first directory: embedded ICC
//! bytes and resolution tags, and the normalization of resolution values for
//! the writer.
use vstd::prelude::*;

verus! {

/// A TIFF rational value. A zero denominator is treated as "absent" by every
/// consumer; resolution normalization never produces one.
#[derive(Debug, Clone, Copy, PartialEq, Eq, Structural)]
pub struct Rational {
    pub n: u32,
    pub d: u32,
}

/// The TIFF resolution unit (tag 296): 2 is inch, 3 is centimeter, anything
/// else is "no absolute unit".
#[derive(Debug, Clone, Copy, PartialEq, Eq, Structural)]
pub enum ResUnit {
    NoUnit,
    Inch,
    Centimeter,
}

/// Metadata read from IFD0 of a TIFF file: the raw embedded ICC profile
/// bytes, the resolution tags, and the resolution unit. Immutable after
/// parsing.
#[derive(Debug, Clone, PartialEq, Eq)]
pub struct TiffMeta {
    pub icc: Option<Vec<u8>>,
    pub x_res: Option<Rational>,
    pub y_res: Option<Rational>,
    pub unit: Option<ResUnit>,
}

/// The mathematical value of a `TiffMeta`: the ICC bytes as a sequence.
pub ghost struct MetaView {
    pub icc: Option<Seq<u8>>,
    pub x_res: Option<Rational>,
    pub y_res: Option<Rational>,
    pub unit: Option<ResUnit>,
}

impl View for TiffMeta {
    type V = MetaView;

    open spec fn view(&self) -> MetaView {
        MetaView {
            icc: match self.icc {
                Some(v) => Some(v@),
                None => None,
            },
            x_res: self.x_res,
            y_res: self.y_res,
            unit: self.unit,
        }
    }
}

impl TiffMeta {
    /// Metadata carrying nothing: used when a file has no readable IFD0.
    pub fn empty() -> (r: TiffMeta)
        ensures
            r@.icc is None,
            r@.x_res is None,
            r@.y_res is None,
            r@.unit is None,
    {
        TiffMeta { icc: None, x_res: None, y_res: None, unit: None }
    }
}

/// The fixed fallback resolution when no axis is known: 600 per inch.
pub open spec fn spec_default_res() -> Rational {
    Rational { n: 600, d: 1 }
}

/// The unit the writer emits for the given source metadata: the source unit,
/// with "no unit" promoted to inch (the output format wants a concrete DPI
/// interpretation), and inch when the source carries no unit at all.
pub open spec fn spec_norm_unit(m: Option<MetaView>) -> ResUnit {
    match m {
        Some(mv) => match mv.unit {
            Some(ResUnit::NoUnit) => ResUnit::Inch,
            Some(u) => u,
            None => ResUnit::Inch,
        },
        None => ResUnit::Inch,
    }
}

/// The X resolution the writer emits: the source X axis when present, the
/// mirrored Y axis when only Y is present, else the 600/1 default; a zero
/// denominator anywhere falls back to the default.
pub open spec fn spec_norm_x(m: Option<MetaView>) -> Rational {
    let raw = match m {
        Some(mv) => match mv.x_res {
            Some(x) => x,
            None => match mv.y_res {
                Some(y) => y,
                None => spec_default_res(),
            },
        },
        None => spec_default_res(),
    };
    if raw.d == 0 {
        spec_default_res()
    } else {
        raw
    }
}

/// The Y resolution the writer emits: the source Y axis when present, the
/// mirrored X axis when only X is present, else the 600/1 default; a zero
/// denominator anywhere falls back to the default.
pub open spec fn spec_norm_y(m: Option<MetaView>) -> Rational {
    let raw = match m {
        Some(mv) => match mv.y_res {
            Some(y) => y,
            None => match mv.x_res {
                Some(x) => x,
                None => spec_default_res(),
            },
        },
        None => spec_default_res(),
    };
    if raw.d == 0 {
        spec_default_res()
    } else {
        raw
    }
}

/// Resolution normalization for the writer. Reuses both axes if the source
/// supplies both, mirrors the known axis onto the unknown one if only one is
/// present, and falls back to 600/1 inch if neither is present or a
/// denominator is zero. Deterministic in all combinations of present and
/// absent axes.
pub fn normalize_resolution(meta: Option<&TiffMeta>) -> (r: (ResUnit, Rational, Rational))
    ensures
        r.0 == spec_norm_unit(match meta {
            Some(m) => Some(m@),
            None => None,
        }),
        r.1 == spec_norm_x(match meta {
            Some(m) => Some(m@),
            None => None,
        }),
        r.2 == spec_norm_y(match meta {
            Some(m) => Some(m@),
            None => None,
        }),
        r.1.d != 0,
        r.2.d != 0,
{
    let default_r = Rational { n: 600, d: 1 };
    let mut unit = ResUnit::Inch;
    let mut xr = default_r;
    let mut yr = default_r;

    if let Some(m) = meta {
        if let Some(u) = m.unit {
            unit = match u {
                ResUnit::NoUnit => ResUnit::Inch,
                other => other,
            };
        }
        match (m.x_res, m.y_res) {
            (Some(x), Some(y)) => {
                xr = x;
                yr = y;
            }
            (Some(x), None) => {
                xr = x;
                yr = x;
            }
            (None, Some(y)) => {
                xr = y;
                yr = y;
            }
            (None, None) => {}
        }
    }

    if xr.d == 0 {
        xr = default_r;
    }
    if yr.d == 0 {
        yr = default_r;
    }
    (unit, xr, yr)
}

} // verus!

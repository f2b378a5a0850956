//! Rules about windows and the UI theme that do not depend on the OS: DPI
//! scaling, which windows may be managed, elevation, and the colour palette.
use crate::layout::{fits_i32, trunc_div};
use vstd::prelude::*;

verus! {

/// Scaling of `logical` pixels (96 dpi) to `dpi`, rounded to nearest.
pub open spec fn dpi_scaled(logical: i32, dpi: u32) -> int {
    if dpi == 0 {
        logical as int
    } else {
        trunc_div(logical * (dpi as i32) + 48, 96)
    }
}

/// The scaling computes within the `i32` range.
pub open spec fn dpi_scale_defined(logical: i32, dpi: u32) -> bool {
    dpi == 0 || (fits_i32(logical * (dpi as i32)) && fits_i32(logical * (dpi as i32) + 48))
}

/// `logical` pixels at 96 dpi scaled to a window's `dpi` (0 when the DPI is
/// unknown, which leaves the value unscaled).
pub fn scale_for_dpi(logical: i32, dpi: u32) -> (px: i32)
    requires
        dpi_scale_defined(logical, dpi),
    ensures
        px == dpi_scaled(logical, dpi),
{
    if dpi == 0 {
        logical
    } else {
        #[verifier::truncate]
        let d = dpi as i32;
        (logical * d + 48) / 96
    }
}

/// A window may be managed when it is visible, a top-level root window, not a
/// tool window, not cloaked (`cloaked` is the DWM cloak attribute when it could be
/// read) and does not belong to this process.
pub open spec fn manageable(
    visible: bool,
    is_root: bool,
    tool_window: bool,
    cloaked: Option<u32>,
    pid: u32,
    own_pid: u32,
) -> bool {
    &&& visible
    &&& is_root
    &&& !tool_window
    &&& !(cloaked matches Some(c) && c != 0)
    &&& pid != own_pid
}

/// Whether a window is a candidate for docking.
pub fn is_manageable(
    visible: bool,
    is_root: bool,
    tool_window: bool,
    cloaked: Option<u32>,
    pid: u32,
    own_pid: u32,
) -> (b: bool)
    ensures
        b == manageable(visible, is_root, tool_window, cloaked, pid, own_pid),
{
    if !visible {
        return false;
    }
    if !is_root {
        return false;
    }
    if tool_window {
        return false;
    }
    match cloaked {
        Some(c) => {
            if c != 0 {
                return false;
            }
        },
        None => {},
    }
    pid != own_pid
}

/// Whether a window's process is elevated, from what could be learnt of it:
/// `None` when the process could not be opened, `Some(None)` when its token could
/// not be opened or queried, `Some(Some(e))` with the token's elevation flag.
/// Whenever the elevation cannot be determined the window counts as elevated,
/// so it is left alone.
pub fn is_elevated(process: Option<Option<u32>>) -> (b: bool)
    ensures
        b == match process {
            None => true,
            Some(None) => true,
            Some(Some(e)) => e != 0,
        },
{
    match process {
        None => true,
        Some(token) => match token {
            Some(e) => e != 0,
            None => true,
        },
    }
}

/// The COLORREF value (0x00BBGGRR) of a colour.
pub open spec fn colorref(r: int, g: int, b: int) -> u32 {
    (r + 256 * g + 65536 * b) as u32
}

/// The COLORREF value of red `r`, green `g` and blue `b`.
pub fn rgb(r: u8, g: u8, b: u8) -> (c: u32)
    ensures
        c == colorref(r as int, g as int, b as int),
{
    let c = (b as u32) << 16 | (g as u32) << 8 | r as u32;
    assert(c == r + 256 * g + 65536 * b) by (bit_vector)
        requires
            c == (b as u32) << 16 | (g as u32) << 8 | r as u32,
    ;
    c
}

/// The COLORREF of an ARGB colour (alpha dropped, red and blue swapped).
pub open spec fn colorref_of_argb(argb: u32) -> u32 {
    colorref(((argb / 65536) % 256) as int, ((argb / 256) % 256) as int, (argb % 256) as int)
}

/// The UI palette; every colour is a COLORREF value.
#[derive(Clone, Copy, PartialEq, Eq, Debug, Structural)]
pub struct Theme {
    pub bg: u32,
    pub toolbar: u32,
    pub header: u32,
    pub text: u32,
    pub text_dim: u32,
    pub border: u32,
    pub accent: u32,
    pub hover: u32,
    pub denied: u32,
}

/// Windows' default blue, used when the accent colour cannot be read.
pub open spec fn default_accent() -> u32 {
    colorref(0x00, 0x78, 0xD4)
}

/// The palette for a light (`light`) or dark system theme with the given accent.
pub open spec fn palette(light: bool, accent: u32) -> Theme {
    if light {
        Theme {
            bg: colorref(0xF3, 0xF3, 0xF3),
            toolbar: colorref(0xEB, 0xEB, 0xEB),
            header: colorref(0xE5, 0xE5, 0xE5),
            text: colorref(0x1A, 0x1A, 0x1A),
            text_dim: colorref(0x60, 0x60, 0x60),
            border: colorref(0xD0, 0xD0, 0xD0),
            accent,
            hover: colorref(0xDA, 0xDA, 0xDA),
            denied: colorref(0xC4, 0x2B, 0x1C),
        }
    } else {
        Theme {
            bg: colorref(0x20, 0x20, 0x20),
            toolbar: colorref(0x2B, 0x2B, 0x2B),
            header: colorref(0x33, 0x33, 0x33),
            text: colorref(0xF0, 0xF0, 0xF0),
            text_dim: colorref(0xA0, 0xA0, 0xA0),
            border: colorref(0x45, 0x45, 0x45),
            accent,
            hover: colorref(0x3D, 0x3D, 0x3D),
            denied: colorref(0xE8, 0x11, 0x23),
        }
    }
}

/// The COLORREF of the ARGB colorization colour `argb`.
pub fn argb_to_colorref(argb: u32) -> (c: u32)
    ensures
        c == colorref_of_argb(argb),
{
    let r = ((argb >> 16) & 0xFF) as u8;
    let g = ((argb >> 8) & 0xFF) as u8;
    let b = (argb & 0xFF) as u8;
    assert(r == (argb / 65536) % 256 && g == (argb / 256) % 256 && b == argb % 256) by (bit_vector)
        requires
            r == ((argb >> 16) & 0xFF) as u8,
            g == ((argb >> 8) & 0xFF) as u8,
            b == (argb & 0xFF) as u8,
    ;
    rgb(r, g, b)
}

/// The palette that follows the system: `light` is the "apps use light theme"
/// setting, `colorization` the ARGB accent colour when it could be read.
pub fn theme_for(light: bool, colorization: Option<u32>) -> (t: Theme)
    ensures
        t == palette(
            light,
            match colorization {
                Some(argb) => colorref_of_argb(argb),
                None => default_accent(),
            },
        ),
{
    let accent = match colorization {
        Some(argb) => argb_to_colorref(argb),
        None => rgb(0x00, 0x78, 0xD4),
    };
    if light {
        Theme {
            bg: rgb(0xF3, 0xF3, 0xF3),
            toolbar: rgb(0xEB, 0xEB, 0xEB),
            header: rgb(0xE5, 0xE5, 0xE5),
            text: rgb(0x1A, 0x1A, 0x1A),
            text_dim: rgb(0x60, 0x60, 0x60),
            border: rgb(0xD0, 0xD0, 0xD0),
            accent,
            hover: rgb(0xDA, 0xDA, 0xDA),
            denied: rgb(0xC4, 0x2B, 0x1C),
        }
    } else {
        Theme {
            bg: rgb(0x20, 0x20, 0x20),
            toolbar: rgb(0x2B, 0x2B, 0x2B),
            header: rgb(0x33, 0x33, 0x33),
            text: rgb(0xF0, 0xF0, 0xF0),
            text_dim: rgb(0xA0, 0xA0, 0xA0),
            border: rgb(0x45, 0x45, 0x45),
            accent,
            hover: rgb(0x3D, 0x3D, 0x3D),
            denied: rgb(0xE8, 0x11, 0x23),
        }
    }
}

impl Theme {
    /// Colour of the drop highlight: `denied` for a refused drop, the accent otherwise.
    pub fn overlay_color(&self, denied: bool) -> (c: u32)
        ensures
            c == if denied {
                self.denied
            } else {
                self.accent
            },
    {
        if denied {
            self.denied
        } else {
            self.accent
        }
    }
}

} // verus!

//! Output settings: the resolution of the rendered file and where it goes.

use vstd::prelude::*;

use crate::text::{nat_digits, push_nat};

verus! {

/// The frame size of the output.
#[derive(Debug, Clone, Copy, PartialEq, Eq, Structural)]
pub enum Resolution {
    /// Keep the frame size of the sources.
    Source,
    /// 1280×720.
    HD720,
    /// 1920×1080.
    HD1080,
}

/// The frame size a resolution asks for; none for the source's own.
pub open spec fn dimensions_spec(r: Resolution) -> Option<(u32, u32)> {
    match r {
        Resolution::Source => None,
        Resolution::HD720 => Some((1280, 720)),
        Resolution::HD1080 => Some((1920, 1080)),
    }
}

/// The scale filter `scale=W:H` of a resolution; none for the source's own.
pub open spec fn scale_filter_spec(r: Resolution) -> Option<Seq<char>> {
    match dimensions_spec(r) {
        Some((w, h)) => Some("scale="@ + nat_digits(w as nat) + ":"@ + nat_digits(h as nat)),
        None => None,
    }
}

impl Resolution {
    /// Width and height of this resolution; none for `Source`.
    pub fn dimensions(&self) -> (r: Option<(u32, u32)>)
        ensures
            r == dimensions_spec(*self),
    {
        match self {
            Resolution::Source => None,
            Resolution::HD720 => Some((1280, 720)),
            Resolution::HD1080 => Some((1920, 1080)),
        }
    }

    /// The transcoder's scale filter for this resolution; none for `Source`.
    pub fn scale_filter(&self) -> (r: Option<String>)
        ensures
            r matches Some(s) ==> scale_filter_spec(*self) == Some(s@),
            r is None ==> scale_filter_spec(*self) is None,
    {
        match self.dimensions() {
            Some((w, h)) => {
                let mut s = String::from_str("scale=");
                push_nat(&mut s, w as u128);
                s.append(":");
                push_nat(&mut s, h as u128);
                Some(s)
            },
            None => None,
        }
    }
}

/// Where and at which resolution a timeline is rendered.
#[derive(Debug, Clone)]
pub struct ExportSettings {
    pub resolution: Resolution,
    pub output_path: String,
}

impl ExportSettings {
    pub fn new(resolution: Resolution, output_path: String) -> (r: Self)
        ensures
            r.resolution == resolution,
            r.output_path == output_path,
    {
        Self { resolution, output_path }
    }
}

} // verus!

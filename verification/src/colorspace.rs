//! Resolution of an image's `/ColorSpace` to one of the device spaces
//! that raw image data is read in.

use vstd::prelude::*;
use crate::model::{ColorSpaceObj, IccAlternate, IccStream};
use crate::text::str_eq;

verus! {

/// `name` itself when it is one of the three device spaces.
pub open spec fn spec_device_name(name: Seq<char>) -> Option<Seq<char>> {
    if name == "DeviceGray"@ || name == "DeviceRGB"@ || name == "DeviceCMYK"@ {
        Some(name)
    } else {
        None
    }
}

/// Maps a bare color-space name to itself if it is one of the three
/// device spaces, else `None`.
pub fn device_name(name: &str) -> (r: Option<String>)
    ensures
        match spec_device_name(name@) {
            Some(n) => r matches Some(s) && s@ == n,
            None => r is None,
        },
{
    if str_eq(name, "DeviceGray") || str_eq(name, "DeviceRGB") || str_eq(name, "DeviceCMYK") {
        Some(String::from_str(name))
    } else {
        None
    }
}

/// The device space an image's color space reads as: device names pass
/// through; `CalGray` and `CalRGB` read as their device counterparts;
/// `ICCBased` goes by the profile's component count `/N` (1, 3, 4 for
/// gray, RGB, CMYK) and else by its `/Alternate` name; anything else
/// (Indexed, Separation, DeviceN, Lab, Pattern, ...) has none.
pub open spec fn spec_resolve_color_space(cs: Option<ColorSpaceObj>) -> Option<Seq<char>> {
    match cs {
        Some(ColorSpaceObj::Name(n)) => spec_device_name(n@),
        Some(ColorSpaceObj::Array { family: Some(f), icc }) => {
            if f@ == "CalGray"@ {
                Some("DeviceGray"@)
            } else if f@ == "CalRGB"@ {
                Some("DeviceRGB"@)
            } else if f@ == "ICCBased"@ {
                match icc {
                    IccStream::Resolved { n, alternate } => {
                        if n == Some(1i64) {
                            Some("DeviceGray"@)
                        } else if n == Some(3i64) {
                            Some("DeviceRGB"@)
                        } else if n == Some(4i64) {
                            Some("DeviceCMYK"@)
                        } else {
                            match alternate {
                                IccAlternate::Name(a) => spec_device_name(a@),
                                _ => None,
                            }
                        }
                    },
                    IccStream::Unresolved => None,
                }
            } else {
                None
            }
        },
        _ => None,
    }
}

pub fn resolve_color_space(cs: &Option<ColorSpaceObj>) -> (r: Option<String>)
    ensures
        match spec_resolve_color_space(*cs) {
            Some(n) => r matches Some(s) && s@ == n,
            None => r is None,
        },
{
    match cs {
        Some(ColorSpaceObj::Name(n)) => device_name(n.as_str()),
        Some(ColorSpaceObj::Array { family: Some(f), icc }) => {
            if str_eq(f.as_str(), "CalGray") {
                Some(String::from_str("DeviceGray"))
            } else if str_eq(f.as_str(), "CalRGB") {
                Some(String::from_str("DeviceRGB"))
            } else if str_eq(f.as_str(), "ICCBased") {
                match icc {
                    IccStream::Resolved { n, alternate } => {
                        if *n == Some(1i64) {
                            Some(String::from_str("DeviceGray"))
                        } else if *n == Some(3i64) {
                            Some(String::from_str("DeviceRGB"))
                        } else if *n == Some(4i64) {
                            Some(String::from_str("DeviceCMYK"))
                        } else {
                            match alternate {
                                IccAlternate::Name(a) => device_name(a.as_str()),
                                _ => None,
                            }
                        }
                    },
                    IccStream::Unresolved => None,
                }
            } else {
                None
            }
        },
        _ => None,
    }
}

} // verus!

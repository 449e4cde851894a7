//! The options of the conversion tools.
use vstd::prelude::*;
use crate::names::{parse_unsigned, parse_unsigned_exec};

verus! {

/// Format of output files.
#[derive(Copy, Clone, PartialEq, Eq, Debug)]
pub enum Format {
    Pnm,
    Png,
    Jpeg,
}

impl Default for Format {
    fn default() -> (r: Self)
        ensures
            r == Format::Pnm,
    {
        Format::Pnm
    }
}

/// Why a format name was refused.
#[derive(Copy, Clone, PartialEq, Eq, Debug)]
pub struct UnexpectedFormat;

/// The format that a name gives: "pnm", "png" or "jpeg".
pub open spec fn format_of_name(s: Seq<u8>) -> Option<Format> {
    if s == seq![0x70u8, 0x6E, 0x6D] {
        Some(Format::Pnm)
    } else if s == seq![0x70u8, 0x6E, 0x67] {
        Some(Format::Png)
    } else if s == seq![0x6Au8, 0x70, 0x65, 0x67] {
        Some(Format::Jpeg)
    } else {
        None
    }
}

impl Format {
    /// Reads a format name: "pnm", "png" or "jpeg".
    pub fn from_name(s: &[u8]) -> (r: Result<Format, UnexpectedFormat>)
        ensures
            match format_of_name(s@) {
                Some(f) => r == Ok::<Format, UnexpectedFormat>(f),
                None => r is Err,
            },
    {
        if s.len() == 3 && s[0] == 0x70 && s[1] == 0x6E && s[2] == 0x6D {
            proof {
                assert(s@ =~= seq![0x70u8, 0x6E, 0x6D]);
            }
            Ok(Format::Pnm)
        } else if s.len() == 3 && s[0] == 0x70 && s[1] == 0x6E && s[2] == 0x67 {
            proof {
                assert(s@ =~= seq![0x70u8, 0x6E, 0x67]);
            }
            Ok(Format::Png)
        } else if s.len() == 4 && s[0] == 0x6A && s[1] == 0x70 && s[2] == 0x65 && s[3] == 0x67 {
            proof {
                assert(s@ =~= seq![0x6Au8, 0x70, 0x65, 0x67]);
            }
            Ok(Format::Jpeg)
        } else {
            proof {
                if s@ == seq![0x70u8, 0x6E, 0x6D] || s@ == seq![0x70u8, 0x6E, 0x67] {
                    assert(s@[0] == 0x70 && s@[1] == 0x6E);
                }
                if s@ == seq![0x6Au8, 0x70, 0x65, 0x67] {
                    assert(s@[0] == 0x6A);
                }
            }
            Err(UnexpectedFormat)
        }
    }
}

/// Why a scale factor was refused.
#[derive(Copy, Clone, PartialEq, Eq, Debug)]
pub enum ScaleError {
    /// Not an unsigned 8-bit number.
    Invalid,
    /// Unsupported scale factor: not 1, 2, 4, 8 or 16.
    Unsupported,
}

/// The scale factors that downscaling accepts.
pub open spec fn is_supported_scale(v: nat) -> bool {
    v == 1 || v == 2 || v == 4 || v == 8 || v == 16
}

/// Reads a downscaling factor: 1, 2, 4, 8 or 16.
pub fn parse_scale(s: &[u8]) -> (r: Result<u8, ScaleError>)
    ensures
        match parse_unsigned(s@, 255) {
            None => r == Err::<u8, ScaleError>(ScaleError::Invalid),
            Some(v) => if is_supported_scale(v) {
                r == Ok::<u8, ScaleError>(v as u8)
            } else {
                r == Err::<u8, ScaleError>(ScaleError::Unsupported)
            },
        },
{
    let res = match parse_unsigned_exec(s, 255) {
        Some(v) => v as u8,
        None => {
            return Err(ScaleError::Invalid);
        },
    };
    if res == 1 || res == 2 || res == 4 || res == 8 || res == 16 {
        Ok(res)
    } else {
        Err(ScaleError::Unsupported)
    }
}

/// How the output images are made.
#[derive(Clone, Copy, Debug)]
pub struct FormatOpt {
    /// Apply bi-linear demosaicing
    pub demosaic: bool,
    /// Apply histogram equalization filter
    pub histeq: bool,
    /// Format of output files. Supported formats: pnm, png, jpeg.
    pub format: Format,
    /// Downscale images using given scale factor. Can be used only with enabled
    /// demosaicing. Accepted values: 1, 2, 4, 8, 16.
    pub scale: u8,
    /// Encoding quality (usable only with the format equal to jpeg)
    pub quality: u8,
}

/// Why a set of output options cannot be used.
#[derive(Copy, Clone, PartialEq, Eq, Debug)]
pub enum OptionsError {
    /// can't downscale image without demosaicing
    ScaleWithoutDemosaic,
}

impl FormatOpt {
    /// Downscaling works on demosaiced (color) images only.
    pub fn check(&self) -> (r: Result<(), OptionsError>)
        ensures
            r is Err <==> (!self.demosaic && self.scale != 1),
    {
        if !self.demosaic && self.scale != 1 {
            Err(OptionsError::ScaleWithoutDemosaic)
        } else {
            Ok(())
        }
    }
}

/// Options of the conversion of the frames of one camera.
#[derive(Clone, Debug)]
pub struct ConvertOpt {
    pub format: FormatOpt,
    /// Number of threads to spawn [default: number of CPU cores]
    pub workers: Option<u8>,
    /// Skip first N images
    pub skip: u32,
    /// Input directory
    pub input: String,
    /// Output directory
    pub output: String,
}

/// Options of the conversion of left and right frames into single images.
#[derive(Clone, Debug)]
pub struct ConvertStereoOpt {
    pub format: FormatOpt,
    /// Number of threads to spawn [default: number of CPU cores]
    pub workers: Option<u8>,
    /// Ignore partial pairs (with only left ot right image)
    pub ignore_partial: bool,
    /// Ignore empty pairs (without left and right image)
    pub ignore_empty: bool,
    /// Skip first N pairs (including partial and full)
    pub skip: u32,
    /// Input directory
    pub input: String,
    /// Output directory
    pub output: String,
}

/// Tool for converting OS:Car project images.
#[derive(Clone, Debug)]
pub enum Cli {
    /// Convert images from single camera
    Mono { opt: ConvertOpt },
    /// Join left and right images into a single one. Left image names will be
    /// used for output files.
    Stereo { opt: ConvertStereoOpt },
}

/// Tool for converting and previewing OS:Car project images.
#[derive(Clone, Debug)]
pub enum OscarOpt {
    /// Convert images from single camera
    Convert { opt: ConvertOpt },
    /// Join left and right images into a single one. Left image names will be
    /// used for output files.
    ConvertStereo { opt: ConvertStereoOpt },
}

} // verus!

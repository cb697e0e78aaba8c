//! Parameters of generators, the sources of sound loaded from regions and
//! tracks.

use vstd::prelude::*;
use vstd::string::StringExecFns;
use crate::lang::expr::{FloatParamV, FloatParameter};

verus! {

/// An integer parameter exposed to the user interface.
#[derive(Debug)]
pub struct UIntParameter {
    pub value: u64,
    pub min: u64,
    pub max: u64,
    pub label: String,
}

impl UIntParameter {
    pub fn new(value: u64, min: u64, max: u64, label: &str) -> (r: Self)
        ensures
            r.value == value,
            r.min == min,
            r.max == max,
            r.label@ == label@,
    {
        UIntParameter { value, min, max, label: label.to_owned() }
    }
}

/// Parameters of an oscillator.
#[derive(Debug)]
pub struct OscillatorParam {
    pub amp: FloatParameter,
    pub freq: FloatParameter,
    pub phase: FloatParameter,
}

/// Parameters of a player of an audio file.
#[derive(Debug)]
pub struct FilePlayerParam {
    pub path: String,
    pub channels: UIntParameter,
    pub start_sec: FloatParameter,
    pub duration: FloatParameter,
}

/// Bit pattern of the `f64` 1.0.
pub const ONE_BITS: u64 = 0x3ff0000000000000u64;

/// Bit pattern of the `f64` 10.0.
pub const TEN_BITS: u64 = 0x4024000000000000u64;

/// The path of the test recording below the package directory.
pub open spec fn test_file_path(manifest_dir: Seq<char>) -> Seq<char> {
    manifest_dir + "/test/assets/test-voice-stereo.wav"@
}

impl FilePlayerParam {
    /// The stereo test recording of the package in `manifest_dir`, and its
    /// length in samples.
    pub fn new_test_file(manifest_dir: &str) -> (r: (Self, usize))
        ensures
            r.0.path@ == test_file_path(manifest_dir@),
            r.0.channels.value == 2 && r.0.channels.min == 0 && r.0.channels.max == 2,
            r.0.channels.label@ == "channels"@,
            r.0.start_sec@ == (FloatParamV { value_bits: 0, label: "start"@, min_bits: 0, max_bits: TEN_BITS }),
            r.0.duration@ == (FloatParamV { value_bits: ONE_BITS, label: "duration"@, min_bits: 0, max_bits: TEN_BITS }),
            r.1 == 119608,
    {
        let mut path = manifest_dir.to_owned();
        path.append("/test/assets/test-voice-stereo.wav");
        let length_in_samples: usize = 119608;
        (
            FilePlayerParam {
                path,
                channels: UIntParameter::new(2, 0, 2, "channels"),
                start_sec: FloatParameter::new(0, 0, TEN_BITS, "start"),
                duration: FloatParameter::new(ONE_BITS, 0, TEN_BITS, "duration"),
            },
            length_in_samples,
        )
    }
}

} // verus!

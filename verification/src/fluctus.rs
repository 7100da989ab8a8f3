//! Time modulation of filter parameters.
//!
//! A `Fluctus` describes how a float parameter varies over time: its wave
//! shape (`Figura`), its period and its phase. Period and phase are held as
//! the IEEE-754 bit patterns of `f32` values; the waveform itself is
//! evaluated in floating point by the application.

use vstd::prelude::*;

verus! {

/// Bit pattern of the `f32` value `1.0`.
pub const F32_ONE: u32 = 0x3F80_0000;

/// Bit pattern of the `f32` value `0.0`.
pub const F32_ZERO: u32 = 0x0000_0000;

/// Shape of the modulation applied to a parameter.
#[derive(Debug, Clone, Copy, PartialEq, Eq, Structural)]
pub enum Figura {
    Constant,
    Sin,
    Square,
    Triangle,
    Sinln,
    Delta,
    InverseTri,
    Trifrom1,
}

/// Modulation of a float parameter: shape, period (`cycle`) and phase, the
/// last two as `f32` bit patterns.
#[derive(Debug, Clone, Copy, PartialEq, Eq, Structural)]
pub struct Fluctus {
    pub figura: Figura,
    pub cycle: u32,
    pub phase: u32,
}

impl Fluctus {
    /// The neutral modulation: constant, period 1, phase 0.
    pub fn new() -> (f: Fluctus)
        ensures
            f.figura == Figura::Constant,
            f.cycle == F32_ONE,
            f.phase == F32_ZERO,
    {
        Fluctus { figura: Figura::Constant, cycle: F32_ONE, phase: F32_ZERO }
    }
}

/// The five-character label under which a shape is shown.
pub open spec fn figura_label(f: Figura) -> Seq<char> {
    match f {
        Figura::Constant => "const"@,
        Figura::Sin => " sin "@,
        Figura::Square => "squar"@,
        Figura::Triangle => "trian"@,
        Figura::Sinln => "sinln"@,
        Figura::Delta => "delta"@,
        Figura::InverseTri => "invtr"@,
        Figura::Trifrom1 => "tri 1"@,
    }
}

impl Figura {
    /// The label under which this shape is shown.
    pub fn display(self) -> (out: String)
        ensures
            out@ == figura_label(self),
    {
        let out_str: &str = match self {
            Figura::Constant => "const",
            Figura::Sin => " sin ",
            Figura::Square => "squar",
            Figura::Triangle => "trian",
            Figura::Sinln => "sinln",
            Figura::Delta => "delta",
            Figura::InverseTri => "invtr",
            Figura::Trifrom1 => "tri 1",
        };
        out_str.to_owned()
    }
}

} // verus!

//! One physical fan: its attribute-group path, the speed envelope read from
//! its bound files at discovery, and the computation of a target speed from
//! a temperature reading.

use crate::config::Config;
use crate::curve::curve_speed;
use crate::curve::lemma_curve_in_range;
use crate::curve::FanCurve;
use crate::numtext::u32_of_dec;
use vstd::prelude::*;

verus! {

/// Why startup discovery failed: no fan was found at all, or a fan's bound
/// files did not hold a usable speed envelope.
#[derive(Clone, Copy, PartialEq, Eq, Structural, Debug)]
pub enum DiscoveryError {
    NoFans,
    InvalidBounds,
}

/// Bytes of `/_output`, appended to a fan's base path to command a speed.
pub open spec fn output_suffix() -> Seq<u8> {
    seq![47u8, 95, 111, 117, 116, 112, 117, 116]
}

/// Bytes of `/_manual`, appended to a fan's base path to claim manual mode.
pub open spec fn manual_suffix() -> Seq<u8> {
    seq![47u8, 95, 109, 97, 110, 117, 97, 108]
}

/// Both bound files hold decimal numbers and the envelope is non-empty.
pub open spec fn bounds_usable(max_raw: Seq<u8>, min_raw: Seq<u8>) -> bool {
    match (u32_of_dec(max_raw), u32_of_dec(min_raw)) {
        (Some(mx), Some(mn)) => mn <= mx,
        _ => false,
    }
}

/// One controllable fan. The speed envelope is read once at discovery and
/// then immutable.
pub struct Fan {
    pub path: Vec<u8>,
    pub max_speed: u32,
    pub min_speed: u32,
    pub speed_curve: FanCurve,
}

impl Fan {
    /// The envelope is never inverted.
    pub open spec fn wf(&self) -> bool {
        self.min_speed <= self.max_speed
    }

    /// Builds a fan from its base path and the raw contents of its `_max`
    /// and `_min` bound files, succeeding exactly when both hold numbers
    /// that form a usable envelope.
    pub fn new(path: Vec<u8>, max_raw: &Vec<u8>, min_raw: &Vec<u8>, config: &Config) -> (r: Result<
        Fan,
        DiscoveryError,
    >)
        ensures
            match r {
                Ok(f) => {
                    &&& bounds_usable(max_raw@, min_raw@)
                    &&& f.wf()
                    &&& f.path@ == path@
                    &&& Some(f.max_speed) == u32_of_dec(max_raw@)
                    &&& Some(f.min_speed) == u32_of_dec(min_raw@)
                    &&& f.speed_curve == config.fan_curve
                },
                Err(e) => e == DiscoveryError::InvalidBounds && !bounds_usable(max_raw@, min_raw@),
            },
    {
        let mx = match crate::numtext::parse_u32(max_raw) {
            Some(v) => v,
            None => {
                return Err(DiscoveryError::InvalidBounds);
            },
        };
        let mn = match crate::numtext::parse_u32(min_raw) {
            Some(v) => v,
            None => {
                return Err(DiscoveryError::InvalidBounds);
            },
        };
        if mn > mx {
            return Err(DiscoveryError::InvalidBounds);
        }
        Ok(Fan { path, max_speed: mx, min_speed: mn, speed_curve: config.fan_curve })
    }

    /// Target speed for the given temperature reading under this fan's curve
    /// and the configured temperature window.
    pub fn calc_speed(&self, current_temp: u32, config: &Config) -> (speed: u32)
        requires
            self.wf(),
            config.wf(),
        ensures
            speed == curve_speed(
                self.speed_curve,
                current_temp,
                config.min_temp,
                config.max_temp,
                self.min_speed,
                self.max_speed,
            ),
    {
        match self.speed_curve {
            FanCurve::Linear => {
                if current_temp <= config.min_temp {
                    self.min_speed
                } else if current_temp >= config.max_temp {
                    self.max_speed
                } else {
                    let a: u64 = (current_temp - config.min_temp) as u64;
                    let b: u64 = (self.max_speed - self.min_speed) as u64;
                    proof {
                        assert(a * b <= 0xffff_ffff_ffff_ffff) by (nonlinear_arith)
                            requires
                                a < 0x1_0000_0000,
                                b < 0x1_0000_0000,
                        ;
                    }
                    let num: u64 = a * b;
                    let den: u64 = (config.max_temp - config.min_temp) as u64;
                    let q: u64 = num / den;
                    proof {
                        lemma_curve_in_range(
                            current_temp,
                            config.min_temp,
                            config.max_temp,
                            self.min_speed,
                            self.max_speed,
                        );
                    }
                    self.min_speed + (q as u32)
                }
            },
        }
    }

    /// The path of this fan's speed-command file.
    pub fn output_path(&self) -> (p: Vec<u8>)
        ensures
            p@ == self.path@ + output_suffix(),
    {
        let mut p = self.path.clone();
        let suffix: Vec<u8> = vec![47u8, 95, 111, 117, 116, 112, 117, 116];
        proof {
            assert(p@ =~= self.path@);
        }
        crate::numtext::append_bytes(&mut p, &suffix);
        proof {
            assert(p@ =~= self.path@ + output_suffix());
        }
        p
    }

    /// The path of this fan's manual-mode file.
    pub fn manual_path(&self) -> (p: Vec<u8>)
        ensures
            p@ == self.path@ + manual_suffix(),
    {
        let mut p = self.path.clone();
        let suffix: Vec<u8> = vec![47u8, 95, 109, 97, 110, 117, 97, 108];
        proof {
            assert(p@ =~= self.path@);
        }
        crate::numtext::append_bytes(&mut p, &suffix);
        proof {
            assert(p@ =~= self.path@ + manual_suffix());
        }
        p
    }
}

} // verus!

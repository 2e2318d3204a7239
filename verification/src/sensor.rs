//! Temperature input: resolving a sensor path pattern to exactly one file,
//! reading an integer out of its content, and combining the CPU and GPU
//! domains into the one temperature the curves act on.

use crate::numtext::u32_of_dec;
use vstd::prelude::*;

verus! {

/// Why a temperature could not be obtained: the sensor pattern matched no
/// file, it matched more than one, or the content was not an integer.
#[derive(Clone, Copy, PartialEq, Eq, Structural, Debug)]
pub enum SensorUnavailable {
    NoMatch,
    Ambiguous,
    Unparsable,
}

/// Picks the hardware path a sensor pattern resolved to, demanding that the
/// resolution was unambiguous: exactly one match.
pub fn select_sensor_path(matches: Vec<Vec<u8>>) -> (r: Result<Vec<u8>, SensorUnavailable>)
    ensures
        match r {
            Ok(p) => matches@.len() == 1 && p@ == matches@[0]@,
            Err(SensorUnavailable::NoMatch) => matches@.len() == 0,
            Err(SensorUnavailable::Ambiguous) => matches@.len() > 1,
            Err(SensorUnavailable::Unparsable) => false,
        },
{
    if matches.len() == 0 {
        return Err(SensorUnavailable::NoMatch);
    }
    if matches.len() > 1 {
        return Err(SensorUnavailable::Ambiguous);
    }
    let mut m = matches;
    match m.pop() {
        Some(p) => Ok(p),
        None => Err(SensorUnavailable::NoMatch),
    }
}

/// Reads a sensor file's content as a temperature in device units.
pub fn parse_temp(content: &Vec<u8>) -> (r: Result<u32, SensorUnavailable>)
    ensures
        match r {
            Ok(t) => u32_of_dec(content@) == Some(t),
            Err(e) => e == SensorUnavailable::Unparsable && u32_of_dec(content@) is None,
        },
{
    match crate::numtext::parse_u32(content) {
        Some(t) => Ok(t),
        None => Err(SensorUnavailable::Unparsable),
    }
}

/// The effective temperature over the two sensor domains: the maximum of
/// the CPU and GPU readings, so that cooling follows the hottest subsystem.
pub fn effective_temp(cpu: u32, gpu: u32) -> (t: u32)
    ensures
        t >= cpu,
        t >= gpu,
        t == cpu || t == gpu,
{
    if gpu > cpu {
        gpu
    } else {
        cpu
    }
}

} // verus!

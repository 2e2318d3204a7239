//! Startup discovery: deriving a fan's base path from a matched hardware
//! path, naming its bound files, and building the fan collection, which must
//! not be empty for the process to be of any use.

use crate::config::Config;
use crate::fan::bounds_usable;
use crate::fan::DiscoveryError;
use crate::fan::Fan;
use crate::numtext::u32_of_dec;
use vstd::prelude::*;

verus! {

/// Bytes of `_input`, the suffix that every matched fan path carries.
pub open spec fn input_suffix() -> Seq<u8> {
    seq![95u8, 105, 110, 112, 117, 116]
}

/// Bytes of `/_max`, appended to a base path to name the upper bound file.
pub open spec fn max_suffix() -> Seq<u8> {
    seq![47u8, 95, 109, 97, 120]
}

/// Bytes of `/_min`, appended to a base path to name the lower bound file.
pub open spec fn min_suffix() -> Seq<u8> {
    seq![47u8, 95, 109, 105, 110]
}

/// The base path of a matched path: the match without its trailing `_input`,
/// or nothing if the match does not end that way.
pub open spec fn base_of_match(p: Seq<u8>) -> Option<Seq<u8>> {
    if p.len() >= input_suffix().len() && p.subrange(
        p.len() - input_suffix().len(),
        p.len() as int,
    ) == input_suffix() {
        Some(p.take(p.len() - input_suffix().len()))
    } else {
        None
    }
}

/// Derives a fan's base path from a matched hardware path by structured
/// suffix removal, refusing a path that does not end in `_input`.
pub fn strip_input_suffix(p: &Vec<u8>) -> (r: Option<Vec<u8>>)
    ensures
        match r {
            Some(base) => base_of_match(p@) == Some(base@),
            None => base_of_match(p@) is None,
        },
{
    let sfx: Vec<u8> = vec![95u8, 105, 110, 112, 117, 116];
    proof {
        assert(sfx@ =~= input_suffix());
    }
    if p.len() < sfx.len() {
        return None;
    }
    let start: usize = p.len() - sfx.len();
    let mut k: usize = 0;
    while k < sfx.len()
        invariant
            k <= sfx@.len(),
            sfx@ == input_suffix(),
            start == p@.len() - sfx@.len(),
            p@.len() >= sfx@.len(),
            p@.len() <= usize::MAX,
            forall|t: int| 0 <= t < k ==> p@[start + t] == sfx@[t],
        decreases sfx@.len() - k,
    {
        if p[start + k] != sfx[k] {
            proof {
                assert(p@.subrange(start as int, p@.len() as int)[k as int] == p@[start + k]);
            }
            return None;
        }
        k = k + 1;
    }
    proof {
        assert(p@.subrange(start as int, p@.len() as int) =~= input_suffix());
    }
    let mut base: Vec<u8> = Vec::new();
    let mut t: usize = 0;
    while t < start
        invariant
            t <= start <= p@.len(),
            base@ == p@.take(t as int),
        decreases start - t,
    {
        base.push(p[t]);
        proof {
            assert(p@.take(t + 1) =~= p@.take(t as int).push(p@[t as int]));
        }
        t = t + 1;
    }
    Some(base)
}

/// The path of the upper bound file of the fan at `base`.
pub fn bound_max_path(base: &Vec<u8>) -> (r: Vec<u8>)
    ensures
        r@ == base@ + max_suffix(),
{
    let mut r = base.clone();
    let sfx: Vec<u8> = vec![47u8, 95, 109, 97, 120];
    proof {
        assert(r@ =~= base@);
    }
    crate::numtext::append_bytes(&mut r, &sfx);
    proof {
        assert(r@ =~= base@ + max_suffix());
    }
    r
}

/// The path of the lower bound file of the fan at `base`.
pub fn bound_min_path(base: &Vec<u8>) -> (r: Vec<u8>)
    ensures
        r@ == base@ + min_suffix(),
{
    let mut r = base.clone();
    let sfx: Vec<u8> = vec![47u8, 95, 109, 105, 110];
    proof {
        assert(r@ =~= base@);
    }
    crate::numtext::append_bytes(&mut r, &sfx);
    proof {
        assert(r@ =~= base@ + min_suffix());
    }
    r
}

/// What discovery found for one fan: its base path and the raw contents of
/// its two bound files.
pub struct FanEntry {
    pub path: Vec<u8>,
    pub max_raw: Vec<u8>,
    pub min_raw: Vec<u8>,
}

/// Builds the fan collection from what discovery found, in discovery order.
/// Zero matches are fatal, as is any entry whose bound files do not hold a
/// usable speed envelope.
pub fn init_fans(entries: &Vec<FanEntry>, config: &Config) -> (r: Result<Vec<Fan>, DiscoveryError>)
    ensures
        match r {
            Ok(fans) => {
                &&& entries@.len() > 0
                &&& fans@.len() == entries@.len()
                &&& forall|i: int|
                    0 <= i < fans@.len() ==> {
                        &&& (#[trigger] fans@[i]).wf()
                        &&& fans@[i].path@ == entries@[i].path@
                        &&& Some(fans@[i].max_speed) == u32_of_dec(entries@[i].max_raw@)
                        &&& Some(fans@[i].min_speed) == u32_of_dec(entries@[i].min_raw@)
                        &&& fans@[i].speed_curve == config.fan_curve
                    }
            },
            Err(DiscoveryError::NoFans) => entries@.len() == 0,
            Err(DiscoveryError::InvalidBounds) => exists|i: int|
                0 <= i < entries@.len() && !bounds_usable(
                    (#[trigger] entries@[i]).max_raw@,
                    entries@[i].min_raw@,
                ),
        },
{
    if entries.len() == 0 {
        return Err(DiscoveryError::NoFans);
    }
    let mut fans: Vec<Fan> = Vec::new();
    let mut i: usize = 0;
    while i < entries.len()
        invariant
            i <= entries@.len(),
            fans@.len() == i,
            forall|t: int|
                0 <= t < i as int ==> {
                    &&& (#[trigger] fans@[t]).wf()
                    &&& fans@[t].path@ == entries@[t].path@
                    &&& Some(fans@[t].max_speed) == u32_of_dec(entries@[t].max_raw@)
                    &&& Some(fans@[t].min_speed) == u32_of_dec(entries@[t].min_raw@)
                    &&& fans@[t].speed_curve == config.fan_curve
                },
        decreases entries@.len() - i,
    {
        let entry = &entries[i];
        let path = entry.path.clone();
        proof {
            assert(path@ =~= entries@[i as int].path@);
        }
        match Fan::new(path, &entry.max_raw, &entry.min_raw, config) {
            Ok(f) => {
                fans.push(f);
            },
            Err(e) => {
                return Err(e);
            },
        }
        i = i + 1;
    }
    Ok(fans)
}

} // verus!

//! The persisted configuration record: its textual format, an exact parser
//! and renderer for it, and the three-way load policy (parse what is there,
//! create the default when the file is absent, fall back to the default but
//! preserve the file when it is malformed).

use crate::curve::FanCurve;
use crate::numtext::all_digits;
use crate::numtext::dec_rep;
use crate::numtext::dec_val;
use crate::numtext::is_digit;
use vstd::prelude::*;

verus! {

/// The persisted settings: which curve to use and the temperature window it
/// maps onto the fan's speed envelope.
#[derive(Clone, Copy, PartialEq, Eq, Structural, Debug)]
pub struct Config {
    pub fan_curve: FanCurve,
    pub min_temp: u32,
    pub max_temp: u32,
}

impl Config {
    /// The temperature window must be non-empty.
    pub open spec fn wf(&self) -> bool {
        self.min_temp < self.max_temp
    }
}

/// The settings synthesized when no usable file is found.
pub open spec fn default_config() -> Config {
    Config { fan_curve: FanCurve::Linear, min_temp: 80, max_temp: 100 }
}

/// Bytes of `{"fan_curve":"LINEAR","min_temp":`, the text before the first
/// number of the record.
pub open spec fn lit_head() -> Seq<u8> {
    seq![
        123u8, 34, 102, 97, 110, 95, 99, 117, 114, 118, 101, 34, 58, 34, 76, 73, 78, 69, 65, 82,
        34, 44, 34, 109, 105, 110, 95, 116, 101, 109, 112, 34, 58,
    ]
}

/// Bytes of `,"max_temp":`, the text between the two numbers.
pub open spec fn lit_mid() -> Seq<u8> {
    seq![44u8, 34, 109, 97, 120, 95, 116, 101, 109, 112, 34, 58]
}

/// Bytes of `}`, the text after the second number.
pub open spec fn lit_tail() -> Seq<u8> {
    seq![125u8]
}

fn lit_head_vec() -> (v: Vec<u8>)
    ensures
        v@ == lit_head(),
{
    let v: Vec<u8> = vec![
        123u8, 34, 102, 97, 110, 95, 99, 117, 114, 118, 101, 34, 58, 34, 76, 73, 78, 69, 65, 82,
        34, 44, 34, 109, 105, 110, 95, 116, 101, 109, 112, 34, 58,
    ];
    proof {
        assert(v@ =~= lit_head());
    }
    v
}

fn lit_mid_vec() -> (v: Vec<u8>)
    ensures
        v@ == lit_mid(),
{
    let v: Vec<u8> = vec![44u8, 34, 109, 97, 120, 95, 116, 101, 109, 112, 34, 58];
    proof {
        assert(v@ =~= lit_mid());
    }
    v
}

fn lit_tail_vec() -> (v: Vec<u8>)
    ensures
        v@ == lit_tail(),
{
    let v: Vec<u8> = vec![125u8];
    proof {
        assert(v@ =~= lit_tail());
    }
    v
}

/// The canonical rendering of a window `[mn, mx]` as a configuration record.
pub open spec fn config_text(mn: u32, mx: u32) -> Seq<u8> {
    lit_head() + dec_rep(mn as nat) + lit_mid() + dec_rep(mx as nat) + lit_tail()
}

/// `s` is a configuration record whose two numbers are the digit runs `a`
/// and `b` (leading zeroes allowed, values within `u32`).
pub open spec fn is_config_text_runs(s: Seq<u8>, a: Seq<u8>, b: Seq<u8>) -> bool {
    &&& s == lit_head() + a + lit_mid() + b + lit_tail()
    &&& a.len() >= 1
    &&& all_digits(a)
    &&& dec_val(a) <= u32::MAX
    &&& b.len() >= 1
    &&& all_digits(b)
    &&& dec_val(b) <= u32::MAX
}

/// `s` is a configuration record denoting exactly the well-formed config `c`.
pub open spec fn represents_config(s: Seq<u8>, c: Config) -> bool {
    &&& c.fan_curve == FanCurve::Linear
    &&& c.min_temp < c.max_temp
    &&& exists|a: Seq<u8>, b: Seq<u8>|
        is_config_text_runs(s, a, b) && dec_val(a) == c.min_temp as nat && dec_val(b)
            == c.max_temp as nat
}

/// A sequence equals the concatenation of five pieces exactly when each piece
/// is the corresponding subrange and the lengths add up.
proof fn lemma_cat5(s: Seq<u8>, p1: Seq<u8>, p2: Seq<u8>, p3: Seq<u8>, p4: Seq<u8>, p5: Seq<u8>)
    requires
        s.len() == p1.len() as int + p2.len() + p3.len() + p4.len() + p5.len(),
        p1 == s.subrange(0, p1.len() as int),
        p2 == s.subrange(p1.len() as int, p1.len() as int + p2.len()),
        p3 == s.subrange(p1.len() as int + p2.len(), p1.len() as int + p2.len() + p3.len()),
        p4 == s.subrange(p1.len() as int + p2.len() + p3.len(), p1.len() as int + p2.len() + p3.len() + p4.len()),
        p5 == s.subrange(p1.len() as int + p2.len() + p3.len() + p4.len(), s.len() as int),
    ensures
        s == p1 + p2 + p3 + p4 + p5,
{
    assert(s =~= p1 + p2 + p3 + p4 + p5);
}

/// Each of the five pieces of a concatenation is the corresponding subrange.
proof fn lemma_cat5_parts(
    s: Seq<u8>,
    p1: Seq<u8>,
    p2: Seq<u8>,
    p3: Seq<u8>,
    p4: Seq<u8>,
    p5: Seq<u8>,
)
    requires
        s == p1 + p2 + p3 + p4 + p5,
    ensures
        s.len() == p1.len() as int + p2.len() + p3.len() + p4.len() + p5.len(),
        p1 == s.subrange(0, p1.len() as int),
        p2 == s.subrange(p1.len() as int, p1.len() as int + p2.len()),
        p3 == s.subrange(p1.len() as int + p2.len(), p1.len() as int + p2.len() + p3.len()),
        p4 == s.subrange(p1.len() as int + p2.len() + p3.len(), p1.len() as int + p2.len() + p3.len() + p4.len()),
        p5 == s.subrange(p1.len() as int + p2.len() + p3.len() + p4.len(), s.len() as int),
{
    assert(p1 =~= s.subrange(0, p1.len() as int));
    assert(p2 =~= s.subrange(p1.len() as int, p1.len() as int + p2.len()));
    assert(p3 =~= s.subrange(p1.len() as int + p2.len(), p1.len() as int + p2.len() + p3.len()));
    assert(p4 =~= s.subrange(
        p1.len() as int + p2.len() + p3.len(),
        p1.len() as int + p2.len() + p3.len() + p4.len(),
    ));
    assert(p5 =~= s.subrange(p1.len() as int + p2.len() + p3.len() + p4.len(), s.len() as int));
}

/// A digit run bounded by a non-digit terminator is the one maximal digit run
/// at its position: any digit run starting there stays within it, and any
/// maximal one ends exactly at its end.
proof fn lemma_run_extent(s: Seq<u8>, start: int, run: Seq<u8>)
    requires
        0 <= start,
        start + run.len() < s.len(),
        run.len() >= 1,
        all_digits(run),
        s.subrange(start, start + run.len()) == run,
        !is_digit(s[start + run.len()]),
    ensures
        start < s.len() && is_digit(s[start]),
        forall|j: int|
            start < j <= s.len() && all_digits(#[trigger] s.subrange(start, j)) ==> j <= start
                + run.len() && dec_val(s.subrange(start, j)) <= dec_val(run),
        forall|end: int|
            start < end <= s.len() && all_digits(#[trigger] s.subrange(start, end)) && (end
                == s.len() || !is_digit(s[end])) ==> end == start + run.len(),
{
    assert(is_digit(s[start])) by {
        assert(run[0] == s.subrange(start, start + run.len())[0]);
    }
    assert forall|j: int|
        start < j <= s.len() && all_digits(#[trigger] s.subrange(start, j)) implies j <= start
        + run.len() && dec_val(s.subrange(start, j)) <= dec_val(run) by {
        if j > start + run.len() {
            assert(is_digit(s.subrange(start, j)[run.len() as int]));
            assert(s.subrange(start, j)[run.len() as int] == s[start + run.len()]);
        }
        assert(s.subrange(start, j) =~= run.take(j - start));
        crate::numtext::lemma_dec_val_take_ordered(run, j - start, run.len() as int);
        assert(run.take(run.len() as int) =~= run);
    }
    assert forall|end: int|
        start < end <= s.len() && all_digits(#[trigger] s.subrange(start, end)) && (end == s.len()
            || !is_digit(s[end])) implies end == start + run.len() by {
        if end < start + run.len() {
            assert(s[end] == run[end - start]);
            assert(is_digit(run[end - start]));
        }
    }
}

/// A record that represents `c` splits into the two digit runs around the
/// fixed pieces of text, with a non-digit byte ending each run.
proof fn lemma_represents_runs(s: Seq<u8>, c: Config) -> (r: (Seq<u8>, Seq<u8>))
    requires
        represents_config(s, c),
    ensures
        ({
            let (a, b) = r;
            let la = lit_head().len() as int;
            let lm = lit_mid().len() as int;
            &&& is_config_text_runs(s, a, b)
            &&& dec_val(a) == c.min_temp as nat
            &&& dec_val(b) == c.max_temp as nat
            &&& s.len() == la + a.len() + lm + b.len() + 1
            &&& s.subrange(0, la) == lit_head()
            &&& s.subrange(la, la + a.len()) == a
            &&& s.subrange(la + a.len(), la + a.len() + lm) == lit_mid()
            &&& s.subrange(la + a.len() + lm, la + a.len() + lm + b.len()) == b
            &&& s.subrange(la + a.len() + lm + b.len(), s.len() as int) == lit_tail()
            &&& !is_digit(s[la + a.len()])
            &&& !is_digit(s[la + a.len() + lm + b.len()])
        }),
{
    let (a, b) = choose|a: Seq<u8>, b: Seq<u8>|
        is_config_text_runs(s, a, b) && dec_val(a) == c.min_temp as nat && dec_val(b)
            == c.max_temp as nat;
    lemma_cat5_parts(s, lit_head(), a, lit_mid(), b, lit_tail());
    let la = lit_head().len() as int;
    let lm = lit_mid().len() as int;
    assert(s[la + a.len()] == lit_mid()[0]) by {
        assert(s.subrange(la + a.len(), la + a.len() + lm)[0] == s[la + a.len()]);
    }
    assert(s[la + a.len() + lm + b.len()] == lit_tail()[0]) by {
        assert(s.subrange(la + a.len() + lm + b.len(), s.len() as int)[0] == s[la + a.len() + lm
            + b.len()]);
    }
    (a, b)
}

/// Renders a configuration as the canonical record text.
pub fn render_config(c: &Config) -> (out: Vec<u8>)
    ensures
        out@ == config_text(c.min_temp, c.max_temp),
{
    let mut out = lit_head_vec();
    let mn = crate::numtext::format_u32(c.min_temp);
    crate::numtext::append_bytes(&mut out, &mn);
    let mid = lit_mid_vec();
    crate::numtext::append_bytes(&mut out, &mid);
    let mx = crate::numtext::format_u32(c.max_temp);
    crate::numtext::append_bytes(&mut out, &mx);
    let tail = lit_tail_vec();
    crate::numtext::append_bytes(&mut out, &tail);
    out
}

fn has_at(s: &Vec<u8>, at: usize, pat: &Vec<u8>) -> (r: bool)
    ensures
        r <==> (at + pat@.len() <= s@.len() && s@.subrange(at as int, at as int + pat@.len())
            == pat@),
{
    if s.len() < at || s.len() - at < pat.len() {
        return false;
    }
    let n: usize = s.len();
    let mut k: usize = 0;
    while k < pat.len()
        invariant
            at + pat@.len() <= s@.len(),
            s@.len() == n,
            k <= pat@.len(),
            forall|t: int| 0 <= t < k ==> s@[at + t] == pat@[t],
        decreases pat@.len() - k,
    {
        if s[at + k] != pat[k] {
            proof {
                assert(s@.subrange(at as int, at as int + pat@.len())[k as int] == s@[at + k]);
            }
            return false;
        }
        k = k + 1;
    }
    proof {
        assert(s@.subrange(at as int, at as int + pat@.len()) =~= pat@);
    }
    true
}

/// Reads a configuration record. `Some(c)` exactly when the whole buffer is
/// a record denoting the well-formed `c`; any other content yields `None`.
pub fn parse_config(s: &Vec<u8>) -> (r: Option<Config>)
    ensures
        match r {
            Some(c) => c.wf() && represents_config(s@, c),
            None => forall|c: Config| !(#[trigger] represents_config(s@, c)),
        },
{
    let n: usize = s.len();
    let head = lit_head_vec();
    let mid = lit_mid_vec();
    let tail = lit_tail_vec();
    if !has_at(s, 0, &head) {
        proof {
            if exists|c: Config| represents_config(s@, c) {
                let c = choose|c: Config| represents_config(s@, c);
                let (a, b) = lemma_represents_runs(s@, c);
            }
        }
        return None;
    }
    let scan1 = crate::numtext::scan_u32(s, head.len());
    let (mn_v, i) = match scan1 {
        Some(p) => p,
        None => {
            proof {
                if exists|c: Config| represents_config(s@, c) {
                    let c = choose|c: Config| represents_config(s@, c);
                    let (a, b) = lemma_represents_runs(s@, c);
                    lemma_run_extent(s@, lit_head().len() as int, a);
                }
            }
            return None;
        },
    };
    if !has_at(s, i, &mid) {
        proof {
            if exists|c: Config| represents_config(s@, c) {
                let c = choose|c: Config| represents_config(s@, c);
                let (a, b) = lemma_represents_runs(s@, c);
                lemma_run_extent(s@, lit_head().len() as int, a);
                assert(i == lit_head().len() + a.len());
            }
        }
        return None;
    }
    let j0 = i + mid.len();
    let scan2 = crate::numtext::scan_u32(s, j0);
    let (mx_v, j) = match scan2 {
        Some(p) => p,
        None => {
            proof {
                if exists|c: Config| represents_config(s@, c) {
                    let c = choose|c: Config| represents_config(s@, c);
                    let (a, b) = lemma_represents_runs(s@, c);
                    lemma_run_extent(s@, lit_head().len() as int, a);
                    assert(i == lit_head().len() + a.len());
                    lemma_run_extent(
                        s@,
                        lit_head().len() as int + a.len() + lit_mid().len(),
                        b,
                    );
                }
            }
            return None;
        },
    };
    if !has_at(s, j, &tail) {
        proof {
            if exists|c: Config| represents_config(s@, c) {
                let c = choose|c: Config| represents_config(s@, c);
                let (a, b) = lemma_represents_runs(s@, c);
                lemma_run_extent(s@, lit_head().len() as int, a);
                assert(i == lit_head().len() + a.len());
                lemma_run_extent(s@, lit_head().len() as int + a.len() + lit_mid().len(), b);
                assert(j == lit_head().len() + a.len() + lit_mid().len() + b.len());
            }
        }
        return None;
    }
    if j + tail.len() != n {
        proof {
            if exists|c: Config| represents_config(s@, c) {
                let c = choose|c: Config| represents_config(s@, c);
                let (a, b) = lemma_represents_runs(s@, c);
                lemma_run_extent(s@, lit_head().len() as int, a);
                assert(i == lit_head().len() + a.len());
                lemma_run_extent(s@, lit_head().len() as int + a.len() + lit_mid().len(), b);
                assert(j == lit_head().len() + a.len() + lit_mid().len() + b.len());
            }
        }
        return None;
    }
    if mn_v >= mx_v {
        proof {
            if exists|c: Config| represents_config(s@, c) {
                let c = choose|c: Config| represents_config(s@, c);
                let (a, b) = lemma_represents_runs(s@, c);
                lemma_run_extent(s@, lit_head().len() as int, a);
                assert(i == lit_head().len() + a.len());
                assert(s@.subrange(lit_head().len() as int, i as int) == a);
                lemma_run_extent(s@, lit_head().len() as int + a.len() + lit_mid().len(), b);
                assert(j == lit_head().len() + a.len() + lit_mid().len() + b.len());
                assert(s@.subrange(j0 as int, j as int) == b);
                assert(mn_v == c.min_temp && mx_v == c.max_temp);
            }
        }
        return None;
    }
    let c = Config { fan_curve: FanCurve::Linear, min_temp: mn_v, max_temp: mx_v };
    proof {
        let la = lit_head().len() as int;
        let a = s@.subrange(la, i as int);
        let b = s@.subrange(j0 as int, j as int);
        lemma_cat5(s@, lit_head(), a, lit_mid(), b, lit_tail());
        assert(is_config_text_runs(s@, a, b));
        assert(represents_config(s@, c));
    }
    Some(c)
}

/// A record denotes at most one configuration.
pub proof fn lemma_config_unique(s: Seq<u8>, c1: Config, c2: Config)
    requires
        represents_config(s, c1),
        represents_config(s, c2),
    ensures
        c1 == c2,
{
    let la = lit_head().len() as int;
    let lm = lit_mid().len() as int;
    let (a1, b1) = lemma_represents_runs(s, c1);
    let (a2, b2) = lemma_represents_runs(s, c2);
    lemma_run_extent(s, la, a1);
    assert(s.subrange(la, la + a2.len()) == a2);
    assert(la + a2.len() == la + a1.len());
    assert(a1 =~= a2);
    lemma_run_extent(s, la + a1.len() + lm, b1);
    assert(s.subrange(la + a2.len() + lm, la + a2.len() + lm + b2.len()) == b2);
    assert(la + a1.len() + lm + b2.len() == la + a1.len() + lm + b1.len());
    assert(b1 =~= b2);
}

/// Round trip of the persisted record: rendering a well-formed configuration
/// yields a record that denotes that configuration and no other, so loading
/// what was stored recovers exactly the stored settings.
pub proof fn lemma_config_text_round_trip(c: Config)
    requires
        c.wf(),
        c.fan_curve == FanCurve::Linear,
    ensures
        represents_config(config_text(c.min_temp, c.max_temp), c),
        forall|c2: Config|
            #[trigger] represents_config(config_text(c.min_temp, c.max_temp), c2) ==> c2 == c,
{
    let s = config_text(c.min_temp, c.max_temp);
    crate::numtext::lemma_dec_rep_digits(c.min_temp as nat);
    crate::numtext::lemma_dec_rep_digits(c.max_temp as nat);
    crate::numtext::lemma_dec_rep_round_trip(c.min_temp as nat);
    crate::numtext::lemma_dec_rep_round_trip(c.max_temp as nat);
    assert(is_config_text_runs(s, dec_rep(c.min_temp as nat), dec_rep(c.max_temp as nat)));
    assert(represents_config(s, c));
    assert forall|c2: Config| #[trigger] represents_config(s, c2) implies c2 == c by {
        lemma_config_unique(s, c, c2);
    }
}

/// What the store found at the configuration path, as plain values: the
/// file's bytes, its absence, or any other failure to read it.
pub enum FileRead {
    Content(Vec<u8>),
    Missing,
    Failed,
}

/// The configuration error taxonomy. `NotFound` and `ParseError` are
/// recovered with defaults by [`Config::get`]; `IoError` is startup-fatal;
/// `WriteError` reports a failure to persist the synthesized default.
#[derive(Clone, Copy, PartialEq, Eq, Structural, Debug)]
pub enum ConfigError {
    NotFound,
    ParseError,
    IoError,
    WriteError,
}

/// How a configuration was obtained, and what the store must do about it:
/// keep the parsed settings, persist the given default record to the absent
/// path, or keep the defaults while leaving the malformed file untouched.
pub enum LoadOutcome {
    Loaded(Config),
    DefaultCreated(Config, Vec<u8>),
    DefaultPreserving(Config),
}

impl Config {
    /// The default settings as a value.
    pub fn default_values() -> (c: Config)
        ensures
            c == default_config(),
    {
        Config { fan_curve: FanCurve::Linear, min_temp: 80, max_temp: 100 }
    }

    /// The three-way load policy over what was read from the store: a record
    /// that parses is kept; an absent file yields the default together with
    /// the record to persist; a malformed file yields the default and is left
    /// as it is; any other read failure is fatal.
    pub fn get(read: FileRead) -> (r: Result<LoadOutcome, ConfigError>)
        ensures
            match (read, r) {
                (FileRead::Content(text), Ok(LoadOutcome::Loaded(c))) => c.wf()
                    && represents_config(text@, c),
                (FileRead::Content(text), Ok(LoadOutcome::DefaultPreserving(c))) => c
                    == default_config() && (forall|c2: Config|
                    !(#[trigger] represents_config(text@, c2))),
                (FileRead::Missing, Ok(LoadOutcome::DefaultCreated(c, persist))) => c
                    == default_config() && persist@ == config_text(
                    default_config().min_temp,
                    default_config().max_temp,
                ),
                (FileRead::Failed, Err(e)) => e == ConfigError::IoError,
                _ => false,
            },
    {
        match read {
            FileRead::Content(text) => match parse_config(&text) {
                Some(c) => Ok(LoadOutcome::Loaded(c)),
                None => Ok(LoadOutcome::DefaultPreserving(Config::default_values())),
            },
            FileRead::Missing => {
                let c = Config::default_values();
                let persist = render_config(&c);
                Ok(LoadOutcome::DefaultCreated(c, persist))
            },
            FileRead::Failed => Err(ConfigError::IoError),
        }
    }
}

} // verus!

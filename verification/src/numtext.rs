//! Decimal text for `u32` values — rendering, whole-buffer parsing and
//! digit-run scanning over byte sequences, with a proved round trip — and a
//! small byte-append helper shared by the path and record builders.

use vstd::prelude::*;

verus! {

/// Decimal digit bytes, most significant first, of `n` (no sign, no padding).
pub open spec fn dec_rep(n: nat) -> Seq<u8>
    decreases n,
{
    if n < 10 {
        seq![(48 + n) as u8]
    } else {
        dec_rep(n / 10).push((48 + n % 10) as u8)
    }
}

/// Renders `n` as its decimal digit bytes.
pub fn format_u32(n: u32) -> (s: Vec<u8>)
    ensures
        s@ == dec_rep(n as nat),
{
    let mut rev: Vec<u8> = Vec::new();
    let mut m: u32 = n;
    proof {
        assert(dec_rep(n as nat) =~= dec_rep(n as nat) + rev@.reverse());
    }
    loop
        invariant_except_break
            dec_rep(n as nat) == dec_rep(m as nat) + rev@.reverse(),
        ensures
            dec_rep(n as nat) == rev@.reverse(),
        decreases m,
    {
        let d: u8 = (m % 10) as u8;
        let m2: u32 = m / 10;
        let ghost prev = rev@;
        rev.push(48 + d);
        proof {
            assert(rev@.reverse() =~= seq![(48 + d) as u8] + prev.reverse());
        }
        if m2 == 0 {
            proof {
                assert(dec_rep(m as nat) =~= seq![(48 + m as nat) as u8]);
                assert(dec_rep(n as nat) =~= rev@.reverse());
            }
            break;
        }
        proof {
            assert(dec_rep(m as nat) == dec_rep(m as nat / 10).push((48 + m as nat % 10) as u8));
            assert(dec_rep(m as nat) =~= dec_rep(m2 as nat) + seq![(48 + d) as u8]);
            assert(dec_rep(n as nat) =~= dec_rep(m2 as nat) + rev@.reverse());
        }
        m = m2;
    }
    let mut out: Vec<u8> = Vec::new();
    let mut i: usize = rev.len();
    while i > 0
        invariant
            i <= rev.len(),
            out@ == rev@.subrange(i as int, rev@.len() as int).reverse(),
        decreases i,
    {
        i = i - 1;
        out.push(rev[i]);
        proof {
            assert(out@ =~= rev@.subrange(i as int, rev@.len() as int).reverse());
        }
    }
    proof {
        assert(rev@.subrange(0, rev@.len() as int) =~= rev@);
        assert(out@ =~= dec_rep(n as nat));
    }
    out
}

/// Appends the bytes of `src` to `dst`.
pub fn append_bytes(dst: &mut Vec<u8>, src: &Vec<u8>)
    ensures
        final(dst)@ == old(dst)@ + src@,
{
    let mut k: usize = 0;
    while k < src.len()
        invariant
            k <= src@.len(),
            dst@ == old(dst)@ + src@.take(k as int),
        decreases src@.len() - k,
    {
        dst.push(src[k]);
        proof {
            assert(old(dst)@ + src@.take(k + 1) =~= (old(dst)@ + src@.take(k as int)).push(
                src@[k as int],
            ));
        }
        k = k + 1;
    }
    proof {
        assert(src@.take(src@.len() as int) =~= src@);
    }
}

/// The byte is an ASCII decimal digit.
pub open spec fn is_digit(b: u8) -> bool {
    48 <= b <= 57
}

/// Every byte of the sequence is an ASCII decimal digit.
pub open spec fn all_digits(s: Seq<u8>) -> bool {
    forall|i: int| 0 <= i < s.len() ==> is_digit(#[trigger] s[i])
}

/// The numeric value of a sequence of decimal digit bytes, most significant
/// first (an empty sequence has value 0).
pub open spec fn dec_val(s: Seq<u8>) -> nat
    decreases s.len(),
{
    if s.len() == 0 {
        0
    } else {
        dec_val(s.drop_last()) * 10 + (s.last() - 48) as nat
    }
}

/// What a whole buffer denotes as a `u32`: a nonempty run of decimal digits
/// whose value fits, and nothing else.
pub open spec fn u32_of_dec(s: Seq<u8>) -> Option<u32> {
    if s.len() >= 1 && all_digits(s) && dec_val(s) <= u32::MAX {
        Some(dec_val(s) as u32)
    } else {
        None
    }
}

/// Appending digits never decreases the denoted value: the value of a prefix
/// is at most the value of any longer prefix.
pub proof fn lemma_dec_val_take_ordered(s: Seq<u8>, i: int, j: int)
    requires
        0 <= i <= j <= s.len(),
    ensures
        dec_val(s.take(i)) <= dec_val(s.take(j)),
    decreases j - i,
{
    if i < j {
        lemma_dec_val_take_ordered(s, i, j - 1);
        assert(s.take(j).drop_last() =~= s.take(j - 1));
    }
}

/// The decimal rendering of `n` is a nonempty run of digit bytes.
pub proof fn lemma_dec_rep_digits(n: nat)
    ensures
        dec_rep(n).len() >= 1,
        all_digits(dec_rep(n)),
    decreases n,
{
    if n >= 10 {
        lemma_dec_rep_digits(n / 10);
    }
}

/// Rendering and reading back are inverse: the digits of `n` denote `n`.
pub proof fn lemma_dec_rep_round_trip(n: nat)
    ensures
        dec_val(dec_rep(n)) == n,
    decreases n,
{
    if n < 10 {
        let s = dec_rep(n);
        assert(s == seq![(48 + n) as u8]);
        assert(s.len() == 1);
        assert(s.drop_last() =~= Seq::<u8>::empty());
        assert(s.last() == (48 + n) as u8);
        assert(dec_val(s) == dec_val(s.drop_last()) * 10 + (s.last() - 48) as nat);
        assert(dec_val(s.drop_last()) == 0);
        assert(dec_val(s) == n);
    } else {
        lemma_dec_rep_round_trip(n / 10);
        let s = dec_rep(n);
        assert(s == dec_rep(n / 10).push((48 + n % 10) as u8));
        assert(s.drop_last() =~= dec_rep(n / 10));
        assert(s.last() == (48 + n % 10) as u8);
        assert(dec_val(s) == dec_val(s.drop_last()) * 10 + (s.last() - 48) as nat);
        assert(n == (n / 10) * 10 + n % 10) by {
            vstd::arithmetic::div_mod::lemma_fundamental_div_mod(n as int, 10);
        }
        assert(dec_val(s) == n);
    }
}

/// Reads a whole buffer as a decimal `u32`: `Some` exactly when the buffer is
/// a nonempty digit run whose value fits in a `u32`.
pub fn parse_u32(s: &Vec<u8>) -> (r: Option<u32>)
    ensures
        r == u32_of_dec(s@),
{
    if s.len() == 0 {
        return None;
    }
    let mut i: usize = 0;
    let mut val: u32 = 0;
    while i < s.len()
        invariant
            0 <= i <= s@.len(),
            s@.len() >= 1,
            all_digits(s@.take(i as int)),
            val == dec_val(s@.take(i as int)),
        decreases s@.len() - i,
    {
        let b: u8 = s[i];
        if !(48 <= b && b <= 57) {
            assert(!all_digits(s@)) by {
                assert(!is_digit(s@[i as int]));
            }
            return None;
        }
        let d: u32 = (b - 48) as u32;
        proof {
            assert(s@.take(i + 1).drop_last() =~= s@.take(i as int));
            assert(s@.take(i + 1).last() == s@[i as int]);
        }
        if val <= (u32::MAX - d) / 10 {
            proof {
                assert(10 * val <= u32::MAX - d) by {
                    vstd::arithmetic::div_mod::lemma_fundamental_div_mod(
                        (u32::MAX - d) as int,
                        10,
                    );
                }
            }
            val = 10 * val + d;
        } else {
            proof {
                assert(10 * val + d > u32::MAX) by {
                    vstd::arithmetic::div_mod::lemma_fundamental_div_mod(
                        (u32::MAX - d) as int,
                        10,
                    );
                }
                assert(dec_val(s@.take(i + 1)) > u32::MAX);
                lemma_dec_val_take_ordered(s@, i + 1, s@.len() as int);
                assert(s@.take(s@.len() as int) =~= s@);
            }
            return None;
        }
        i = i + 1;
    }
    proof {
        assert(s@.take(s@.len() as int) =~= s@);
    }
    Some(val)
}

/// Reads the maximal run of decimal digits that starts at `from`, as a `u32`
/// together with the index just past the run. `None` means there is no digit
/// at `from`, or some digit run starting there denotes a value beyond `u32`.
pub fn scan_u32(s: &Vec<u8>, from: usize) -> (r: Option<(u32, usize)>)
    requires
        from <= s@.len(),
    ensures
        match r {
            Some(p) => {
                &&& from < p.1 <= s@.len()
                &&& all_digits(s@.subrange(from as int, p.1 as int))
                &&& p.0 == dec_val(s@.subrange(from as int, p.1 as int))
                &&& (p.1 == s@.len() || !is_digit(s@[p.1 as int]))
            },
            None => {
                ||| from == s@.len()
                ||| !is_digit(s@[from as int])
                ||| exists|j: int|
                    from < j <= s@.len() && all_digits(
                        #[trigger] s@.subrange(from as int, j),
                    ) && dec_val(s@.subrange(from as int, j)) > u32::MAX
            },
        },
{
    if from == s.len() {
        return None;
    }
    let b0: u8 = s[from];
    if !(48 <= b0 && b0 <= 57) {
        return None;
    }
    let mut i: usize = from;
    let mut val: u32 = 0;
    while i < s.len() && 48 <= s[i] && s[i] <= 57
        invariant
            from <= i <= s@.len(),
            all_digits(s@.subrange(from as int, i as int)),
            val == dec_val(s@.subrange(from as int, i as int)),
        decreases s@.len() - i,
    {
        let d: u32 = (s[i] - 48) as u32;
        proof {
            assert(s@.subrange(from as int, i + 1).drop_last() =~= s@.subrange(
                from as int,
                i as int,
            ));
            assert(s@.subrange(from as int, i + 1).last() == s@[i as int]);
        }
        if val <= (u32::MAX - d) / 10 {
            proof {
                assert(10 * val <= u32::MAX - d) by {
                    vstd::arithmetic::div_mod::lemma_fundamental_div_mod((u32::MAX - d) as int, 10);
                }
            }
            val = 10 * val + d;
        } else {
            proof {
                assert(10 * val + d > u32::MAX) by {
                    vstd::arithmetic::div_mod::lemma_fundamental_div_mod((u32::MAX - d) as int, 10);
                }
                assert(all_digits(s@.subrange(from as int, i + 1)));
                assert(dec_val(s@.subrange(from as int, i + 1)) > u32::MAX);
            }
            return None;
        }
        i = i + 1;
    }
    proof {
        assert(from < i);
    }
    Some((val, i))
}

} // verus!

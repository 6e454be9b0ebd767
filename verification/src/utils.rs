//! Small verified helpers: string equality, decimal rendering of counters
//! and timestamps, and the wall-clock read used when building a message.

use vstd::prelude::*;
use vstd::string::StringSliceAdditionalSpecFns;
use vstd::utf8::{encode_utf8_decode_utf8, encode_utf8_valid_utf8};

verus! {

/// Byte-wise string comparison, correct for the character views as well:
/// UTF-8 encodings agree exactly when the character sequences do.
pub fn str_eq(a: &str, b: &str) -> (r: bool)
    ensures
        r == (a@ == b@),
{
    let ab = a.as_bytes();
    let bb = b.as_bytes();
    if ab.len() != bb.len() {
        proof {
            if a@ == b@ {
                assert(ab@ == bb@);
            }
        }
        return false;
    }
    let n = ab.len();
    let mut i: usize = 0;
    while i < n
        invariant
            n == ab@.len(),
            n == bb@.len(),
            i <= n,
            ab@ == a.spec_bytes(),
            bb@ == b.spec_bytes(),
            forall|j: int| 0 <= j < i ==> ab@[j] == bb@[j],
        decreases n - i,
    {
        if ab[i] != bb[i] {
            proof {
                if a@ == b@ {
                    assert(ab@ == bb@);
                    assert(false);
                }
            }
            return false;
        }
        i = i + 1;
    }
    proof {
        assert(a.spec_bytes() =~= b.spec_bytes());
        encode_utf8_valid_utf8(a@);
        encode_utf8_decode_utf8(a@);
        encode_utf8_decode_utf8(b@);
    }
    true
}

/// The decimal digits of `n`, as ASCII bytes, most significant first.
pub open spec fn dec_digits(n: nat) -> Seq<u8>
    decreases n,
{
    if n < 10 {
        seq![(48 + n) as u8]
    } else {
        dec_digits(n / 10) + seq![(48 + n % 10) as u8]
    }
}

pub open spec fn pow10(k: nat) -> nat
    decreases k,
{
    if k == 0 {
        1
    } else {
        10 * pow10((k - 1) as nat)
    }
}

pub proof fn lemma_dec_digits_len(n: nat, k: nat)
    requires
        k >= 1,
        n < pow10(k),
    ensures
        1 <= dec_digits(n).len() <= k,
    decreases n,
{
    if n >= 10 {
        assert(pow10(k) == 10 * pow10((k - 1) as nat));
        assert(n / 10 < pow10((k - 1) as nat)) by (nonlinear_arith)
            requires
                n < 10 * pow10((k - 1) as nat),
                n >= 10,
        ;
        lemma_dec_digits_len(n / 10, (k - 1) as nat);
    }
}

/// Every `u64` renders in at most twenty digits.
pub proof fn lemma_dec_digits_len_u64(n: u64)
    ensures
        1 <= dec_digits(n as nat).len() <= 20,
{
    reveal_with_fuel(pow10, 21);
    assert(pow10(20) > u64::MAX);
    lemma_dec_digits_len(n as nat, 20);
}

/// Appends the decimal rendering of `n`.
pub fn push_dec(n: u64, out: &mut Vec<u8>)
    ensures
        final(out)@ == old(out)@ + dec_digits(n as nat),
    decreases n,
{
    if n < 10 {
        out.push(48 + n as u8);
        proof {
            assert(out@ =~= old(out)@ + dec_digits(n as nat));
        }
    } else {
        push_dec(n / 10, out);
        out.push(48 + (n % 10) as u8);
        proof {
            assert(out@ =~= old(out)@ + dec_digits(n as nat));
        }
    }
}

/// The decimal rendering of `n` as ASCII bytes.
pub fn u64_to_dec(n: u64) -> (r: Vec<u8>)
    ensures
        r@ == dec_digits(n as nat),
{
    let mut out: Vec<u8> = Vec::new();
    push_dec(n, &mut out);
    proof {
        assert(out@ =~= dec_digits(n as nat));
    }
    out
}

/// Relies on `std::time::SystemTime::now` and `duration_since`: seconds
/// since the Unix epoch, or zero on a clock set before it.  Nothing is
/// assumed of the value.
#[verifier::external_body]
fn unix_time_seconds() -> u64 {
    std::time::SystemTime::now()
        .duration_since(std::time::UNIX_EPOCH)
        .unwrap_or_default()
        .as_secs()
}

/// The current Unix time, truncated to 32 bits as the protocol's
/// timestamp fields are.
pub fn get_timestamp() -> u32 {
    #[verifier::truncate]
    (unix_time_seconds() as u32)
}

} // verus!

//! Reading a captured text as a decimal number.  Malformed numeric text is
//! not an error: the field is simply absent.

use vstd::prelude::*;

verus! {

/// Whether every byte of `s` is an ASCII decimal digit.
pub open spec fn all_digits(s: Seq<u8>) -> bool {
    forall|i: int| 0 <= i < s.len() ==> 48 <= #[trigger] s[i] <= 57
}

/// The number written in decimal in `s`, most significant digit first.
pub open spec fn dec_val(s: Seq<u8>) -> int
    decreases s.len(),
{
    if s.len() == 0 {
        0
    } else {
        dec_val(s.drop_last()) * 10 + s.last() - 48
    }
}

/// The numeric reading of a captured text: present exactly when the text is
/// a nonempty digit string whose value fits.
pub open spec fn num_value(s: Seq<u8>) -> Option<u32> {
    if s.len() > 0 && all_digits(s) && dec_val(s) <= u32::MAX {
        Some(dec_val(s) as u32)
    } else {
        None
    }
}

pub proof fn lemma_dec_val_nonneg(s: Seq<u8>)
    requires
        all_digits(s),
    ensures
        dec_val(s) >= 0,
    decreases s.len(),
{
    if s.len() > 0 {
        assert(all_digits(s.drop_last()));
        lemma_dec_val_nonneg(s.drop_last());
    }
}

/// A digit string is worth at least any of its prefixes.
pub proof fn lemma_dec_val_prefix(s: Seq<u8>, i: int)
    requires
        all_digits(s),
        0 <= i <= s.len(),
    ensures
        dec_val(s.take(i)) <= dec_val(s),
    decreases s.len() - i,
{
    if i == s.len() {
        assert(s.take(i) =~= s);
    } else {
        assert(s.take(i + 1).drop_last() =~= s.take(i));
        assert(s.take(i + 1).last() == s[i]);
        assert(all_digits(s.take(i)));
        lemma_dec_val_nonneg(s.take(i));
        assert(dec_val(s.take(i + 1)) >= dec_val(s.take(i)));
        lemma_dec_val_prefix(s, i + 1);
    }
}

/// Reads `v` as a decimal `u32`: nothing on an empty text, a non-digit
/// byte, or a value that does not fit.
pub fn parse_u32(v: &Vec<u8>) -> (r: Option<u32>)
    ensures
        r == num_value(v@),
{
    let n = v.len();
    if n == 0 {
        return None;
    }
    let mut acc: u32 = 0;
    let mut i: usize = 0;
    while i < n
        invariant
            n == v@.len(),
            i <= n,
            all_digits(v@.take(i as int)),
            acc == dec_val(v@.take(i as int)),
        decreases n - i,
    {
        let b = v[i];
        proof {
            assert(v@.take(i + 1).drop_last() =~= v@.take(i as int));
            assert(v@.take(i + 1).last() == v@[i as int]);
        }
        if b < 48 || b > 57 {
            return None;
        }
        let d = (b - 48) as u32;
        if acc > (u32::MAX - d) / 10 {
            proof {
                assert(dec_val(v@.take(i + 1)) > u32::MAX) by {
                    assert(acc * 10 >= ((u32::MAX - d) / 10 + 1) * 10);
                };
                if all_digits(v@) {
                    lemma_dec_val_prefix(v@, i + 1);
                }
            }
            return None;
        }
        acc = acc * 10 + d;
        i += 1;
    }
    proof {
        assert(v@.take(n as int) =~= v@);
    }
    Some(acc)
}

} // verus!

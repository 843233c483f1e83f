//! The cascade step: applying one pattern to the segment store.  The first
//! part whose raw text matches (free or claimed — claims gate only the
//! title pool, not matchability) has the matched range claimed; the
//! captured value is handed back.

use vstd::prelude::*;
use crate::pattern::{regex_find, regex_valid, Pattern};
use crate::rope::{mark_range_model, PartModel, Rope};

verus! {

/// The first part of `parts`, in store order, in which `pat` matches,
/// together with the match.
pub open spec fn scan(parts: Seq<PartModel>, pat: Seq<char>) -> Option<
    (int, (usize, usize, Seq<u8>)),
>
    decreases parts.len(),
{
    if parts.len() == 0 {
        None
    } else {
        match regex_find(pat, parts[0].bytes) {
            Some(m) => Some((0, m)),
            None => match scan(parts.drop_first(), pat) {
                Some((i, m)) => Some((i + 1, m)),
                None => None,
            },
        }
    }
}

/// The store after one cascade step with pattern text `pat`: unchanged when
/// the pattern does not compile or does not match, else the matched range
/// of the first matching part is claimed.
pub open spec fn step_parts(parts: Seq<PartModel>, pat: Seq<char>) -> Seq<PartModel> {
    if !regex_valid(pat) {
        parts
    } else {
        match scan(parts, pat) {
            None => parts,
            Some((i, m)) => if m.0 <= m.1 <= parts[i].bytes.len() {
                mark_range_model(parts, i, m.0 as int, m.1 as int)
            } else {
                parts
            },
        }
    }
}

/// The value recorded by one cascade step with pattern text `pat`: the
/// captured value of the first match, or nothing.
pub open spec fn step_value(parts: Seq<PartModel>, pat: Seq<char>) -> Option<Seq<u8>> {
    if !regex_valid(pat) {
        None
    } else {
        match scan(parts, pat) {
            None => None,
            Some((i, m)) => Some(m.2),
        }
    }
}

/// When no part before position `k` matches, the scan of the whole store is
/// the scan of the remainder, shifted by `k`.
pub proof fn lemma_scan_prefix_none(parts: Seq<PartModel>, pat: Seq<char>, k: int)
    requires
        0 <= k <= parts.len(),
        forall|j: int| 0 <= j < k ==> regex_find(pat, parts[j].bytes) is None,
    ensures
        scan(parts, pat) == match scan(parts.skip(k), pat) {
            Some((i, m)) => Some((i + k, m)),
            None => None,
        },
    decreases k,
{
    if k == 0 {
        assert(parts.skip(0) =~= parts);
    } else {
        assert(regex_find(pat, parts[0].bytes) is None);
        let rest = parts.drop_first();
        assert(forall|j: int| 0 <= j < k - 1 ==> regex_find(pat, rest[j].bytes) is None);
        lemma_scan_prefix_none(rest, pat, k - 1);
        assert(rest.skip(k - 1) =~= parts.skip(k));
    }
}

/// Applies one pattern to the store: scans the parts in order, claims the
/// first matched range, and hands back the captured value.
pub fn parse_pattern(rope: &mut Rope, pat: &Pattern) -> (r: Option<Vec<u8>>)
    requires
        regex_valid(pat.source()),
    ensures
        final(rope)@ == step_parts(old(rope)@, pat.source()),
        match r {
            Some(v) => step_value(old(rope)@, pat.source()) == Some(v@),
            None => step_value(old(rope)@, pat.source()) is None,
        },
{
    let n = rope.len();
    let mut i: usize = 0;
    while i < n
        invariant
            regex_valid(pat.source()),
            *rope == *old(rope),
            n == rope@.len(),
            i <= n,
            forall|j: int| 0 <= j < i ==> regex_find(pat.source(), rope@[j].bytes) is None,
        decreases n - i,
    {
        let parts = rope.iter();
        let m = pat.find(parts[i].bytes.as_slice());
        proof {
            assert(parts@.map_values(|p: crate::rope::Part| p@)[i as int] == rope@[i as int]);
        }
        if let Some((s, e, v)) = m {
            proof {
                lemma_scan_prefix_none(rope@, pat.source(), i as int);
                assert(rope@.skip(i as int)[0] == rope@[i as int]);
                assert(rope@.skip(i as int).len() > 0);
                assert(scan(rope@, pat.source()) == Some((i as int, (s, e, v@))));
            }
            let range = s..e;
            proof {
                assert(range.start == s);
                assert(range.end == e);
            }
            rope.mark_part_range(i, range);
            return Some(v);
        }
        i += 1;
    }
    proof {
        lemma_scan_prefix_none(rope@, pat.source(), n as int);
        assert(rope@.skip(n as int) =~= Seq::<PartModel>::empty());
    }
    None
}

} // verus!

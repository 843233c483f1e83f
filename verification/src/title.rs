//! The title resolver: once the cascade is done, the title is the longest
//! text among the parts never claimed — among equal lengths, the one that
//! appears later — with cosmetic delimiters trimmed from both ends.

use vstd::prelude::*;
use crate::rope::{free_parts, sub_bytes, views_of, PartModel, Rope};

verus! {

/// Whether `b` is one of the cosmetic delimiters trimmed off a title:
/// `(`, `)`, `[`, `]`, space, `-`, `_` or `.`.
pub open spec fn is_delim(b: u8) -> bool {
    b == 40 || b == 41 || b == 91 || b == 93 || b == 32 || b == 45 || b == 95 || b == 46
}

/// `s` with leading and trailing delimiter bytes removed.
pub open spec fn trim_spec(s: Seq<u8>) -> Seq<u8>
    decreases s.len(),
{
    if s.len() > 0 && is_delim(s[0]) {
        trim_spec(s.drop_first())
    } else if s.len() > 0 && is_delim(s.last()) {
        trim_spec(s.drop_last())
    } else {
        s
    }
}

/// The best title candidate among `best` and all of `cands`, where a
/// candidate at least as long as the best so far replaces it — so among
/// equal lengths the latest wins.
pub open spec fn best_from(cands: Seq<Seq<u8>>, best: Seq<u8>) -> Seq<u8>
    decreases cands.len(),
{
    if cands.len() == 0 {
        best
    } else {
        best_from(
            cands.drop_first(),
            if cands[0].len() >= best.len() {
                cands[0]
            } else {
                best
            },
        )
    }
}

/// The texts of the parts never claimed, in store order.
pub open spec fn free_texts(parts: Seq<PartModel>) -> Seq<Seq<u8>> {
    free_parts(parts).map_values(|pm: PartModel| pm.bytes)
}

/// The title read off a finished store: nothing when no part is free, else
/// the longest free text (later ones winning ties), trimmed.
pub open spec fn title_model(parts: Seq<PartModel>) -> Option<Seq<u8>> {
    let texts = free_texts(parts);
    if texts.len() == 0 {
        None
    } else {
        Some(trim_spec(best_from(texts.drop_first(), texts[0])))
    }
}

fn is_delim_byte(b: u8) -> (r: bool)
    ensures
        r == is_delim(b),
{
    b == 40 || b == 41 || b == 91 || b == 93 || b == 32 || b == 45 || b == 95 || b == 46
}

/// Removes leading and trailing delimiter bytes.
pub fn trim_delims(v: Vec<u8>) -> (r: Vec<u8>)
    ensures
        r@ == trim_spec(v@),
    decreases v@.len(),
{
    let n = v.len();
    if n > 0 && is_delim_byte(v[0]) {
        let rest = sub_bytes(&v, 1, n);
        proof {
            assert(rest@ =~= v@.drop_first());
        }
        trim_delims(rest)
    } else if n > 0 && is_delim_byte(v[n - 1]) {
        let rest = sub_bytes(&v, 0, n - 1);
        proof {
            assert(rest@ =~= v@.drop_last());
        }
        trim_delims(rest)
    } else {
        v
    }
}

/// Reads the title off the finished store.
pub fn resolve_title(rope: &Rope) -> (r: Option<Vec<u8>>)
    ensures
        match r {
            Some(t) => title_model(rope@) == Some(t@),
            None => title_model(rope@) is None,
        },
{
    let frees = rope.unmarked();
    let ghost texts = free_texts(rope@);
    proof {
        assert(texts.len() == frees@.len());
        assert(forall|j: int|
            0 <= j < frees@.len() ==> texts[j] == views_of(frees@)[j].bytes);
    }
    let n = frees.len();
    if n == 0 {
        return None;
    }
    let mut best: usize = 0;
    let mut i: usize = 1;
    proof {
        assert(texts.skip(1) =~= texts.drop_first());
    }
    while i < n
        invariant
            n == frees@.len(),
            n == texts.len(),
            forall|j: int| 0 <= j < n ==> texts[j] == views_of(frees@)[j].bytes,
            1 <= i <= n,
            best < i,
            best_from(texts.skip(i as int), texts[best as int]) == best_from(
                texts.drop_first(),
                texts[0],
            ),
        decreases n - i,
    {
        proof {
            assert(texts.skip(i as int)[0] == texts[i as int]);
            assert(texts.skip(i as int).drop_first() =~= texts.skip(i + 1));
        }
        if frees[i].bytes.len() >= frees[best].bytes.len() {
            best = i;
        }
        i += 1;
    }
    proof {
        assert(texts.skip(n as int) =~= Seq::<Seq<u8>>::empty());
        assert(best_from(texts.skip(n as int), texts[best as int]) == texts[best as int]);
        assert(views_of(frees@)[best as int] == frees@[best as int]@);
    }
    let chosen = sub_bytes(&frees[best].bytes, 0, frees[best].bytes.len());
    proof {
        assert(chosen@ =~= texts[best as int]);
    }
    Some(trim_delims(chosen))
}

} // verus!

//! The input assembler for paths: a path is cut at `/` separators, and the
//! normal components — neither empty, nor `.`, nor `..` — become the
//! initial free parts of the segment store, in order.

use vstd::prelude::*;
use crate::rope::{PartModel, Rope};

verus! {

/// The pieces of `s` between `/` separators, with `cur` as the piece
/// already begun; the recursion matches a left-to-right scan.
pub open spec fn split_acc(s: Seq<u8>, cur: Seq<u8>) -> Seq<Seq<u8>>
    decreases s.len(),
{
    if s.len() == 0 {
        seq![cur]
    } else if s[0] == 47 {
        seq![cur] + split_acc(s.drop_first(), Seq::empty())
    } else {
        split_acc(s.drop_first(), cur.push(s[0]))
    }
}

/// The pieces of `s` between `/` separators, in order.
pub open spec fn slash_split(s: Seq<u8>) -> Seq<Seq<u8>> {
    split_acc(s, Seq::empty())
}

/// Whether a piece names a real path component: neither empty, nor the
/// current directory `.`, nor the parent directory `..`.
pub open spec fn is_normal(c: Seq<u8>) -> bool {
    c.len() > 0 && c != seq![46u8] && c != seq![46u8, 46u8]
}

/// The normal pieces of `pieces`, in order.
pub open spec fn keep_normal(pieces: Seq<Seq<u8>>) -> Seq<Seq<u8>>
    decreases pieces.len(),
{
    if pieces.len() == 0 {
        Seq::empty()
    } else if is_normal(pieces[0]) {
        seq![pieces[0]] + keep_normal(pieces.drop_first())
    } else {
        keep_normal(pieces.drop_first())
    }
}

/// The normal components of the path text `s`, in order.
pub open spec fn normal_components(s: Seq<u8>) -> Seq<Seq<u8>> {
    keep_normal(slash_split(s))
}

/// The store the components are fed into: one free part per component.
pub open spec fn initial_store(comps: Seq<Seq<u8>>) -> Seq<PartModel> {
    comps.map_values(|c: Seq<u8>| PartModel { bytes: c, marked: false })
}

pub proof fn lemma_keep_normal_add(a: Seq<Seq<u8>>, b: Seq<Seq<u8>>)
    ensures
        keep_normal(a + b) == keep_normal(a) + keep_normal(b),
    decreases a.len(),
{
    if a.len() == 0 {
        assert(a + b =~= b);
        assert(keep_normal(a) + keep_normal(b) =~= keep_normal(b));
    } else {
        assert((a + b).drop_first() =~= a.drop_first() + b);
        lemma_keep_normal_add(a.drop_first(), b);
        assert(keep_normal(a + b) =~= keep_normal(a) + keep_normal(b));
    }
}

pub proof fn lemma_keep_normal_one(c: Seq<u8>)
    ensures
        keep_normal(seq![c]) == if is_normal(c) {
            seq![c]
        } else {
            Seq::<Seq<u8>>::empty()
        },
{
    assert(seq![c].drop_first() =~= Seq::<Seq<u8>>::empty());
    assert(keep_normal(Seq::<Seq<u8>>::empty()) == Seq::<Seq<u8>>::empty());
    if is_normal(c) {
        assert(keep_normal(seq![c]) =~= seq![c]);
    }
}

/// Whether `v` is a normal component.
fn is_normal_component(v: &Vec<u8>) -> (r: bool)
    ensures
        r == is_normal(v@),
{
    let n = v.len();
    if n == 0 {
        false
    } else if n == 1 && v[0] == 46 {
        proof {
            assert(v@ =~= seq![46u8]);
        }
        false
    } else if n == 2 && v[0] == 46 && v[1] == 46 {
        proof {
            assert(v@ =~= seq![46u8, 46u8]);
        }
        false
    } else {
        proof {
            if v@ == seq![46u8] {
                assert(n == 1 && v@[0] == 46);
            }
            if v@ == seq![46u8, 46u8] {
                assert(n == 2 && v@[0] == 46 && v@[1] == 46);
            }
        }
        true
    }
}

/// Builds the initial store of a path: every normal component, in order,
/// as one free part each.
pub fn assemble_path(path_bytes: &[u8]) -> (r: Rope)
    ensures
        r@ == initial_store(normal_components(path_bytes@)),
{
    let n = path_bytes.len();
    let mut rope = Rope::empty();
    let mut cur: Vec<u8> = Vec::new();
    let ghost mut done: Seq<Seq<u8>> = Seq::empty();
    let mut i: usize = 0;
    proof {
        assert(path_bytes@.skip(0) =~= path_bytes@);
        assert(done + split_acc(path_bytes@, cur@) =~= slash_split(path_bytes@));
        assert(initial_store(keep_normal(done)) =~= rope@);
    }
    while i < n
        invariant
            n == path_bytes@.len(),
            i <= n,
            slash_split(path_bytes@) == done + split_acc(path_bytes@.skip(i as int), cur@),
            rope@ == initial_store(keep_normal(done)),
        decreases n - i,
    {
        let b = path_bytes[i];
        proof {
            assert(path_bytes@.skip(i as int)[0] == path_bytes@[i as int]);
            assert(path_bytes@.skip(i as int).drop_first() =~= path_bytes@.skip(i + 1));
        }
        if b == 47 {
            let ghost piece = cur@;
            if is_normal_component(&cur) {
                rope.append(cur);
            }
            cur = Vec::new();
            proof {
                lemma_keep_normal_add(done, seq![piece]);
                lemma_keep_normal_one(piece);
                let done0 = done;
                done = done.push(piece);
                assert(done =~= done0 + seq![piece]);
                assert(done0 + (seq![piece] + split_acc(path_bytes@.skip(i + 1), Seq::empty()))
                    =~= done + split_acc(path_bytes@.skip(i + 1), Seq::empty()));
                assert(rope@ =~= initial_store(keep_normal(done)));
            }
        } else {
            cur.push(b);
        }
        i += 1;
    }
    let ghost piece = cur@;
    if is_normal_component(&cur) {
        rope.append(cur);
    }
    proof {
        assert(path_bytes@.skip(n as int) =~= Seq::<u8>::empty());
        assert(split_acc(Seq::<u8>::empty(), piece) == seq![piece]);
        lemma_keep_normal_add(done, seq![piece]);
        lemma_keep_normal_one(piece);
        assert(rope@ =~= initial_store(keep_normal(done + seq![piece])));
    }
    rope
}

} // verus!

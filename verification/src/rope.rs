//! The segment store: an ordered sequence of byte fragments ("parts") that
//! together partition one input text.  Each part is either free or marked
//! (claimed by a pattern).  The only structural mutations are splitting a
//! part at a byte offset and marking a whole part; both preserve the
//! concatenation of all parts, and marking is never undone.

use vstd::prelude::*;

verus! {

/// One contiguous fragment of the input text, plus its claimed flag.
#[derive(Debug, PartialEq)]
pub struct Part {
    pub bytes: Vec<u8>,
    pub marked: bool,
}

/// The mathematical value of a [`Part`]: its byte sequence and its flag.
pub ghost struct PartModel {
    pub bytes: Seq<u8>,
    pub marked: bool,
}

impl View for Part {
    type V = PartModel;

    open spec fn view(&self) -> PartModel {
        PartModel { bytes: self.bytes@, marked: self.marked }
    }
}

impl Clone for Part {
    fn clone(&self) -> (r: Part)
        ensures
            r@ == self@,
    {
        Part { bytes: vstd::slice::slice_to_vec(self.bytes.as_slice()), marked: self.marked }
    }
}

impl Part {
    /// Builds a part from its byte text and its claimed flag.
    pub fn new(bytes: Vec<u8>, marked: bool) -> (r: Part)
        ensures
            r@ == (PartModel { bytes: bytes@, marked }),
    {
        Part { bytes, marked }
    }
}

/// The models of a sequence of parts, in order.
pub open spec fn views_of(parts: Seq<Part>) -> Seq<PartModel> {
    parts.map_values(|p: Part| p@)
}

/// The parts of `parts` whose claimed flag is false, in order.
pub open spec fn free_parts(parts: Seq<PartModel>) -> Seq<PartModel> {
    parts.filter(|pm: PartModel| !pm.marked)
}

/// Walking `free_parts` one part at a time: the free prefix grows by the
/// next part exactly when that part is free.
pub proof fn lemma_free_parts_step(parts: Seq<PartModel>, i: int)
    requires
        0 <= i < parts.len(),
    ensures
        free_parts(parts.take(i + 1)) == if !parts[i].marked {
            free_parts(parts.take(i)).push(parts[i])
        } else {
            free_parts(parts.take(i))
        },
{
    reveal(Seq::filter);
    assert(parts.take(i + 1).drop_last() =~= parts.take(i));
    assert(parts.take(i + 1).last() == parts[i]);
}

/// The concatenation of the parts' bytes, in store order.
pub open spec fn cat(parts: Seq<PartModel>) -> Seq<u8>
    decreases parts.len(),
{
    if parts.len() == 0 {
        Seq::empty()
    } else {
        parts[0].bytes + cat(parts.drop_first())
    }
}

/// The claimed flag of every byte position, in store order: byte `j` of
/// `cat(parts)` is claimed exactly when `flags(parts)[j]` holds.
pub open spec fn flags(parts: Seq<PartModel>) -> Seq<bool>
    decreases parts.len(),
{
    if parts.len() == 0 {
        Seq::empty()
    } else {
        Seq::new(parts[0].bytes.len(), |j: int| parts[0].marked) + flags(parts.drop_first())
    }
}

pub proof fn lemma_cat_add(a: Seq<PartModel>, b: Seq<PartModel>)
    ensures
        cat(a + b) == cat(a) + cat(b),
    decreases a.len(),
{
    if a.len() == 0 {
        assert(a + b =~= b);
        assert(cat(a) + cat(b) =~= cat(b));
    } else {
        assert((a + b).drop_first() =~= a.drop_first() + b);
        lemma_cat_add(a.drop_first(), b);
        assert(cat(a + b) =~= cat(a) + cat(b));
    }
}

pub proof fn lemma_flags_add(a: Seq<PartModel>, b: Seq<PartModel>)
    ensures
        flags(a + b) == flags(a) + flags(b),
    decreases a.len(),
{
    if a.len() == 0 {
        assert(a + b =~= b);
        assert(flags(a) + flags(b) =~= flags(b));
    } else {
        assert((a + b).drop_first() =~= a.drop_first() + b);
        lemma_flags_add(a.drop_first(), b);
        assert(flags(a + b) =~= flags(a) + flags(b));
    }
}

/// The store after splitting part `i` at byte offset `at`: the part is
/// replaced in place by its two halves, both inheriting its flag.
pub open spec fn split_model(parts: Seq<PartModel>, i: int, at: int) -> Seq<PartModel> {
    parts.take(i) + seq![
        PartModel { bytes: parts[i].bytes.take(at), marked: parts[i].marked },
        PartModel { bytes: parts[i].bytes.skip(at), marked: parts[i].marked },
    ] + parts.skip(i + 1)
}

/// The store after marking part `i` as claimed.
pub open spec fn mark_model(parts: Seq<PartModel>, i: int) -> Seq<PartModel> {
    parts.update(i, PartModel { bytes: parts[i].bytes, marked: true })
}

/// The store after claiming byte range `[start, end)` of part `i`: the part
/// is split into up to three pieces and the middle one is marked.
pub open spec fn mark_range_model(parts: Seq<PartModel>, i: int, start: int, end: int) -> Seq<
    PartModel,
> {
    mark_model(split_model(split_model(parts, i, start), i + 1, end - start), i + 1)
}

/// The segment store.  Mutation can only split parts and mark them, so the
/// concatenated text never changes and claimed bytes stay claimed.
#[derive(Debug)]
pub struct Rope {
    parts: Vec<Part>,
}

impl View for Rope {
    type V = Seq<PartModel>;

    closed spec fn view(&self) -> Seq<PartModel> {
        views_of(self.parts@)
    }
}

impl Rope {
    /// A store with no parts at all.
    pub fn empty() -> (r: Rope)
        ensures
            r@ == Seq::<PartModel>::empty(),
    {
        let r = Rope { parts: Vec::new() };
        proof {
            assert(r@ =~= Seq::<PartModel>::empty());
        }
        r
    }

    /// A store holding the whole input as one free part.
    pub fn new(s: Vec<u8>) -> (r: Rope)
        ensures
            r@ == seq![PartModel { bytes: s@, marked: false }],
    {
        let ghost bs = s@;
        let mut parts: Vec<Part> = Vec::new();
        parts.push(Part { bytes: s, marked: false });
        let r = Rope { parts };
        proof {
            assert(r@ =~= seq![PartModel { bytes: bs, marked: false }]);
        }
        r
    }

    /// Appends one more free part at the end.
    pub fn append(&mut self, part: Vec<u8>)
        ensures
            final(self)@ == old(self)@.push(PartModel { bytes: part@, marked: false }),
    {
        let ghost bs = part@;
        self.parts.push(Part { bytes: part, marked: false });
        proof {
            assert(self@ =~= old(self)@.push(PartModel { bytes: bs, marked: false }));
        }
    }

    /// The parts, in store order.
    pub fn iter(&self) -> (r: &Vec<Part>)
        ensures
            r@.map_values(|p: Part| p@) == self@,
    {
        &self.parts
    }

    /// The number of parts.
    pub fn len(&self) -> (r: usize)
        ensures
            r == self@.len(),
    {
        self.parts.len()
    }

    /// Splits part `part` at byte offset `index`, replacing it in place by
    /// its two halves.  Both halves inherit the part's claimed flag, so the
    /// concatenated text and the per-byte flags are unchanged.
    pub fn split_part(&mut self, part: usize, index: usize)
        requires
            part < old(self)@.len(),
            index <= old(self)@[part as int].bytes.len(),
        ensures
            final(self)@ == split_model(old(self)@, part as int, index as int),
    {
        let n = self.parts.len();
        proof {
            assert(part < n);
        }
        let marked = self.parts[part].marked;
        let len = self.parts[part].bytes.len();
        let first = sub_bytes(&self.parts[part].bytes, 0, index);
        let second = sub_bytes(&self.parts[part].bytes, index, len);
        self.parts.insert(part + 1, Part { bytes: second, marked });
        self.parts.insert(part + 1, Part { bytes: first, marked });
        self.parts.remove(part);
        proof {
            assert(old(self)@[part as int].bytes.subrange(0, index as int) =~= old(
                self,
            )@[part as int].bytes.take(index as int));
            assert(old(self)@[part as int].bytes.subrange(index as int, len as int) =~= old(
                self,
            )@[part as int].bytes.skip(index as int));
            assert(self@ =~= split_model(old(self)@, part as int, index as int));
        }
    }

    /// Marks part `part` as claimed.
    pub fn mark_part(&mut self, part: usize)
        requires
            part < old(self)@.len(),
        ensures
            final(self)@ == mark_model(old(self)@, part as int),
    {
        self.parts[part].marked = true;
        proof {
            assert(self@ =~= mark_model(old(self)@, part as int));
        }
    }

    /// Claims the byte range `range` of part `part`: the part is split into
    /// up to three pieces in place and the middle piece is marked.  The
    /// concatenated text is unchanged and no claimed byte becomes free.
    pub fn mark_part_range(&mut self, part: usize, range: core::ops::Range<usize>)
        requires
            part < old(self)@.len(),
            range.start <= range.end,
            range.end <= old(self)@[part as int].bytes.len(),
        ensures
            final(self)@ == mark_range_model(
                old(self)@,
                part as int,
                range.start as int,
                range.end as int,
            ),
    {
        let n = self.parts.len();
        let start = range.start;
        let end = range.end;
        proof {
            assert(part < n);
            lemma_split_model_shape(old(self)@, part as int, start as int);
        }
        self.split_part(part, start);
        self.split_part(part + 1, end - start);
        self.mark_part(part + 1);
    }

    /// The parts never claimed by any pattern, in store order.
    pub fn unmarked(&self) -> (r: Vec<Part>)
        ensures
            views_of(r@) == free_parts(self@),
    {
        let mut r: Vec<Part> = Vec::new();
        let n = self.parts.len();
        let mut i: usize = 0;
        while i < n
            invariant
                n == self@.len(),
                i <= n,
                views_of(r@) == free_parts(self@.take(i as int)),
            decreases n - i,
        {
            let ghost r0 = r@;
            proof {
                lemma_free_parts_step(self@, i as int);
            }
            if !self.parts[i].marked {
                let p = self.parts[i].clone();
                r.push(p);
                proof {
                    assert(views_of(r@) =~= views_of(r0).push(self@[i as int]));
                }
            }
            i += 1;
        }
        proof {
            assert(self@.take(n as int) =~= self@);
        }
        r
    }
}

/// A fresh vector holding bytes `[from, to)` of `v`.
pub fn sub_bytes(v: &Vec<u8>, from: usize, to: usize) -> (r: Vec<u8>)
    requires
        from <= to <= v@.len(),
    ensures
        r@ == v@.subrange(from as int, to as int),
{
    vstd::slice::slice_to_vec(vstd::slice::slice_subrange(v.as_slice(), from, to))
}

pub proof fn lemma_cat_one(p: PartModel)
    ensures
        cat(seq![p]) == p.bytes,
{
    assert(seq![p].drop_first() =~= Seq::<PartModel>::empty());
    assert(cat(Seq::<PartModel>::empty()) == Seq::<u8>::empty());
    assert(cat(seq![p]) =~= p.bytes);
}

pub proof fn lemma_flags_one(p: PartModel)
    ensures
        flags(seq![p]) == Seq::new(p.bytes.len(), |j: int| p.marked),
{
    assert(seq![p].drop_first() =~= Seq::<PartModel>::empty());
    assert(flags(Seq::<PartModel>::empty()) == Seq::<bool>::empty());
    assert(flags(seq![p]) =~= Seq::new(p.bytes.len(), |j: int| p.marked));
}

/// Splitting a part changes neither the concatenated text nor the per-byte
/// claimed flags.
pub proof fn lemma_split_model_preserves(parts: Seq<PartModel>, i: int, at: int)
    requires
        0 <= i < parts.len(),
        0 <= at <= parts[i].bytes.len(),
    ensures
        cat(split_model(parts, i, at)) == cat(parts),
        flags(split_model(parts, i, at)) == flags(parts),
{
    let a = parts.take(i);
    let mid = seq![parts[i]];
    let b = parts.skip(i + 1);
    let left = PartModel { bytes: parts[i].bytes.take(at), marked: parts[i].marked };
    let right = PartModel { bytes: parts[i].bytes.skip(at), marked: parts[i].marked };
    let halves = seq![left, right];
    assert(parts =~= a + mid + b);
    lemma_cat_add(a + mid, b);
    lemma_cat_add(a, mid);
    lemma_cat_add(a + halves, b);
    lemma_cat_add(a, halves);
    lemma_flags_add(a + mid, b);
    lemma_flags_add(a, mid);
    lemma_flags_add(a + halves, b);
    lemma_flags_add(a, halves);
    assert(halves =~= seq![left] + seq![right]);
    lemma_cat_add(seq![left], seq![right]);
    lemma_flags_add(seq![left], seq![right]);
    lemma_cat_one(left);
    lemma_cat_one(right);
    lemma_cat_one(parts[i]);
    lemma_flags_one(left);
    lemma_flags_one(right);
    lemma_flags_one(parts[i]);
    assert(cat(halves) =~= cat(mid));
    assert(flags(halves) =~= flags(mid));
    assert(cat(split_model(parts, i, at)) =~= cat(parts));
    assert(flags(split_model(parts, i, at)) =~= flags(parts));
}

/// Marking a part changes no text; each byte's claimed flag either keeps its
/// value or turns from free to claimed, never back.
pub proof fn lemma_mark_model_preserves(parts: Seq<PartModel>, i: int)
    requires
        0 <= i < parts.len(),
    ensures
        cat(mark_model(parts, i)) == cat(parts),
        flags(mark_model(parts, i)).len() == flags(parts).len(),
        forall|j: int|
            0 <= j < flags(parts).len() && flags(parts)[j] ==> flags(mark_model(parts, i))[j],
{
    let a = parts.take(i);
    let mid = seq![parts[i]];
    let b = parts.skip(i + 1);
    let m = PartModel { bytes: parts[i].bytes, marked: true };
    let midm = seq![m];
    let marked = mark_model(parts, i);
    assert(parts =~= a + mid + b);
    assert(marked =~= a + midm + b);
    lemma_cat_add(a + mid, b);
    lemma_cat_add(a, mid);
    lemma_cat_add(a + midm, b);
    lemma_cat_add(a, midm);
    lemma_flags_add(a + mid, b);
    lemma_flags_add(a, mid);
    lemma_flags_add(a + midm, b);
    lemma_flags_add(a, midm);
    lemma_cat_one(parts[i]);
    lemma_cat_one(m);
    lemma_flags_one(parts[i]);
    lemma_flags_one(m);
    assert(cat(midm) =~= cat(mid));
    assert(cat(marked) =~= cat(parts));
    assert(flags(midm).len() == flags(mid).len());
    assert(flags(marked).len() == flags(parts).len());
    assert forall|j: int|
        0 <= j < flags(parts).len() && flags(parts)[j] implies flags(marked)[j] by {
        let la = flags(a).len();
        let lm = flags(mid).len();
        if j < la {
            assert(flags(parts)[j] == flags(a)[j]);
            assert(flags(marked)[j] == flags(a)[j]);
        } else if j < la + lm {
            assert(flags(midm)[j - la]);
        } else {
            assert(flags(parts)[j] == flags(b)[j - la - lm]);
            assert(flags(marked)[j] == flags(b)[j - la - lm]);
        }
    }
}

/// Claiming a range neither changes the concatenated text (the partition
/// invariant) nor frees any byte that was already claimed (no re-claim).
pub proof fn lemma_mark_range_model_preserves(parts: Seq<PartModel>, i: int, start: int, end: int)
    requires
        0 <= i < parts.len(),
        0 <= start <= end <= parts[i].bytes.len(),
    ensures
        cat(mark_range_model(parts, i, start, end)) == cat(parts),
        flags(mark_range_model(parts, i, start, end)).len() == flags(parts).len(),
        forall|j: int|
            0 <= j < flags(parts).len() && flags(parts)[j] ==> flags(
                mark_range_model(parts, i, start, end),
            )[j],
{
    let s1 = split_model(parts, i, start);
    lemma_split_model_shape(parts, i, start);
    lemma_split_model_preserves(parts, i, start);
    let s2 = split_model(s1, i + 1, end - start);
    lemma_split_model_shape(s1, i + 1, end - start);
    lemma_split_model_preserves(s1, i + 1, end - start);
    lemma_mark_model_preserves(s2, i + 1);
}

/// The shape of a split: one more part, the two halves at `i` and `i + 1`,
/// and every other part unchanged (those after `i` shifted up by one).
pub proof fn lemma_split_model_shape(parts: Seq<PartModel>, i: int, at: int)
    requires
        0 <= i < parts.len(),
        0 <= at <= parts[i].bytes.len(),
    ensures
        split_model(parts, i, at).len() == parts.len() + 1,
        split_model(parts, i, at)[i] == (PartModel {
            bytes: parts[i].bytes.take(at),
            marked: parts[i].marked,
        }),
        split_model(parts, i, at)[i + 1] == (PartModel {
            bytes: parts[i].bytes.skip(at),
            marked: parts[i].marked,
        }),
        forall|j: int| 0 <= j < i ==> split_model(parts, i, at)[j] == parts[j],
        forall|j: int|
            i + 1 < j < parts.len() + 1 ==> split_model(parts, i, at)[j] == parts[j - 1],
{
}

} // verus!

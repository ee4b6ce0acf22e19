//! Run-length encoding of pixel buffers, the storage format of the
//! undo/redo history.
//!
//! An encoded entry is a sequence of `(run length, color)` pairs whose run
//! lengths sum to the length of the encoded buffer and in which adjacent
//! pairs never share a color.

use vstd::prelude::*;

verus! {

/// Sum of the run lengths of an entry.
pub open spec fn rle_sum(e: Seq<(u32, u32)>) -> int
    decreases e.len(),
{
    if e.len() == 0 {
        0
    } else {
        rle_sum(e.drop_last()) + e.last().0
    }
}

/// The buffer an entry decodes to: each `(count, color)` pair contributes
/// `count` consecutive cells of `color`.
pub open spec fn rle_decode(e: Seq<(u32, u32)>) -> Seq<u32>
    decreases e.len(),
{
    if e.len() == 0 {
        Seq::empty()
    } else {
        rle_decode(e.drop_last()) + Seq::new(e.last().0 as nat, |i: int| e.last().1)
    }
}

/// Well-formedness of an entry: every run is non-empty and adjacent runs
/// carry distinct colors (maximal run compression).
pub open spec fn rle_wf(e: Seq<(u32, u32)>) -> bool {
    &&& forall|i: int| 0 <= i < e.len() ==> (#[trigger] e[i]).0 >= 1
    &&& forall|i: int| 0 <= i && i + 1 < e.len() ==> (#[trigger] e[i]).1 != e[i + 1].1
}

/// The maximal run-length encoding of a buffer: the last cell either
/// extends the last run (same color) or starts a new run of length one.
pub open spec fn rle_encode(s: Seq<u32>) -> Seq<(u32, u32)>
    decreases s.len(),
{
    if s.len() == 0 {
        Seq::empty()
    } else {
        let rest = rle_encode(s.drop_last());
        if rest.len() > 0 && rest.last().1 == s.last() {
            rest.update(rest.len() - 1, ((rest.last().0 + 1) as u32, rest.last().1))
        } else {
            rest.push((1u32, s.last()))
        }
    }
}

pub proof fn lemma_rle_sum_nonneg(e: Seq<(u32, u32)>)
    ensures
        rle_sum(e) >= 0,
    decreases e.len(),
{
    if e.len() > 0 {
        lemma_rle_sum_nonneg(e.drop_last());
    }
}

/// Decoding produces exactly `rle_sum(e)` cells.
pub proof fn lemma_rle_decode_len(e: Seq<(u32, u32)>)
    ensures
        rle_decode(e).len() == rle_sum(e),
    decreases e.len(),
{
    if e.len() > 0 {
        lemma_rle_decode_len(e.drop_last());
    }
}

/// All properties of `rle_encode` needed by its callers, proved in one
/// induction: the encoding is well formed, its runs sum to the buffer
/// length, it remembers the last color, and it decodes back to the buffer.
pub proof fn lemma_rle_encode_props(s: Seq<u32>)
    requires
        s.len() <= u32::MAX,
    ensures
        rle_wf(rle_encode(s)),
        rle_sum(rle_encode(s)) == s.len(),
        rle_decode(rle_encode(s)) == s,
        s.len() == 0 ==> rle_encode(s).len() == 0,
        s.len() > 0 ==> rle_encode(s).len() >= 1 && rle_encode(s).last().1 == s.last(),
    decreases s.len(),
{
    if s.len() == 0 {
        assert(rle_decode(rle_encode(s)) =~= s);
    } else {
        let butlast = s.drop_last();
        lemma_rle_encode_props(butlast);
        let rest = rle_encode(butlast);
        lemma_rle_sum_nonneg(rest);
        if rest.len() > 0 && rest.last().1 == s.last() {
            let n = rest.last().0;
            // The last run's length is bounded by the total, so it does not
            // overflow when extended by one.
            assert(rle_sum(rest) == rle_sum(rest.drop_last()) + n);
            lemma_rle_sum_nonneg(rest.drop_last());
            assert(n + 1 <= u32::MAX);
            let enc = rest.update(rest.len() - 1, ((n + 1) as u32, rest.last().1));
            assert(enc.drop_last() =~= rest.drop_last());
            assert(enc.last() == (((n + 1) as u32, rest.last().1)));
            assert(rle_sum(enc) == rle_sum(rest.drop_last()) + n + 1);
            assert(rle_sum(enc) == s.len());
            assert(rle_decode(enc) == rle_decode(rest.drop_last()) + Seq::new(
                (n + 1) as nat,
                |i: int| enc.last().1,
            ));
            assert(rle_decode(rest) == rle_decode(rest.drop_last()) + Seq::new(
                n as nat,
                |i: int| rest.last().1,
            ));
            assert(rle_decode(enc) =~= rle_decode(rest) + seq![s.last()]);
            assert(rle_decode(enc) =~= butlast + seq![s.last()]);
            assert(rle_decode(enc) =~= s);
            assert forall|i: int| 0 <= i < enc.len() implies (#[trigger] enc[i]).0 >= 1 by {
                if i < enc.len() - 1 {
                    assert(enc[i] == rest[i]);
                }
            }
            assert(rle_wf(enc));
        } else {
            let enc = rest.push((1u32, s.last()));
            assert(enc.drop_last() =~= rest);
            assert(rle_sum(enc) == rle_sum(rest) + 1);
            assert(rle_decode(enc) == rle_decode(rest) + Seq::new(1nat, |i: int| s.last()));
            assert(rle_decode(enc) =~= butlast + seq![s.last()]);
            assert(rle_decode(enc) =~= s);
            assert forall|i: int| 0 <= i < enc.len() implies (#[trigger] enc[i]).0 >= 1 by {
                if i < enc.len() - 1 {
                    assert(enc[i] == rest[i]);
                }
            }
            assert forall|i: int| 0 <= i && i + 1 < enc.len() implies (#[trigger] enc[i]).1
                != enc[i + 1].1 by {
                if i + 1 < enc.len() - 1 {
                    assert(enc[i] == rest[i]);
                    assert(enc[i + 1] == rest[i + 1]);
                }
            }
            assert(rle_wf(enc));
        }
    }
}

/// Compression round trip: decompressing a compressed buffer yields the
/// original buffer, for every buffer whose length fits a run counter.
pub proof fn lemma_rle_round_trip(s: Seq<u32>)
    requires
        s.len() <= u32::MAX,
    ensures
        rle_decode(rle_encode(s)) == s,
{
    lemma_rle_encode_props(s);
}

/// Run-length sum invariant: the run lengths of a compressed buffer sum
/// to the buffer's length.
pub proof fn lemma_rle_sum_encode(s: Seq<u32>)
    requires
        s.len() <= u32::MAX,
    ensures
        rle_sum(rle_encode(s)) == s.len(),
{
    lemma_rle_encode_props(s);
}

/// Prefix sums of an entry never exceed the total sum.
pub proof fn lemma_rle_sum_take_le(e: Seq<(u32, u32)>, k: int)
    requires
        0 <= k <= e.len(),
    ensures
        rle_sum(e.take(k)) <= rle_sum(e),
    decreases e.len() - k,
{
    if k == e.len() {
        assert(e.take(k) =~= e);
    } else {
        lemma_rle_sum_take_le(e, k + 1);
        assert(e.take(k + 1).drop_last() =~= e.take(k));
        assert(rle_sum(e.take(k + 1)) == rle_sum(e.take(k)) + e[k].0);
    }
}

/// Compress a buffer into its maximal run-length encoding by a single
/// forward scan.
pub fn rle_compress(buf: &Vec<u32>) -> (e: Vec<(u32, u32)>)
    requires
        buf@.len() >= 1,
        buf@.len() <= u32::MAX,
    ensures
        e@ == rle_encode(buf@),
{
    let ghost s = buf@;
    let mut e: Vec<(u32, u32)> = Vec::new();
    let mut actual: u32 = buf[0];
    let mut count: u32 = 0;
    let mut i: usize = 0;
    while i < buf.len()
        invariant
            buf@ == s,
            s.len() >= 1,
            s.len() <= u32::MAX,
            0 <= i <= s.len(),
            count <= i,
            i == 0 ==> count == 0 && e@ == Seq::<(u32, u32)>::empty() && actual == s[0],
            i > 0 ==> {
                &&& count >= 1
                &&& actual == s[i - 1]
                &&& rle_encode(s.take(i as int)) == e@.push((count, actual))
                &&& (e@.len() > 0 ==> e@.last().1 != actual)
            },
        decreases s.len() - i,
    {
        if buf[i] == actual {
            proof {
                let t = s.take(i + 1);
                assert(t.drop_last() =~= s.take(i as int));
                if i == 0 {
                    assert(t.drop_last() =~= Seq::<u32>::empty());
                    assert(rle_encode(Seq::<u32>::empty()) == Seq::<(u32, u32)>::empty());
                    assert(rle_encode(t) =~= Seq::<(u32, u32)>::empty().push((1u32, s[0])));
                } else {
                    let rest = rle_encode(s.take(i as int));
                    assert(rest == e@.push((count, actual)));
                    assert(rest.len() > 0 && rest.last().1 == t.last());
                    assert(rle_encode(t) == rest.update(
                        rest.len() - 1,
                        (((count + 1) as u32, actual)),
                    ));
                    assert(rle_encode(t) =~= e@.push((((count + 1) as u32, actual))));
                }
            }
            count = count + 1;
        } else {
            proof {
                let t = s.take(i + 1);
                assert(t.drop_last() =~= s.take(i as int));
                let rest = rle_encode(s.take(i as int));
                assert(rest == e@.push((count, actual)));
                assert(rest.last().1 != t.last());
                assert(rle_encode(t) == rest.push((1u32, s[i as int])));
            }
            e.push((count, actual));
            actual = buf[i];
            count = 1;
        }
        i = i + 1;
    }
    proof {
        assert(s.take(s.len() as int) =~= s);
    }
    e.push((count, actual));
    e
}

/// Decompress an entry into a buffer of exactly matching length, writing
/// each run's color into the next `count` cells.
pub fn rle_decompress(buf: &mut Vec<u32>, e: &Vec<(u32, u32)>)
    requires
        rle_sum(e@) == old(buf)@.len(),
    ensures
        final(buf)@ == rle_decode(e@),
        final(buf)@.len() == old(buf)@.len(),
{
    let nlen: usize = buf.len();
    let ghost n = nlen as int;
    let mut idx: usize = 0;
    let mut k: usize = 0;
    proof {
        lemma_rle_decode_len(e@);
    }
    while k < e.len()
        invariant
            rle_sum(e@) == n,
            n == buf@.len(),
            n <= usize::MAX,
            0 <= k <= e@.len(),
            idx == rle_sum(e@.take(k as int)),
            idx <= n,
            buf@.take(idx as int) == rle_decode(e@.take(k as int)),
        decreases e@.len() - k,
    {
        let (count, color) = e[k];
        let ghost prev = buf@;
        let ghost idx0 = idx as int;
        proof {
            assert(e@.take(k + 1).drop_last() =~= e@.take(k as int));
            assert(rle_sum(e@.take(k + 1)) == idx0 + count);
            lemma_rle_sum_take_le(e@, k + 1);
        }
        let mut j: usize = 0;
        while j < count as usize
            invariant
                0 <= j,
                j <= count,
                0 <= idx0,
                idx0 + count <= n,
                n == buf@.len(),
                n <= usize::MAX,
                prev.len() == n,
                idx == idx0 + j,
                buf@ == prev.take(idx0).add(Seq::new(j as nat, |t: int| color)).add(
                    prev.skip(idx0 + j),
                ),
            decreases count - j,
        {
            buf.set(idx, color);
            proof {
                let before = prev.take(idx0).add(Seq::new(j as nat, |t: int| color)).add(
                    prev.skip(idx0 + j),
                );
                assert(buf@ =~= before.update(idx0 + j, color));
                assert(buf@ =~= prev.take(idx0).add(Seq::new((j + 1) as nat, |t: int| color)).add(
                    prev.skip(idx0 + j + 1),
                ));
            }
            idx = idx + 1;
            j = j + 1;
        }
        proof {
            lemma_rle_decode_len(e@.take(k as int));
            assert(rle_decode(e@.take(k + 1)) == rle_decode(e@.take(k as int)) + Seq::new(
                count as nat,
                |t: int| color,
            ));
            assert(buf@.take(idx0 + count) =~= rle_decode(e@.take(k + 1)));
        }
        k = k + 1;
    }
    proof {
        assert(e@.take(e@.len() as int) =~= e@);
        assert(buf@ =~= buf@.take(idx as int));
    }
}

} // verus!

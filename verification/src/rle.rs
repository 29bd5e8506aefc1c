//! Run-length encoding of voxel grids, for storage and transmission.
//!
//! A compressed grid is a list of `(value, count)` runs. Decompression is
//! the mathematical reference (`spec_rle_decompress`); compression promises
//! to produce a well-formed run list that decompresses to its input, which
//! pins the round trip down exactly.

use vstd::prelude::*;

verus! {

use crate::blocks::Block;

/// `n` copies of `v`.
pub open spec fn seq_repeat(v: Block, n: nat) -> Seq<Block> {
    Seq::new(n, |i: int| v)
}

/// The grid a run list stands for: each run expanded in order.
pub open spec fn spec_rle_decompress(runs: Seq<(Block, usize)>) -> Seq<Block>
    decreases runs.len(),
{
    if runs.len() == 0 {
        Seq::empty()
    } else {
        spec_rle_decompress(runs.drop_last()) + seq_repeat(runs.last().0, runs.last().1 as nat)
    }
}

/// A canonical run list: no empty run, no two adjacent runs of equal value.
pub open spec fn runs_wf(runs: Seq<(Block, usize)>) -> bool {
    &&& forall|i: int| 0 <= i < runs.len() ==> (#[trigger] runs[i]).1 >= 1
    &&& forall|i: int| 0 <= i && i + 1 < runs.len() ==> (#[trigger] runs[i]).0 != runs[i + 1].0
}

/// Expanding a run list with one more run appends that run's expansion.
proof fn lemma_decompress_push(runs: Seq<(Block, usize)>, p: (Block, usize))
    ensures
        spec_rle_decompress(runs.push(p)) == spec_rle_decompress(runs) + seq_repeat(
            p.0,
            p.1 as nat,
        ),
{
    let pushed = runs.push(p);
    assert(pushed.len() == runs.len() + 1);
    assert(pushed.last() == p);
    assert(pushed.drop_last() =~= runs);
}

/// Compresses a grid into its canonical run list.
///
/// The run list is well formed and decompresses to exactly the input, on
/// every input, so compression followed by decompression is the identity.
pub fn rle_compress(data: &Vec<Block>) -> (r: Vec<(Block, usize)>)
    ensures
        spec_rle_decompress(r@) == data@,
        runs_wf(r@),
{
    let mut compressed: Vec<(Block, usize)> = Vec::new();
    if data.len() == 0 {
        assert(spec_rle_decompress(compressed@) =~= data@);
        return compressed;
    }
    let mut run_val: Block = data[0];
    let mut run_len: usize = 1;
    let mut i: usize = 1;
    while i < data.len()
        invariant
            1 <= i <= data@.len(),
            1 <= run_len <= i,
            runs_wf(compressed@),
            compressed@.len() > 0 ==> compressed@.last().0 != run_val,
            spec_rle_decompress(compressed@) + seq_repeat(run_val, run_len as nat) =~= data@
                .subrange(0, i as int),
        decreases data@.len() - i,
    {
        if data[i] == run_val {
            run_len = run_len + 1;
            assert(runs_wf(compressed@));
            assert(data@.subrange(0, i as int + 1) =~= data@.subrange(0, i as int).push(
                data@[i as int],
            ));
            assert(seq_repeat(run_val, run_len as nat) =~= seq_repeat(
                run_val,
                (run_len - 1) as nat,
            ).push(run_val));
            assert(spec_rle_decompress(compressed@) + seq_repeat(run_val, run_len as nat) =~= (
            spec_rle_decompress(compressed@) + seq_repeat(run_val, (run_len - 1) as nat)).push(
                run_val,
            ));
            assert(spec_rle_decompress(compressed@) + seq_repeat(run_val, run_len as nat) =~= data@
                .subrange(0, i as int + 1));
        } else {
            proof {
                lemma_decompress_push(compressed@, (run_val, run_len));
            }
            let ghost old_runs = compressed@;
            compressed.push((run_val, run_len));
            assert(forall|k: int|
                0 <= k < old_runs.len() ==> (#[trigger] compressed@[k]) == old_runs[k]);
            assert(compressed@[compressed@.len() - 1] == (run_val, run_len));
            assert(forall|k: int|
                0 <= k < compressed@.len() ==> (#[trigger] compressed@[k]).1 >= 1);
            assert forall|k: int|
                0 <= k && k + 1 < compressed@.len() implies (#[trigger] compressed@[k]).0
                != compressed@[k + 1].0 by {
                if k + 1 < old_runs.len() {
                    assert(compressed@[k] == old_runs[k]);
                    assert(compressed@[k + 1] == old_runs[k + 1]);
                    assert(old_runs[k].0 != old_runs[k + 1].0);
                } else {
                    assert(k == old_runs.len() - 1);
                    assert(compressed@[k] == old_runs[old_runs.len() - 1]);
                    assert(old_runs.last().0 != run_val);
                }
            }
            assert(runs_wf(compressed@));
            run_val = data[i];
            run_len = 1;
            assert(data@.subrange(0, i as int + 1) =~= data@.subrange(0, i as int).push(
                data@[i as int],
            ));
            assert(spec_rle_decompress(compressed@) + seq_repeat(run_val, run_len as nat) =~= data@
                .subrange(0, i as int + 1));
        }
        i = i + 1;
    }
    proof {
        lemma_decompress_push(compressed@, (run_val, run_len));
    }
    let ghost old_runs = compressed@;
    compressed.push((run_val, run_len));
    assert(forall|k: int| 0 <= k < old_runs.len() ==> (#[trigger] compressed@[k]) == old_runs[k]);
    assert(spec_rle_decompress(compressed@) =~= data@.subrange(0, data@.len() as int));
    assert(data@.subrange(0, data@.len() as int) =~= data@);
    compressed
}

/// Expanding one more run extends the expansion of a prefix.
proof fn lemma_decompress_prefix_step(runs: Seq<(Block, usize)>, j: int)
    requires
        0 <= j < runs.len(),
    ensures
        spec_rle_decompress(runs.subrange(0, j + 1)) == spec_rle_decompress(runs.subrange(0, j))
            + seq_repeat(runs[j].0, runs[j].1 as nat),
{
    assert(runs.subrange(0, j + 1) =~= runs.subrange(0, j).push(runs[j]));
    lemma_decompress_push(runs.subrange(0, j), runs[j]);
}

/// A prefix of the run list expands to no more than the whole.
proof fn lemma_decompress_prefix_len(runs: Seq<(Block, usize)>, j: int)
    requires
        0 <= j <= runs.len(),
    ensures
        spec_rle_decompress(runs.subrange(0, j)).len() <= spec_rle_decompress(runs).len(),
    decreases runs.len() - j,
{
    if j < runs.len() {
        lemma_decompress_prefix_step(runs, j);
        lemma_decompress_prefix_len(runs, j + 1);
    } else {
        assert(runs.subrange(0, j) =~= runs);
    }
}

/// Expands a run list back into the grid it stands for.
pub fn rle_decompress(compressed: &Vec<(Block, usize)>) -> (r: Vec<Block>)
    requires
        spec_rle_decompress(compressed@).len() <= usize::MAX,
    ensures
        r@ == spec_rle_decompress(compressed@),
{
    let mut decompressed: Vec<Block> = Vec::new();
    let mut j: usize = 0;
    assert(decompressed@ =~= spec_rle_decompress(compressed@.subrange(0, 0)));
    while j < compressed.len()
        invariant
            0 <= j <= compressed@.len(),
            spec_rle_decompress(compressed@).len() <= usize::MAX,
            decompressed@ =~= spec_rle_decompress(compressed@.subrange(0, j as int)),
        decreases compressed@.len() - j,
    {
        let (val, count) = compressed[j];
        let mut k: usize = 0;
        proof {
            lemma_decompress_prefix_step(compressed@, j as int);
            lemma_decompress_prefix_len(compressed@, j as int + 1);
        }
        while k < count
            invariant
                0 <= k <= count,
                decompressed@.len() + count - k <= usize::MAX,
                decompressed@ =~= spec_rle_decompress(compressed@.subrange(0, j as int))
                    + seq_repeat(val, k as nat),
            decreases count - k,
        {
            decompressed.push(val);
            k = k + 1;
            assert(decompressed@ =~= spec_rle_decompress(compressed@.subrange(0, j as int))
                + seq_repeat(val, k as nat));
        }
        proof {
            lemma_decompress_prefix_step(compressed@, j as int);
        }
        j = j + 1;
        assert(decompressed@ =~= spec_rle_decompress(compressed@.subrange(0, j as int)));
    }
    assert(compressed@.subrange(0, compressed@.len() as int) =~= compressed@);
    decompressed
}

} // verus!

//! The line source: splits a byte buffer into delimiter-terminated
//! runs. Every run carries its trailing delimiter byte; only the final
//! run may lack one, when the input does not end with the delimiter.

use vstd::prelude::*;

verus! {

/// The byte sequences of a sequence of runs.
pub open spec fn byte_views(runs: Seq<Vec<u8>>) -> Seq<Seq<u8>> {
    runs.map_values(|r: Vec<u8>| r@)
}

/// The runs laid end to end.
pub open spec fn concat_runs(runs: Seq<Seq<u8>>) -> Seq<u8>
    decreases runs.len(),
{
    if runs.len() == 0 {
        Seq::empty()
    } else {
        concat_runs(runs.drop_last()) + runs.last()
    }
}

/// Concatenation of runs splits at any run boundary.
pub proof fn lemma_concat_runs_split(runs: Seq<Seq<u8>>, k: int)
    requires
        0 <= k <= runs.len(),
    ensures
        concat_runs(runs) == concat_runs(runs.take(k)) + concat_runs(runs.skip(k)),
    decreases runs.len(),
{
    if k == runs.len() {
        assert(runs.take(k) =~= runs);
        assert(concat_runs(runs.skip(k)) =~= Seq::<u8>::empty());
        assert(concat_runs(runs) =~= concat_runs(runs.take(k)) + concat_runs(runs.skip(k)));
    } else {
        let dl = runs.drop_last();
        lemma_concat_runs_split(dl, k);
        assert(dl.take(k) =~= runs.take(k));
        assert(runs.skip(k).drop_last() =~= dl.skip(k));
        assert(runs.skip(k).last() == runs.last());
        assert(runs.skip(k).len() > 0);
        assert(concat_runs(runs) =~= concat_runs(runs.take(k)) + concat_runs(runs.skip(k)));
    }
}

/// True of a complete run: nonempty, ending with the delimiter, and
/// holding the delimiter nowhere else.
pub open spec fn complete_run(run: Seq<u8>, delim: u8) -> bool {
    &&& run.len() > 0
    &&& run.last() == delim
    &&& forall|j: int| 0 <= j < run.len() - 1 ==> run[j] != delim
}

/// Splits `input` into delimiter-terminated byte runs: laid end to end
/// the runs give back the input exactly; every run is nonempty and
/// holds the delimiter at most as its last byte; every run except
/// possibly the final one ends with the delimiter.
pub fn split_runs(input: &Vec<u8>, delim: u8) -> (runs: Vec<Vec<u8>>)
    ensures
        concat_runs(byte_views(runs@)) == input@,
        forall|k: int| 0 <= k < runs@.len() ==> #[trigger] runs@[k]@.len() > 0,
        forall|k: int, j: int|
            0 <= k < runs@.len() && 0 <= j < runs@[k]@.len() - 1 ==> #[trigger] runs@[k]@[j]
                != delim,
        forall|k: int| 0 <= k < runs@.len() - 1 ==> #[trigger] runs@[k]@.last() == delim,
{
    let mut runs: Vec<Vec<u8>> = Vec::new();
    let mut cur: Vec<u8> = Vec::new();
    let mut i: usize = 0;
    proof {
        assert(concat_runs(byte_views(runs@)) + cur@ =~= input@.take(0));
    }
    while i < input.len()
        invariant
            i <= input@.len(),
            concat_runs(byte_views(runs@)) + cur@ =~= input@.take(i as int),
            forall|k: int| 0 <= k < runs@.len() ==> complete_run(#[trigger] runs@[k]@, delim),
            forall|j: int| 0 <= j < cur@.len() ==> cur@[j] != delim,
        decreases input@.len() - i,
    {
        let b = input[i];
        proof {
            assert(input@.take(i as int + 1) =~= input@.take(i as int).push(b));
        }
        cur.push(b);
        i = i + 1;
        proof {
            assert(concat_runs(byte_views(runs@)) + cur@ =~= input@.take(i as int));
        }
        if b == delim {
            proof {
                let bv2 = byte_views(runs@).push(cur@);
                assert(byte_views(runs@.push(cur)) =~= bv2);
                assert(bv2.drop_last() =~= byte_views(runs@));
                assert(bv2.last() == cur@);
                assert(concat_runs(bv2) == concat_runs(byte_views(runs@)) + cur@);
                assert(complete_run(cur@, delim));
            }
            runs.push(cur);
            cur = Vec::new();
            proof {
                assert(concat_runs(byte_views(runs@)) + cur@ =~= input@.take(i as int));
            }
        }
    }
    proof {
        assert(input@.take(input@.len() as int) =~= input@);
    }
    if cur.len() > 0 {
        proof {
            let bv2 = byte_views(runs@).push(cur@);
            assert(byte_views(runs@.push(cur)) =~= bv2);
            assert(bv2.drop_last() =~= byte_views(runs@));
            assert(bv2.last() == cur@);
            assert(concat_runs(bv2) == concat_runs(byte_views(runs@)) + cur@);
        }
        runs.push(cur);
    }
    runs
}

} // verus!

//! Leading-portion extraction: the first part of an input, measured
//! either in delimiter-terminated runs or in raw bytes.

use vstd::prelude::*;
use crate::lines::{byte_views, concat_runs, lemma_concat_runs_split};

verus! {

/// How much of the input to keep: a count of whole runs, or a count of
/// raw bytes.
#[derive(PartialEq, Eq, Structural, Clone, Copy, Debug)]
pub enum ToRead {
    NumBytes(usize),
    NumLines(usize),
}

/// The leading portion of the given runs: the first `n` whole runs, or
/// the first `n` bytes of the runs laid end to end; all of them when
/// the input is shorter.
pub open spec fn head_spec(runs: Seq<Seq<u8>>, to_read: ToRead) -> Seq<u8> {
    match to_read {
        ToRead::NumLines(n) => if n <= runs.len() {
            concat_runs(runs.take(n as int))
        } else {
            concat_runs(runs)
        },
        ToRead::NumBytes(n) => {
            let all = concat_runs(runs);
            if n <= all.len() {
                all.take(n as int)
            } else {
                all
            }
        },
    }
}

/// Appends one run to the output buffer.
fn push_run(out: &mut Vec<u8>, run: &Vec<u8>)
    ensures
        final(out)@ == old(out)@ + run@,
{
    let mut j: usize = 0;
    proof {
        assert(out@ + run@.take(0) =~= out@);
    }
    while j < run.len()
        invariant
            j <= run@.len(),
            out@ =~= old(out)@ + run@.take(j as int),
        decreases run@.len() - j,
    {
        out.push(run[j]);
        j = j + 1;
        proof {
            assert(old(out)@ + run@.take(j as int) =~= out@);
        }
    }
    proof {
        assert(run@.take(run@.len() as int) =~= run@);
    }
}

/// Extracts the leading portion of an input given as its
/// delimiter-terminated runs: the first `n` whole runs, or the first
/// `n` bytes, and the whole input when it is shorter than that.
pub fn head(lines: &Vec<Vec<u8>>, to_read: ToRead) -> (out: Vec<u8>)
    ensures
        out@ == head_spec(byte_views(lines@), to_read),
{
    let ghost fv = byte_views(lines@);
    match to_read {
        ToRead::NumLines(n) => {
            let m = if n <= lines.len() {
                n
            } else {
                lines.len()
            };
            proof {
                if n > lines@.len() {
                    assert(fv.take(lines@.len() as int) =~= fv);
                }
            }
            let mut out: Vec<u8> = Vec::new();
            let mut i: usize = 0;
            proof {
                assert(out@ =~= concat_runs(fv.take(0)));
            }
            while i < m
                invariant
                    m <= lines@.len(),
                    fv == byte_views(lines@),
                    fv.len() == lines@.len(),
                    forall|k: int| 0 <= k < fv.len() ==> fv[k] == lines@[k]@,
                    i <= m,
                    out@ == concat_runs(fv.take(i as int)),
                decreases m - i,
            {
                proof {
                    assert(fv.take(i as int + 1).drop_last() =~= fv.take(i as int));
                    assert(fv.take(i as int + 1).last() == fv[i as int]);
                }
                push_run(&mut out, &lines[i]);
                i = i + 1;
            }
            out
        },
        ToRead::NumBytes(n) => {
            let mut out: Vec<u8> = Vec::new();
            let mut i: usize = 0;
            proof {
                assert(concat_runs(fv.take(0)) =~= Seq::<u8>::empty());
            }
            while i < lines.len() && out.len() < n
                invariant
                    fv == byte_views(lines@),
                    fv.len() == lines@.len(),
                    forall|k: int| 0 <= k < fv.len() ==> fv[k] == lines@[k]@,
                    i <= lines@.len(),
                    out@.len() <= n,
                    out@.len() <= concat_runs(fv).len(),
                    out@ == concat_runs(fv).take(out@.len() as int),
                    out@.len() < n ==> out@ == concat_runs(fv.take(i as int)),
                decreases lines@.len() - i,
            {
                let line = &lines[i];
                let mut j: usize = 0;
                proof {
                    lemma_concat_runs_split(fv, i as int);
                    lemma_concat_runs_split(fv.skip(i as int), 1);
                    assert(fv.skip(i as int).take(1) =~= seq![fv[i as int]]);
                    assert(seq![fv[i as int]].drop_last() =~= Seq::<Seq<u8>>::empty());
                    assert(concat_runs(Seq::<Seq<u8>>::empty()) =~= Seq::<u8>::empty());
                    assert(concat_runs(seq![fv[i as int]]) =~= fv[i as int]);
                    assert(fv.skip(i as int).skip(1) =~= fv.skip(i as int + 1));
                    assert(fv.take(i as int + 1).drop_last() =~= fv.take(i as int));
                    assert(fv.take(i as int + 1).last() == fv[i as int]);
                    assert(out@ + line@.take(0) =~= out@);
                }
                let ghost pre = concat_runs(fv.take(i as int));
                while j < line.len() && out.len() < n
                    invariant
                        j <= line@.len(),
                        out@.len() <= n,
                        pre == concat_runs(fv.take(i as int)),
                        out@ =~= pre + line@.take(j as int),
                        concat_runs(fv) == pre + line@ + concat_runs(
                            fv.skip(i as int + 1),
                        ),
                    decreases line@.len() - j,
                {
                    out.push(line[j]);
                    j = j + 1;
                    proof {
                        assert(out@ =~= pre + line@.take(j as int));
                    }
                }
                proof {
                    assert(out@.len() == pre.len() + j);
                    assert(concat_runs(fv).take(out@.len() as int) =~= pre + line@.take(
                        j as int,
                    ));
                    if j == line@.len() {
                        assert(line@.take(j as int) =~= line@);
                        assert(out@ =~= concat_runs(fv.take(i as int + 1)));
                    }
                }
                i = i + 1;
            }
            proof {
                if out@.len() < n {
                    assert(fv.take(lines@.len() as int) =~= fv);
                    assert(concat_runs(fv).take(out@.len() as int) == out@);
                }
            }
            out
        },
    }
}

} // verus!

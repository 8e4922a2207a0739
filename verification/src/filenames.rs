//! Selecting the input files of a run from the expansions of the filename
//! patterns given on the command line. Expanding a pattern against the
//! filesystem is the glob engine's work; what is decided here is which paths
//! are kept, in which order, and when the run fails.

use vstd::prelude::*;

use crate::errors::Error;
use crate::text::{dedup_first, lemma_contains_split, lemma_dedup_first_contains, vec_contains};

verus! {

/// Every path the patterns expanded to, pattern by pattern, in order.
pub open spec fn concat_all(expanded: Seq<Seq<Seq<char>>>) -> Seq<Seq<char>>
    decreases expanded.len(),
{
    if expanded.len() == 0 {
        Seq::<Seq<char>>::empty()
    } else {
        concat_all(expanded.drop_last()) + expanded.last()
    }
}

/// Selects the run's input paths from the expansion of each filename
/// pattern: the paths come in pattern order with the first occurrence of
/// each kept, and a pattern that expanded to nothing fails the whole run.
pub fn extract(expanded: &Vec<Vec<String>>) -> (r: Result<Vec<String>, Error>)
    ensures
        r is Ok <==> (forall|i: int|
            0 <= i < expanded.deep_view().len() ==> expanded.deep_view()[i].len() > 0),
        r matches Ok(v) ==> v.deep_view() == dedup_first(concat_all(expanded.deep_view())),
        r matches Err(e) ==> e == Error::Glob,
{
    let ghost edv = expanded.deep_view();
    let mut out: Vec<String> = Vec::new();
    let mut i: usize = 0;
    proof {
        assert(edv.take(0) =~= Seq::<Seq<Seq<char>>>::empty());
        assert(concat_all(edv.take(0)) =~= Seq::<Seq<char>>::empty());
        assert(out.deep_view() =~= Seq::<Seq<char>>::empty());
    }
    while i < expanded.len()
        invariant
            0 <= i <= expanded@.len(),
            edv == expanded.deep_view(),
            forall|k: int| 0 <= k < i ==> edv[k].len() > 0,
            out.deep_view() == dedup_first(concat_all(edv.take(i as int))),
        decreases expanded@.len() - i,
    {
        if expanded[i].len() == 0 {
            proof {
                assert(edv[i as int].len() == 0);
            }
            return Err(Error::Glob);
        }
        let ghost base = concat_all(edv.take(i as int));
        let ghost inner = edv[i as int];
        let mut j: usize = 0;
        proof {
            assert(inner.take(0) =~= Seq::<Seq<char>>::empty());
            assert(base + inner.take(0) =~= base);
        }
        while j < expanded[i].len()
            invariant
                0 <= i < expanded@.len(),
                0 <= j <= expanded@[i as int]@.len(),
                edv == expanded.deep_view(),
                inner == edv[i as int],
                base == concat_all(edv.take(i as int)),
                out.deep_view() == dedup_first(base + inner.take(j as int)),
            decreases expanded@[i as int]@.len() - j,
        {
            let p = expanded[i][j].clone();
            let ghost cur = base + inner.take(j as int);
            let ghost nxt = base + inner.take(j + 1);
            proof {
                assert(p@ == inner[j as int]);
                assert(nxt.drop_last() =~= cur);
                assert(nxt.last() == inner[j as int]);
                lemma_dedup_first_contains(cur, p@);
            }
            if !vec_contains(&out, &p) {
                let ghost pre = out.deep_view();
                out.push(p);
                proof {
                    assert(out.deep_view() =~= pre.push(nxt.last()));
                }
            }
            j = j + 1;
        }
        proof {
            assert(inner.take(inner.len() as int) =~= inner);
            assert(edv.take(i + 1).drop_last() =~= edv.take(i as int));
            assert(edv.take(i + 1).last() == edv[i as int]);
            assert(concat_all(edv.take(i + 1)) == concat_all(edv.take(i as int)) + inner);
        }
        i = i + 1;
    }
    proof {
        assert(edv.take(expanded@.len() as int) =~= edv);
    }
    Ok(out)
}

} // verus!

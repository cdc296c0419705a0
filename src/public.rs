use vstd::prelude::*;

use crate::error::InputParserError;

verus! {

/// A value's field-element expansion, or the reason it has none, as a model.
pub open spec fn expansion_view<F>(x: Result<Vec<F>, InputParserError>) -> Result<Seq<F>, InputParserError> {
    match x {
        Ok(v) => Ok(v@),
        Err(e) => Err(e),
    }
}

/// The models of a sequence of expansions.
pub open spec fn expansions_view<F>(s: Seq<Result<Vec<F>, InputParserError>>) -> Seq<Result<Seq<F>, InputParserError>> {
    s.map_values(|x: Result<Vec<F>, InputParserError>| expansion_view(x))
}

/// The concatenation of the expansions in order, or the first failure among them.
pub open spec fn flatten<F>(s: Seq<Result<Seq<F>, InputParserError>>) -> Result<Seq<F>, InputParserError>
    decreases s.len(),
{
    if s.len() == 0 {
        Ok(seq![])
    } else {
        match flatten(s.drop_last()) {
            Err(e) => Err(e),
            Ok(prev) => match s.last() {
                Err(e) => Err(e),
                Ok(v) => Ok(prev + v),
            },
        }
    }
}

/// A failure on a prefix of the expansions is the failure of the whole flattening.
pub proof fn lemma_flatten_failure_kept<F>(s: Seq<Result<Seq<F>, InputParserError>>, n: int)
    requires
        0 <= n <= s.len(),
        flatten(s.take(n)) is Err,
    ensures
        flatten(s) == flatten(s.take(n)),
    decreases s.len(),
{
    if n == s.len() {
        assert(s.take(n) =~= s);
    } else {
        let d = s.drop_last();
        assert(d.take(n) =~= s.take(n));
        lemma_flatten_failure_kept(d, n);
    }
}

/// Concatenates the field-element expansions of the public values, in order; fails with
/// the first failed expansion.
pub fn flatten_public<F>(expansions: Vec<Result<Vec<F>, InputParserError>>) -> (r: Result<
    Vec<F>,
    InputParserError,
>)
    ensures
        match r {
            Ok(v) => flatten(expansions_view(expansions@)) == Ok::<Seq<F>, InputParserError>(v@),
            Err(e) => flatten(expansions_view(expansions@)) == Err::<Seq<F>, InputParserError>(e),
        },
{
    let ghost all = expansions_view(expansions@);
    let mut rest = expansions;
    let mut out: Vec<F> = Vec::new();
    let ghost mut i: int = 0;
    proof {
        assert(all.take(0) =~= seq![]);
        assert(expansions_view(rest@) =~= all.skip(0));
    }
    while rest.len() > 0
        invariant
            all == expansions_view(expansions@),
            0 <= i <= all.len(),
            rest@.len() + i == all.len(),
            expansions_view(rest@) == all.skip(i),
            flatten(all.take(i)) == Ok::<Seq<F>, InputParserError>(out@),
        decreases rest.len(),
    {
        let ghost pre = all.take(i + 1);
        proof {
            assert(all.skip(i)[0] == all[i]);
            assert(pre.drop_last() =~= all.take(i));
            assert(pre.last() == all[i]);
        }
        let ghost old_rest = rest@;
        let first = rest.remove(0);
        proof {
            assert(rest@ =~= old_rest.skip(1));
            assert(expansions_view(rest@) =~= expansions_view(old_rest).skip(1));
            assert(expansions_view(rest@) =~= all.skip(i + 1));
            assert(expansion_view(first) == expansions_view(old_rest)[0]);
            assert(expansion_view(first) == all[i]);
        }
        match first {
            Err(e) => {
                proof {
                    assert(flatten(pre) == Err::<Seq<F>, InputParserError>(e));
                    lemma_flatten_failure_kept(all, i + 1);
                }
                return Err(e);
            },
            Ok(mut v) => {
                out.append(&mut v);
            },
        }
        proof {
            i = i + 1;
        }
    }
    proof {
        assert(all.take(i) =~= all);
    }
    Ok(out)
}

} // verus!

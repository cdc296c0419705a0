use vstd::prelude::*;

use crate::declaration::{
    first_match, is_private, lemma_first_match, main_name, satisfies, FunctionInput,
    InputAssignment, Section,
};
use crate::error::InputParserError;
use crate::inputs::{lemma_section_failure_kept, resolve_section, resolve_sections, InputsView};
use crate::public::{expansions_view, flatten};
use crate::value::{value_model, ValueModel};

verus! {

/// Every formal input has a first satisfying assignment whose value was evaluated.
pub open spec fn all_bound(expected: Seq<FunctionInput>, asg: Seq<InputAssignment>) -> bool {
    forall|i: int|
        0 <= i < expected.len() ==> {
            &&& #[trigger] first_match(asg, expected[i]) is Some
            &&& asg[first_match(asg, expected[i])->0].value is Ok
        }
}

/// Binding one section succeeds exactly when every formal input has a first satisfying
/// assignment whose value was evaluated; slot `i` then holds that value.
pub proof fn lemma_resolve_section(expected: Seq<FunctionInput>, asg: Seq<InputAssignment>)
    ensures
        resolve_section(expected, asg) is Ok <==> all_bound(expected, asg),
        resolve_section(expected, asg) matches Ok(view) ==> {
            &&& view.inputs.len() == expected.len()
            &&& forall|i: int|
                0 <= i < expected.len() ==> #[trigger] view.inputs[i] == Some(
                    value_model(asg[first_match(asg, expected[i])->0].value->Ok_0),
                )
        },
    decreases expected.len(),
{
    if expected.len() > 0 {
        let d = expected.drop_last();
        lemma_resolve_section(d, asg);
        if all_bound(expected, asg) {
            assert forall|i: int| 0 <= i < d.len() implies {
                &&& #[trigger] first_match(asg, d[i]) is Some
                &&& asg[first_match(asg, d[i])->0].value is Ok
            } by {
                assert(d[i] == expected[i]);
            }
        }
        if resolve_section(expected, asg) is Ok {
            assert forall|i: int| 0 <= i < expected.len() implies {
                &&& #[trigger] first_match(asg, expected[i]) is Some
                &&& asg[first_match(asg, expected[i])->0].value is Ok
            } by {
                if i < d.len() {
                    assert(d[i] == expected[i]);
                }
            }
            let view = resolve_section(expected, asg)->Ok_0;
            assert forall|i: int| 0 <= i < expected.len() implies #[trigger] view.inputs[i] == Some(
                value_model(asg[first_match(asg, expected[i])->0].value->Ok_0),
            ) by {
                if i < d.len() {
                    assert(d[i] == expected[i]);
                }
            }
        }
    }
}

/// With exactly one section named `main`, binding the file is binding that section.
pub proof fn lemma_single_main(expected: Seq<FunctionInput>, sections: Seq<Section>, m: int)
    requires
        0 <= m < sections.len(),
        sections[m].name@ == main_name(),
        forall|j: int| 0 <= j < sections.len() && j != m ==> #[trigger] sections[j].name@ != main_name(),
    ensures
        resolve_sections(expected, sections) == resolve_section(expected, sections[m].assignments@),
    decreases sections.len(),
{
    let d = sections.drop_last();
    if m == sections.len() - 1 {
        lemma_no_main(expected, d);
        match resolve_section(expected, sections[m].assignments@) {
            Ok(cur) => {
                assert(Seq::<Option<crate::value::ValueModel>>::empty() + cur.inputs =~= cur.inputs);
                assert(Seq::<crate::value::ValueModel>::empty() + cur.public =~= cur.public);
            },
            Err(_) => {},
        }
    } else {
        assert(sections.last() == sections[sections.len() - 1]);
        assert(d[m] == sections[m]);
        assert forall|j: int| 0 <= j < d.len() && j != m implies #[trigger] d[j].name@ != main_name() by {
            assert(d[j] == sections[j]);
        }
        lemma_single_main(expected, d, m);
    }
}

/// With no section named `main`, binding the file gives nothing.
pub proof fn lemma_no_main(expected: Seq<FunctionInput>, sections: Seq<Section>)
    requires
        forall|j: int| 0 <= j < sections.len() ==> #[trigger] sections[j].name@ != main_name(),
    ensures
        resolve_sections(expected, sections) == Ok::<InputsView, InputParserError>(
            InputsView { inputs: seq![], public: seq![] },
        ),
    decreases sections.len(),
{
    if sections.len() > 0 {
        let d = sections.drop_last();
        assert forall|j: int| 0 <= j < d.len() implies #[trigger] d[j].name@ != main_name() by {
            assert(d[j] == sections[j]);
        }
        assert(sections.last() == sections[sections.len() - 1]);
        lemma_no_main(expected, d);
    }
}

/// `slot` holds the value of some assignment that satisfies `f`.
pub open spec fn holds_satisfying(asg: Seq<InputAssignment>, f: FunctionInput, slot: Option<ValueModel>) -> bool {
    exists|k: int|
        0 <= k < asg.len() && #[trigger] satisfies(asg[k], f) && slot == Some(value_model(asg[k].value->Ok_0))
}

/// Exactly one section of the file is named `main`, at position `m`.
pub open spec fn only_main_at(sections: Seq<Section>, m: int) -> bool {
    &&& 0 <= m < sections.len()
    &&& sections[m].name@ == main_name()
    &&& forall|j: int| 0 <= j < sections.len() && j != m ==> #[trigger] sections[j].name@ != main_name()
}

/// When every formal input has exactly one satisfying assignment in the `main` section,
/// and that assignment's value was evaluated, binding succeeds with one slot per formal
/// input, in order, each holding the value of its assignment.
pub proof fn theorem_bind_complete(expected: Seq<FunctionInput>, sections: Seq<Section>, m: int)
    requires
        only_main_at(sections, m),
        forall|i: int|
            #![trigger expected[i]]
            0 <= i < expected.len() ==> exists|k: int|
                {
                    &&& 0 <= k < sections[m].assignments@.len()
                    &&& #[trigger] satisfies(sections[m].assignments@[k], expected[i])
                    &&& sections[m].assignments@[k].value is Ok
                    &&& forall|l: int|
                        0 <= l < sections[m].assignments@.len() && satisfies(
                            #[trigger] sections[m].assignments@[l],
                            expected[i],
                        ) ==> l == k
                },
    ensures
        resolve_sections(expected, sections) matches Ok(view) && view.inputs.len() == expected.len()
            && forall|i: int|
            0 <= i < expected.len() ==> holds_satisfying(
                sections[m].assignments@,
                expected[i],
                #[trigger] view.inputs[i],
            ),
{
    let asg = sections[m].assignments@;
    lemma_single_main(expected, sections, m);
    assert forall|i: int| 0 <= i < expected.len() implies {
        &&& #[trigger] first_match(asg, expected[i]) is Some
        &&& asg[first_match(asg, expected[i])->0].value is Ok
    } by {
        let k = choose|k: int|
            {
                &&& 0 <= k < asg.len()
                &&& #[trigger] satisfies(asg[k], expected[i])
                &&& asg[k].value is Ok
                &&& forall|l: int| 0 <= l < asg.len() && satisfies(#[trigger] asg[l], expected[i]) ==> l == k
            };
        lemma_first_match(asg, expected[i], k);
    }
    assert(all_bound(expected, asg));
    lemma_resolve_section(expected, asg);
    assert(resolve_section(expected, asg) is Ok);
    let view = resolve_sections(expected, sections)->Ok_0;
    assert forall|i: int| 0 <= i < expected.len() implies holds_satisfying(
        asg,
        expected[i],
        #[trigger] view.inputs[i],
    ) by {
        let k = first_match(asg, expected[i])->0;
        assert(first_match(asg, expected[i]) is Some);
        lemma_first_match_sound(asg, expected[i]);
        assert(satisfies(asg[k], expected[i]));
        assert(view.inputs[i] == Some(value_model(asg[k].value->Ok_0)));
    }
}

/// A first match is a satisfying position.
pub proof fn lemma_first_match_sound(asg: Seq<InputAssignment>, f: FunctionInput)
    ensures
        first_match(asg, f) matches Some(k) ==> 0 <= k < asg.len() && satisfies(asg[k], f),
    decreases asg.len(),
{
    if asg.len() > 0 {
        lemma_first_match_sound(asg.drop_last(), f);
    }
}

/// A formal input with no satisfying assignment in the `main` section makes binding fail;
/// when every formal input before it is bound, the failure names it.
pub proof fn theorem_missing_input_fails(expected: Seq<FunctionInput>, sections: Seq<Section>, m: int, i: int)
    requires
        only_main_at(sections, m),
        0 <= i < expected.len(),
        forall|k: int|
            0 <= k < sections[m].assignments@.len() ==> !satisfies(
                #[trigger] sections[m].assignments@[k],
                expected[i],
            ),
    ensures
        resolve_sections(expected, sections) is Err,
        all_bound(expected.take(i), sections[m].assignments@) ==> resolve_sections(expected, sections)
            == Err::<InputsView, InputParserError>(InputParserError::InputNotFound(expected[i])),
{
    let asg = sections[m].assignments@;
    lemma_single_main(expected, sections, m);
    lemma_first_match(asg, expected[i], asg.len() as int);
    lemma_resolve_section(expected, asg);
    assert(!all_bound(expected, asg));
    if all_bound(expected.take(i), asg) {
        let pre = expected.take(i + 1);
        assert(pre.drop_last() =~= expected.take(i));
        assert(pre.last() == expected[i]);
        lemma_resolve_section(expected.take(i), asg);
        lemma_section_failure_kept(expected, asg, i + 1);
    }
}

/// An assignment whose identifier agrees but whose visibility or type does not is not a
/// match: when every assignment of that identifier disagrees so, binding fails.
pub proof fn theorem_mismatch_not_bound(expected: Seq<FunctionInput>, sections: Seq<Section>, m: int, i: int)
    requires
        only_main_at(sections, m),
        0 <= i < expected.len(),
        forall|k: int|
            0 <= k < sections[m].assignments@.len() && (#[trigger] sections[m].assignments@[k]).identifier@
                == expected[i].identifier@ ==> is_private(sections[m].assignments@[k].visibility)
                != expected[i].private || sections[m].assignments@[k].declared_type@
                != expected[i].declared_type@,
    ensures
        resolve_sections(expected, sections) is Err,
{
    theorem_missing_input_fails(expected, sections, m, i);
}

/// Of two assignments satisfying the same formal input, the earlier one is bound.
pub proof fn theorem_first_duplicate_wins(
    expected: Seq<FunctionInput>,
    sections: Seq<Section>,
    m: int,
    i: int,
    j: int,
    k: int,
)
    requires
        only_main_at(sections, m),
        0 <= i < expected.len(),
        0 <= j < k < sections[m].assignments@.len(),
        satisfies(sections[m].assignments@[j], expected[i]),
        satisfies(sections[m].assignments@[k], expected[i]),
        forall|l: int| 0 <= l < j ==> !satisfies(#[trigger] sections[m].assignments@[l], expected[i]),
    ensures
        resolve_sections(expected, sections) matches Ok(view) ==> sections[m].assignments@[j].value is Ok
            && view.inputs[i] == Some(value_model(sections[m].assignments@[j].value->Ok_0)),
{
    let asg = sections[m].assignments@;
    lemma_single_main(expected, sections, m);
    lemma_first_match(asg, expected[i], j);
    lemma_resolve_section(expected, asg);
}

/// Flattening no values gives no field elements.
pub proof fn theorem_flatten_empty<F>()
    ensures
        flatten(Seq::<Result<Seq<F>, InputParserError>>::empty()) == Ok::<Seq<F>, InputParserError>(
            Seq::<F>::empty(),
        ),
{
}

/// Flattening keeps order: the flattening of `a + b` is that of `a` followed by that of
/// `b`, and fails with the first failure among them.
pub proof fn theorem_flatten_concat<F>(a: Seq<Result<Seq<F>, InputParserError>>, b: Seq<Result<Seq<F>, InputParserError>>)
    ensures
        flatten(a + b) == match flatten(a) {
            Err(e) => Err(e),
            Ok(x) => match flatten(b) {
                Err(e) => Err(e),
                Ok(y) => Ok::<Seq<F>, InputParserError>(x + y),
            },
        },
    decreases b.len(),
{
    if b.len() == 0 {
        assert(a + b =~= a);
        if flatten(a) is Ok {
            assert(flatten(a)->Ok_0 + Seq::<F>::empty() =~= flatten(a)->Ok_0);
        }
    } else {
        let d = b.drop_last();
        theorem_flatten_concat(a, d);
        assert((a + b).drop_last() =~= a + d);
        assert((a + b).last() == b.last());
        if flatten(a) is Ok && flatten(d) is Ok && b.last() is Ok {
            let x = flatten(a)->Ok_0;
            let y = flatten(d)->Ok_0;
            assert(x + y + b.last()->Ok_0 =~= x + (y + b.last()->Ok_0));
        }
    }
}

/// Flattening is deterministic: expansions with the same models flatten alike.
pub proof fn theorem_flatten_deterministic<F>(
    s: Seq<Result<Vec<F>, InputParserError>>,
    t: Seq<Result<Vec<F>, InputParserError>>,
)
    requires
        expansions_view(s) == expansions_view(t),
    ensures
        flatten(expansions_view(s)) == flatten(expansions_view(t)),
{
}

/// The positions of the formal inputs whose first satisfying assignment is marked public.
pub open spec fn public_positions(expected: Seq<FunctionInput>, asg: Seq<InputAssignment>) -> Seq<int>
    decreases expected.len(),
{
    if expected.len() == 0 {
        seq![]
    } else {
        let prev = public_positions(expected.drop_last(), asg);
        match first_match(asg, expected.last()) {
            Some(k) => if asg[k].visibility is Public {
                prev.push(expected.len() - 1)
            } else {
                prev
            },
            None => prev,
        }
    }
}

/// The first satisfying assignment of formal input `i` is marked public.
pub open spec fn bound_public(expected: Seq<FunctionInput>, asg: Seq<InputAssignment>, i: int) -> bool {
    first_match(asg, expected[i]) matches Some(k) && asg[k].visibility is Public
}

/// In the binding of one section, the public values are exactly the slots whose
/// assignment is marked public, in order.
pub proof fn theorem_public_subsequence(expected: Seq<FunctionInput>, asg: Seq<InputAssignment>)
    ensures
        resolve_section(expected, asg) matches Ok(view) ==> {
            let idx = public_positions(expected, asg);
            &&& idx.len() == view.public.len()
            &&& forall|k: int|
                0 <= k < idx.len() ==> {
                    &&& 0 <= #[trigger] idx[k] < expected.len()
                    &&& bound_public(expected, asg, idx[k])
                    &&& view.inputs[idx[k]] == Some(view.public[k])
                }
            &&& forall|k: int, l: int| 0 <= k < l < idx.len() ==> #[trigger] idx[k] < #[trigger] idx[l]
            &&& forall|i: int|
                0 <= i < expected.len() && #[trigger] bound_public(expected, asg, i) ==> idx.contains(i)
        },
    decreases expected.len(),
{
    if expected.len() > 0 && resolve_section(expected, asg) is Ok {
        let d = expected.drop_last();
        let n = expected.len() - 1;
        theorem_public_subsequence(d, asg);
        lemma_resolve_section(d, asg);
        let view = resolve_section(expected, asg)->Ok_0;
        let prev = resolve_section(d, asg)->Ok_0;
        let pidx = public_positions(d, asg);
        let idx = public_positions(expected, asg);
        assert(expected.last() == expected[n]);
        assert(view.inputs.len() == expected.len());
        assert forall|i: int| 0 <= i < n implies bound_public(d, asg, i) == bound_public(expected, asg, i) by {
            assert(d[i] == expected[i]);
        }
        assert forall|k: int| 0 <= k < pidx.len() implies view.inputs[pidx[k]] == prev.inputs[pidx[k]] by {}
        assert forall|k: int|
            0 <= k < idx.len() implies {
                &&& 0 <= #[trigger] idx[k] < expected.len()
                &&& bound_public(expected, asg, idx[k])
                &&& view.inputs[idx[k]] == Some(view.public[k])
            } by {
            if k < pidx.len() {
                assert(idx[k] == pidx[k]);
                assert(bound_public(d, asg, pidx[k]));
            }
        }
        assert forall|i: int| 0 <= i < expected.len() && #[trigger] bound_public(expected, asg, i) implies idx.contains(i) by {
            if i < n {
                assert(bound_public(d, asg, i));
                let k = choose|k: int| 0 <= k < pidx.len() && pidx[k] == i;
                assert(idx[k] == i);
            } else {
                assert(idx[idx.len() - 1] == i);
            }
        }
    }
}

} // verus!

use vstd::prelude::*;

use crate::declaration::{
    find_assignment, first_match, main_name, FunctionInput, InputAssignment, InputsFile, Section,
    Visibility,
};
use crate::error::InputParserError;
use crate::value::{value_model, InputValue, ValueModel};

verus! {

/// The resolved inputs of an entry point: one slot per formal input, and the public values.
pub struct Inputs {
    program_inputs: Vec<Option<InputValue>>,
    public: Vec<InputValue>,
}

/// What an `Inputs` holds, as models.
pub struct InputsView {
    pub inputs: Seq<Option<ValueModel>>,
    pub public: Seq<ValueModel>,
}

/// The model of an input slot.
pub open spec fn option_model(o: Option<InputValue>) -> Option<ValueModel> {
    match o {
        Some(v) => Some(value_model(v)),
        None => None,
    }
}

/// The models of a sequence of input slots.
pub open spec fn slots_model(s: Seq<Option<InputValue>>) -> Seq<Option<ValueModel>> {
    s.map_values(|o: Option<InputValue>| option_model(o))
}

/// The models of a sequence of values.
pub open spec fn values_model(s: Seq<InputValue>) -> Seq<ValueModel> {
    s.map_values(|v: InputValue| value_model(v))
}

impl View for Inputs {
    type V = InputsView;

    closed spec fn view(&self) -> InputsView {
        InputsView { inputs: slots_model(self.program_inputs@), public: values_model(self.public@) }
    }
}

/// Binding `expected` against one section's assignments: for each formal input in order,
/// the value of its first satisfying assignment, and the values of those marked public.
pub open spec fn resolve_section(expected: Seq<FunctionInput>, asg: Seq<InputAssignment>) -> Result<
    InputsView,
    InputParserError,
>
    decreases expected.len(),
{
    if expected.len() == 0 {
        Ok(InputsView { inputs: seq![], public: seq![] })
    } else {
        match resolve_section(expected.drop_last(), asg) {
            Err(e) => Err(e),
            Ok(prev) => match first_match(asg, expected.last()) {
                None => Err(InputParserError::InputNotFound(expected.last())),
                Some(k) => match asg[k].value {
                    Err(e) => Err(e),
                    Ok(v) => Ok(
                        InputsView {
                            inputs: prev.inputs.push(Some(value_model(v))),
                            public: if asg[k].visibility is Public {
                                prev.public.push(value_model(v))
                            } else {
                                prev.public
                            },
                        },
                    ),
                },
            },
        }
    }
}

/// Binding `expected` against every section named `main`, in order, appending the results.
pub open spec fn resolve_sections(expected: Seq<FunctionInput>, sections: Seq<Section>) -> Result<
    InputsView,
    InputParserError,
>
    decreases sections.len(),
{
    if sections.len() == 0 {
        Ok(InputsView { inputs: seq![], public: seq![] })
    } else {
        match resolve_sections(expected, sections.drop_last()) {
            Err(e) => Err(e),
            Ok(prev) => if sections.last().name@ == main_name() {
                match resolve_section(expected, sections.last().assignments@) {
                    Err(e) => Err(e),
                    Ok(cur) => Ok(
                        InputsView {
                            inputs: prev.inputs + cur.inputs,
                            public: prev.public + cur.public,
                        },
                    ),
                }
            } else {
                Ok(prev)
            },
        }
    }
}

/// A failure on a prefix of the formal inputs is the failure of the whole binding.
pub proof fn lemma_section_failure_kept(expected: Seq<FunctionInput>, asg: Seq<InputAssignment>, n: int)
    requires
        0 <= n <= expected.len(),
        resolve_section(expected.take(n), asg) is Err,
    ensures
        resolve_section(expected, asg) == resolve_section(expected.take(n), asg),
    decreases expected.len(),
{
    if n == expected.len() {
        assert(expected.take(n) =~= expected);
    } else {
        let d = expected.drop_last();
        assert(d.take(n) =~= expected.take(n));
        lemma_section_failure_kept(d, asg, n);
    }
}

/// A failure on a prefix of the sections is the failure of the whole binding.
pub proof fn lemma_file_failure_kept(expected: Seq<FunctionInput>, sections: Seq<Section>, n: int)
    requires
        0 <= n <= sections.len(),
        resolve_sections(expected, sections.take(n)) is Err,
    ensures
        resolve_sections(expected, sections) == resolve_sections(expected, sections.take(n)),
    decreases sections.len(),
{
    if n == sections.len() {
        assert(sections.take(n) =~= sections);
    } else {
        let d = sections.drop_last();
        assert(d.take(n) =~= sections.take(n));
        lemma_file_failure_kept(expected, d, n);
    }
}

/// Binds `expected` against one section's assignments.
pub fn bind_section(expected: &Vec<FunctionInput>, asg: &Vec<InputAssignment>) -> (r: Result<
    (Vec<Option<InputValue>>, Vec<InputValue>),
    InputParserError,
>)
    ensures
        match r {
            Ok((ins, pubs)) => resolve_section(expected@, asg@) == Ok::<InputsView, InputParserError>(
                InputsView { inputs: slots_model(ins@), public: values_model(pubs@) },
            ),
            Err(e) => resolve_section(expected@, asg@) == Err::<InputsView, InputParserError>(e),
        },
{
    let mut ins: Vec<Option<InputValue>> = Vec::new();
    let mut pubs: Vec<InputValue> = Vec::new();
    let mut i: usize = 0;
    proof {
        assert(expected@.take(0) =~= seq![]);
        assert(slots_model(ins@) =~= seq![]);
        assert(values_model(pubs@) =~= seq![]);
    }
    while i < expected.len()
        invariant
            i <= expected.len(),
            resolve_section(expected@.take(i as int), asg@) == Ok::<InputsView, InputParserError>(
                InputsView { inputs: slots_model(ins@), public: values_model(pubs@) },
            ),
        decreases expected.len() - i,
    {
        let f = &expected[i];
        let ghost pre = expected@.take(i + 1);
        proof {
            assert(pre.drop_last() =~= expected@.take(i as int));
            assert(pre.last() == *f);
        }
        match find_assignment(asg, f) {
            None => {
                proof {
                    lemma_section_failure_kept(expected@, asg@, i + 1);
                }
                return Err(InputParserError::InputNotFound(f.duplicate()));
            },
            Some(k) => {
                let a = &asg[k];
                match &a.value {
                    Err(e) => {
                        proof {
                            lemma_section_failure_kept(expected@, asg@, i + 1);
                        }
                        return Err(e.duplicate());
                    },
                    Ok(v) => {
                        let ghost old_ins = ins@;
                        let ghost old_pubs = pubs@;
                        if let Visibility::Public = a.visibility {
                            pubs.push(v.duplicate());
                            proof {
                                assert(values_model(pubs@) =~= values_model(old_pubs).push(value_model(*v)));
                            }
                        }
                        ins.push(Some(v.duplicate()));
                        proof {
                            assert(slots_model(ins@) =~= slots_model(old_ins).push(Some(value_model(*v))));
                        }
                    },
                }
            },
        }
        i = i + 1;
    }
    proof {
        assert(expected@.take(i as int) =~= expected@);
    }
    Ok((ins, pubs))
}

/// A copy of the slots, with the same models.
fn copy_slots(s: &Vec<Option<InputValue>>) -> (r: Vec<Option<InputValue>>)
    ensures
        slots_model(r@) == slots_model(s@),
{
    let mut r: Vec<Option<InputValue>> = Vec::new();
    let mut i: usize = 0;
    while i < s.len()
        invariant
            i <= s.len(),
            r@.len() == i,
            forall|j: int| 0 <= j < i ==> option_model(#[trigger] r@[j]) == option_model(s@[j]),
        decreases s.len() - i,
    {
        match &s[i] {
            Some(v) => r.push(Some(v.duplicate())),
            None => r.push(None),
        }
        i = i + 1;
    }
    assert(slots_model(r@) =~= slots_model(s@));
    r
}

/// A copy of the values, with the same models.
fn copy_values(s: &Vec<InputValue>) -> (r: Vec<InputValue>)
    ensures
        values_model(r@) == values_model(s@),
{
    let mut r: Vec<InputValue> = Vec::new();
    let mut i: usize = 0;
    while i < s.len()
        invariant
            i <= s.len(),
            r@.len() == i,
            forall|j: int| 0 <= j < i ==> value_model(#[trigger] r@[j]) == value_model(s@[j]),
        decreases s.len() - i,
    {
        r.push(s[i].duplicate());
        i = i + 1;
    }
    assert(values_model(r@) =~= values_model(s@));
    r
}

impl Clone for Inputs {
    fn clone(&self) -> (r: Self)
        ensures
            r@ == self@,
    {
        Inputs { program_inputs: copy_slots(&self.program_inputs), public: copy_values(&self.public) }
    }
}

impl Inputs {
    /// A copy of the input slots.
    pub fn get_inputs(&self) -> (r: Vec<Option<InputValue>>)
        ensures
            slots_model(r@) == self@.inputs,
    {
        copy_slots(&self.program_inputs)
    }

    /// A copy of the public values, in order.
    pub fn get_public(&self) -> (r: Vec<InputValue>)
        ensures
            values_model(r@) == self@.public,
    {
        copy_values(&self.public)
    }

    /// Replaces the input slots; the public values stay.
    pub fn set_inputs(&mut self, inputs: Vec<Option<InputValue>>)
        ensures
            final(self)@.inputs == slots_model(inputs@),
            final(self)@.public == old(self)@.public,
    {
        self.program_inputs = inputs;
    }

    /// Replaces the input slots with `size` empty ones; the public values stay.
    pub fn set_inputs_size(&mut self, size: usize)
        ensures
            final(self)@.inputs == Seq::new(size as nat, |i: int| None::<ValueModel>),
            final(self)@.public == old(self)@.public,
    {
        let mut slots: Vec<Option<InputValue>> = Vec::new();
        let mut i: usize = 0;
        while i < size
            invariant
                i <= size,
                slots@.len() == i,
                forall|j: int| 0 <= j < i ==> #[trigger] slots@[j] is None,
            decreases size - i,
        {
            slots.push(None);
            i = i + 1;
        }
        self.program_inputs = slots;
        assert(self@.inputs =~= Seq::new(size as nat, |i: int| None::<ValueModel>));
    }

    /// Resolved inputs with no slots and no public values.
    pub fn new() -> (r: Self)
        ensures
            r@.inputs == Seq::<Option<ValueModel>>::empty(),
            r@.public == Seq::<ValueModel>::empty(),
    {
        let r = Self { program_inputs: Vec::new(), public: Vec::new() };
        proof {
            assert(r@.inputs =~= Seq::<Option<ValueModel>>::empty());
            assert(r@.public =~= Seq::<ValueModel>::empty());
        }
        r
    }

    /// Binds the entry point's formal inputs `expected` against each section of `file`
    /// named `main`.
    pub fn from_inputs_file(file: InputsFile, expected: Vec<FunctionInput>) -> (r: Result<
        Self,
        InputParserError,
    >)
        ensures
            match r {
                Ok(inputs) => resolve_sections(expected@, file.sections@) == Ok::<InputsView, InputParserError>(inputs@),
                Err(e) => resolve_sections(expected@, file.sections@) == Err::<InputsView, InputParserError>(e),
            },
    {
        let main = "main".to_owned();
        proof {
            reveal_strlit("main");
            assert(main@ =~= main_name());
        }
        let mut private: Vec<Option<InputValue>> = Vec::new();
        let mut public: Vec<InputValue> = Vec::new();
        let mut j: usize = 0;
        proof {
            assert(file.sections@.take(0) =~= seq![]);
            assert(slots_model(private@) =~= seq![]);
            assert(values_model(public@) =~= seq![]);
        }
        while j < file.sections.len()
            invariant
                j <= file.sections.len(),
                main@ == main_name(),
                resolve_sections(expected@, file.sections@.take(j as int)) == Ok::<InputsView, InputParserError>(
                    InputsView { inputs: slots_model(private@), public: values_model(public@) },
                ),
            decreases file.sections.len() - j,
        {
            let section = &file.sections[j];
            let ghost pre = file.sections@.take(j + 1);
            proof {
                assert(pre.drop_last() =~= file.sections@.take(j as int));
                assert(pre.last() == *section);
            }
            if section.name == main {
                match bind_section(&expected, &section.assignments) {
                    Err(e) => {
                        proof {
                            lemma_file_failure_kept(expected@, file.sections@, j + 1);
                        }
                        return Err(e);
                    },
                    Ok((mut ins, mut pubs)) => {
                        let ghost old_private = private@;
                        let ghost old_public = public@;
                        let ghost new_ins = ins@;
                        let ghost new_pubs = pubs@;
                        private.append(&mut ins);
                        public.append(&mut pubs);
                        proof {
                            assert(slots_model(private@) =~= slots_model(old_private) + slots_model(new_ins));
                            assert(values_model(public@) =~= values_model(old_public) + values_model(new_pubs));
                        }
                    },
                }
            }
            j = j + 1;
        }
        proof {
            assert(file.sections@.take(j as int) =~= file.sections@);
        }
        Ok(Self { program_inputs: private, public })
    }
}

} // verus!

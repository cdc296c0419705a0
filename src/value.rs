use vstd::prelude::*;

verus! {

broadcast use vstd::std_specs::vec::group_vec_axioms;

/// An evaluated, typed input value.
#[derive(Debug, PartialEq, Eq)]
pub enum InputValue {
    Boolean(bool),
    Integer(u128),
    Field(String),
    Group(String),
    Array(Vec<InputValue>),
    Tuple(Vec<InputValue>),
}

/// The mathematical content of an `InputValue`.
pub enum ValueModel {
    Boolean(bool),
    Integer(u128),
    Field(Seq<char>),
    Group(Seq<char>),
    Array(Seq<ValueModel>),
    Tuple(Seq<ValueModel>),
}

/// The model of a value: strings as character sequences, arrays as sequences of models.
pub open spec fn value_model(v: InputValue) -> ValueModel
    decreases v,
{
    match v {
        InputValue::Boolean(b) => ValueModel::Boolean(b),
        InputValue::Integer(n) => ValueModel::Integer(n),
        InputValue::Field(s) => ValueModel::Field(s@),
        InputValue::Group(s) => ValueModel::Group(s@),
        InputValue::Array(vs) => ValueModel::Array(
            Seq::new(
                vs.len() as nat,
                |i: int|
                    if 0 <= i < vs.len() {
                        value_model(vs[i])
                    } else {
                        ValueModel::Boolean(false)
                    },
            ),
        ),
        InputValue::Tuple(vs) => ValueModel::Tuple(
            Seq::new(
                vs.len() as nat,
                |i: int|
                    if 0 <= i < vs.len() {
                        value_model(vs[i])
                    } else {
                        ValueModel::Boolean(false)
                    },
            ),
        ),
    }
}

impl InputValue {
    /// A copy of the value with the same model.
    pub fn duplicate(&self) -> (r: InputValue)
        ensures
            value_model(r) == value_model(*self),
        decreases *self,
    {
        match self {
            InputValue::Boolean(b) => InputValue::Boolean(*b),
            InputValue::Integer(n) => InputValue::Integer(*n),
            InputValue::Field(s) => InputValue::Field(s.clone()),
            InputValue::Group(s) => InputValue::Group(s.clone()),
            InputValue::Array(vs) => {
                let r = InputValue::Array(duplicate_items(vs));
                proof {
                    assert(value_model(r)->Array_0 =~= value_model(*self)->Array_0);
                }
                r
            },
            InputValue::Tuple(vs) => {
                let r = InputValue::Tuple(duplicate_items(vs));
                proof {
                    assert(value_model(r)->Tuple_0 =~= value_model(*self)->Tuple_0);
                }
                r
            },
        }
    }
}

/// Copies of the items, in order, each with the same model.
fn duplicate_items(vs: &Vec<InputValue>) -> (r: Vec<InputValue>)
    ensures
        r.len() == vs.len(),
        forall|j: int| 0 <= j < vs.len() ==> value_model(#[trigger] r[j]) == value_model(vs[j]),
    decreases *vs,
{
    let mut out: Vec<InputValue> = Vec::new();
    assert forall|j: int| 0 <= j < vs.len() implies decreases_to!(*vs => #[trigger] vs[j]) by {}
    let mut i: usize = 0;
    while i < vs.len()
        invariant
            forall|j: int| 0 <= j < vs.len() ==> decreases_to!(*vs => #[trigger] vs[j]),
            i <= vs.len(),
            out.len() == i,
            forall|j: int| 0 <= j < i ==> value_model(#[trigger] out[j]) == value_model(vs[j]),
        decreases vs.len() - i,
    {
        let v = vs[i].duplicate();
        out.push(v);
        i = i + 1;
    }
    out
}

impl Clone for InputValue {
    fn clone(&self) -> (r: Self)
        ensures
            value_model(r) == value_model(*self),
    {
        self.duplicate()
    }
}

} // verus!

use vstd::prelude::*;

use crate::error::InputParserError;
use crate::value::InputValue;

verus! {

/// The visibility annotation of a declared parameter, as written.
#[derive(Debug, PartialEq, Eq)]
pub enum Visibility {
    Unspecified,
    Private,
    Public,
}

/// An entry point's formal parameter.
#[derive(Debug, PartialEq, Eq)]
pub struct FunctionInput {
    pub identifier: String,
    /// The canonical string form of the declared type.
    pub declared_type: String,
    /// Whether the parameter is private (otherwise public).
    pub private: bool,
}

/// A declared binding of a parameter to a value.
pub struct InputAssignment {
    pub identifier: String,
    pub visibility: Visibility,
    /// The canonical string form of the declared type.
    pub declared_type: String,
    /// What evaluating the assignment's expression against its declared type gave.
    pub value: Result<InputValue, InputParserError>,
}

/// A named section of an input declarations file.
pub struct Section {
    pub name: String,
    pub assignments: Vec<InputAssignment>,
}

/// A parsed input declarations file.
pub struct InputsFile {
    pub sections: Vec<Section>,
}

/// The name of the section that is matched against the entry point's inputs.
pub open spec fn main_name() -> Seq<char> {
    seq!['m', 'a', 'i', 'n']
}

/// An absent annotation counts as private.
pub open spec fn is_private(v: Visibility) -> bool {
    !(v is Public)
}

/// The three-way agreement of identifier, visibility and type.
pub open spec fn satisfies(a: InputAssignment, f: FunctionInput) -> bool {
    &&& a.identifier@ == f.identifier@
    &&& is_private(a.visibility) == f.private
    &&& a.declared_type@ == f.declared_type@
}

/// The position of the first assignment that satisfies `f`, if any.
pub open spec fn first_match(asg: Seq<InputAssignment>, f: FunctionInput) -> Option<int>
    decreases asg.len(),
{
    if asg.len() == 0 {
        None
    } else {
        match first_match(asg.drop_last(), f) {
            Some(k) => Some(k),
            None => if satisfies(asg.last(), f) {
                Some(asg.len() - 1)
            } else {
                None
            },
        }
    }
}

/// `first_match` is the least satisfying position.
pub proof fn lemma_first_match(asg: Seq<InputAssignment>, f: FunctionInput, i: int)
    requires
        0 <= i <= asg.len(),
        forall|j: int| 0 <= j < i ==> !satisfies(#[trigger] asg[j], f),
        i < asg.len() ==> satisfies(asg[i], f),
    ensures
        first_match(asg, f) == (if i == asg.len() { None } else { Some(i) }),
    decreases asg.len(),
{
    if asg.len() > 0 {
        let d = asg.drop_last();
        if i == asg.len() || i == asg.len() - 1 {
            lemma_first_match(d, f, d.len() as int);
        } else {
            lemma_first_match(d, f, i);
        }
    }
}

/// Finds the first assignment that satisfies `f`.
pub fn find_assignment(asg: &Vec<InputAssignment>, f: &FunctionInput) -> (r: Option<usize>)
    ensures
        r matches Some(k) ==> first_match(asg@, *f) == Some(k as int),
        r is None ==> first_match(asg@, *f) is None,
        r matches Some(k) ==> k < asg.len() && satisfies(asg@[k as int], *f),
        r is None ==> forall|j: int| 0 <= j < asg.len() ==> !satisfies(#[trigger] asg@[j], *f),
{
    let mut i: usize = 0;
    while i < asg.len()
        invariant
            i <= asg.len(),
            forall|j: int| 0 <= j < i ==> !satisfies(#[trigger] asg@[j], *f),
        decreases asg.len() - i,
    {
        let a = &asg[i];
        let vis_private = match a.visibility {
            Visibility::Public => false,
            _ => true,
        };
        if a.identifier == f.identifier && vis_private == f.private && a.declared_type == f.declared_type {
            proof {
                lemma_first_match(asg@, *f, i as int);
            }
            return Some(i);
        }
        i = i + 1;
    }
    proof {
        lemma_first_match(asg@, *f, asg.len() as int);
    }
    None
}

} // verus!

use vstd::prelude::*;
use crate::data_types::{DataType, DataTypeView};

verus! {

/// A named value that a function takes.
#[derive(Debug, PartialEq)]
pub struct Parameter {
    pub name: String,
    pub typ: DataType,
}

impl Clone for Parameter {
    fn clone(&self) -> (copy: Self)
        ensures
            copy == *self,
    {
        Parameter { name: self.name.clone(), typ: self.typ.clone() }
    }
}

impl Parameter {
    /// A parameter with the given name and type.
    pub fn new(name: String, typ: DataType) -> (parameter: Self)
        ensures
            parameter == (Parameter { name, typ }),
    {
        Self { name, typ }
    }
}

/// What a function takes and what it gives back.
#[derive(Debug, PartialEq)]
pub struct Signature {
    pub parameters: Vec<Parameter>,
    pub return_type: Option<DataType>,
}

/// A signature with its parameters as a sequence.
pub ghost struct SignatureView {
    pub parameters: Seq<Parameter>,
    pub return_type: Option<DataType>,
}

impl View for Signature {
    type V = SignatureView;

    open spec fn view(&self) -> SignatureView {
        SignatureView { parameters: self.parameters@, return_type: self.return_type }
    }
}

impl Clone for Signature {
    fn clone(&self) -> (copy: Self)
        ensures
            copy@ == self@,
    {
        let mut parameters: Vec<Parameter> = Vec::new();
        let mut at: usize = 0;
        while at < self.parameters.len()
            invariant
                at <= self.parameters.len(),
                parameters@ == self.parameters@.take(at as int),
            decreases self.parameters.len() - at,
        {
            parameters.push(self.parameters[at].clone());
            assert(self.parameters@.take(at as int).push(self.parameters@[at as int])
                =~= self.parameters@.take(at + 1));
            at += 1;
        }
        assert(self.parameters@.take(at as int) =~= self.parameters@);
        Signature {
            parameters,
            return_type: match &self.return_type {
                Some(data_type) => Some(data_type.clone()),
                None => None,
            },
        }
    }
}

impl SignatureView {
    /// The types of the values that the function leaves on the stack: the
    /// declared return type, if there is one.
    pub open spec fn return_types(self) -> Seq<DataTypeView> {
        match self.return_type {
            Some(data_type) => seq![data_type@],
            None => Seq::empty(),
        }
    }

    /// The types of the parameters, in order.
    pub open spec fn parameter_types(self) -> Seq<DataTypeView> {
        Seq::new(self.parameters.len(), |i: int| self.parameters[i].typ@)
    }
}

} // verus!

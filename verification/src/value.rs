//! The result model of evaluation: a rendered `Value` plus a boolean
//! "truth" flag meaning "this subtree asserts that requested metadata was
//! actually present".  The truth flag decides whether an optional block
//! renders or collapses to the empty string.

use vstd::prelude::*;

verus! {

/// The ghost counterpart of an [`Evaluation`]: the rendered text together
/// with the truth flag.
pub ghost struct GEval {
    pub text: Seq<char>,
    pub truth: bool,
}

/// A renderable result.  The reference function set only needs text;
/// further variants are an extension point.
pub enum Value {
    Text(String),
}

/// The rendered text a `Value` stands for.
pub open spec fn value_text(v: Value) -> Seq<char> {
    match v {
        Value::Text(s) => s@,
    }
}

/// The pair produced whenever a tree node is evaluated: a rendered value
/// and the truth flag used for optional-block suppression.
pub struct Evaluation {
    pub value: Value,
    pub truth: bool,
}

impl View for Evaluation {
    type V = GEval;

    open spec fn view(&self) -> GEval {
        GEval { text: value_text(self.value), truth: self.truth }
    }
}

impl Evaluation {
    pub fn new(value: Value, truth: bool) -> (r: Evaluation)
        ensures
            r.value == value,
            r.truth == truth,
    {
        Evaluation { value, truth }
    }

    /// The rendered text of this evaluation, as an owned string.
    pub fn to_string(&self) -> (r: String)
        ensures
            r@ == self@.text,
    {
        match &self.value {
            Value::Text(s) => s.clone(),
        }
    }
}

} // verus!

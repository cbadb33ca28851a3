//! A formula that was checked when it was registered.

use vstd::prelude::*;
use crate::formula::{Formula, SizeFacts};

verus! {

/// A formula that was refused because it cannot be laid out.
#[derive(Debug, PartialEq, Eq)]
pub struct InvalidFormula {
    pub formula: Formula,
}

/// A formula that was checked once, when it was registered, and can be laid out.
#[derive(Debug, PartialEq, Eq)]
pub struct Schema {
    formula: Formula,
}

impl View for Schema {
    type V = Formula;

    closed spec fn view(&self) -> Formula {
        self.formula
    }
}

impl Schema {
    #[verifier::type_invariant]
    closed spec fn checked(&self) -> bool {
        self.formula.valid()
    }

    /// Registers `formula`, or hands it back where it cannot be laid out.
    pub fn new(formula: Formula) -> (result: Result<Schema, InvalidFormula>)
        ensures
            match result {
                Ok(schema) => formula.valid() && schema@ == formula,
                Err(refused) => !formula.valid() && refused.formula == formula,
            },
    {
        if formula.is_valid() {
            Ok(Schema { formula })
        } else {
            Err(InvalidFormula { formula })
        }
    }

    /// The formula, which can be laid out.
    pub fn formula(&self) -> (formula: &Formula)
        ensures
            *formula == self@,
            formula.valid(),
    {
        proof {
            use_type_invariant(self);
        }
        &self.formula
    }

    /// The facts of the formula.
    pub fn facts(&self) -> (facts: SizeFacts)
        ensures
            facts == self@.spec_facts(),
    {
        self.formula.facts()
    }
}

} // verus!

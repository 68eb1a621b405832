use crate::object::chars_of;
use vstd::prelude::*;

verus! {

pub struct ReferenceToUndeclaredVariableWarning {
    pub variable: Vec<char>,
}

pub struct TargetHasNoProperty {
    pub target: Vec<char>,
    pub property: Vec<char>,
}

/// A recoverable condition that the machine reports to its host.
pub enum Warning {
    ReferenceToUndeclaredVariable(ReferenceToUndeclaredVariableWarning),
    TargetHasNoProperty(TargetHasNoProperty),
}

impl Warning {
    /// The line that a host shows for this warning.
    pub open spec fn text_spec(&self) -> Seq<char> {
        match self {
            Warning::ReferenceToUndeclaredVariable(w) => "Warning: Reference to undeclared variable, '"@
                + w.variable@ + "'"@,
            Warning::TargetHasNoProperty(w) => "Warning: '"@ + w.target@ + "' has no property '"@
                + w.property@ + "'"@,
        }
    }

    pub fn text(&self) -> (r: Vec<char>)
        ensures
            r@ == self.text_spec(),
    {
        match self {
            Warning::ReferenceToUndeclaredVariable(w) => {
                let mut r = chars_of("Warning: Reference to undeclared variable, '");
                let mut v = crate::object::copy_chars(&w.variable);
                r.append(&mut v);
                let mut q = chars_of("'");
                r.append(&mut q);
                r
            },
            Warning::TargetHasNoProperty(w) => {
                let mut r = chars_of("Warning: '");
                let mut t = crate::object::copy_chars(&w.target);
                r.append(&mut t);
                let mut m = chars_of("' has no property '");
                r.append(&mut m);
                let mut p = crate::object::copy_chars(&w.property);
                r.append(&mut p);
                let mut q = chars_of("'");
                r.append(&mut q);
                r
            },
        }
    }
}

} // verus!

//! The shape of the field tables of the fiscal-data format (which fields a
//! document holds, in which forms, and how strictly).
use vstd::prelude::*;

verus! {

/// The forms (electronic, printed) in which a field appears, as bits.
#[derive(Clone, Copy, Debug, Default, Hash, PartialEq, Eq, Structural)]
pub struct Form(pub u8);

impl Form {
    /// In no form.
    pub fn none() -> (r: Form)
        ensures
            r.0 == 0,
    {
        Form(0)
    }

    /// In the electronic form.
    pub fn electronic() -> (r: Form)
        ensures
            r.0 == 1,
    {
        Form(1)
    }

    /// In the printed form.
    pub fn printed() -> (r: Form)
        ensures
            r.0 == 2,
    {
        Form(2)
    }

    /// In both forms.
    pub fn both() -> (r: Form)
        ensures
            r.0 == 3,
    {
        Form(3)
    }

    /// The raw bits.
    pub fn bits(&self) -> (r: u8)
        ensures
            r == self.0,
    {
        self.0
    }

    /// Whether every form of `other` is among these.
    pub fn contains(&self, other: Form) -> (r: bool)
        ensures
            r == (self.0 & other.0 == other.0),
    {
        self.0 & other.0 == other.0
    }

    /// The forms of both.
    pub fn union(&self, other: Form) -> (r: Form)
        ensures
            r.0 == self.0 | other.0,
    {
        Form(self.0 | other.0)
    }
}

/// How strictly a field is required.
#[derive(Clone, Copy, Debug, PartialEq, Eq, Structural)]
pub enum Req {
    Optional,
    SometimesRequired,
    Mandatory,
}

/// One field of a table.
pub struct FieldSpec {
    pub tag: Option<u16>,
    pub forms: Form,
    pub req: Req,
    /// Currently always false
    pub multi: bool,
}

/// A table of fields.
pub struct FieldSet(pub &'static [FieldSpec]);

} // verus!

//! Vector point identifiers: non-blank, trimmed strings.
use vstd::prelude::*;
use crate::error::{RagloomError, RagloomErrorKind};
use crate::text::{all_ws, owned, trim_owned, trimmed};

verus! {

/// A validated vector point identifier.
#[derive(Debug, PartialEq, Eq, Hash)]
pub struct PointId(String);

impl View for PointId {
    type V = Seq<char>;

    closed spec fn view(&self) -> Seq<char> {
        self.0@
    }
}

impl Clone for PointId {
    fn clone(&self) -> (c: Self)
        ensures
            c@ == self@,
    {
        PointId(self.0.clone())
    }
}

impl PointId {
    /// Validates `raw`: surrounding whitespace is removed, and a blank id is
    /// rejected with an `InvalidInput` error.
    pub fn parse(raw: &str) -> (r: Result<Self, RagloomError>)
        ensures
            all_ws(raw@) <==> r is Err,
            r matches Ok(id) ==> id@ == trimmed(raw@),
            r matches Err(e) ==> e.kind == RagloomErrorKind::InvalidInput && e.contexts@.len() == 1
                && e.contexts@[0]@ == "point id is empty"@,
    {
        if crate::text::is_blank(raw) {
            return Err(RagloomError::from_kind(RagloomErrorKind::InvalidInput).with_context(owned("point id is empty")));
        }
        Ok(PointId(trim_owned(raw)))
    }

    pub fn as_str(&self) -> (s: &str)
        ensures
            s@ == self@,
    {
        self.0.as_str()
    }

    pub fn into_string(self) -> (s: String)
        ensures
            s@ == self@,
    {
        self.0
    }
}

} // verus!

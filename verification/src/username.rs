//! Usernames under their normalized form: whitespace stripped and ASCII
//! letters lowercased, so that names differing only in case or spacing are
//! one identity.
use crate::text::normalize;
use crate::text::normalize_str;
use vstd::prelude::*;

verus! {

/// A username in normalized form, the uniqueness and lookup key of the
/// credential store.
pub struct ValidUsername(pub String);

impl View for ValidUsername {
    type V = Seq<char>;

    open spec fn view(&self) -> Seq<char> {
        self.0@
    }
}

impl ValidUsername {
    /// The normalized text of the username.
    pub fn as_str(&self) -> (r: &str)
        ensures
            r@ == self@,
    {
        self.0.as_str()
    }
}

impl From<String> for ValidUsername {
    /// Normalizes the given name: every whitespace character is dropped and
    /// ASCII letters are lowercased.
    fn from(username: String) -> (r: Self)
        ensures
            r@ == normalize(username@),
    {
        ValidUsername(normalize_str(username.as_str()))
    }
}

impl vstd::std_specs::convert::FromSpecImpl<String> for ValidUsername {
    // The normalized result cannot be written down as a spec-level String
    // value, so `from` is specified by the `ensures` on the method itself
    // rather than through `from_spec`.
    open spec fn obeys_from_spec() -> bool {
        false
    }

    open spec fn from_spec(t: String) -> Self {
        ValidUsername(t)
    }
}

} // verus!

use vstd::prelude::*;
use vstd::string::StringExecFns;

verus! {

/// An error surfaced by the bridge, carrying a message.
#[derive(Debug)]
pub struct JsError(pub String);

impl JsError {
    /// The message carried by this error.
    pub fn message(&self) -> (r: &str)
        ensures
            r@ == self.0@,
    {
        self.0.as_str()
    }

    /// The rendering of this error: `Error: ` followed by its message.
    pub fn to_string(&self) -> (r: String)
        ensures
            r@ == seq!['E', 'r', 'r', 'o', 'r', ':', ' '] + self.0@,
    {
        let mut s = String::from_str("Error: ");
        proof {
            reveal_strlit("Error: ");
        }
        s.append(self.0.as_str());
        s
    }

    /// An error carrying a copy of `msg`.
    pub fn from_str(msg: &str) -> (r: JsError)
        ensures
            r.0@ == msg@,
    {
        JsError(String::from_str(msg))
    }
}

impl From<String> for JsError {
    fn from(s: String) -> (r: JsError) {
        JsError(s)
    }
}

impl vstd::std_specs::convert::FromSpecImpl<String> for JsError {
    open spec fn obeys_from_spec() -> bool {
        true
    }

    open spec fn from_spec(s: String) -> JsError {
        JsError(s)
    }
}

} // verus!

//! The error value every conversion returns on failure.
use vstd::prelude::*;

verus! {

#[derive(Debug)]
pub enum MandateError {
    Unimplemented(&'static str),
    /// Unbalanced or unsupported Markdown structure.
    Markdown(String),
    /// YAML that does not parse, or a field of the wrong shape.
    Yaml(String),
    /// A document that fails validation against its schema.
    Schema(String),
}

impl MandateError {
    /// The human-readable message: the kind of failure, then its detail.
    pub fn message(&self) -> (r: String)
        ensures
            self matches MandateError::Markdown(m) ==> r@ == "markdown parse error: "@ + m@,
            self matches MandateError::Yaml(m) ==> r@ == "yaml parse error: "@ + m@,
            self matches MandateError::Schema(m) ==> r@ == "schema validation error: "@ + m@,
            self matches MandateError::Unimplemented(m) ==> r@ == m@,
    {
        match self {
            MandateError::Unimplemented(m) => (*m).to_owned(),
            MandateError::Markdown(m) => {
                let mut r = "markdown parse error: ".to_owned();
                r.append(m.as_str());
                r
            },
            MandateError::Yaml(m) => {
                let mut r = "yaml parse error: ".to_owned();
                r.append(m.as_str());
                r
            },
            MandateError::Schema(m) => {
                let mut r = "schema validation error: ".to_owned();
                r.append(m.as_str());
                r
            },
        }
    }
}

} // verus!

use vstd::prelude::*;

verus! {

/// The closed set of failures the engine can surface: a node that had to be
/// an object was not; a rule-declaration line was not shaped `#[...]`; the
/// significant lines of a rule source did not pair up; a rule file could not
/// be read; the final encoding step failed.
#[derive(Debug, Clone, Copy, PartialEq, Eq)]
pub enum HffError {
    Shape,
    SignatureFormat,
    RuleSourceFormat,
    RuleSourceIo,
    Serialization,
}

impl HffError {
    /// A fixed line of diagnostic text for each failure.
    pub fn message(&self) -> (r: &'static str)
        ensures
            r@ == self.message_spec(),
    {
        match self {
            HffError::Shape => "expected an object",
            HffError::SignatureFormat => "invalid signature format",
            HffError::RuleSourceFormat => "unequal number of lines in mapping",
            HffError::RuleSourceIo => "mapping file could not be read",
            HffError::Serialization => "serialization failed",
        }
    }

    /// The text `message` answers for each failure.
    pub open spec fn message_spec(&self) -> Seq<char> {
        match self {
            HffError::Shape => "expected an object"@,
            HffError::SignatureFormat => "invalid signature format"@,
            HffError::RuleSourceFormat => "unequal number of lines in mapping"@,
            HffError::RuleSourceIo => "mapping file could not be read"@,
            HffError::Serialization => "serialization failed"@,
        }
    }
}

} // verus!

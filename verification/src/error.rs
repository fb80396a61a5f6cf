use vstd::prelude::*;

verus! {

/// Why reasoning, verification, or authorization refused its input.
#[derive(Debug)]
pub enum ReasonError {
    InvalidProgram(String),
    ResourceLimit,
    InvalidAction(String),
    InvalidAuthorization(String),
    InvalidProof(String),
}

/// The message each error prints.
pub open spec fn reason_message(e: ReasonError) -> Seq<char> {
    match e {
        ReasonError::InvalidProgram(m) => "invalid program:\n"@ + m@,
        ReasonError::ResourceLimit => "reasoning did not converge after 1024 rounds"@,
        ReasonError::InvalidAction(m) => "invalid action authorization request:\n"@ + m@,
        ReasonError::InvalidAuthorization(m) => "authorization verification failed:\n"@ + m@,
        ReasonError::InvalidProof(m) => "proof verification failed:\n"@ + m@,
    }
}

impl ReasonError {
    /// The message this error prints.
    pub fn message(&self) -> (s: String)
        ensures
            s@ == reason_message(*self),
    {
        let mut out: Vec<char> = Vec::new();
        match self {
            ReasonError::InvalidProgram(m) => {
                crate::text::push_str(&mut out, "invalid program:\n");
                crate::text::push_str(&mut out, m.as_str());
            },
            ReasonError::ResourceLimit => {
                crate::text::push_str(&mut out, "reasoning did not converge after 1024 rounds");
            },
            ReasonError::InvalidAction(m) => {
                crate::text::push_str(&mut out, "invalid action authorization request:\n");
                crate::text::push_str(&mut out, m.as_str());
            },
            ReasonError::InvalidAuthorization(m) => {
                crate::text::push_str(&mut out, "authorization verification failed:\n");
                crate::text::push_str(&mut out, m.as_str());
            },
            ReasonError::InvalidProof(m) => {
                crate::text::push_str(&mut out, "proof verification failed:\n");
                crate::text::push_str(&mut out, m.as_str());
            },
        }
        crate::text::string_from_chars(out.as_slice())
    }
}

} // verus!

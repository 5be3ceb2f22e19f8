//! The error taxonomy: every failure of an invocation is one of these, and
//! each renders a single diagnostic message.

use vstd::prelude::*;

use vstd::string::StringExecFns;

verus! {

/// A terminal failure of one invocation. None is recovered locally: the
/// caller prints the message and exits non-zero.
#[derive(Debug)]
pub enum SpaceError {
    /// The external usage source could not be started.
    SourceInvocation { detail: String },
    /// The payload could not be decoded into the expected record shape.
    /// Carries the decoder's own report plus the raw captured output and
    /// error text, so the source's failure can be diagnosed.
    Decode { detail: String, stdout: String, stderr: String },
    /// Decoding succeeded but the eligible (or non-excluded) candidate set
    /// is empty.
    NoDevices,
}

impl SpaceError {
    /// The diagnostic text of this error. For a decode failure it carries
    /// the raw captured output and error text in full.
    pub open spec fn message_spec(&self) -> Seq<char> {
        match self {
            SpaceError::SourceInvocation { detail } => "Couldn't open duf: "@ + detail@,
            SpaceError::Decode { detail, stdout, stderr } => detail@
                + "\nduf returned an error:\n\nstdout:\n"@ + stdout@ + "\nstderr:\n"@ + stderr@,
            SpaceError::NoDevices => "No devices found"@,
        }
    }

    /// Renders the diagnostic message.
    pub fn message(&self) -> (r: String)
        ensures
            r@ == self.message_spec(),
    {
        match self {
            SpaceError::SourceInvocation { detail } => {
                let line = String::from_str("Couldn't open duf: ");
                let line = line.concat(detail.as_str());
                line
            },
            SpaceError::Decode { detail, stdout, stderr } => {
                let line = String::from_str(detail.as_str());
                let line = line.concat("\nduf returned an error:\n\nstdout:\n");
                let line = line.concat(stdout.as_str());
                let line = line.concat("\nstderr:\n");
                let line = line.concat(stderr.as_str());
                proof {
                    assert(line@ =~= self.message_spec());
                }
                line
            },
            SpaceError::NoDevices => String::from_str("No devices found"),
        }
    }
}

} // verus!

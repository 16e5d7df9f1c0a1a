use vstd::prelude::*;
use vstd::std_specs::convert::FromSpecImpl;
use vstd::string::StringExecFns;

verus! {

/// `std::io::Error`, carried through as an opaque value.
#[verifier::external_type_specification]
#[verifier::external_body]
pub struct ExIoError(std::io::Error);

/// Why a storage operation failed.
#[derive(Debug)]
pub enum DiskError {
    /// The absent page id was passed where a concrete one is required.
    InvalidPageId,
    /// The page id has no disk offset, or no page-table entry.
    PageNotFound,
    /// The underlying storage failed.
    Io(std::io::Error),
    /// No frame is free and none can be evicted.
    PoolExhausted,
    /// The operation is not provided.
    Unsupported,
}

impl From<std::io::Error> for DiskError {
    fn from(e: std::io::Error) -> (err: Self) {
        Self::Io(e)
    }
}

impl FromSpecImpl<std::io::Error> for DiskError {
    open spec fn obeys_from_spec() -> bool {
        true
    }

    open spec fn from_spec(e: std::io::Error) -> Self {
        DiskError::Io(e)
    }
}

/// `Display` of `std::io::Error`: the platform's text for the fault, of
/// which nothing is claimed.
#[verifier::external_body]
fn io_error_text(e: &std::io::Error) -> (text: String) {
    format!("{}", e)
}

impl DiskError {
    /// The text shown to a user, where `detail` is the platform's text for
    /// an I/O fault.
    pub open spec fn spec_message(&self, detail: Seq<char>) -> Seq<char> {
        match self {
            DiskError::InvalidPageId => "Invalid page ID"@,
            DiskError::PageNotFound => "Page not found"@,
            DiskError::Io(_) => "I/O error: "@ + detail,
            DiskError::PoolExhausted => "Buffer pool exhausted"@,
            DiskError::Unsupported => "Unsupported operation"@,
        }
    }

    /// The text for this error, given the platform's text for an I/O fault.
    pub fn message_with(&self, detail: &str) -> (text: String)
        ensures
            text@ == self.spec_message(detail@),
    {
        match self {
            DiskError::InvalidPageId => String::from_str("Invalid page ID"),
            DiskError::PageNotFound => String::from_str("Page not found"),
            DiskError::Io(_) => String::from_str("I/O error: ").concat(detail),
            DiskError::PoolExhausted => String::from_str("Buffer pool exhausted"),
            DiskError::Unsupported => String::from_str("Unsupported operation"),
        }
    }

    /// The text for this error. For an I/O fault it ends with whatever the
    /// platform says of the fault.
    pub fn message(&self) -> (text: String)
        ensures
            exists|detail: Seq<char>| text@ == self.spec_message(detail),
            !(self is Io) ==> text@ == self.spec_message(Seq::<char>::empty()),
    {
        match self {
            DiskError::Io(e) => {
                let detail = io_error_text(e);
                let text = self.message_with(detail.as_str());
                assert(text@ == self.spec_message(detail@));
                text
            },
            _ => {
                let text = self.message_with("");
                assert(text@ == self.spec_message(""@));
                text
            },
        }
    }
}

} // verus!

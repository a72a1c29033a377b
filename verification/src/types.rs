use vstd::prelude::*;

verus! {

/// One stored piece of mail: a payload addressed to a destination
/// identifier. Rows of the mailbox store are immutable once written.
pub struct Email {
    pub payload: String,
    pub destination: String,
}

/// The mathematical value of an [`Email`]: both fields as character
/// sequences.
pub struct EmailView {
    pub payload: Seq<char>,
    pub destination: Seq<char>,
}

impl View for Email {
    type V = EmailView;

    open spec fn view(&self) -> EmailView {
        EmailView { payload: self.payload@, destination: self.destination@ }
    }
}

} // verus!

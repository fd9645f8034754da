//! What the entries of a remote's listing measure.
use vstd::prelude::*;

verus! {

/// Which bytes a size counts.
#[derive(Clone, Copy, Debug, PartialEq, Eq, Structural)]
pub enum Sizes {
    /// Objects as the provider stores and bills them.
    Stored,
    /// Files as they were before they were sealed.
    Plaintext,
}

impl Sizes {
    /// The word for it.
    pub open spec fn word(self) -> Seq<char> {
        match self {
            Sizes::Stored => "stored"@,
            Sizes::Plaintext => "plaintext"@,
        }
    }

    pub fn label(self) -> (s: &'static str)
        ensures
            s@ == self.word(),
    {
        match self {
            Sizes::Stored => "stored",
            Sizes::Plaintext => "plaintext",
        }
    }

    /// Whether the provider holds more bytes than a size of this sort says.
    pub fn understates_stored_bytes(self) -> (r: bool)
        ensures
            r == (self == Sizes::Plaintext),
    {
        match self {
            Sizes::Stored => false,
            Sizes::Plaintext => true,
        }
    }
}

/// The two sorts of size are labelled apart.
pub proof fn labels_are_distinct(a: Sizes, b: Sizes)
    requires
        a.word() == b.word(),
    ensures
        a == b,
{
    reveal_strlit("stored");
    reveal_strlit("plaintext");
    if a != b {
        assert(Sizes::Stored.word().len() != Sizes::Plaintext.word().len());
    }
}

} // verus!

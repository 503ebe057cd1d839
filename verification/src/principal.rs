use vstd::prelude::*;

verus! {

/// The identity of a calling or owning party: an account or a deployed
/// contract. The registry only ever compares principals and derives storage
/// keys from their serialized form, so an opaque numeric identity suffices.
#[derive(Clone, Copy, PartialEq, Eq, Structural, Debug, Hash)]
pub enum Principal {
    Account(u64),
    Contract(u64),
}

impl Principal {
    /// The identity number, without the account/contract tag.
    pub open spec fn spec_id(self) -> u64 {
        match self {
            Principal::Account(id) => id,
            Principal::Contract(id) => id,
        }
    }

    /// The tag byte that starts this principal's serialized form.
    pub open spec fn spec_tag(self) -> u8 {
        match self {
            Principal::Account(_) => 0,
            Principal::Contract(_) => 1,
        }
    }

    /// True for account principals.
    pub fn is_account(&self) -> (r: bool)
        ensures
            r == self matches Principal::Account(_),
    {
        match self {
            Principal::Account(_) => true,
            Principal::Contract(_) => false,
        }
    }
}

/// How a caller refers to a token from outside: by ordinal or by the content
/// hash assigned at mint. Which variant is meaningful is fixed by the
/// registry's identifier mode.
#[derive(Clone, Copy, PartialEq, Eq, Structural, Debug)]
pub enum TokenIdentifier {
    Index(u64),
    Hash(u64),
}

} // verus!

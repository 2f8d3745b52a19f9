//! The signed-in identity, as the worker and the screen share it.
use vstd::prelude::*;

verus! {

/// The signed-in identity.
#[derive(Debug, PartialEq, Eq)]
pub struct Account {
    pub did: String,
    pub handle: String,
}

/// [`Account`] over sequences.
pub struct SpecAccount {
    pub did: Seq<char>,
    pub handle: Seq<char>,
}

impl View for Account {
    type V = SpecAccount;

    open spec fn view(&self) -> SpecAccount {
        SpecAccount { did: self.did@, handle: self.handle@ }
    }
}

impl Clone for Account {
    fn clone(&self) -> (r: Self)
        ensures
            r@ == self@,
    {
        Account { did: self.did.clone(), handle: self.handle.clone() }
    }
}

/// An optional account by its view.
pub open spec fn opt_account(o: Option<Account>) -> Option<SpecAccount> {
    match o {
        Some(a) => Some(a@),
        None => None,
    }
}

} // verus!

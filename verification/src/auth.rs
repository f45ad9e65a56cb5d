//! The authentication gate: a one-shot observable that records the uuid of
//! the authenticated peer. It transitions once, pending to authenticated;
//! observers read the state with `get`. The asynchronous waiting that the
//! runtime layers on top does not change the state and lives outside the
//! library.

use vstd::prelude::*;

verus! {

/// The per-connection authentication state: nothing, or the uuid that
/// authenticated.
#[derive(Clone, Debug)]
pub struct Authenticated {
    uuid: Option<u128>,
}

impl View for Authenticated {
    type V = Option<u128>;

    closed spec fn view(&self) -> Option<u128> {
        self.uuid
    }
}

impl Authenticated {
    /// A fresh gate: no peer has authenticated.
    pub fn new() -> (r: Self)
        ensures
            r@ is None,
    {
        Authenticated { uuid: None }
    }

    /// Records a successful authentication. Callers guard against a second
    /// authentication before calling; this primitive stores the uuid
    /// unconditionally.
    pub fn set(&mut self, uuid: u128)
        ensures
            final(self)@ == Some(uuid),
    {
        self.uuid = Some(uuid);
    }

    /// The non-blocking snapshot: the authenticated uuid, if any.
    pub fn get(&self) -> (r: Option<u128>)
        ensures
            r == self@,
    {
        self.uuid
    }
}

} // verus!

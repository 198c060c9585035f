use vstd::prelude::*;

use std::sync::{Arc, Mutex};

use crate::cmd::SocketAddress;
use crate::file_type::FileType;
use crate::transfer::Transfer;

verus! {

/// std's `Mutex`; the library only carries it through.
#[verifier::external_type_specification]
#[verifier::external_body]
#[verifier::reject_recursive_types(T)]
pub struct ExMutex<T: ?Sized>(std::sync::Mutex<T>);

/// Relies on `Mutex::new`: wraps the value in a fresh lock.
pub assume_specification<T>[ std::sync::Mutex::<T>::new ](t: T) -> std::sync::Mutex<T>;

/// Lifecycle of a control connection.
#[derive(Debug, Clone, Copy, PartialEq, Eq, Structural)]
pub enum UserState {
    Logging,
    Online,
    Offline,
}

/// Why a session request failed.
#[derive(Debug, Clone, Copy, PartialEq, Eq, Structural)]
pub enum UserError {
    /// No data connection has been set up.
    TransferNotFound,
}

/// One control connection.
#[derive(Debug)]
#[verifier::reject_recursive_types(S)]
pub struct User<S> {
    pub username: String,
    pub state: UserState,
    pub address: SocketAddress,
    pub transfer: Option<Arc<Mutex<Transfer<S>>>>,
    pub transfer_type: FileType,
    pub home: String,
}

impl<S> User<S> {
    /// What `get_transfer` returns.
    pub open spec fn transfer_result(&self) -> Result<Arc<Mutex<Transfer<S>>>, UserError> {
        match self.transfer {
            Some(t) => Ok(t),
            None => Err(UserError::TransferNotFound),
        }
    }

    /// A freshly connected session, waiting for its credentials.
    pub fn new(username: &str, address: SocketAddress, home: &str) -> (r: Self)
        ensures
            r.username@ == username@,
            r.state == UserState::Logging,
            r.address == address,
            r.transfer is None,
            r.transfer_type == FileType::Ascii,
            r.home@ == home@,
    {
        User {
            username: String::from_str(username),
            state: UserState::Logging,
            address,
            transfer: None,
            transfer_type: FileType::Ascii,
            home: String::from_str(home),
        }
    }

    /// A session of the fixed identity `anonymous`, online at once.
    pub fn new_anonymous(address: SocketAddress, home: &str) -> (r: Self)
        ensures
            r.username@ == "anonymous"@,
            r.state == UserState::Online,
            r.address == address,
            r.transfer is None,
            r.transfer_type == FileType::Ascii,
            r.home@ == home@,
    {
        User {
            username: String::from_str("anonymous"),
            state: UserState::Online,
            address,
            transfer: None,
            transfer_type: FileType::Ascii,
            home: String::from_str(home),
        }
    }

    /// Installs `trans` as the session's transfer, replacing any earlier one.
    pub fn set_transfer(&mut self, trans: Transfer<S>)
        ensures
            final(self).transfer is Some,
            final(self).username == old(self).username,
            final(self).state == old(self).state,
            final(self).address == old(self).address,
            final(self).transfer_type == old(self).transfer_type,
            final(self).home == old(self).home,
    {
        self.transfer = Some(Arc::new(Mutex::new(trans)));
    }

    /// The shared handle of the installed transfer, or `TransferNotFound`.
    pub fn get_transfer(&self) -> (r: Result<Arc<Mutex<Transfer<S>>>, UserError>)
        ensures
            r == self.transfer_result(),
    {
        match &self.transfer {
            Some(t) => Ok(t.clone()),
            None => Err(UserError::TransferNotFound),
        }
    }
}

/// Before a transfer is installed, looking it up fails with
/// `TransferNotFound`; once one is installed, every lookup gives that same
/// shared handle.
pub proof fn lemma_transfer_lookup<S>(u: User<S>)
    ensures
        u.transfer is None ==> u.transfer_result() == Err::<Arc<Mutex<Transfer<S>>>, UserError>(
            UserError::TransferNotFound,
        ),
        u.transfer is Some ==> u.transfer_result() == Ok::<Arc<Mutex<Transfer<S>>>, UserError>(
            u.transfer->0,
        ),
{
}

} // verus!

//! Trying one address after the other.

use vstd::prelude::*;
use crate::io::error::{Error, ErrorKind};

verus! {

/// What the addresses are tried for.
#[derive(Clone, Copy, Debug, PartialEq, Eq, Structural)]
pub enum Purpose {
    /// A socket that does not block is bound or connected.
    Any,
    /// A listener is bound.
    Listen,
    /// A stream is connected.
    Stream,
    /// A socket for datagrams is bound.
    BindDatagram,
    /// A socket for datagrams is connected.
    ConnectDatagram,
}

/// What is said if there was no address.
pub open spec fn complaint(purpose: Purpose) -> Seq<char> {
    match purpose {
        Purpose::Any => "could not resolve to any address"@,
        Purpose::Listen => "addresses resolve failed"@,
        Purpose::Stream => "connect failed"@,
        Purpose::BindDatagram => "could not bind to any of the addresses"@,
        Purpose::ConnectDatagram => "could not connect to any of the addresses"@,
    }
}

/// What came of the addresses that were tried.
pub struct Attempts {
    pub last_err: Option<Error>,
    pub purpose: Purpose,
}

impl Attempts {
    pub fn new(purpose: Purpose) -> (r: Self)
        ensures
            r.last_err is None,
            r.purpose == purpose,
    {
        Attempts { last_err: None, purpose }
    }

    /// Notes what came of the next address: the first success is the result.
    pub fn tried<T>(&mut self, res: Result<T, Error>) -> (r: Option<T>)
        ensures
            final(self).purpose == old(self).purpose,
            match res {
                Ok(value) => r == Some(value) && final(self).last_err == old(self).last_err,
                Err(error) => r is None && final(self).last_err == Some(error),
            },
    {
        match res {
            Ok(value) => Some(value),
            Err(error) => {
                self.last_err = Some(error);
                None
            },
        }
    }

    /// The error to return if no address was any good: that of the last one.
    pub fn failed(self) -> (r: Error)
        ensures
            match self.last_err {
                Some(error) => r == error,
                None => r.says(ErrorKind::InvalidInput, complaint(self.purpose)),
            },
    {
        match self.last_err {
            Some(error) => error,
            None => Error::new(
                ErrorKind::InvalidInput,
                match self.purpose {
                    Purpose::Any => "could not resolve to any address",
                    Purpose::Listen => "addresses resolve failed",
                    Purpose::Stream => "connect failed",
                    Purpose::BindDatagram => "could not bind to any of the addresses",
                    Purpose::ConnectDatagram => "could not connect to any of the addresses",
                },
            ),
        }
    }
}

} // verus!

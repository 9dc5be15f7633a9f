//! The records that a lookup reads, the repositories that hold them, and the
//! vocabulary in which a repository is asked for records.

pub mod ip;
pub mod location;

use vstd::prelude::*;
use vstd::std_specs::convert::FromSpecImpl;

use crate::models::ip::{Ip, IpRepository};
use crate::models::location::{Location, LocationRepository};

verus! {

/// Why a repository could not answer.
#[derive(Debug, PartialEq, Eq)]
pub enum RepositoryError {
    /// A record could not be turned into a stored document.
    BsonEncodeError(String),
    /// A stored document could not be turned into a record.
    BsonDecodeError(String),
    /// The store failed, timed out or could not be reached.
    MongoError(String),
    /// The repository was asked before it was initialised.
    UninitializedRepoError,
    InsertError,
    UpdateError,
    /// The store answered another question than the one it was asked.
    UnexpectedResponse,
    Other(String),
}

impl From<String> for RepositoryError {
    fn from(e: String) -> (r: Self) {
        RepositoryError::Other(e)
    }
}

impl FromSpecImpl<String> for RepositoryError {
    open spec fn obeys_from_spec() -> bool {
        true
    }

    open spec fn from_spec(e: String) -> Self {
        RepositoryError::Other(e)
    }
}

/// What a filter asks of one octet of a record's key.
#[derive(Clone, Copy, Debug, PartialEq, Eq, Structural)]
pub enum Bound {
    /// Every value passes.
    Any,
    /// Only this value passes.
    Equal(u8),
    /// This value and every smaller one pass.
    AtMost(u8),
}

impl Bound {
    /// Whether `value` passes this bound.
    pub open spec fn admits(self, value: u8) -> bool {
        match self {
            Bound::Any => true,
            Bound::Equal(v) => value == v,
            Bound::AtMost(v) => value <= v,
        }
    }

    /// Tests `value` against this bound.
    pub fn test(&self, value: u8) -> (r: bool)
        ensures
            r == self.admits(value),
    {
        match self {
            Bound::Any => true,
            Bound::Equal(v) => value == *v,
            Bound::AtMost(v) => value <= *v,
        }
    }
}

/// A conjunction of bounds on the three octets of a record's key.
#[derive(Clone, Copy, Debug, PartialEq, Eq, Structural)]
pub struct Filter {
    pub net: Bound,
    pub sub: Bound,
    pub sub2: Bound,
}

impl Filter {
    /// Whether a record with the key `net.sub.sub2` passes every bound.
    pub open spec fn admits(self, net: u8, sub: u8, sub2: u8) -> bool {
        self.net.admits(net) && self.sub.admits(sub) && self.sub2.admits(sub2)
    }

    /// Tests the key `net.sub.sub2` against every bound.
    pub fn test(&self, net: u8, sub: u8, sub2: u8) -> (r: bool)
        ensures
            r == self.admits(net, sub, sub2),
    {
        self.net.test(net) && self.sub.test(sub) && self.sub2.test(sub2)
    }
}

/// The order in which a repository hands records out.
#[derive(Clone, Copy, Debug, PartialEq, Eq, Structural)]
pub enum SortOrder {
    /// The order in which the records are stored.
    Stored,
    /// Larger `sub` first; records with the same `sub` in stored order.
    SubDescending,
}

/// How the records that pass a filter are ordered and cut off.
#[derive(Clone, Copy, Debug, PartialEq, Eq, Structural)]
pub struct FindOptions {
    /// The largest number of records wanted; `None` for all of them.
    pub limit: Option<u64>,
    pub sort: SortOrder,
}

/// The records of a store, of both kinds, in stored order.
#[derive(Debug)]
pub struct Database {
    pub ip: Vec<Ip>,
    pub location: Vec<Location>,
}

impl Clone for Database {
    fn clone(&self) -> (r: Self)
        ensures
            r.ip@ == self.ip@,
            r.location@ == self.location@,
    {
        let ip = self.ip.clone();
        let location = self.location.clone();
        assert(ip@ =~= self.ip@);
        assert(location@ =~= self.location@);
        Database { ip, location }
    }
}

/// What the two repositories of a collection hold: for each its records in
/// stored order, or nothing while it is not initialised.
pub struct Stores {
    pub ip: Option<Seq<Ip>>,
    pub location: Option<Seq<Location>>,
}

/// The repositories that a lookup reads, and the database that fills them.
#[derive(Debug)]
pub struct RepositoryCollection {
    pub db_instance: Database,
    pub ip: IpRepository,
    pub location: LocationRepository,
}

impl View for RepositoryCollection {
    type V = Stores;

    open spec fn view(&self) -> Stores {
        Stores { ip: self.ip@, location: self.location@ }
    }
}

impl Clone for RepositoryCollection {
    fn clone(&self) -> (r: Self)
        ensures
            r@ == self@,
            r.db_instance.ip@ == self.db_instance.ip@,
            r.db_instance.location@ == self.db_instance.location@,
    {
        RepositoryCollection {
            db_instance: self.db_instance.clone(),
            ip: self.ip.clone(),
            location: self.location.clone(),
        }
    }
}

impl RepositoryCollection {
    /// A collection for the database `db`, with both repositories still
    /// uninitialised.
    pub fn new(db: Database) -> (r: Self)
        ensures
            r.db_instance == db,
            r@ == (Stores { ip: None, location: None }),
    {
        RepositoryCollection {
            db_instance: db,
            ip: Default::default(),
            location: Default::default(),
        }
    }

    /// Initialises both repositories with the records of the database.
    pub fn load_repositories(&mut self) -> (r: Result<(), RepositoryError>)
        ensures
            r is Ok,
            final(self).db_instance == old(self).db_instance,
            final(self)@ == (Stores {
                ip: Some(old(self).db_instance.ip@),
                location: Some(old(self).db_instance.location@),
            }),
    {
        let db = self.db_instance.clone();
        match self.ip.init(db.ip) {
            Ok(()) => {},
            Err(e) => {
                return Err(e);
            },
        }
        match self.location.init(db.location) {
            Ok(()) => {},
            Err(e) => {
                return Err(e);
            },
        }
        Ok(())
    }
}

} // verus!

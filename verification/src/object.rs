//! Objects as they are handed out.

use crate::base_types::{
    Blob, ObjectDigest, ObjectID, ObjectRef, Owner, SequenceNumber, TransactionDigest,
};
use std::sync::Arc;
use vstd::prelude::*;

verus! {

/// A value of the ledger.
#[derive(Debug, PartialEq, Eq, Hash)]
pub struct MoveObject {
    pub id: ObjectID,
    pub version: SequenceNumber,
    pub contents: Blob,
}

/// A package of modules.
#[derive(Debug, PartialEq, Eq, Hash)]
pub struct MovePackage {
    pub id: ObjectID,
    pub version: SequenceNumber,
    /// The serialized modules.
    pub modules: Arc<Vec<Blob>>,
    /// The packages that the modules refer to.
    pub dependencies: Arc<Vec<ObjectID>>,
}

/// What an object is.
#[derive(Debug, PartialEq, Eq, Hash)]
pub enum Data {
    Move(MoveObject),
    Package(MovePackage),
}

/// An object together with its digest, which whoever assembled the object computed from the rest.
#[derive(Debug, PartialEq, Eq, Hash)]
pub struct Object {
    pub data: Data,
    pub owner: Owner,
    pub previous_transaction: TransactionDigest,
    pub storage_rebate: u64,
    pub digest: ObjectDigest,
}

impl Clone for MoveObject {
    fn clone(&self) -> (r: Self)
        ensures
            r == *self,
    {
        MoveObject { id: self.id, version: self.version, contents: self.contents.clone() }
    }
}

impl Clone for MovePackage {
    fn clone(&self) -> (r: Self)
        ensures
            r == *self,
    {
        MovePackage {
            id: self.id,
            version: self.version,
            modules: self.modules.clone(),
            dependencies: self.dependencies.clone(),
        }
    }
}

impl Clone for Data {
    fn clone(&self) -> (r: Self)
        ensures
            r == *self,
    {
        match self {
            Data::Move(object) => Data::Move(object.clone()),
            Data::Package(package) => Data::Package(package.clone()),
        }
    }
}

impl Clone for Object {
    fn clone(&self) -> (r: Self)
        ensures
            r == *self,
    {
        Object {
            data: self.data.clone(),
            owner: self.owner,
            previous_transaction: self.previous_transaction,
            storage_rebate: self.storage_rebate,
            digest: self.digest,
        }
    }
}

impl Object {
    /// The identity of the object.
    pub open spec fn spec_id(self) -> ObjectID {
        match self.data {
            Data::Move(object) => object.id,
            Data::Package(package) => package.id,
        }
    }

    /// The version of the object.
    pub open spec fn spec_version(self) -> SequenceNumber {
        match self.data {
            Data::Move(object) => object.version,
            Data::Package(package) => package.version,
        }
    }

    /// The reference that names this version of the object.
    pub open spec fn reference(self) -> ObjectRef {
        (self.spec_id(), self.spec_version(), self.digest)
    }

    /// The identity of the object.
    pub fn id(&self) -> (r: ObjectID)
        ensures
            r == self.spec_id(),
    {
        match &self.data {
            Data::Move(object) => object.id,
            Data::Package(package) => package.id,
        }
    }

    /// The version of the object.
    pub fn version(&self) -> (r: SequenceNumber)
        ensures
            r == self.spec_version(),
    {
        match &self.data {
            Data::Move(object) => object.version,
            Data::Package(package) => package.version,
        }
    }

    /// The reference that names this version of the object.
    pub fn compute_object_reference(&self) -> (r: ObjectRef)
        ensures
            r == self.reference(),
    {
        (self.id(), self.version(), self.digest)
    }
}

} // verus!

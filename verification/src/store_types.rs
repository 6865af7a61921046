//! Objects as the tables hold them.

use crate::base_types::{
    Blob, ObjectContentDigest, ObjectDigest, ObjectKey, Owner, SequenceNumber, TransactionDigest,
};
use crate::error::MgoError;
use crate::object::{Data, MoveObject, MovePackage, Object};
use vstd::prelude::*;

verus! {

/// Where the contents of an indirectly stored object are found.
#[derive(Clone, Copy, Debug, PartialEq, Eq, Hash)]
pub struct IndirectObjectMetadata {
    pub version: SequenceNumber,
    pub digest: ObjectContentDigest,
}

/// What a stored object is: a value, a package, or a pointer to contents kept in the table of
/// indirect objects.
#[derive(Debug, PartialEq, Eq, Hash)]
pub enum StoreData {
    Move(MoveObject),
    Package(MovePackage),
    IndirectObject(IndirectObjectMetadata),
}

/// A stored object.
#[derive(Debug, PartialEq, Eq, Hash)]
pub struct StoreObjectValue {
    pub data: StoreData,
    pub owner: Owner,
    pub previous_transaction: TransactionDigest,
    pub storage_rebate: u64,
    pub digest: ObjectDigest,
}

/// What the objects table says of one version of an object.
#[derive(Debug, PartialEq, Eq, Hash)]
pub enum StoreObject {
    Value(StoreObjectValue),
    Deleted,
    Wrapped,
}

/// A row of the objects table, tagged with the version of its layout.
#[derive(Debug, PartialEq, Eq, Hash)]
pub enum StoreObjectWrapper {
    V1(StoreObject),
}

/// The contents of an indirectly stored object.
#[derive(Debug, PartialEq, Eq, Hash)]
pub struct StoreMoveObject {
    pub contents: Blob,
}

/// A row of the table of indirect objects, tagged with the version of its layout.
#[derive(Debug, PartialEq, Eq, Hash)]
pub enum StoreMoveObjectWrapper {
    V1(StoreMoveObject),
}

/// An object split for storage: the row of the objects table, and the row of the table of indirect
/// objects where the contents are kept apart.
#[derive(Debug, PartialEq, Eq, Hash)]
pub struct StoreObjectPair(pub StoreObjectWrapper, pub Option<StoreMoveObjectWrapper>);

impl Clone for StoreData {
    fn clone(&self) -> (r: Self)
        ensures
            r == *self,
    {
        match self {
            StoreData::Move(object) => StoreData::Move(object.clone()),
            StoreData::Package(package) => StoreData::Package(package.clone()),
            StoreData::IndirectObject(metadata) => StoreData::IndirectObject(*metadata),
        }
    }
}

impl Clone for StoreObjectValue {
    fn clone(&self) -> (r: Self)
        ensures
            r == *self,
    {
        StoreObjectValue {
            data: self.data.clone(),
            owner: self.owner,
            previous_transaction: self.previous_transaction,
            storage_rebate: self.storage_rebate,
            digest: self.digest,
        }
    }
}

impl Clone for StoreObject {
    fn clone(&self) -> (r: Self)
        ensures
            r == *self,
    {
        match self {
            StoreObject::Value(value) => StoreObject::Value(value.clone()),
            StoreObject::Deleted => StoreObject::Deleted,
            StoreObject::Wrapped => StoreObject::Wrapped,
        }
    }
}

impl Clone for StoreObjectWrapper {
    fn clone(&self) -> (r: Self)
        ensures
            r == *self,
    {
        match self {
            StoreObjectWrapper::V1(object) => StoreObjectWrapper::V1(object.clone()),
        }
    }
}

impl Clone for StoreMoveObject {
    fn clone(&self) -> (r: Self)
        ensures
            r == *self,
    {
        StoreMoveObject { contents: self.contents.clone() }
    }
}

impl Clone for StoreMoveObjectWrapper {
    fn clone(&self) -> (r: Self)
        ensures
            r == *self,
    {
        match self {
            StoreMoveObjectWrapper::V1(object) => StoreMoveObjectWrapper::V1(object.clone()),
        }
    }
}

impl StoreObjectWrapper {
    /// The row itself.
    pub open spec fn spec_inner(self) -> StoreObject {
        match self {
            StoreObjectWrapper::V1(object) => object,
        }
    }

    /// The row in the newest layout. There is one layout so far.
    pub fn migrate(self) -> (r: Self)
        ensures
            r == self,
    {
        self
    }

    /// The row itself.
    pub fn inner(&self) -> (r: &StoreObject)
        ensures
            *r == self.spec_inner(),
    {
        match self {
            StoreObjectWrapper::V1(object) => object,
        }
    }

    /// The row itself.
    pub fn into_inner(self) -> (r: StoreObject)
        ensures
            r == self.spec_inner(),
    {
        match self {
            StoreObjectWrapper::V1(object) => object,
        }
    }
}

impl StoreMoveObjectWrapper {
    /// The row itself.
    pub open spec fn spec_inner(self) -> StoreMoveObject {
        match self {
            StoreMoveObjectWrapper::V1(object) => object,
        }
    }

    /// The row in the newest layout. There is one layout so far.
    pub fn migrate(self) -> (r: Self)
        ensures
            r == self,
    {
        self
    }

    /// The row itself.
    pub fn into_inner(self) -> (r: StoreMoveObject)
        ensures
            r == self.spec_inner(),
    {
        match self {
            StoreMoveObjectWrapper::V1(object) => object,
        }
    }
}

/// What the data of a stored object stands for. Contents kept apart must be there for a pointer,
/// and must not be there for anything else.
pub open spec fn assembled_data(
    key: ObjectKey,
    data: StoreData,
    indirect: Option<StoreMoveObject>,
) -> Option<Data> {
    match (data, indirect) {
        (StoreData::Move(object), None) => Some(Data::Move(object)),
        (StoreData::Package(package), None) => Some(Data::Package(package)),
        (StoreData::IndirectObject(metadata), Some(object)) => Some(
            Data::Move(
                MoveObject { id: key.0, version: metadata.version, contents: object.contents },
            ),
        ),
        _ => None,
    }
}

/// The object that a stored object stands for, if the two parts fit together.
pub open spec fn assembled(
    key: ObjectKey,
    value: StoreObjectValue,
    indirect: Option<StoreMoveObject>,
) -> Option<Object> {
    match assembled_data(key, value.data, indirect) {
        Some(data) => Some(
            Object {
                data,
                owner: value.owner,
                previous_transaction: value.previous_transaction,
                storage_rebate: value.storage_rebate,
                digest: value.digest,
            },
        ),
        None => None,
    }
}

/// Puts a stored object together.
pub fn try_construct_object(
    object_key: &ObjectKey,
    store_object: StoreObjectValue,
    indirect_object: Option<StoreMoveObject>,
) -> (r: Result<Object, MgoError>)
    ensures
        match r {
            Ok(object) => assembled(*object_key, store_object, indirect_object) == Some(object),
            Err(e) => {
                &&& assembled(*object_key, store_object, indirect_object) is None
                &&& e.is_inconsistent_object()
            },
        },
{
    let data = match (store_object.data, indirect_object) {
        (StoreData::Move(object), None) => Data::Move(object),
        (StoreData::Package(package), None) => Data::Package(package),
        (StoreData::IndirectObject(metadata), Some(object)) => Data::Move(
            MoveObject {
                id: object_key.0,
                version: metadata.version,
                contents: object.contents,
            },
        ),
        _ => {
            return Err(MgoError::inconsistent_object());
        },
    };
    Ok(
        Object {
            data,
            owner: store_object.owner,
            previous_transaction: store_object.previous_transaction,
            storage_rebate: store_object.storage_rebate,
            digest: store_object.digest,
        },
    )
}

/// The row that keeps an object whole.
pub open spec fn stored_whole(object: Object) -> StoreObjectWrapper {
    StoreObjectWrapper::V1(
        StoreObject::Value(
            StoreObjectValue {
                data: match object.data {
                    Data::Move(object) => StoreData::Move(object),
                    Data::Package(package) => StoreData::Package(package),
                },
                owner: object.owner,
                previous_transaction: object.previous_transaction,
                storage_rebate: object.storage_rebate,
                digest: object.digest,
            },
        ),
    )
}

/// Splits an object for storage with its contents kept in the row itself.
pub fn get_store_object_pair(object: Object) -> (r: StoreObjectPair)
    ensures
        r.0 == stored_whole(object),
        r.1 is None,
{
    let data = match object.data {
        Data::Move(object) => StoreData::Move(object),
        Data::Package(package) => StoreData::Package(package),
    };
    let value = StoreObjectValue {
        data,
        owner: object.owner,
        previous_transaction: object.previous_transaction,
        storage_rebate: object.storage_rebate,
        digest: object.digest,
    };
    StoreObjectPair(StoreObjectWrapper::V1(StoreObject::Value(value)), None)
}

} // verus!

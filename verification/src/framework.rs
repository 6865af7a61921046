//! The packages that every network starts with.

use crate::base_types::{
    Blob, ObjectDigest, ObjectID, Owner, SequenceNumber, TransactionDigest, START_VERSION,
};
use crate::codec::{decode_strings, MalformedBytes};
use crate::object::{Data, MovePackage, Object};
use crate::text::{decimal_text, hex_bytes_text};
use move_core_types::gas_schedule::{GasAlgebra, InternalGasUnits};
use std::sync::Arc;
use vstd::prelude::*;
use vstd::string::StringExecFns;

verus! {

/// A module that was read from its serialized form.
#[derive(Debug, PartialEq, Eq, Hash)]
pub struct CompiledModule {
    /// The package that the module belongs to.
    pub address: ObjectID,
    /// The serialized form.
    pub bytes: Blob,
}

impl Clone for CompiledModule {
    fn clone(&self) -> (r: Self)
        ensures
            r == *self,
    {
        CompiledModule { address: self.address, bytes: self.bytes.clone() }
    }
}

impl MovePackage {
    /// A package of these modules at this version, stored under the address of its first module.
    pub open spec fn is_system_package(
        self,
        modules: Seq<CompiledModule>,
        version: SequenceNumber,
        dependencies: Seq<ObjectID>,
    ) -> bool {
        &&& self.id == modules[0].address
        &&& self.version == version
        &&& self.modules@ == modules.map_values(|module: CompiledModule| module.bytes)
        &&& self.dependencies@ == dependencies
    }

    /// A package of these modules at this version, stored under the address of its first module.
    pub fn new_system(
        version: SequenceNumber,
        modules: &[CompiledModule],
        dependencies: Vec<ObjectID>,
    ) -> (r: Self)
        requires
            modules@.len() > 0,
        ensures
            r.is_system_package(modules@, version, dependencies@),
    {
        let mut serialized: Vec<Blob> = Vec::new();
        let mut i: usize = 0;
        let ghost all = modules@.map_values(|module: CompiledModule| module.bytes);
        while i < modules.len()
            invariant
                i <= modules@.len(),
                all == modules@.map_values(|module: CompiledModule| module.bytes),
                serialized@ == all.take(i as int),
            decreases modules@.len() - i,
        {
            serialized.push(modules[i].bytes.clone());
            assert(all.take(i + 1) =~= all.take(i as int).push(all[i as int]));
            i = i + 1;
        }
        assert(all.take(i as int) =~= all);
        MovePackage {
            id: modules[0].address,
            version,
            modules: Arc::new(serialized),
            dependencies: Arc::new(dependencies),
        }
    }
}

impl Object {
    /// The object that holds a package of these modules. Nobody owns it and it costs nothing.
    pub open spec fn is_system_package(
        self,
        modules: Seq<CompiledModule>,
        version: SequenceNumber,
        dependencies: Seq<ObjectID>,
        previous_transaction: TransactionDigest,
        digest: ObjectDigest,
    ) -> bool {
        &&& self.data matches Data::Package(package) && package.is_system_package(
            modules,
            version,
            dependencies,
        )
        &&& self.owner is Immutable
        &&& self.previous_transaction == previous_transaction
        &&& self.storage_rebate == 0
        &&& self.digest == digest
    }

    /// The object that holds a package of these modules.
    pub fn new_system_package(
        modules: &[CompiledModule],
        version: SequenceNumber,
        dependencies: Vec<ObjectID>,
        previous_transaction: TransactionDigest,
        digest: ObjectDigest,
    ) -> (r: Self)
        requires
            modules@.len() > 0,
        ensures
            r.is_system_package(modules@, version, dependencies@, previous_transaction, digest),
    {
        Object {
            data: Data::Package(MovePackage::new_system(version, modules, dependencies)),
            owner: Owner::Immutable,
            previous_transaction,
            storage_rebate: 0,
            digest,
        }
    }
}

/// A package that is built together with the node.
#[derive(PartialEq, Eq)]
pub struct SystemPackage {
    pub id: ObjectID,
    /// The serialized modules.
    pub bytes: Vec<Vec<u8>>,
    pub dependencies: Vec<ObjectID>,
}

impl Clone for SystemPackage {
    fn clone(&self) -> (r: Self)
        ensures
            r.id == self.id,
            crate::codec::strings_of(r.bytes@) == crate::codec::strings_of(self.bytes@),
            r.dependencies@ == self.dependencies@,
    {
        let mut bytes: Vec<Vec<u8>> = Vec::new();
        let mut i: usize = 0;
        let ghost all = crate::codec::strings_of(self.bytes@);
        assert(crate::codec::strings_of(bytes@) =~= all.take(0));
        while i < self.bytes.len()
            invariant
                i <= self.bytes@.len(),
                all == crate::codec::strings_of(self.bytes@),
                crate::codec::strings_of(bytes@) == all.take(i as int),
            decreases self.bytes@.len() - i,
        {
            let ghost before = bytes@;
            let module = self.bytes[i].clone();
            assert(module@ =~= self.bytes@[i as int]@);
            bytes.push(module);
            assert(crate::codec::strings_of(bytes@) =~= crate::codec::strings_of(before).push(
                module@,
            ));
            assert(all.take(i + 1) =~= all.take(i as int).push(all[i as int]));
            i = i + 1;
        }
        assert(all.take(i as int) =~= all);
        SystemPackage { id: self.id, bytes, dependencies: copied(self.dependencies.as_slice()) }
    }
}

/// A copy of a list of identities.
fn copied(ids: &[ObjectID]) -> (r: Vec<ObjectID>)
    ensures
        r@ == ids@,
{
    let mut list: Vec<ObjectID> = Vec::new();
    let mut i: usize = 0;
    while i < ids.len()
        invariant
            i <= ids@.len(),
            list@ == ids@.take(i as int),
        decreases ids@.len() - i,
    {
        list.push(ids[i]);
        assert(ids@.take(i + 1) =~= ids@.take(i as int).push(ids@[i as int]));
        i = i + 1;
    }
    assert(ids@.take(i as int) =~= ids@);
    list
}

/// Identities in hexadecimal digits, with a comma and a space between two.
pub open spec fn listed_ids(ids: Seq<ObjectID>) -> Seq<char>
    decreases ids.len(),
{
    if ids.len() == 0 {
        Seq::empty()
    } else if ids.len() == 1 {
        crate::text::hex_bytes(ids[0].0)
    } else {
        listed_ids(ids.drop_last()) + ", "@ + crate::text::hex_bytes(ids.last().0)
    }
}

fn listed_ids_text(ids: &[ObjectID]) -> (r: String)
    ensures
        r@ == listed_ids(ids@),
{
    let mut text = String::from_str("");
    let mut i: usize = 0;
    proof {
        reveal_strlit("");
        assert(text@ =~= listed_ids(ids@.take(0)));
    }
    while i < ids.len()
        invariant
            i <= ids@.len(),
            text@ == listed_ids(ids@.take(i as int)),
        decreases ids@.len() - i,
    {
        let ghost more = ids@.take(i + 1);
        assert(more.drop_last() =~= ids@.take(i as int));
        assert(more.last() == ids@[i as int]);
        if i > 0 {
            text.append(", ");
        }
        text.append(hex_bytes_text(&ids[i].0).as_str());
        assert(text@ =~= listed_ids(more));
        i = i + 1;
    }
    assert(ids@.take(i as int) =~= ids@);
    text
}

impl SystemPackage {
    /// The package in three lines: its identity, the number of its modules, and the packages that
    /// they refer to.
    pub open spec fn description_text(self) -> Seq<char> {
        "Object ID: "@ + crate::text::hex_bytes(self.id.0) + "\nSize: "@ + crate::text::decimal(
            self.bytes@.len(),
        ) + "\nDependencies: ["@ + listed_ids(self.dependencies@) + "]\n"@
    }

    /// The package in three lines: its identity, the number of its modules, and the packages that
    /// they refer to.
    pub fn description(&self) -> (r: String)
        ensures
            r@ == self.description_text(),
    {
        let mut text = String::from_str("Object ID: ");
        text.append(hex_bytes_text(&self.id.0).as_str());
        text.append("\nSize: ");
        text.append(decimal_text(self.bytes.len() as u64).as_str());
        text.append("\nDependencies: [");
        text.append(listed_ids_text(self.dependencies.as_slice()).as_str());
        text.append("]\n");
        text
    }

    /// The package with this identity, these dependencies, and the modules that `raw_bytes` encode.
    pub open spec fn is_built_from(
        self,
        id: ObjectID,
        raw_bytes: Seq<u8>,
        dependencies: Seq<ObjectID>,
    ) -> bool {
        &&& self.id == id
        &&& crate::codec::encodes(raw_bytes, crate::codec::strings_of(self.bytes@))
        &&& self.dependencies@ == dependencies
    }

    /// The package whose modules `raw_bytes` encode.
    pub fn new(id: ObjectID, raw_bytes: &[u8], dependencies: &[ObjectID]) -> (r: Self)
        requires
            crate::codec::decodes(raw_bytes@),
        ensures
            r.is_built_from(id, raw_bytes@, dependencies@),
    {
        SystemPackage::try_new(id, raw_bytes, dependencies).unwrap()
    }

    /// The package whose modules `raw_bytes` encode, if they encode any.
    pub fn try_new(id: ObjectID, raw_bytes: &[u8], dependencies: &[ObjectID]) -> (r: Result<
        Self,
        MalformedBytes,
    >)
        ensures
            match r {
                Ok(package) => package.is_built_from(id, raw_bytes@, dependencies@),
                Err(_) => !crate::codec::decodes(raw_bytes@),
            },
    {
        match decode_strings(raw_bytes) {
            Ok(bytes) => Ok(SystemPackage { id, bytes, dependencies: copied(dependencies) }),
            Err(e) => Err(e),
        }
    }

    /// The identity of the package.
    pub fn id(&self) -> (r: &ObjectID)
        ensures
            *r == self.id,
    {
        &self.id
    }

    /// The serialized modules.
    pub fn bytes(&self) -> (r: &[Vec<u8>])
        ensures
            r@ == self.bytes@,
    {
        self.bytes.as_slice()
    }

    /// The packages that the modules refer to.
    pub fn dependencies(&self) -> (r: &[ObjectID])
        ensures
            r@ == self.dependencies@,
    {
        self.dependencies.as_slice()
    }

    /// What `deserialize` makes of each module, in order.
    pub fn modules<M, F: Fn(&Vec<u8>) -> M>(&self, deserialize: F) -> (r: Vec<M>)
        requires
            forall|i: int|
                0 <= i < self.bytes@.len() ==> call_requires(
                    deserialize,
                    (&#[trigger] self.bytes@[i],),
                ),
        ensures
            r@.len() == self.bytes@.len(),
            forall|i: int|
                0 <= i < r@.len() ==> call_ensures(
                    deserialize,
                    (&self.bytes@[i],),
                    #[trigger] r@[i],
                ),
    {
        let mut modules: Vec<M> = Vec::new();
        let mut i: usize = 0;
        while i < self.bytes.len()
            invariant
                i <= self.bytes@.len(),
                modules@.len() == i,
                forall|j: int|
                    0 <= j < self.bytes@.len() ==> call_requires(
                        deserialize,
                        (&#[trigger] self.bytes@[j],),
                    ),
                forall|j: int|
                    0 <= j < i ==> call_ensures(
                        deserialize,
                        (&self.bytes@[j],),
                        #[trigger] modules@[j],
                    ),
            decreases self.bytes@.len() - i,
        {
            let module = deserialize(&self.bytes[i]);
            modules.push(module);
            i = i + 1;
        }
        modules
    }

    /// The package as a network starts with it, given its modules.
    pub fn genesis_move_package(&self, modules: &[CompiledModule]) -> (r: MovePackage)
        requires
            modules@.len() > 0,
        ensures
            r.is_system_package(modules@, SequenceNumber(START_VERSION), self.dependencies@),
    {
        MovePackage::new_system(
            SequenceNumber(START_VERSION),
            modules,
            copied(self.dependencies.as_slice()),
        )
    }

    /// The object of the package as a network starts with it, given its modules and the digest of
    /// the object.
    pub fn genesis_object(&self, modules: &[CompiledModule], digest: ObjectDigest) -> (r: Object)
        requires
            modules@.len() > 0,
        ensures
            r.is_system_package(
                modules@,
                SequenceNumber(START_VERSION),
                self.dependencies@,
                crate::base_types::genesis_digest(),
                digest,
            ),
    {
        Object::new_system_package(
            modules,
            SequenceNumber(START_VERSION),
            copied(self.dependencies.as_slice()),
            TransactionDigest::genesis_marker(),
            digest,
        )
    }
}

impl SystemPackage {
    /// These are what `deserialize` makes of each module, in order.
    pub open spec fn are_modules<F: Fn(&Vec<u8>) -> CompiledModule>(
        self,
        deserialize: F,
        modules: Seq<CompiledModule>,
    ) -> bool {
        &&& modules.len() == self.bytes@.len()
        &&& forall|i: int|
            0 <= i < modules.len() ==> call_ensures(
                deserialize,
                (&self.bytes@[i],),
                #[trigger] modules[i],
            )
    }

    /// The package has modules, and `deserialize` takes each.
    pub open spec fn can_deserialize<F: Fn(&Vec<u8>) -> CompiledModule>(
        self,
        deserialize: F,
    ) -> bool {
        &&& self.bytes@.len() > 0
        &&& forall|i: int|
            0 <= i < self.bytes@.len() ==> call_requires(
                deserialize,
                (&#[trigger] self.bytes@[i],),
            )
    }

    /// The package as a network starts with it, made of what `deserialize` makes of its bytes.
    pub open spec fn is_genesis_package<F: Fn(&Vec<u8>) -> CompiledModule>(
        self,
        deserialize: F,
        package: MovePackage,
    ) -> bool {
        exists|modules: Seq<CompiledModule>| #[trigger]
            self.are_modules(deserialize, modules) && package.is_system_package(
                modules,
                SequenceNumber(START_VERSION),
                self.dependencies@,
            )
    }

    /// The object of the package as a network starts with it, with the digest that `digest_of` gives
    /// for the package.
    pub open spec fn is_genesis_object<
        F: Fn(&Vec<u8>) -> CompiledModule,
        D: Fn(&MovePackage) -> ObjectDigest,
    >(self, deserialize: F, digest_of: D, object: Object) -> bool {
        &&& object.data matches Data::Package(package) && self.is_genesis_package(
            deserialize,
            package,
        ) && call_ensures(digest_of, (&package,), object.digest)
        &&& object.owner is Immutable
        &&& object.previous_transaction == crate::base_types::genesis_digest()
        &&& object.storage_rebate == 0
    }

    /// The package as a network starts with it, with its modules deserialized from its bytes.
    pub fn deserialized_genesis_move_package<F: Fn(&Vec<u8>) -> CompiledModule>(
        &self,
        deserialize: F,
    ) -> (r: MovePackage)
        requires
            self.can_deserialize(deserialize),
        ensures
            self.is_genesis_package(deserialize, r),
    {
        let modules = self.modules(deserialize);
        let package = self.genesis_move_package(modules.as_slice());
        assert(self.are_modules(deserialize, modules@));
        package
    }

    /// The object of the package as a network starts with it, with its modules deserialized from its
    /// bytes and its digest computed from the package.
    pub fn deserialized_genesis_object<
        F: Fn(&Vec<u8>) -> CompiledModule,
        D: Fn(&MovePackage) -> ObjectDigest,
    >(&self, deserialize: F, digest_of: D) -> (r: Object)
        requires
            self.can_deserialize(deserialize),
            forall|package: MovePackage|
                self.is_genesis_package(deserialize, package) ==> #[trigger] call_requires(
                    digest_of,
                    (&package,),
                ),
        ensures
            self.is_genesis_object(deserialize, digest_of, r),
    {
        let package = self.deserialized_genesis_move_package(deserialize);
        let digest = digest_of(&package);
        Object {
            data: Data::Package(package),
            owner: Owner::Immutable,
            previous_transaction: TransactionDigest::genesis_marker(),
            storage_rebate: 0,
            digest,
        }
    }
}

/// The identities of the packages that a network starts with.
#[derive(Clone, Copy, Debug, PartialEq, Eq)]
pub struct PackageIds {
    pub move_stdlib: ObjectID,
    pub mgo_framework: ObjectID,
    pub mgo_system: ObjectID,
    pub mgo_inscription: ObjectID,
}

/// The encoded modules of the packages that a network starts with.
#[derive(Debug)]
pub struct PackageImages {
    pub move_stdlib: Vec<u8>,
    pub mgo_framework: Vec<u8>,
    pub mgo_system: Vec<u8>,
    pub mgo_inscription: Vec<u8>,
}

impl PackageImages {
    /// Every image can be decoded.
    pub open spec fn decode(self) -> bool {
        &&& crate::codec::decodes(self.move_stdlib@)
        &&& crate::codec::decodes(self.mgo_framework@)
        &&& crate::codec::decodes(self.mgo_system@)
        &&& crate::codec::decodes(self.mgo_inscription@)
    }
}

/// The packages that a network starts with.
pub struct BuiltInFramework {
    packages: Vec<SystemPackage>,
}

impl BuiltInFramework {
    /// The packages, in the order in which they are set up.
    pub closed spec fn packages(&self) -> Seq<SystemPackage> {
        self.packages@
    }

    /// The packages that a network starts with, each with the packages that it depends on.
    pub fn load(ids: &PackageIds, images: &PackageImages) -> (r: Result<Self, MalformedBytes>)
        ensures
            match r {
                Ok(framework) => {
                    let packages = framework.packages();
                    &&& packages.len() == 4
                    &&& packages[0].is_built_from(
                        ids.move_stdlib,
                        images.move_stdlib@,
                        Seq::empty(),
                    )
                    &&& packages[1].is_built_from(
                        ids.mgo_framework,
                        images.mgo_framework@,
                        seq![ids.move_stdlib],
                    )
                    &&& packages[2].is_built_from(
                        ids.mgo_system,
                        images.mgo_system@,
                        seq![ids.move_stdlib, ids.mgo_framework],
                    )
                    &&& packages[3].is_built_from(
                        ids.mgo_inscription,
                        images.mgo_inscription@,
                        seq![ids.move_stdlib, ids.mgo_framework],
                    )
                    &&& dependencies_come_first(packages)
                },
                Err(_) => !images.decode(),
            },
    {
        let none: Vec<ObjectID> = Vec::new();
        let stdlib_only = vec![ids.move_stdlib];
        let both = vec![ids.move_stdlib, ids.mgo_framework];
        assert(stdlib_only@ =~= seq![ids.move_stdlib]);
        assert(both@ =~= seq![ids.move_stdlib, ids.mgo_framework]);
        let move_stdlib = match SystemPackage::try_new(
            ids.move_stdlib,
            images.move_stdlib.as_slice(),
            none.as_slice(),
        ) {
            Ok(package) => package,
            Err(e) => {
                return Err(e);
            },
        };
        let mgo_framework = match SystemPackage::try_new(
            ids.mgo_framework,
            images.mgo_framework.as_slice(),
            stdlib_only.as_slice(),
        ) {
            Ok(package) => package,
            Err(e) => {
                return Err(e);
            },
        };
        let mgo_system = match SystemPackage::try_new(
            ids.mgo_system,
            images.mgo_system.as_slice(),
            both.as_slice(),
        ) {
            Ok(package) => package,
            Err(e) => {
                return Err(e);
            },
        };
        let mgo_inscription = match SystemPackage::try_new(
            ids.mgo_inscription,
            images.mgo_inscription.as_slice(),
            both.as_slice(),
        ) {
            Ok(package) => package,
            Err(e) => {
                return Err(e);
            },
        };
        let packages = vec![move_stdlib, mgo_framework, mgo_system, mgo_inscription];
        proof {
            let all = packages@;
            assert forall|i: int, d: ObjectID|
                0 <= i < all.len() && #[trigger] all[i].dependencies@.contains(d) implies exists|
                j: int,
            | 0 <= j < i && #[trigger] all[j].id == d by {
                assert(all[0].id == ids.move_stdlib && all[1].id == ids.mgo_framework);
                assert(i >= 1);
            }
        }
        Ok(BuiltInFramework { packages })
    }

    /// The packages, in the order in which they are set up.
    pub fn iter_system_packages(&self) -> (r: &[SystemPackage])
        ensures
            r@ == self.packages(),
    {
        self.packages.as_slice()
    }

    /// The identities of the packages.
    pub fn all_package_ids(&self) -> (r: Vec<ObjectID>)
        ensures
            r@ == self.packages().map_values(|package: SystemPackage| package.id),
    {
        let mut ids: Vec<ObjectID> = Vec::new();
        let mut i: usize = 0;
        let ghost all = self.packages().map_values(|package: SystemPackage| package.id);
        while i < self.packages.len()
            invariant
                i <= self.packages@.len(),
                all == self.packages@.map_values(|package: SystemPackage| package.id),
                ids@ == all.take(i as int),
            decreases self.packages@.len() - i,
        {
            ids.push(self.packages[i].id);
            assert(all.take(i + 1) =~= all.take(i as int).push(all[i as int]));
            i = i + 1;
        }
        assert(all.take(i as int) =~= all);
        ids
    }

    /// The first package with this identity.
    pub fn get_package_by_id(&self, id: &ObjectID) -> (r: &SystemPackage)
        requires
            exists|i: int| 0 <= i < self.packages().len() && #[trigger] self.packages()[i].id == *id,
        ensures
            exists|i: int|
                #![trigger self.packages()[i]]
                {
                    &&& 0 <= i < self.packages().len()
                    &&& self.packages()[i] == *r
                    &&& r.id == *id
                    &&& forall|j: int|
                        0 <= j < i ==> (#[trigger] self.packages()[j]).id != *id
                },
    {
        let mut i: usize = 0;
        let count = self.packages.len();
        while self.packages[i].id != *id
            invariant
                i < count,
                count == self.packages@.len(),
                exists|k: int|
                    i <= k < self.packages@.len() && #[trigger] self.packages@[k].id == *id,
                forall|j: int| 0 <= j < i ==> (#[trigger] self.packages@[j]).id != *id,
            decreases self.packages@.len() - i,
        {
            i = i + 1;
        }
        assert(self.packages()[i as int].id == *id);
        &self.packages[i]
    }

    /// The packages as a network starts with them, given the modules of each.
    pub fn genesis_move_packages(&self, modules: &[Vec<CompiledModule>]) -> (r: Vec<MovePackage>)
        requires
            modules@.len() == self.packages().len(),
            forall|i: int| 0 <= i < modules@.len() ==> (#[trigger] modules@[i])@.len() > 0,
        ensures
            r@.len() == self.packages().len(),
            forall|i: int|
                0 <= i < r@.len() ==> (#[trigger] r@[i]).is_system_package(
                    modules@[i]@,
                    SequenceNumber(START_VERSION),
                    self.packages()[i].dependencies@,
                ),
    {
        let mut list: Vec<MovePackage> = Vec::new();
        let mut i: usize = 0;
        while i < self.packages.len()
            invariant
                i <= self.packages@.len(),
                modules@.len() == self.packages@.len(),
                forall|j: int| 0 <= j < modules@.len() ==> (#[trigger] modules@[j])@.len() > 0,
                list@.len() == i,
                forall|j: int|
                    0 <= j < i ==> (#[trigger] list@[j]).is_system_package(
                        modules@[j]@,
                        SequenceNumber(START_VERSION),
                        self.packages@[j].dependencies@,
                    ),
            decreases self.packages@.len() - i,
        {
            list.push(self.packages[i].genesis_move_package(modules[i].as_slice()));
            i = i + 1;
        }
        list
    }

    /// The objects of the packages as a network starts with them, given the modules of each and
    /// the digest of each object.
    pub fn genesis_objects(
        &self,
        modules: &[Vec<CompiledModule>],
        digests: &[ObjectDigest],
    ) -> (r: Vec<Object>)
        requires
            modules@.len() == self.packages().len(),
            digests@.len() == self.packages().len(),
            forall|i: int| 0 <= i < modules@.len() ==> (#[trigger] modules@[i])@.len() > 0,
        ensures
            r@.len() == self.packages().len(),
            forall|i: int|
                0 <= i < r@.len() ==> (#[trigger] r@[i]).is_system_package(
                    modules@[i]@,
                    SequenceNumber(START_VERSION),
                    self.packages()[i].dependencies@,
                    crate::base_types::genesis_digest(),
                    digests@[i],
                ),
    {
        let mut list: Vec<Object> = Vec::new();
        let mut i: usize = 0;
        while i < self.packages.len()
            invariant
                i <= self.packages@.len(),
                modules@.len() == self.packages@.len(),
                digests@.len() == self.packages@.len(),
                forall|j: int| 0 <= j < modules@.len() ==> (#[trigger] modules@[j])@.len() > 0,
                list@.len() == i,
                forall|j: int|
                    0 <= j < i ==> (#[trigger] list@[j]).is_system_package(
                        modules@[j]@,
                        SequenceNumber(START_VERSION),
                        self.packages@[j].dependencies@,
                        crate::base_types::genesis_digest(),
                        digests@[j],
                    ),
            decreases self.packages@.len() - i,
        {
            list.push(self.packages[i].genesis_object(modules[i].as_slice(), digests[i]));
            i = i + 1;
        }
        list
    }
}

impl BuiltInFramework {
    /// The packages as a network starts with them, with their modules deserialized from their bytes.
    pub fn deserialized_genesis_move_packages<F: Fn(&Vec<u8>) -> CompiledModule + Copy>(
        &self,
        deserialize: F,
    ) -> (r: Vec<MovePackage>)
        requires
            forall|i: int|
                0 <= i < self.packages().len() ==> (#[trigger] self.packages()[i]).can_deserialize(
                    deserialize,
                ),
        ensures
            r@.len() == self.packages().len(),
            forall|i: int|
                0 <= i < r@.len() ==> self.packages()[i].is_genesis_package(
                    deserialize,
                    #[trigger] r@[i],
                ),
    {
        let mut list: Vec<MovePackage> = Vec::new();
        let mut i: usize = 0;
        while i < self.packages.len()
            invariant
                i <= self.packages@.len(),
                forall|j: int|
                    0 <= j < self.packages().len() ==> (
                    #[trigger] self.packages()[j]).can_deserialize(deserialize),
                list@.len() == i,
                forall|j: int|
                    0 <= j < i ==> self.packages@[j].is_genesis_package(
                        deserialize,
                        #[trigger] list@[j],
                    ),
            decreases self.packages@.len() - i,
        {
            assert(self.packages()[i as int].can_deserialize(deserialize));
            let package = self.packages[i].deserialized_genesis_move_package(deserialize);
            list.push(package);
            i = i + 1;
        }
        list
    }

    /// The objects of the packages as a network starts with them, with their modules deserialized
    /// from their bytes and their digests computed from the packages.
    pub fn deserialized_genesis_objects<
        F: Fn(&Vec<u8>) -> CompiledModule + Copy,
        D: Fn(&MovePackage) -> ObjectDigest + Copy,
    >(&self, deserialize: F, digest_of: D) -> (r: Vec<Object>)
        requires
            forall|i: int|
                0 <= i < self.packages().len() ==> (#[trigger] self.packages()[i]).can_deserialize(
                    deserialize,
                ),
            forall|package: MovePackage| #[trigger] call_requires(digest_of, (&package,)),
        ensures
            r@.len() == self.packages().len(),
            forall|i: int|
                0 <= i < r@.len() ==> self.packages()[i].is_genesis_object(
                    deserialize,
                    digest_of,
                    #[trigger] r@[i],
                ),
    {
        let mut list: Vec<Object> = Vec::new();
        let mut i: usize = 0;
        while i < self.packages.len()
            invariant
                i <= self.packages@.len(),
                forall|j: int|
                    0 <= j < self.packages().len() ==> (
                    #[trigger] self.packages()[j]).can_deserialize(deserialize),
                forall|package: MovePackage| #[trigger] call_requires(digest_of, (&package,)),
                list@.len() == i,
                forall|j: int|
                    0 <= j < i ==> self.packages@[j].is_genesis_object(
                        deserialize,
                        digest_of,
                        #[trigger] list@[j],
                    ),
            decreases self.packages@.len() - i,
        {
            assert(self.packages()[i as int].can_deserialize(deserialize));
            let object = self.packages[i].deserialized_genesis_object(deserialize, digest_of);
            list.push(object);
            i = i + 1;
        }
        list
    }
}

/// A package depends only on packages that come before it.
pub open spec fn dependencies_come_first(packages: Seq<SystemPackage>) -> bool {
    forall|i: int, d: ObjectID|
        0 <= i < packages.len() && #[trigger] packages[i].dependencies@.contains(d) ==> exists|
            j: int,
        |
            0 <= j < i && #[trigger] packages[j].id == d
}

/// An amount of gas, as the virtual machine counts it.
#[derive(Clone, Copy, Debug, PartialEq, Eq)]
pub struct InternalGas {
    pub units: u64,
}

/// Calls `move_core_types::gas_schedule::InternalGasUnits::new`, then `get` of the same. Claimed of
/// them: the amount that comes back is the one that went in.
#[verifier::external_body]
fn internal_gas(units: u64) -> (r: InternalGas)
    ensures
        r.units == units,
{
    InternalGas { units: InternalGasUnits::new(units).get() }
}

/// What functions that tests alone call cost: nothing.
pub fn legacy_test_cost() -> (r: InternalGas)
    ensures
        r.units == 0,
{
    internal_gas(0)
}

} // verus!

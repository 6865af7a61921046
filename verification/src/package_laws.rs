//! What a package of the system is made of.

use crate::base_types::{ObjectDigest, ObjectID, Owner, SequenceNumber, TransactionDigest};
use crate::framework::{CompiledModule, PackageImages, SystemPackage};
use crate::object::{Data, MovePackage, Object};
use vstd::prelude::*;

verus! {

/// A package holds the bytes of each of its modules, in their order, and its dependencies, in theirs;
/// it goes by the address of its first module and by the version that it is built with.
pub proof fn packages_hold_their_modules(
    package: MovePackage,
    modules: Seq<CompiledModule>,
    version: SequenceNumber,
    dependencies: Seq<ObjectID>,
)
    requires
        modules.len() > 0,
    ensures
        package.is_system_package(modules, version, dependencies) <==> {
            &&& package.id == modules.first().address
            &&& package.version == version
            &&& package.modules@.len() == modules.len()
            &&& forall|i: int|
                0 <= i < modules.len() ==> #[trigger] package.modules@[i] == modules[i].bytes
            &&& package.dependencies@.len() == dependencies.len()
            &&& forall|i: int|
                0 <= i < dependencies.len() ==> #[trigger] package.dependencies@[i]
                    == dependencies[i]
        },
{
    let all = modules.map_values(|module: CompiledModule| module.bytes);
    if package.is_system_package(modules, version, dependencies) {
        assert forall|i: int| 0 <= i < modules.len() implies #[trigger] package.modules@[i]
            == modules[i].bytes by {
            assert(all[i] == modules[i].bytes);
        }
    }
    if package.modules@.len() == modules.len() && (forall|i: int|
        0 <= i < modules.len() ==> #[trigger] package.modules@[i] == modules[i].bytes) {
        assert(package.modules@ =~= all);
    }
    if package.dependencies@.len() == dependencies.len() && (forall|i: int|
        0 <= i < dependencies.len() ==> #[trigger] package.dependencies@[i] == dependencies[i]) {
        assert(package.dependencies@ =~= dependencies);
    }
}

/// The object of a package holds the package, belongs to nobody, costs nothing, and names the
/// transaction and the digest that it is built with.
pub proof fn package_objects_belong_to_nobody(
    object: Object,
    package: MovePackage,
    modules: Seq<CompiledModule>,
    version: SequenceNumber,
    dependencies: Seq<ObjectID>,
    previous_transaction: TransactionDigest,
    digest: ObjectDigest,
)
    ensures
        object.is_system_package(modules, version, dependencies, previous_transaction, digest)
            && object.data == Data::Package(package) <==> object == (Object {
            data: Data::Package(package),
            owner: Owner::Immutable,
            previous_transaction,
            storage_rebate: 0,
            digest,
        }) && package.is_system_package(modules, version, dependencies),
        object.data is Move ==> !object.is_system_package(
            modules,
            version,
            dependencies,
            previous_transaction,
            digest,
        ),
{
}

/// A package that is built with the node has the identity and the dependencies that it is given, and
/// its bytes are what the image encodes, module by module.
pub proof fn built_packages_hold_what_their_image_encodes(
    package: SystemPackage,
    id: ObjectID,
    raw: Seq<u8>,
    dependencies: Seq<ObjectID>,
    strings: Seq<Seq<u8>>,
)
    ensures
        package.is_built_from(id, raw, dependencies) ==> {
            &&& package.id == id
            &&& package.dependencies@ == dependencies
            &&& crate::codec::decodes(raw)
        },
        package.is_built_from(id, raw, dependencies) && crate::codec::encodes(raw, strings) ==> {
            &&& package.bytes@.len() == strings.len()
            &&& forall|i: int|
                0 <= i < strings.len() ==> (#[trigger] package.bytes@[i])@ == strings[i]
        },
        package.id == id && package.dependencies@ == dependencies && crate::codec::encodes(
            raw,
            crate::codec::strings_of(package.bytes@),
        ) ==> package.is_built_from(id, raw, dependencies),
{
    let own = crate::codec::strings_of(package.bytes@);
    if package.is_built_from(id, raw, dependencies) && crate::codec::encodes(raw, strings) {
        crate::codec::encoding_is_unambiguous(raw, own, strings);
        assert forall|i: int| 0 <= i < strings.len() implies (#[trigger] package.bytes@[i])@
            == strings[i] by {
            assert(own[i] == package.bytes@[i]@);
        }
    }
}

/// The modules of a package are what its bytes deserialize to, one by one and in their order; it can
/// be deserialized if it has modules at all and each is taken.
pub proof fn modules_are_deserialized_one_by_one<F: Fn(&Vec<u8>) -> CompiledModule>(
    package: SystemPackage,
    deserialize: F,
    modules: Seq<CompiledModule>,
)
    ensures
        package.are_modules(deserialize, modules) <==> package.bytes@.len() == modules.len() && (
        forall|i: int|
            0 <= i < package.bytes@.len() ==> call_ensures(
                deserialize,
                (&package.bytes@[i],),
                #[trigger] modules[i],
            )),
        package.can_deserialize(deserialize) <==> package.bytes@.len() != 0 && (forall|i: int|
            0 <= i < package.bytes@.len() ==> call_requires(
                deserialize,
                (&#[trigger] package.bytes@[i],),
            )),
{
}

/// A network starts with a package at the first version, made of what its bytes deserialize to and of
/// its dependencies; its object belongs to nobody, costs nothing, names the transaction of all zeros,
/// and has the digest that is computed for the package.
pub proof fn networks_start_with_the_first_version<
    F: Fn(&Vec<u8>) -> CompiledModule,
    D: Fn(&MovePackage) -> ObjectDigest,
>(package: SystemPackage, deserialize: F, digest_of: D, object: Object, made: MovePackage)
    ensures
        package.is_genesis_package(deserialize, made) <==> exists|modules: Seq<CompiledModule>|
            #[trigger] package.are_modules(deserialize, modules) && made.is_system_package(
                modules,
                SequenceNumber(1),
                package.dependencies@,
            ),
        object.data == Data::Package(made) ==> (package.is_genesis_object(
            deserialize,
            digest_of,
            object,
        ) <==> {
            &&& package.is_genesis_package(deserialize, made)
            &&& call_ensures(digest_of, (&made,), object.digest)
            &&& object.owner == Owner::Immutable
            &&& object.storage_rebate == 0
            &&& object.previous_transaction.0.hi == 0
            &&& object.previous_transaction.0.lo == 0
        }),
        object.data is Move ==> !package.is_genesis_object(deserialize, digest_of, object),
{
    if object.previous_transaction.0.hi == 0 && object.previous_transaction.0.lo == 0 {
        assert(object.previous_transaction.0 == crate::base_types::genesis_digest().0);
        assert(object.previous_transaction == crate::base_types::genesis_digest());
    }
}

/// All packages can be loaded just if each of the four images encodes some list.
pub proof fn all_images_count(images: PackageImages)
    ensures
        images.decode() <==> {
            &&& exists|strings: Seq<Seq<u8>>| #[trigger]
                crate::codec::encodes(images.move_stdlib@, strings)
            &&& exists|strings: Seq<Seq<u8>>| #[trigger]
                crate::codec::encodes(images.mgo_framework@, strings)
            &&& exists|strings: Seq<Seq<u8>>| #[trigger]
                crate::codec::encodes(images.mgo_system@, strings)
            &&& exists|strings: Seq<Seq<u8>>| #[trigger]
                crate::codec::encodes(images.mgo_inscription@, strings)
        },
{
}

/// Where dependencies come first, every dependency of a package is the identity of an earlier one.
pub proof fn dependencies_are_earlier_packages(packages: Seq<SystemPackage>, i: int, d: int)
    requires
        crate::framework::dependencies_come_first(packages),
        0 <= i < packages.len(),
        0 <= d < packages[i].dependencies@.len(),
    ensures
        exists|j: int| 0 <= j < i && (#[trigger] packages[j]).id == packages[i].dependencies@[d],
{
    assert(packages[i].dependencies@.contains(packages[i].dependencies@[d]));
}

} // verus!

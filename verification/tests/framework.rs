//! The packages that a network starts with, and replacing them.

use perpetual_tables::base_types::{
    Blob, Bytes32, ObjectDigest, ObjectID, Owner, SequenceNumber, TransactionDigest,
};
use perpetual_tables::codec::{decode_strings, MalformedBytes};
use perpetual_tables::compatibility::{
    compare_system_package, comparison_basis, module_counterparts, module_findings,
    upgrade_is_allowed, AbilitySet,
    Basis, Compatibility, ModuleFindings, NewPackage, NotNormalized,
};
use perpetual_tables::error::{MgoError, StorageError};
use perpetual_tables::framework::{
    legacy_test_cost, BuiltInFramework, CompiledModule, PackageIds, PackageImages, SystemPackage,
};
use perpetual_tables::object::{Data, MovePackage, Object};
use std::sync::Arc;

fn id(n: u128) -> ObjectID {
    ObjectID(Bytes32 { hi: 0, lo: n })
}

fn digest(n: u128) -> ObjectDigest {
    ObjectDigest(Bytes32 { hi: 9, lo: n })
}

fn module(address: u128, bytes: Vec<u8>) -> CompiledModule {
    CompiledModule { address: id(address), bytes: Blob::new(bytes) }
}

fn ids() -> PackageIds {
    PackageIds { move_stdlib: id(1), mgo_framework: id(2), mgo_system: id(3), mgo_inscription: id(4) }
}

fn images() -> PackageImages {
    PackageImages {
        move_stdlib: vec![1, 1, 10],
        mgo_framework: vec![2, 1, 20, 2, 21, 22],
        mgo_system: vec![0],
        mgo_inscription: vec![1, 0],
    }
}

#[test]
fn lists_of_byte_strings_are_decoded() {
    assert_eq!(decode_strings(&[0]), Ok(vec![]));
    assert_eq!(decode_strings(&[2, 3, 7, 8, 9, 0]), Ok(vec![vec![7, 8, 9], vec![]]));
    let mut long = vec![1, 0x80, 0x01];
    long.extend(vec![5u8; 128]);
    assert_eq!(decode_strings(&long), Ok(vec![vec![5u8; 128]]));
}

#[test]
fn malformed_lists_are_refused() {
    // Nothing at all, an element short, a byte too many, a length that is not minimal, and one that
    // is above the limit.
    assert_eq!(decode_strings(&[]), Err(MalformedBytes));
    assert_eq!(decode_strings(&[1, 2, 7]), Err(MalformedBytes));
    assert_eq!(decode_strings(&[0, 0]), Err(MalformedBytes));
    assert_eq!(decode_strings(&[0x80, 0x00]), Err(MalformedBytes));
    assert_eq!(decode_strings(&[0x80, 0x80, 0x80, 0x80, 0x08]), Err(MalformedBytes));
}

#[test]
fn a_package_is_built_from_its_image() {
    let package = SystemPackage::new(id(2), &[2, 1, 20, 2, 21, 22], &[id(1)]);
    assert_eq!(*package.id(), id(2));
    assert_eq!(package.bytes(), &[vec![20], vec![21, 22]]);
    assert_eq!(package.dependencies(), &[id(1)]);
    assert_eq!(package.modules(|bytes| bytes.len()), vec![1, 2]);
    assert!(SystemPackage::try_new(id(2), &[9], &[]).is_err());
}

#[test]
fn a_package_describes_itself() {
    let package = SystemPackage::new(id(2), &[2, 1, 20, 2, 21, 22], &[id(1), id(0xabc)]);
    let zeros = "0".repeat(60);
    assert_eq!(
        package.description(),
        format!(
            "Object ID: 0x{}0002\nSize: 2\nDependencies: [0x{}0001, 0x{}0abc]\n",
            zeros, zeros, zeros
        )
    );
    let alone = SystemPackage::new(ObjectID(Bytes32 { hi: u128::MAX, lo: 0 }), &[0], &[]);
    assert_eq!(
        alone.description(),
        format!(
            "Object ID: 0x{}{}\nSize: 0\nDependencies: []\n",
            "f".repeat(32),
            "0".repeat(32)
        )
    );
}

#[test]
fn genesis_package_and_object() {
    let package = SystemPackage::new(id(2), &[0], &[id(1)]);
    let modules = vec![module(2, vec![20]), module(2, vec![21, 22])];
    let expected = MovePackage {
        id: id(2),
        version: SequenceNumber(1),
        modules: Arc::new(vec![Blob::new(vec![20]), Blob::new(vec![21, 22])]),
        dependencies: Arc::new(vec![id(1)]),
    };
    assert_eq!(package.genesis_move_package(&modules), expected);
    assert_eq!(
        package.genesis_object(&modules, digest(5)),
        Object {
            data: Data::Package(expected),
            owner: Owner::Immutable,
            previous_transaction: TransactionDigest(Bytes32 { hi: 0, lo: 0 }),
            storage_rebate: 0,
            digest: digest(5),
        }
    );
}

#[test]
fn the_framework_has_four_packages() {
    let framework = BuiltInFramework::load(&ids(), &images()).unwrap_or_else(|_| panic!());
    assert_eq!(framework.all_package_ids(), vec![id(1), id(2), id(3), id(4)]);
    let packages = framework.iter_system_packages();
    assert_eq!(packages.len(), 4);
    assert_eq!(packages[0].dependencies, vec![]);
    assert_eq!(packages[1].dependencies, vec![id(1)]);
    assert_eq!(packages[2].dependencies, vec![id(1), id(2)]);
    assert_eq!(packages[3].dependencies, vec![id(1), id(2)]);
    assert_eq!(packages[1].bytes, vec![vec![20], vec![21, 22]]);
    assert_eq!(framework.get_package_by_id(&id(4)).bytes, vec![Vec::<u8>::new()]);
    let modules: Vec<Vec<CompiledModule>> = (1..5).map(|n| vec![module(n, vec![n as u8])]).collect();
    let digests: Vec<ObjectDigest> = (1..5).map(digest).collect();
    let genesis = framework.genesis_move_packages(&modules);
    assert_eq!(genesis.len(), 4);
    assert_eq!(genesis[2].id, id(3));
    assert_eq!(*genesis[2].dependencies, vec![id(1), id(2)]);
    let objects = framework.genesis_objects(&modules, &digests);
    assert_eq!(objects.len(), 4);
    for (i, object) in objects.iter().enumerate() {
        assert_eq!(object.digest, digests[i]);
        assert_eq!(object.id(), id(i as u128 + 1));
        assert_eq!(object.version(), SequenceNumber(1));
    }
}

#[test]
fn the_framework_needs_every_image() {
    let mut broken = images();
    broken.mgo_inscription = vec![1];
    assert_eq!(BuiltInFramework::load(&ids(), &broken).err(), Some(MalformedBytes));
    let mut empty = images();
    empty.move_stdlib = vec![];
    assert_eq!(BuiltInFramework::load(&ids(), &empty).err(), Some(MalformedBytes));
}

#[test]
fn test_functions_cost_nothing() {
    assert_eq!(legacy_test_cost().units, 0);
}

fn package_object(version: u64, with: u128) -> Object {
    Object {
        data: Data::Package(MovePackage {
            id: id(2),
            version: SequenceNumber(version),
            modules: Arc::new(vec![]),
            dependencies: Arc::new(vec![]),
        }),
        owner: Owner::Immutable,
        previous_transaction: TransactionDigest(Bytes32 { hi: 3, lo: 3 }),
        storage_rebate: 0,
        digest: digest(with),
    }
}

fn names(list: &[&str]) -> Vec<String> {
    list.iter().map(|name| name.to_string()).collect()
}

fn findings(current: &[&str], new: &[&str], compatible: &[bool]) -> ModuleFindings {
    ModuleFindings {
        current: Ok(names(current)),
        new: Ok(names(new)),
        compatible: compatible.to_vec(),
    }
}

fn new_package() -> NewPackage {
    NewPackage { id: id(2), digest: digest(1), upgraded_digest: digest(2) }
}

fn load_error() -> StorageError {
    StorageError::custom(MgoError::GenericAuthorityError { error: "lost".to_string() })
}

#[test]
fn the_basis_of_a_comparison() {
    assert_eq!(
        comparison_basis(&Ok(Some(package_object(6, 1)))),
        Some(Basis {
            version: SequenceNumber(6),
            previous_transaction: TransactionDigest(Bytes32 { hi: 3, lo: 3 }),
        })
    );
    assert_eq!(
        comparison_basis(&Ok(None)),
        Some(Basis {
            version: SequenceNumber(1),
            previous_transaction: TransactionDigest::genesis_marker(),
        })
    );
    assert_eq!(comparison_basis(&Err(load_error())), None);
}

#[test]
fn a_package_that_cannot_be_loaded_is_not_replaced() {
    let all_well = findings(&[], &[], &[]);
    assert_eq!(compare_system_package(&Err(load_error()), &new_package(), &all_well), None);
}

#[test]
fn a_fresh_package_starts_at_the_first_version() {
    let nothing = findings(&["a"], &[], &[]);
    assert_eq!(
        compare_system_package(&Ok(None), &new_package(), &nothing),
        Some((id(2), SequenceNumber(1), digest(1)))
    );
}

#[test]
fn an_unchanged_package_keeps_its_reference() {
    let nothing = findings(&["a"], &[], &[]);
    assert_eq!(
        compare_system_package(&Ok(Some(package_object(6, 1))), &new_package(), &nothing),
        Some((id(2), SequenceNumber(6), digest(1)))
    );
}

#[test]
fn a_compatible_package_moves_one_version_up() {
    let well = findings(&["a", "b"], &["c", "b", "a"], &[true, true]);
    assert!(upgrade_is_allowed(&well));
    assert_eq!(
        compare_system_package(&Ok(Some(package_object(6, 8))), &new_package(), &well),
        Some((id(2), SequenceNumber(7), digest(2)))
    );
}

#[test]
fn an_incompatible_package_is_refused() {
    let current = Ok(Some(package_object(6, 8)));
    let refused = [
        findings(&["a", "b"], &["a"], &[true, true]),
        findings(&["a", "b"], &["a", "b"], &[true, false]),
        findings(&["a", "b"], &["a", "b"], &[true]),
        ModuleFindings { current: Err(NotNormalized), new: Ok(vec![]), compatible: vec![] },
        ModuleFindings { current: Ok(vec![]), new: Err(NotNormalized), compatible: vec![] },
    ];
    for case in refused {
        assert!(!upgrade_is_allowed(&case));
        assert_eq!(compare_system_package(&current, &new_package(), &case), None);
    }
}

#[test]
fn modules_are_paired_by_name() {
    assert_eq!(
        module_counterparts(&names(&["a", "b"]), &names(&["c", "b", "a"])),
        Some(vec![2, 1])
    );
    assert_eq!(module_counterparts(&names(&["a"]), &names(&["b"])), None);
    assert_eq!(module_counterparts(&[], &names(&["b"])), Some(vec![]));
}

#[test]
fn the_checks_for_system_packages() {
    assert_eq!(
        Compatibility::for_system_packages(),
        Compatibility {
            check_struct_and_pub_function_linking: true,
            check_struct_layout: true,
            check_friend_linking: false,
            check_private_entry_linking: true,
            disallowed_new_abilities: AbilitySet {
                copy: false,
                drop: false,
                store: false,
                key: true,
            },
            disallow_change_struct_type_params: true,
        }
    );
}

#[test]
fn modules_may_be_added_but_not_taken_out() {
    let current = Ok(Some(package_object(6, 8)));
    let growing = findings(&["a", "b"], &["a", "b", "c"], &[true, true]);
    assert_eq!(
        compare_system_package(&current, &new_package(), &growing),
        Some((id(2), SequenceNumber(7), digest(2)))
    );
    let shrinking = findings(&["a", "b", "c"], &["a", "b"], &[true, true, true]);
    assert_eq!(compare_system_package(&current, &new_package(), &shrinking), None);
}

#[test]
fn a_new_package_is_named_by_its_first_module() {
    let modules = vec![module(2, vec![1]), module(5, vec![2])];
    assert_eq!(NewPackage::from_modules(&modules, digest(1), digest(2)), new_package());
    let basis = Basis {
        version: SequenceNumber(6),
        previous_transaction: TransactionDigest(Bytes32 { hi: 3, lo: 3 }),
    };
    assert_eq!(basis.next(), Basis { version: SequenceNumber(7), ..basis });
}

#[test]
fn modules_of_the_same_name_are_checked() {
    let check = |i: usize, j: usize| (i, j) != (1, 0);
    let found = module_findings(Ok(names(&["a", "b"])), Ok(names(&["b", "c", "a"])), check);
    assert_eq!(found.compatible, vec![true, false]);
    assert_eq!(found.current, Ok(names(&["a", "b"])));
    assert_eq!(found.new, Ok(names(&["b", "c", "a"])));
    assert!(!upgrade_is_allowed(&found));
    let all = module_findings(Ok(names(&["a"])), Ok(names(&["b", "a"])), |i, j| i == 0 && j == 1);
    assert_eq!(all.compatible, vec![true]);
    assert!(upgrade_is_allowed(&all));
    let missing = module_findings(Ok(names(&["a", "b"])), Ok(names(&["a"])), |_, _| true);
    assert_eq!(missing.compatible, vec![]);
    let unknown = module_findings(Err(NotNormalized), Ok(names(&["a"])), |_, _| true);
    assert_eq!(unknown.compatible, vec![]);
    assert_eq!(unknown.current, Err(NotNormalized));
}

#[test]
fn genesis_packages_come_from_the_bytes_of_the_packages() {
    let mut all = images();
    all.mgo_system = vec![1, 1, 30];
    let framework = BuiltInFramework::load(&ids(), &all).unwrap_or_else(|_| panic!());
    let deserialize = |bytes: &Vec<u8>| module(70 + bytes.len() as u128, bytes.clone());
    let digest_of = |package: &MovePackage| digest(package.modules.len() as u128);
    let packages = framework.deserialized_genesis_move_packages(deserialize);
    assert_eq!(packages.len(), 4);
    assert_eq!(*packages[1].modules, vec![Blob::new(vec![20]), Blob::new(vec![21, 22])]);
    assert_eq!(packages[1].id, id(71));
    assert_eq!(packages[3].id, id(70));
    assert_eq!(*packages[3].dependencies, vec![id(1), id(2)]);
    let objects = framework.deserialized_genesis_objects(deserialize, digest_of);
    assert_eq!(objects.len(), 4);
    for (object, package) in objects.iter().zip(&packages) {
        assert_eq!(object.data, Data::Package(package.clone()));
        assert_eq!(object.owner, Owner::Immutable);
        assert_eq!(object.previous_transaction, TransactionDigest::genesis_marker());
        assert_eq!(object.version(), SequenceNumber(1));
    }
    assert_eq!(objects[1].digest, digest(2));
    assert_eq!(objects[0].digest, digest(1));
}

#[test]
fn a_package_can_be_copied() {
    let package = SystemPackage::new(id(2), &[2, 1, 20, 2, 21, 22], &[id(1)]);
    assert!(package.clone() == package);
}

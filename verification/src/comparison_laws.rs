//! When a package of the system may be replaced, told from module names and checks.

use crate::base_types::{ObjectDigest, Owner, SequenceNumber, TransactionDigest};
use crate::compatibility::{Basis, ModuleFindings, NewPackage, NotNormalized};
use crate::error::StorageError;
use crate::object::{Data, MovePackage, Object};
use vstd::prelude::*;

verus! {

/// Some name of a list is spelled like this one.
pub open spec fn is_spelled_in(name: Seq<char>, names: Seq<String>) -> bool {
    exists|j: int| 0 <= j < names.len() && (#[trigger] names[j])@ == name
}

/// Every name of one list is spelled like some name of another.
pub open spec fn all_spelled_in(names: Seq<String>, others: Seq<String>) -> bool {
    forall|i: int| 0 <= i < names.len() ==> is_spelled_in((#[trigger] names[i])@, others)
}

/// Each of the first `count` checks was made, and none of them failed.
pub open spec fn none_failed(checks: Seq<bool>, count: nat) -> bool {
    forall|i: int| 0 <= i < count ==> i < checks.len() && #[trigger] checks[i] == true
}

/// A list has a name just if one of its names is spelled like it, wherever it stands.
proof fn lemma_has_name(names: Seq<String>, name: String)
    ensures
        crate::compatibility::has_name(names, name) <==> is_spelled_in(name@, names),
{
    if crate::compatibility::has_name(names, name) {
        let i = choose|i: int| crate::compatibility::is_named(names, i, name);
        assert(names[i]@ == name@);
    }
    if is_spelled_in(name@, names) {
        let j = choose|j: int| 0 <= j < names.len() && (#[trigger] names[j])@ == name@;
        assert(crate::compatibility::is_named(names, j, name));
    }
}

/// Modules are kept just if every name is spelled in the other list: it does not matter in which
/// order, how often, or what else is in it.
pub proof fn modules_are_kept_by_name(current: Seq<String>, new: Seq<String>)
    ensures
        crate::compatibility::all_kept(current, new) <==> all_spelled_in(current, new),
{
    assert forall|i: int| 0 <= i < current.len() implies (crate::compatibility::has_name(
        new,
        #[trigger] current[i],
    ) <==> is_spelled_in(current[i]@, new)) by {
        lemma_has_name(new, current[i]);
    }
    if crate::compatibility::all_kept(current, new) {
        assert forall|i: int| 0 <= i < current.len() implies is_spelled_in(
            (#[trigger] current[i])@,
            new,
        ) by {
            assert(crate::compatibility::has_name(new, current[i]));
        }
    }
    if all_spelled_in(current, new) {
        assert forall|i: int| 0 <= i < current.len() implies crate::compatibility::has_name(
            new,
            #[trigger] current[i],
        ) by {
            assert(is_spelled_in(current[i]@, new));
        }
    }
}

/// Modules may be replaced just if both packages could be normalized, every module name of the current
/// one is spelled in the new one, and the check of every current module was made and passed. Nothing
/// more is asked.
pub proof fn replacing_asks_for_names_and_checks(findings: ModuleFindings)
    ensures
        findings.current is Err || findings.new is Err ==> !findings.allow_upgrade(),
        findings.current matches Ok(current) ==> {
            findings.new matches Ok(new) ==> (findings.allow_upgrade() <==> all_spelled_in(
                current@,
                new@,
            ) && none_failed(findings.compatible@, current@.len()))
        },
{
    if let Ok(current) = findings.current {
        if let Ok(new) = findings.new {
            modules_are_kept_by_name(current@, new@);
            if none_failed(findings.compatible@, current@.len()) {
                if current@.len() > findings.compatible@.len() {
                    let i: int = current@.len() - 1;
                    assert(findings.compatible@[i] == true);
                }
                assert forall|i: int| 0 <= i < current@.len() implies
                    #[trigger] findings.compatible@[i] by {
                    assert(findings.compatible@[i] == true);
                }
            }
        }
    }
}

/// A loaded package that differs from the new one is replaced at its next version, under the new
/// digest, whenever both normalize, every current module name is spelled in the new package and every
/// check passed: whether modules were added or not.
pub proof fn a_compatible_package_is_taken(
    current: Result<Option<Object>, StorageError>,
    object: Object,
    package: MovePackage,
    new: NewPackage,
    findings: ModuleFindings,
    current_names: Vec<String>,
    new_names: Vec<String>,
)
    requires
        current == Ok::<Option<Object>, StorageError>(Some(object)),
        object.data == Data::Package(package),
        package.id != new.id || object.digest != new.digest,
        package.version.0 < u64::MAX,
        findings.current == Ok::<Vec<String>, NotNormalized>(current_names),
        findings.new == Ok::<Vec<String>, NotNormalized>(new_names),
        forall|i: int|
            0 <= i < current_names@.len() ==> exists|j: int|
                0 <= j < new_names@.len() && (#[trigger] new_names@[j])@ == (
                #[trigger] current_names@[i])@,
        current_names@.len() <= findings.compatible@.len(),
        forall|i: int| 0 <= i < current_names@.len() ==> #[trigger] findings.compatible@[i],
    ensures
        crate::compatibility::comparison(current, new, findings) == Some(
            (new.id, SequenceNumber((package.version.0 + 1) as u64), new.upgraded_digest),
        ),
        crate::compatibility::comparison(current, new, findings) matches Some(reference)
            && reference.1.0 == package.version.0 + 1,
{
    assert forall|i: int| 0 <= i < current_names@.len() implies is_spelled_in(
        (#[trigger] current_names@[i])@,
        new_names@,
    ) by {}
    replacing_asks_for_names_and_checks(findings);
}

/// In particular, a package with the same module names, in whatever order, is taken when all checks
/// passed.
pub proof fn a_package_with_the_same_module_names_is_taken(
    object: Object,
    package: MovePackage,
    new: NewPackage,
    findings: ModuleFindings,
    current_names: Vec<String>,
    new_names: Vec<String>,
    places: spec_fn(int) -> int,
)
    requires
        object.data == Data::Package(package),
        package.id != new.id || object.digest != new.digest,
        package.version.0 < u64::MAX,
        findings.current == Ok::<Vec<String>, NotNormalized>(current_names),
        findings.new == Ok::<Vec<String>, NotNormalized>(new_names),
        current_names@.len() == new_names@.len(),
        forall|i: int|
            0 <= i < current_names@.len() ==> 0 <= #[trigger] places(i) < new_names@.len()
                && new_names@[places(i)]@ == current_names@[i]@,
        current_names@.len() <= findings.compatible@.len(),
        forall|i: int| 0 <= i < current_names@.len() ==> #[trigger] findings.compatible@[i],
    ensures
        crate::compatibility::comparison(Ok(Some(object)), new, findings) == Some(
            (new.id, SequenceNumber((package.version.0 + 1) as u64), new.upgraded_digest),
        ),
{
    assert forall|i: int| 0 <= i < current_names@.len() implies exists|j: int|
        0 <= j < new_names@.len() && (#[trigger] new_names@[j])@ == (
        #[trigger] current_names@[i])@ by {
        assert(new_names@[places(i)]@ == current_names@[i]@);
    }
    a_compatible_package_is_taken(
        Ok(Some(object)),
        object,
        package,
        new,
        findings,
        current_names,
        new_names,
    );
}

/// A loaded package that differs from the new one is not replaced if either does not normalize, if a
/// current module name is not spelled in the new package, or if a check failed or was not made.
pub proof fn an_incompatible_package_is_refused(
    object: Object,
    package: MovePackage,
    new: NewPackage,
    findings: ModuleFindings,
    current_names: Vec<String>,
    new_names: Vec<String>,
    i: int,
)
    requires
        object.data == Data::Package(package),
        package.id != new.id || object.digest != new.digest,
        ({
            ||| findings.current is Err
            ||| findings.new is Err
            ||| {
                &&& findings.current == Ok::<Vec<String>, NotNormalized>(current_names)
                &&& findings.new == Ok::<Vec<String>, NotNormalized>(new_names)
                &&& 0 <= i < current_names@.len()
                &&& {
                    ||| forall|j: int|
                        0 <= j < new_names@.len() ==> (#[trigger] new_names@[j])@
                            != current_names@[i]@
                    ||| findings.compatible@.len() <= i
                    ||| !findings.compatible@[i]
                }
            }
        }),
    ensures
        crate::compatibility::comparison(Ok(Some(object)), new, findings) is None,
{
    replacing_asks_for_names_and_checks(findings);
    if findings.current is Ok && findings.new is Ok {
        if findings.allow_upgrade() {
            assert(all_spelled_in(current_names@, new_names@));
            assert(none_failed(findings.compatible@, current_names@.len()));
            assert(is_spelled_in(current_names@[i]@, new_names@));
            assert(i < findings.compatible@.len() && findings.compatible@[i] == true);
            assert(false);
        }
        assert(object.reference() != (new.id, object.spec_version(), new.digest));
    }
}

/// A package that is the same as the current one keeps its reference, whatever is known of modules.
pub proof fn an_unchanged_package_keeps_its_reference(
    object: Object,
    package: MovePackage,
    new: NewPackage,
    findings: ModuleFindings,
)
    requires
        object.data == Data::Package(package),
        package.id == new.id,
        object.digest == new.digest,
    ensures
        crate::compatibility::comparison(Ok(Some(object)), new, findings) == Some(
            (package.id, package.version, object.digest),
        ),
{
}

/// Where there is no current package, the new one is taken at the first version, whatever is known of
/// modules; where the current one could not be loaded, none is.
pub proof fn without_a_current_package_nothing_is_compared(
    error: StorageError,
    new: NewPackage,
    findings: ModuleFindings,
)
    ensures
        crate::compatibility::comparison(Ok(None), new, findings) == Some(
            (new.id, SequenceNumber(1), new.digest),
        ),
        crate::compatibility::comparison(Err(error), new, findings) is None,
{
}

/// A new package is built with the version and the previous transaction of the current one; with the
/// first version and the transaction of all zeros where there is none; and not at all where the current
/// one could not be loaded.
pub proof fn a_comparison_rests_on_the_current_package(
    package: MovePackage,
    owner: Owner,
    previous_transaction: TransactionDigest,
    storage_rebate: u64,
    digest: ObjectDigest,
    error: StorageError,
)
    ensures
        crate::compatibility::basis(
            Ok(
                Some(
                    Object {
                        data: Data::Package(package),
                        owner,
                        previous_transaction,
                        storage_rebate,
                        digest,
                    },
                ),
            ),
        ) == Some(Basis { version: package.version, previous_transaction }),
        crate::compatibility::basis(Ok(None)) matches Some(basis) && basis.version.0 == 1
            && basis.previous_transaction.0.hi == 0 && basis.previous_transaction.0.lo == 0,
        crate::compatibility::basis(Err(error)) is None,
{
}

/// An error, nothing and a package can be what a lookup gave; a value that is no package cannot.
pub proof fn lookups_give_packages(object: Object, error: StorageError)
    ensures
        crate::compatibility::is_package_lookup(Err(error)),
        crate::compatibility::is_package_lookup(Ok(None)),
        crate::compatibility::is_package_lookup(Ok(Some(object))) <==> object.data is Package,
{
}

/// Counterparts: each module has the first new module that is spelled like it, and every module has
/// one.
pub proof fn counterparts_are_the_first_of_the_same_name(
    current: Seq<String>,
    new: Seq<String>,
    pairs: Seq<usize>,
)
    ensures
        crate::compatibility::are_counterparts(current, new, pairs) <==> {
            &&& pairs.len() == current.len()
            &&& forall|i: int|
                0 <= i < current.len() ==> {
                    &&& (#[trigger] pairs[i]) < new.len()
                    &&& new[pairs[i] as int]@ == current[i]@
                    &&& forall|j: int|
                        0 <= j < pairs[i] ==> (#[trigger] new[j])@ != current[i]@
                }
        },
{
    if crate::compatibility::are_counterparts(current, new, pairs) {
        assert forall|i: int| 0 <= i < current.len() implies {
            &&& (#[trigger] pairs[i]) < new.len()
            &&& new[pairs[i] as int]@ == current[i]@
            &&& forall|j: int| 0 <= j < pairs[i] ==> (#[trigger] new[j])@ != current[i]@
        } by {
            assert(crate::compatibility::is_named(new, pairs[i] as int, current[i]));
            assert forall|j: int| 0 <= j < pairs[i] implies (#[trigger] new[j])@ != current[i]@ by {
                assert(!crate::compatibility::is_named(new, j, current[i]));
            }
        }
    }
}

/// The checks of modules are what the check says of each module and its counterpart, in order.
pub proof fn checks_are_made_pair_by_pair<C: Fn(usize, usize) -> bool>(
    check: C,
    pairs: Seq<usize>,
    checks: Seq<bool>,
)
    ensures
        crate::compatibility::are_checks(check, pairs, checks) <==> checks.len() == pairs.len() && (
        forall|i: int|
            0 <= i < checks.len() ==> call_ensures(
                check,
                (i as usize, pairs[i]),
                #[trigger] checks[i],
            )),
{
}

} // verus!

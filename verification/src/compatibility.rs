//! Whether a package that is part of the system may be replaced.

use crate::base_types::{
    ObjectDigest, ObjectID, ObjectRef, SequenceNumber, TransactionDigest, START_VERSION,
};
use crate::error::StorageError;
use crate::framework::CompiledModule;
use crate::object::Object;
use vstd::prelude::*;

verus! {

/// What a type may be allowed to do.
#[derive(Clone, Copy, Debug, PartialEq, Eq)]
pub struct AbilitySet {
    pub copy: bool,
    pub drop: bool,
    pub store: bool,
    pub key: bool,
}

/// What is checked of a module that is to be replaced.
#[derive(Clone, Copy, Debug, PartialEq, Eq)]
pub struct Compatibility {
    /// Structs and public functions stay.
    pub check_struct_and_pub_function_linking: bool,
    /// Structs keep their layout.
    pub check_struct_layout: bool,
    /// Functions for friends stay.
    pub check_friend_linking: bool,
    /// Private entry functions stay.
    pub check_private_entry_linking: bool,
    /// The abilities that no struct may gain.
    pub disallowed_new_abilities: AbilitySet,
    /// Structs keep their type parameters.
    pub disallow_change_struct_type_params: bool,
}

impl Compatibility {
    /// The checks for a package of the system. Such a package is replaced in place, and a
    /// transaction that was set aside for the replacement must still run afterwards: so entry
    /// functions stay, even private ones.
    pub fn for_system_packages() -> (r: Self)
        ensures
            r.check_struct_and_pub_function_linking,
            r.check_struct_layout,
            !r.check_friend_linking,
            r.check_private_entry_linking,
            r.disallowed_new_abilities == (AbilitySet {
                copy: false,
                drop: false,
                store: false,
                key: true,
            }),
            r.disallow_change_struct_type_params,
    {
        Compatibility {
            check_struct_and_pub_function_linking: true,
            check_struct_layout: true,
            check_friend_linking: false,
            check_private_entry_linking: true,
            disallowed_new_abilities: AbilitySet {
                copy: false,
                drop: false,
                store: false,
                key: true,
            },
            disallow_change_struct_type_params: true,
        }
    }
}

/// The version and the previous transaction that a new package is built with for a comparison.
#[derive(Clone, Copy, Debug, PartialEq, Eq)]
pub struct Basis {
    pub version: SequenceNumber,
    pub previous_transaction: TransactionDigest,
}

impl Basis {
    /// What the new package is built with once it is known to replace the current one: the next
    /// version.
    pub fn next(&self) -> (r: Self)
        requires
            self.version.0 < u64::MAX,
        ensures
            r.version.0 == self.version.0 + 1,
            r.previous_transaction == self.previous_transaction,
    {
        Basis {
            version: self.version.next(),
            previous_transaction: self.previous_transaction,
        }
    }
}

/// What looking up the current package gave is an error, nothing, or a package.
pub open spec fn is_package_lookup(current: Result<Option<Object>, StorageError>) -> bool {
    current matches Ok(Some(object)) ==> object.data is Package
}

/// What a new package is built with: what the current one has, or what a fresh one has where there
/// is none yet; `None` where the current one could not be loaded.
pub open spec fn basis(current: Result<Option<Object>, StorageError>) -> Option<Basis> {
    match current {
        Ok(Some(object)) => Some(
            Basis {
                version: object.spec_version(),
                previous_transaction: object.previous_transaction,
            },
        ),
        Ok(None) => Some(
            Basis {
                version: SequenceNumber(START_VERSION),
                previous_transaction: crate::base_types::genesis_digest(),
            },
        ),
        Err(_) => None,
    }
}

/// What a new package is built with: what the current one has, or what a fresh one has where there
/// is none yet; `None` where the current one could not be loaded.
///
/// The transaction of a fresh package only serves to compute a reference that everybody agrees on.
pub fn comparison_basis(current: &Result<Option<Object>, StorageError>) -> (r: Option<Basis>)
    requires
        is_package_lookup(*current),
    ensures
        r == basis(*current),
{
    match current {
        Ok(Some(object)) => Some(
            Basis {
                version: object.version(),
                previous_transaction: object.previous_transaction,
            },
        ),
        Ok(None) => Some(
            Basis {
                version: SequenceNumber(START_VERSION),
                previous_transaction: TransactionDigest::genesis_marker(),
            },
        ),
        Err(_) => None,
    }
}

/// The new package, as far as a comparison needs it.
#[derive(Clone, Copy, Debug, PartialEq, Eq)]
pub struct NewPackage {
    pub id: ObjectID,
    /// The digest of its object when it is built with the basis of the comparison.
    pub digest: ObjectDigest,
    /// The digest of its object one version later.
    pub upgraded_digest: ObjectDigest,
}

impl NewPackage {
    /// The package of these modules, which is stored under the address of the first, with the digests
    /// of its object at the basis of the comparison and one version later.
    pub fn from_modules(
        modules: &[CompiledModule],
        digest: ObjectDigest,
        upgraded_digest: ObjectDigest,
    ) -> (r: Self)
        requires
            modules@.len() > 0,
        ensures
            r.id == modules@[0].address,
            r.digest == digest,
            r.upgraded_digest == upgraded_digest,
    {
        NewPackage { id: modules[0].address, digest, upgraded_digest }
    }
}

/// A package whose modules could not be normalized.
#[derive(Clone, Copy, Debug, PartialEq, Eq)]
pub struct NotNormalized;

/// What is known of the modules of the two packages.
#[derive(Debug)]
pub struct ModuleFindings {
    /// The names of the modules of the current package, if they could be normalized.
    pub current: Result<Vec<String>, NotNormalized>,
    /// The names of the modules of the new package, if they could be normalized.
    pub new: Result<Vec<String>, NotNormalized>,
    /// For each module of the current package, whether the new module of the same name passed the
    /// compatibility check with it.
    pub compatible: Vec<bool>,
}

/// `names` has a module of this name at position `i`.
pub open spec fn is_named(names: Seq<String>, i: int, name: String) -> bool {
    0 <= i < names.len() && names[i]@ == name@
}

/// `names` has a module of this name.
pub open spec fn has_name(names: Seq<String>, name: String) -> bool {
    exists|i: int| is_named(names, i, name)
}

/// Every module has a counterpart of the same name.
pub open spec fn all_kept(current: Seq<String>, new: Seq<String>) -> bool {
    forall|i: int| 0 <= i < current.len() ==> has_name(new, #[trigger] current[i])
}

/// The first `count` checks were made and passed.
pub open spec fn all_pass(checks: Seq<bool>, count: nat) -> bool {
    &&& count <= checks.len()
    &&& forall|i: int| 0 <= i < count ==> #[trigger] checks[i]
}

/// `pairs` gives each module the first counterpart of the same name.
pub open spec fn are_counterparts(
    current: Seq<String>,
    new: Seq<String>,
    pairs: Seq<usize>,
) -> bool {
    &&& pairs.len() == current.len()
    &&& forall|i: int|
        0 <= i < current.len() ==> {
            &&& is_named(new, #[trigger] pairs[i] as int, current[i])
            &&& forall|j: int| 0 <= j < pairs[i] ==> !is_named(new, j, current[i])
        }
}

impl ModuleFindings {
    /// Whether the modules of the current package may be replaced: both packages could be
    /// normalized, every module has a counterpart, and every counterpart is compatible.
    pub open spec fn allow_upgrade(self) -> bool {
        match (self.current, self.new) {
            (Ok(current), Ok(new)) => {
                &&& all_kept(current@, new@)
                &&& all_pass(self.compatible@, current@.len())
            },
            _ => false,
        }
    }
}

fn position_of(names: &[String], name: &String) -> (r: Option<usize>)
    ensures
        match r {
            Some(position) => {
                &&& is_named(names@, position as int, *name)
                &&& forall|j: int| 0 <= j < position ==> !is_named(names@, j, *name)
            },
            None => !has_name(names@, *name),
        },
{
    let mut i: usize = 0;
    while i < names.len()
        invariant
            i <= names@.len(),
            forall|j: int| 0 <= j < i ==> !is_named(names@, j, *name),
        decreases names@.len() - i,
    {
        if names[i] == *name {
            return Some(i);
        }
        i = i + 1;
    }
    None
}

/// For each module of the current package the position of its counterpart in the new one: the two
/// whose compatibility is to be checked. `None` if a module has no counterpart.
pub fn module_counterparts(current: &[String], new: &[String]) -> (r: Option<Vec<usize>>)
    ensures
        match r {
            Some(pairs) => are_counterparts(current@, new@, pairs@),
            None => !all_kept(current@, new@),
        },
{
    let mut pairs: Vec<usize> = Vec::new();
    let mut i: usize = 0;
    while i < current.len()
        invariant
            i <= current@.len(),
            pairs@.len() == i,
            forall|k: int|
                0 <= k < i ==> {
                    &&& is_named(new@, #[trigger] pairs@[k] as int, current@[k])
                    &&& forall|j: int| 0 <= j < pairs@[k] ==> !is_named(new@, j, current@[k])
                },
        decreases current@.len() - i,
    {
        match position_of(new, &current[i]) {
            Some(position) => pairs.push(position),
            None => {
                assert(!has_name(new@, current@[i as int]));
                return None;
            },
        }
        i = i + 1;
    }
    Some(pairs)
}

/// What is known of the modules of two packages once each module of the current package was checked
/// against the new module of the same name. `check` gets the positions of the two modules. Where a
/// package could not be normalized, or a module has no counterpart, nothing is checked.
pub fn module_findings<C: Fn(usize, usize) -> bool>(
    current: Result<Vec<String>, NotNormalized>,
    new: Result<Vec<String>, NotNormalized>,
    check: C,
) -> (r: ModuleFindings)
    requires
        forall|i: usize, j: usize| call_requires(check, (i, j)),
    ensures
        r.current == current,
        r.new == new,
        match (current, new) {
            (Ok(current), Ok(new)) => if all_kept(current@, new@) {
                exists|pairs: Seq<usize>| #[trigger]
                    are_counterparts(current@, new@, pairs) && are_checks(
                        check,
                        pairs,
                        r.compatible@,
                    )
            } else {
                r.compatible@.len() == 0
            },
            _ => r.compatible@.len() == 0,
        },
{
    let mut compatible: Vec<bool> = Vec::new();
    if let (Ok(current), Ok(new)) = (&current, &new) {
        if let Some(pairs) = module_counterparts(current.as_slice(), new.as_slice()) {
            let mut i: usize = 0;
            while i < pairs.len()
                invariant
                    i <= pairs@.len(),
                    compatible@.len() == i,
                    forall|a: usize, b: usize| call_requires(check, (a, b)),
                    forall|k: int|
                        0 <= k < i ==> call_ensures(
                            check,
                            (k as usize, pairs@[k]),
                            #[trigger] compatible@[k],
                        ),
                decreases pairs@.len() - i,
            {
                let passed = check(i, pairs[i]);
                compatible.push(passed);
                i = i + 1;
            }
            assert(are_counterparts(current@, new@, pairs@));
            assert(are_checks(check, pairs@, compatible@));
            assert(all_kept(current@, new@)) by {
                lemma_counterparts_keep_all(current@, new@, pairs@);
            }
        }
    }
    ModuleFindings { current, new, compatible }
}

/// `checks` are what the check says of each module and its counterpart.
pub open spec fn are_checks<C: Fn(usize, usize) -> bool>(
    check: C,
    pairs: Seq<usize>,
    checks: Seq<bool>,
) -> bool {
    &&& checks.len() == pairs.len()
    &&& forall|i: int|
        0 <= i < pairs.len() ==> call_ensures(check, (i as usize, pairs[i]), #[trigger] checks[i])
}

/// Where every module has a counterpart, every module is kept.
proof fn lemma_counterparts_keep_all(
    current: Seq<String>,
    new: Seq<String>,
    pairs: Seq<usize>,
)
    requires
        are_counterparts(current, new, pairs),
    ensures
        all_kept(current, new),
{
    assert forall|i: int| 0 <= i < current.len() implies has_name(new, #[trigger] current[i]) by {
        assert(is_named(new, pairs[i] as int, current[i]));
    }
}

fn checks_pass(checks: &[bool], count: usize) -> (r: bool)
    ensures
        r == all_pass(checks@, count as nat),
{
    if count > checks.len() {
        return false;
    }
    let mut i: usize = 0;
    while i < count
        invariant
            i <= count <= checks@.len(),
            forall|j: int| 0 <= j < i ==> #[trigger] checks@[j],
        decreases count - i,
    {
        if !checks[i] {
            assert(!checks@[i as int]);
            return false;
        }
        i = i + 1;
    }
    true
}

/// Whether the modules of the current package may be replaced.
pub fn upgrade_is_allowed(findings: &ModuleFindings) -> (r: bool)
    ensures
        r == findings.allow_upgrade(),
{
    match (&findings.current, &findings.new) {
        (Ok(current), Ok(new)) => {
            let pairs = module_counterparts(current.as_slice(), new.as_slice());
            proof {
                if let Some(ref pairs) = pairs {
                    lemma_counterparts_keep_all(current@, new@, pairs@);
                }
            }
            pairs.is_some() && checks_pass(findings.compatible.as_slice(), current.len())
        },
        _ => false,
    }
}

/// The answer to a comparison.
pub open spec fn comparison(
    current: Result<Option<Object>, StorageError>,
    new: NewPackage,
    findings: ModuleFindings,
) -> Option<ObjectRef> {
    match current {
        Err(_) => None,
        Ok(None) => Some((new.id, SequenceNumber(START_VERSION), new.digest)),
        Ok(Some(object)) => {
            let version = object.spec_version();
            if object.reference() == (new.id, version, new.digest) {
                Some(object.reference())
            } else if findings.allow_upgrade() {
                Some((new.id, SequenceNumber((version.0 + 1) as u64), new.upgraded_digest))
            } else {
                None
            }
        },
    }
}

/// Checks whether a new package may take the place of the current one.
///
/// - `None` if the current package could not be loaded, or if the new one is not compatible with
///   it: reasons not to upgrade.
/// - The reference of the fresh package if there is no current one.
/// - The reference of the current package if the new one is the same.
/// - The reference of the new package, one version later, if it is compatible.
pub fn compare_system_package(
    current: &Result<Option<Object>, StorageError>,
    new: &NewPackage,
    findings: &ModuleFindings,
) -> (r: Option<ObjectRef>)
    requires
        is_package_lookup(*current),
        current matches Ok(Some(object)) ==> {
            ||| object.reference() == (new.id, object.spec_version(), new.digest)
            ||| !findings.allow_upgrade()
            ||| object.spec_version().0 < u64::MAX
        },
    ensures
        r == comparison(*current, *new, *findings),
{
    let cur_object = match current {
        Ok(Some(cur_object)) => cur_object,
        Ok(None) => {
            return Some((new.id, SequenceNumber(START_VERSION), new.digest));
        },
        Err(_) => {
            return None;
        },
    };
    let cur_ref = cur_object.compute_object_reference();
    let version = cur_object.version();
    if cur_ref.0 == new.id && cur_ref.2 == new.digest {
        return Some(cur_ref);
    }
    if !upgrade_is_allowed(findings) {
        return None;
    }
    Some((new.id, version.next(), new.upgraded_digest))
}

/// A comparison that allows anything names the new package: at the first version where there is no
/// current package, else at the current version just if nothing changed, or at the next one. Without
/// a change nothing is asked of the modules.
pub proof fn comparison_keeps_or_raises_the_version(
    current: Result<Option<Object>, StorageError>,
    new: NewPackage,
    findings: ModuleFindings,
    reference: ObjectRef,
)
    requires
        comparison(current, new, findings) == Some(reference),
        current matches Ok(Some(object)) ==> object.spec_version().0 < u64::MAX,
    ensures
        reference.0 == new.id,
        current matches Ok(None) ==> reference.1.0 == START_VERSION,
        current matches Ok(Some(object)) ==> {
            let unchanged = object.reference() == (new.id, object.spec_version(), new.digest);
            &&& unchanged ==> reference == object.reference()
            &&& !unchanged ==> reference.1.0 == object.spec_version().0 + 1
            &&& !unchanged ==> findings.allow_upgrade()
        },
{
}

/// A module that is missing from the new package forbids the replacement, and so does one that
/// failed its check.
pub proof fn every_module_counts(
    findings: ModuleFindings,
    current: Vec<String>,
    new: Vec<String>,
    i: int,
)
    requires
        findings.current == Ok::<Vec<String>, NotNormalized>(current),
        findings.new == Ok::<Vec<String>, NotNormalized>(new),
        0 <= i < current@.len(),
        !has_name(new@, current@[i]) || i >= findings.compatible@.len() || !findings.compatible@[i],
    ensures
        !findings.allow_upgrade(),
{
}

/// Modules that only the new package has are no reason to refuse it, while a module that only the
/// current package has always is: where one package has all module names of the other and more, the
/// larger may replace the smaller, if the modules of the same names are compatible, and the smaller
/// may not replace the larger, whatever the checks say.
pub proof fn modules_may_be_added_but_not_removed(
    object: Object,
    new: NewPackage,
    smaller: Vec<String>,
    larger: Vec<String>,
    added: int,
    growing: ModuleFindings,
    shrinking: ModuleFindings,
)
    requires
        object.reference() != (new.id, object.spec_version(), new.digest),
        object.spec_version().0 < u64::MAX,
        all_kept(smaller@, larger@),
        0 <= added < larger@.len(),
        !has_name(smaller@, larger@[added]),
        growing.current == Ok::<Vec<String>, NotNormalized>(smaller),
        growing.new == Ok::<Vec<String>, NotNormalized>(larger),
        all_pass(growing.compatible@, smaller@.len()),
        shrinking.current == Ok::<Vec<String>, NotNormalized>(larger),
        shrinking.new == Ok::<Vec<String>, NotNormalized>(smaller),
    ensures
        comparison(Ok(Some(object)), new, growing) matches Some(reference) && reference.0 == new.id
            && reference.1.0 == object.spec_version().0 + 1 && reference.2 == new.upgraded_digest,
        comparison(Ok(Some(object)), new, shrinking) is None,
{
    every_module_counts(shrinking, larger, smaller, added);
}

} // verus!

//! What texts say.

use crate::base_types::{Bytes32, EpochId, ObjectID};
use crate::framework::SystemPackage;
use crate::rollback::RollbackStatistics;
use vstd::prelude::*;

verus! {

/// The number that a hexadecimal digit stands for.
pub open spec fn digit_value(c: char) -> int {
    if '0' <= c <= '9' {
        c as int - '0' as int
    } else {
        c as int - 'a' as int + 10
    }
}

/// The number that a text of hexadecimal digits spells.
pub open spec fn hex_spelled(text: Seq<char>) -> int
    decreases text.len(),
{
    if text.len() == 0 {
        0
    } else {
        hex_spelled(text.drop_last()) * 16 + digit_value(text.last())
    }
}

/// A character is a hexadecimal digit in lower case.
pub open spec fn is_hex_digit(c: char) -> bool {
    '0' <= c <= '9' || 'a' <= c <= 'f'
}

/// A number is written in decimal digits that spell it, without leading zeros.
pub proof fn numbers_are_written_in_decimal(n: nat)
    ensures
        crate::text::spelled(crate::text::decimal(n)) == n,
        crate::text::decimal(n).len() > 0,
        forall|i: int|
            0 <= i < crate::text::decimal(n).len() ==> '0' <= #[trigger] crate::text::decimal(n)[i]
                <= '9',
        crate::text::decimal(n)[0] == '0' ==> n == 0 && crate::text::decimal(n).len() == 1,
    decreases n,
{
    crate::text::decimal_is_faithful(n);
    if n >= 10 {
        numbers_are_written_in_decimal(n / 10);
        let rest = crate::text::decimal(n / 10);
        let all = crate::text::decimal(n);
        assert(all[0] == rest[0]);
        assert forall|i: int| 0 <= i < all.len() implies '0' <= #[trigger] all[i] <= '9' by {
            if i < rest.len() {
                assert(all[i] == rest[i]);
            }
        }
    }
}

/// What a text of decimal digits spells, digit by digit.
pub proof fn decimal_digits_count_by_ten(text: Seq<char>, c: char)
    requires
        '0' <= c <= '9',
    ensures
        crate::text::spelled(Seq::empty()) == 0,
        crate::text::spelled(text.push(c)) == crate::text::spelled(text) * 10 + (c as int
            - '0' as int),
{
    assert(text.push(c).drop_last() =~= text);
}

/// The last hexadecimal digits of a number are as many as asked for, and spell what is left of the
/// number when it is divided by a power of sixteen.
pub proof fn numbers_are_written_in_hexadecimal(n: nat, width: nat)
    ensures
        crate::text::hex(n, width).len() == width,
        forall|i: int|
            0 <= i < crate::text::hex(n, width).len() ==> is_hex_digit(
                #[trigger] crate::text::hex(n, width)[i],
            ),
        hex_spelled(crate::text::hex(n, width)) == (n as int) % vstd::arithmetic::power::pow(16, width),
        vstd::arithmetic::power::pow(16, width) > 0,
    decreases width,
{
    vstd::arithmetic::power::lemma_pow_positive(16, width);
    if width == 0 {
        vstd::arithmetic::power::lemma_pow0(16);
    } else {
        let less = (width - 1) as nat;
        let rest = crate::text::hex(n / 16, less);
        let all = crate::text::hex(n, width);
        numbers_are_written_in_hexadecimal(n / 16, less);
        assert(all.drop_last() =~= rest);
        assert forall|i: int| 0 <= i < all.len() implies is_hex_digit(#[trigger] all[i]) by {
            if i < rest.len() {
                assert(all[i] == rest[i]);
            }
        }
        assert(digit_value(all.last()) == n % 16);
        vstd::arithmetic::div_mod::lemma_mod_breakdown(n as int, 16, vstd::arithmetic::power::pow(16, less));
        vstd::arithmetic::power::lemma_pow_adds(16, 1, less);
        vstd::arithmetic::power::lemma_pow1(16);
    }
}

/// Two texts in a row spell the first number moved up, and the second.
proof fn lemma_spelled_in_a_row(a: Seq<char>, b: Seq<char>)
    ensures
        hex_spelled(a + b) == hex_spelled(a) * vstd::arithmetic::power::pow(16, b.len()) + hex_spelled(b),
    decreases b.len(),
{
    if b.len() == 0 {
        assert(a + b =~= a);
        vstd::arithmetic::power::lemma_pow0(16);
    } else {
        let rest = b.drop_last();
        lemma_spelled_in_a_row(a, rest);
        assert((a + b).drop_last() =~= a + rest);
        vstd::arithmetic::power::lemma_pow_adds(16, rest.len(), 1);
        vstd::arithmetic::power::lemma_pow1(16);
        let x = hex_spelled(a);
        let p = vstd::arithmetic::power::pow(16, rest.len());
        assert(x * (p * 16) == x * p * 16) by (nonlinear_arith);
    }
}

/// Thirty-two bytes are written as `0x` and sixty-four hexadecimal digits, which spell their number.
pub proof fn bytes_are_written_in_hexadecimal(bytes: Bytes32)
    ensures
        crate::text::hex_bytes(bytes).len() == 66,
        crate::text::hex_bytes(bytes)[0] == '0',
        crate::text::hex_bytes(bytes)[1] == 'x',
        forall|i: int|
            2 <= i < 66 ==> is_hex_digit(#[trigger] crate::text::hex_bytes(bytes)[i]),
        hex_spelled(crate::text::hex_bytes(bytes).skip(2)) == bytes.hi
            * 0x1_0000_0000_0000_0000_0000_0000_0000_0000int + bytes.lo,
{
    let high = crate::text::hex(bytes.hi as nat, 32);
    let low = crate::text::hex(bytes.lo as nat, 32);
    let all = crate::text::hex_bytes(bytes);
    reveal_strlit("0x");
    numbers_are_written_in_hexadecimal(bytes.hi as nat, 32);
    numbers_are_written_in_hexadecimal(bytes.lo as nat, 32);
    lemma_sixteen_to_the_thirty_second();
    lemma_spelled_in_a_row(high, low);
    assert(all.skip(2) =~= high + low);
    vstd::arithmetic::div_mod::lemma_small_mod(bytes.hi as nat, vstd::arithmetic::power::pow(16, 32) as nat);
    vstd::arithmetic::div_mod::lemma_small_mod(bytes.lo as nat, vstd::arithmetic::power::pow(16, 32) as nat);
    assert forall|i: int| 2 <= i < 66 implies is_hex_digit(#[trigger] all[i]) by {
        if i < 34 {
            assert(all[i] == high[i - 2]);
        } else {
            assert(all[i] == low[i - 34]);
        }
    }
}

/// Sixteen to the power of thirty-two is one more than the largest number of sixteen bytes.
proof fn lemma_sixteen_to_the_thirty_second()
    ensures
        vstd::arithmetic::power::pow(16, 32) == 0x1_0000_0000_0000_0000_0000_0000_0000_0000int,
{
    let a = vstd::arithmetic::power::pow(16, 2);
    let b = vstd::arithmetic::power::pow(16, 4);
    let c = vstd::arithmetic::power::pow(16, 8);
    let d = vstd::arithmetic::power::pow(16, 16);
    vstd::arithmetic::power::lemma_pow1(16);
    vstd::arithmetic::power::lemma_pow_adds(16, 1, 1);
    assert(a == 0x100);
    vstd::arithmetic::power::lemma_pow_adds(16, 2, 2);
    assert(a * a == 0x1_0000) by (nonlinear_arith)
        requires
            a == 0x100,
    ;
    vstd::arithmetic::power::lemma_pow_adds(16, 4, 4);
    assert(b * b == 0x1_0000_0000) by (nonlinear_arith)
        requires
            b == 0x1_0000,
    ;
    vstd::arithmetic::power::lemma_pow_adds(16, 8, 8);
    assert(c * c == 0x1_0000_0000_0000_0000) by (nonlinear_arith)
        requires
            c == 0x1_0000_0000,
    ;
    vstd::arithmetic::power::lemma_pow_adds(16, 16, 16);
    assert(d * d == 0x1_0000_0000_0000_0000_0000_0000_0000_0000int) by (nonlinear_arith)
        requires
            d == 0x1_0000_0000_0000_0000,
    ;
}

/// The summary of a rollback tells each of its numbers, in this order and with these words.
pub proof fn summaries_tell_every_number(statistics: RollbackStatistics)
    ensures
        statistics.summary_text() == "Rollback to epoch "@ + crate::text::decimal(
            statistics.target_epoch as nat,
        ) + ": "@ + crate::text::decimal(statistics.epochs_to_remove as nat) + " epochs, "@
            + crate::text::decimal(statistics.transactions_to_remove as nat) + " transactions, "@
            + crate::text::decimal(statistics.objects_to_remove as nat) + " objects, "@
            + crate::text::decimal(statistics.markers_to_remove as nat) + " markers removed"@,
{
}

/// The refusal of a rollback tells the epoch that was asked for and the highest that there is.
pub proof fn refusals_tell_both_epochs(target_epoch: EpochId, max_epoch: EpochId)
    ensures
        crate::rollback::future_epoch_text(target_epoch, max_epoch)
            == "Cannot rollback to future epoch "@ + crate::text::decimal(target_epoch as nat)
            + " in AuthorityStore. Maximum existing epoch is "@ + crate::text::decimal(
            max_epoch as nat,
        ),
{
}

/// The description of a package tells its identity, the number of its modules, and its dependencies.
pub proof fn descriptions_tell_identity_size_and_dependencies(package: SystemPackage)
    ensures
        package.description_text() == "Object ID: "@ + crate::text::hex_bytes(package.id.0)
            + "\nSize: "@ + crate::text::decimal(package.bytes@.len()) + "\nDependencies: ["@
            + crate::framework::listed_ids(package.dependencies@) + "]\n"@,
{
}

/// Identities are listed in their order, each once, with a comma and a space between two.
pub proof fn identities_are_listed_in_order(ids: Seq<ObjectID>, id: ObjectID)
    ensures
        crate::framework::listed_ids(Seq::empty()) == Seq::<char>::empty(),
        ids.len() == 0 ==> crate::framework::listed_ids(ids.push(id)) == crate::text::hex_bytes(
            id.0,
        ),
        ids.len() > 0 ==> crate::framework::listed_ids(ids.push(id)) == crate::framework::listed_ids(
            ids,
        ) + ", "@ + crate::text::hex_bytes(id.0),
{
    assert(ids.push(id).drop_last() =~= ids);
}

} // verus!

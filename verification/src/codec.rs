//! Lists of byte strings in Binary Canonical Serialization.

use vstd::prelude::*;

verus! {

/// The largest length that a sequence may have.
pub const MAX_SEQUENCE_LENGTH: u64 = 0x7fff_ffff;

/// A length as little-endian digits in base 128. Every byte but the last has its high bit set.
pub open spec fn encoded_length(n: nat) -> Seq<u8>
    decreases n,
{
    if n < 128 {
        seq![n as u8]
    } else {
        seq![(128 + n % 128) as u8] + encoded_length(n / 128)
    }
}

/// A byte string: its length, then its bytes.
pub open spec fn encoded_string(bytes: Seq<u8>) -> Seq<u8> {
    encoded_length(bytes.len()) + bytes
}

/// A list of byte strings: its length, then the strings one after the other.
pub open spec fn encoded_strings(strings: Seq<Seq<u8>>) -> Seq<u8> {
    encoded_length(strings.len()) + crate::seq_facts::flat(
        strings,
        |bytes: Seq<u8>| encoded_string(bytes),
    )
}

/// Neither the list nor a string in it is too long to be encoded.
pub open spec fn encodable(strings: Seq<Seq<u8>>) -> bool {
    &&& strings.len() <= MAX_SEQUENCE_LENGTH
    &&& forall|i: int| 0 <= i < strings.len() ==> (#[trigger] strings[i]).len() <= MAX_SEQUENCE_LENGTH
}

/// `raw` encodes `strings`.
pub open spec fn encodes(raw: Seq<u8>, strings: Seq<Seq<u8>>) -> bool {
    encodable(strings) && raw == encoded_strings(strings)
}

/// `raw` encodes some list of byte strings.
pub open spec fn decodes(raw: Seq<u8>) -> bool {
    exists|strings: Seq<Seq<u8>>| encodes(raw, strings)
}

/// The byte strings in a list.
pub open spec fn strings_of(list: Seq<Vec<u8>>) -> Seq<Seq<u8>> {
    list.map_values(|bytes: Vec<u8>| bytes@)
}

/// The reason why bytes cannot be decoded.
#[verifier::external_type_specification]
#[verifier::external_body]
pub struct ExBcsError(bcs::Error);

/// Bytes that do not encode what they should.
#[derive(Clone, Copy, Debug, PartialEq, Eq)]
pub struct MalformedBytes;

/// Calls `bcs::from_bytes` for a list of byte strings. Claimed of it: it succeeds just if the whole
/// input is the canonical encoding of such a list, with no length above the limit of the format,
/// and then returns that list.
#[verifier::external_body]
fn bcs_from_bytes(raw: &[u8]) -> (r: Result<Vec<Vec<u8>>, bcs::Error>)
    ensures
        match r {
            Ok(list) => encodes(raw@, strings_of(list@)),
            Err(_) => !decodes(raw@),
        },
{
    bcs::from_bytes(raw)
}

/// Decodes a list of byte strings.
pub fn decode_strings(raw: &[u8]) -> (r: Result<Vec<Vec<u8>>, MalformedBytes>)
    ensures
        match r {
            Ok(list) => encodes(raw@, strings_of(list@)),
            Err(_) => !decodes(raw@),
        },
{
    match bcs_from_bytes(raw) {
        Ok(list) => Ok(list),
        Err(_) => Err(MalformedBytes),
    }
}

/// A length ends where its encoding ends, whatever follows.
proof fn lemma_length_is_self_delimiting(n: nat, m: nat, a: Seq<u8>, b: Seq<u8>)
    requires
        encoded_length(n) + a == encoded_length(m) + b,
    ensures
        n == m,
        a == b,
    decreases n,
{
    let x = encoded_length(n) + a;
    let y = encoded_length(m) + b;
    assert(x[0] == y[0]);
    if n < 128 {
        assert(x[0] == n as u8);
        if m >= 128 {
            assert(y[0] == (128 + m % 128) as u8);
        } else {
            assert(y[0] == m as u8);
            assert(a =~= x.skip(1));
            assert(b =~= y.skip(1));
        }
    } else {
        assert(x[0] == (128 + n % 128) as u8);
        if m < 128 {
            assert(y[0] == m as u8);
        } else {
            assert(y[0] == (128 + m % 128) as u8);
            assert(encoded_length(n / 128) + a =~= x.skip(1));
            assert(encoded_length(m / 128) + b =~= y.skip(1));
            lemma_length_is_self_delimiting(n / 128, m / 128, a, b);
        }
    }
}

/// A string ends where its encoding ends, whatever follows.
proof fn lemma_string_is_self_delimiting(s: Seq<u8>, t: Seq<u8>, a: Seq<u8>, b: Seq<u8>)
    requires
        encoded_string(s) + a == encoded_string(t) + b,
    ensures
        s == t,
        a == b,
{
    assert(encoded_string(s) + a =~= encoded_length(s.len()) + (s + a));
    assert(encoded_string(t) + b =~= encoded_length(t.len()) + (t + b));
    lemma_length_is_self_delimiting(s.len(), t.len(), s + a, t + b);
    assert(s =~= (s + a).take(s.len() as int));
    assert(t =~= (t + b).take(s.len() as int));
    assert(a =~= (s + a).skip(s.len() as int));
    assert(b =~= (t + b).skip(s.len() as int));
}

/// What follows the length determines the strings.
proof fn lemma_strings_are_determined(s: Seq<Seq<u8>>, t: Seq<Seq<u8>>)
    requires
        s.len() == t.len(),
        crate::seq_facts::flat(s, |bytes: Seq<u8>| encoded_string(bytes))
            == crate::seq_facts::flat(t, |bytes: Seq<u8>| encoded_string(bytes)),
    ensures
        s == t,
    decreases s.len(),
{
    let f = |bytes: Seq<u8>| encoded_string(bytes);
    if s.len() == 0 {
        assert(s =~= t);
    } else {
        let x = seq![s[0]];
        let y = seq![t[0]];
        let s1 = s.skip(1);
        let t1 = t.skip(1);
        assert(s =~= x + s1);
        assert(t =~= y + t1);
        crate::seq_facts::flat_concat(x, s1, f);
        crate::seq_facts::flat_concat(y, t1, f);
        assert(x.drop_last() =~= Seq::<Seq<u8>>::empty());
        assert(y.drop_last() =~= Seq::<Seq<u8>>::empty());
        assert(crate::seq_facts::flat(Seq::<Seq<u8>>::empty(), f) =~= Seq::<u8>::empty());
        assert(crate::seq_facts::flat(x, f) =~= encoded_string(s[0]));
        assert(crate::seq_facts::flat(y, f) =~= encoded_string(t[0]));
        lemma_string_is_self_delimiting(
            s[0],
            t[0],
            crate::seq_facts::flat(s1, f),
            crate::seq_facts::flat(t1, f),
        );
        lemma_strings_are_determined(s1, t1);
    }
}

/// Bytes encode at most one list, so decoding gives back what was encoded.
pub proof fn encoding_is_unambiguous(raw: Seq<u8>, a: Seq<Seq<u8>>, b: Seq<Seq<u8>>)
    requires
        encodes(raw, a),
        encodes(raw, b),
    ensures
        a == b,
{
    let f = |bytes: Seq<u8>| encoded_string(bytes);
    lemma_length_is_self_delimiting(
        a.len(),
        b.len(),
        crate::seq_facts::flat(a, f),
        crate::seq_facts::flat(b, f),
    );
    lemma_strings_are_determined(a, b);
}

/// The number that little-endian digits in base 128 spell, whatever their high bits say.
pub open spec fn length_value(bytes: Seq<u8>) -> int
    decreases bytes.len(),
{
    if bytes.len() == 0 {
        0
    } else {
        bytes[0] % 128 + 128 * length_value(bytes.skip(1))
    }
}

/// The encoding of a length spells it, and is the shortest one that does: only its last byte has the
/// high bit clear, and that byte is not zero unless it is the only one.
pub proof fn lengths_are_spelled_shortly(n: nat)
    ensures
        encoded_length(n).len() > 0,
        length_value(encoded_length(n)) == n,
        forall|i: int|
            0 <= i < encoded_length(n).len() ==> (#[trigger] encoded_length(n)[i] >= 128 <==> i
                < encoded_length(n).len() - 1),
        encoded_length(n).last() == 0 ==> n == 0,
    decreases n,
{
    let all = encoded_length(n);
    if n < 128 {
        assert(all.skip(1) =~= Seq::<u8>::empty());
        assert(length_value(all.skip(1)) == 0);
    } else {
        let rest = encoded_length(n / 128);
        lengths_are_spelled_shortly(n / 128);
        assert(all.skip(1) =~= rest);
        assert(all[0] == (128 + n % 128) as u8);
        assert(all.last() == rest.last());
        assert forall|i: int| 0 <= i < all.len() implies (#[trigger] all[i] >= 128 <==> i < all.len()
            - 1) by {
            if i > 0 {
                assert(all[i] == rest[i - 1]);
            }
        }
    }
}

/// Strings one after the other, each behind its length.
pub open spec fn strings_in_a_row(strings: Seq<Seq<u8>>) -> Seq<u8>
    decreases strings.len(),
{
    if strings.len() == 0 {
        Seq::empty()
    } else {
        encoded_length(strings[0].len()) + strings[0] + strings_in_a_row(strings.skip(1))
    }
}

/// Bytes encode a list of strings just if they are its length and then the strings in their order,
/// each behind its length, where no length is above two to the thirty-first less one.
pub proof fn lists_are_encoded_string_by_string(raw: Seq<u8>, strings: Seq<Seq<u8>>)
    ensures
        encodes(raw, strings) <==> {
            &&& raw == encoded_length(strings.len()) + strings_in_a_row(strings)
            &&& strings.len() <= i32::MAX
            &&& forall|i: int|
                0 <= i < strings.len() ==> (#[trigger] strings[i]).len() <= i32::MAX
        },
        encodes(raw, strings) ==> decodes(raw),
{
    lemma_in_a_row(strings);
}

proof fn lemma_in_a_row(strings: Seq<Seq<u8>>)
    ensures
        crate::seq_facts::flat(strings, |bytes: Seq<u8>| encoded_string(bytes))
            == strings_in_a_row(strings),
    decreases strings.len(),
{
    let f = |bytes: Seq<u8>| encoded_string(bytes);
    if strings.len() > 0 {
        let one = seq![strings[0]];
        let rest = strings.skip(1);
        lemma_in_a_row(rest);
        assert(strings =~= one + rest);
        crate::seq_facts::flat_concat(one, rest, f);
        assert(one.drop_last() =~= Seq::<Seq<u8>>::empty());
        assert(crate::seq_facts::flat(Seq::<Seq<u8>>::empty(), f) =~= Seq::<u8>::empty());
        assert(crate::seq_facts::flat(one, f) =~= encoded_string(strings[0]));
    }
}

/// The byte strings in a list are the bytes of each of its vectors, in their order.
pub proof fn strings_are_the_bytes_of_vectors(list: Seq<Vec<u8>>)
    ensures
        strings_of(list).len() == list.len(),
        forall|i: int| 0 <= i < list.len() ==> #[trigger] strings_of(list)[i] == list[i]@,
{
}

} // verus!

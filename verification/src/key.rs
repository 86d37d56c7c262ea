//! How keys are laid out in a store.
//!
//! Every key starts with the prefix of its collection. The key of a slot of a
//! list or deque is the prefix followed by the index as eight bytes, most
//! significant first, so that the store orders the slots by index.

use vstd::prelude::*;
use crate::order::{lemma_lex_asymmetric, lemma_lex_irreflexive, lex_lt, precedes_at};

verus! {

/// The error of bincode's encoder, `bincode::error::EncodeError`. Nothing
/// is said of what it holds.
#[verifier::external_type_specification]
#[verifier::external_body]
pub struct ExEncodeError(bincode::error::EncodeError);

/// The error of bincode's decoder, `bincode::error::DecodeError`. Nothing
/// is said of what it holds.
#[verifier::external_type_specification]
#[verifier::external_body]
pub struct ExDecodeError(bincode::error::DecodeError);

/// Byte `at` of `index`, counted from the most significant, which is byte 0.
pub open spec fn be_byte(index: u64, at: int) -> u8 {
    if at == 0 {
        (index >> 56) as u8
    } else if at == 1 {
        ((index >> 48) & 0xff) as u8
    } else if at == 2 {
        ((index >> 40) & 0xff) as u8
    } else if at == 3 {
        ((index >> 32) & 0xff) as u8
    } else if at == 4 {
        ((index >> 24) & 0xff) as u8
    } else if at == 5 {
        ((index >> 16) & 0xff) as u8
    } else if at == 6 {
        ((index >> 8) & 0xff) as u8
    } else {
        (index & 0xff) as u8
    }
}

/// The eight bytes of `index`, most significant first.
pub open spec fn be_bytes(index: u64) -> Seq<u8> {
    Seq::new(8, |at: int| be_byte(index, at))
}

/// The number whose eight bytes, most significant first, are `bytes`.
pub open spec fn be_value(bytes: Seq<u8>) -> u64 {
    ((bytes[0] as u64) << 56) | ((bytes[1] as u64) << 48) | ((bytes[2] as u64) << 40) | ((
    bytes[3] as u64) << 32) | ((bytes[4] as u64) << 24) | ((bytes[5] as u64) << 16) | ((
    bytes[6] as u64) << 8) | (bytes[7] as u64)
}

/// The index in the key of a slot.
pub open spec fn slot_index(key: Seq<u8>) -> u64 {
    be_value(key.subrange(1, 9))
}

/// The key of a scalar: its prefix alone.
pub open spec fn scalar_key(prefix: u8) -> Seq<u8> {
    seq![prefix]
}

/// The key of slot `index` of the list or deque with the prefix `prefix`.
pub open spec fn index_key(prefix: u8, index: u64) -> Seq<u8> {
    seq![prefix] + be_bytes(index)
}

/// The key under which the map with the prefix `prefix` keeps `sub`.
pub open spec fn sub_key(prefix: u8, sub: Seq<u8>) -> Seq<u8> {
    seq![prefix] + sub
}

/// `key` belongs to the collection with the prefix `prefix`.
pub open spec fn has_prefix(key: Seq<u8>, prefix: u8) -> bool {
    key.len() > 0 && key[0] == prefix
}

/// Encodes the key of a scalar.
///
/// Calls `bincode::serde::encode_to_vec` on a `u8`, with integers of fixed
/// width: the one byte is written as it is.
#[verifier::external_body]
pub(crate) fn encode_scalar_key(prefix: u8) -> (encoded: Result<
    Vec<u8>,
    bincode::error::EncodeError,
>)
    ensures
        encoded matches Ok(bytes) ==> bytes@ == scalar_key(prefix),
{
    let config = bincode::config::standard().with_big_endian().with_fixed_int_encoding();
    bincode::serde::encode_to_vec(prefix, config)
}

/// Encodes the key of a slot.
///
/// Calls `bincode::serde::encode_to_vec` on the pair of prefix and index, big
/// endian and with integers of fixed width: a tuple is written field after
/// field, a `u8` as one byte and a `u64` as its eight bytes, most significant
/// first.
#[verifier::external_body]
pub(crate) fn encode_index_key(prefix: u8, index: u64) -> (encoded: Result<
    Vec<u8>,
    bincode::error::EncodeError,
>)
    ensures
        encoded matches Ok(bytes) ==> bytes@ == index_key(prefix, index),
{
    let config = bincode::config::standard().with_big_endian().with_fixed_int_encoding();
    bincode::serde::encode_to_vec((prefix, index), config)
}

/// Decodes the key of a slot of a deque.
///
/// Calls `bincode::serde::decode_from_slice` for a pair of `u8` and `u64`,
/// big endian and with integers of fixed width: it reads nine bytes, the
/// prefix and then the index, most significant byte first, and fails where
/// there are fewer. Bytes after the ninth are not looked at.
#[verifier::external_body]
pub(crate) fn decode_index_key(bytes: &[u8]) -> (decoded: Result<
    (u8, u64),
    bincode::error::DecodeError,
>)
    ensures
        decoded matches Ok((prefix, index)) ==> bytes@.len() >= 9 && bytes@.subrange(0, 9)
            == index_key(prefix, index),
{
    let config = bincode::config::standard().with_big_endian().with_fixed_int_encoding();
    bincode::serde::decode_from_slice(bytes, config).map(|(key, _read)| key)
}

/// Decodes the key of a slot of a list.
///
/// Calls `bincode::serde::decode_from_slice` for a pair of `u8` and `usize`,
/// big endian and with integers of fixed width: it reads nine bytes, the
/// prefix and then the index, most significant byte first. It fails where
/// there are fewer, or where the index does not fit in a `usize`. Bytes after
/// the ninth are not looked at.
#[verifier::external_body]
pub(crate) fn decode_slot_key(bytes: &[u8]) -> (decoded: Result<
    (u8, usize),
    bincode::error::DecodeError,
>)
    ensures
        decoded matches Ok((prefix, index)) ==> bytes@.len() >= 9 && bytes@.subrange(0, 9)
            == index_key(prefix, index as u64),
{
    let config = bincode::config::standard().with_big_endian().with_fixed_int_encoding();
    bincode::serde::decode_from_slice(bytes, config).map(|(key, _read)| key)
}

/// Encodes the key under which a map keeps an entry: the prefix of the map,
/// and then the key of the entry as the key codec made it.
pub fn encode_sub_key(prefix: u8, sub: &[u8]) -> (encoded: Result<
    Vec<u8>,
    bincode::error::EncodeError,
>)
    ensures
        encoded matches Ok(bytes) ==> bytes@ == sub_key(prefix, sub@),
{
    with_sub(encode_scalar_key(prefix), sub)
}

/// The key of an entry of a map, from the prefix of the map as the key codec
/// returned it: the key of the entry follows the bytes of the prefix, and
/// an error of the codec is handed on as it is.
pub fn with_sub(start: Result<Vec<u8>, bincode::error::EncodeError>, sub: &[u8]) -> (encoded:
    Result<Vec<u8>, bincode::error::EncodeError>)
    ensures
        match start {
            Ok(prefix) => encoded matches Ok(bytes) && bytes@ == prefix@ + sub@,
            Err(e) => encoded == Err::<Vec<u8>, bincode::error::EncodeError>(e),
        },
{
    match start {
        Err(e) => Err(e),
        Ok(mut bytes) => {
            let ghost prefix = bytes@;
            let mut i: usize = 0;
            while i < sub.len()
                invariant
                    i <= sub.len(),
                    bytes@ == prefix + sub@.take(i as int),
                decreases sub.len() - i,
            {
                bytes.push(sub[i]);
                i += 1;
            }
            Ok(bytes)
        },
    }
}

/// Of two different indices, the smaller has the smaller byte where their
/// bytes first differ.
proof fn lemma_first_difference(low: u64, high: u64)
    requires
        low < high,
    ensures
        exists|at: int|
            0 <= at < 8 && be_byte(low, at) < be_byte(high, at) && forall|before: int|
                0 <= before < at ==> be_byte(low, before) == be_byte(high, before),
{
    let (l0, l1, l2, l3) = (be_byte(low, 0), be_byte(low, 1), be_byte(low, 2), be_byte(low, 3));
    let (l4, l5, l6, l7) = (be_byte(low, 4), be_byte(low, 5), be_byte(low, 6), be_byte(low, 7));
    let (h0, h1, h2, h3) = (be_byte(high, 0), be_byte(high, 1), be_byte(high, 2), be_byte(high, 3));
    let (h4, h5, h6, h7) = (be_byte(high, 4), be_byte(high, 5), be_byte(high, 6), be_byte(high, 7));
    assert({
        ||| l0 < h0
        ||| l0 == h0 && l1 < h1
        ||| l0 == h0 && l1 == h1 && l2 < h2
        ||| l0 == h0 && l1 == h1 && l2 == h2 && l3 < h3
        ||| l0 == h0 && l1 == h1 && l2 == h2 && l3 == h3 && l4 < h4
        ||| l0 == h0 && l1 == h1 && l2 == h2 && l3 == h3 && l4 == h4 && l5 < h5
        ||| l0 == h0 && l1 == h1 && l2 == h2 && l3 == h3 && l4 == h4 && l5 == h5 && l6 < h6
        ||| l0 == h0 && l1 == h1 && l2 == h2 && l3 == h3 && l4 == h4 && l5 == h5 && l6 == h6 && l7
            < h7
    }) by (bit_vector)
        requires
            low < high,
            l0 == (low >> 56) as u8,
            l1 == ((low >> 48) & 0xff) as u8,
            l2 == ((low >> 40) & 0xff) as u8,
            l3 == ((low >> 32) & 0xff) as u8,
            l4 == ((low >> 24) & 0xff) as u8,
            l5 == ((low >> 16) & 0xff) as u8,
            l6 == ((low >> 8) & 0xff) as u8,
            l7 == (low & 0xff) as u8,
            h0 == (high >> 56) as u8,
            h1 == ((high >> 48) & 0xff) as u8,
            h2 == ((high >> 40) & 0xff) as u8,
            h3 == ((high >> 32) & 0xff) as u8,
            h4 == ((high >> 24) & 0xff) as u8,
            h5 == ((high >> 16) & 0xff) as u8,
            h6 == ((high >> 8) & 0xff) as u8,
            h7 == (high & 0xff) as u8,
    ;
    let at: int = if l0 < h0 {
        0
    } else if l1 < h1 {
        1
    } else if l2 < h2 {
        2
    } else if l3 < h3 {
        3
    } else if l4 < h4 {
        4
    } else if l5 < h5 {
        5
    } else if l6 < h6 {
        6
    } else {
        7
    };
    assert(be_byte(low, at) < be_byte(high, at));
}

/// Within one collection the key of a smaller index is before the key of a
/// greater one.
proof fn lemma_index_key_increasing(prefix: u8, first: u64, second: u64)
    requires
        first < second,
    ensures
        lex_lt(index_key(prefix, first), index_key(prefix, second)),
{
    let a = index_key(prefix, first);
    let b = index_key(prefix, second);
    lemma_first_difference(first, second);
    let at = choose|at: int|
        0 <= at < 8 && be_byte(first, at) < be_byte(second, at) && forall|before: int|
            0 <= before < at ==> be_byte(first, before) == be_byte(second, before);
    assert forall|j: int| 0 <= j < at + 1 implies a[j] == b[j] by {}
    assert(precedes_at(a, b, at + 1));
}

/// The layout keeps the order: within one collection the key of a smaller
/// index is before the key of a greater one, and only then.
pub proof fn lemma_index_key_order(prefix: u8, first: u64, second: u64)
    ensures
        first < second <==> lex_lt(index_key(prefix, first), index_key(prefix, second)),
{
    let a = index_key(prefix, first);
    let b = index_key(prefix, second);
    if first < second {
        lemma_index_key_increasing(prefix, first, second);
    } else if second < first {
        lemma_index_key_increasing(prefix, second, first);
        if lex_lt(a, b) {
            lemma_lex_asymmetric(a, b);
        }
    } else {
        lemma_lex_irreflexive(a);
    }
}

/// Different indices have different keys.
pub proof fn lemma_index_key_injective(prefix: u8, first: u64, second: u64)
    requires
        index_key(prefix, first) == index_key(prefix, second),
    ensures
        first == second,
{
    lemma_index_key_order(prefix, first, second);
    lemma_index_key_order(prefix, second, first);
    lemma_lex_irreflexive(index_key(prefix, first));
}

/// The bytes of an index give the index back.
pub proof fn lemma_be_value_of_bytes(index: u64)
    ensures
        be_value(be_bytes(index)) == index,
{
    let bytes = be_bytes(index);
    let (b0, b1, b2, b3) = (bytes[0], bytes[1], bytes[2], bytes[3]);
    let (b4, b5, b6, b7) = (bytes[4], bytes[5], bytes[6], bytes[7]);
    assert(((b0 as u64) << 56) | ((b1 as u64) << 48) | ((b2 as u64) << 40) | ((b3 as u64) << 32)
        | ((b4 as u64) << 24) | ((b5 as u64) << 16) | ((b6 as u64) << 8) | (b7 as u64) == index)
        by (bit_vector)
        requires
            b0 == (index >> 56) as u8,
            b1 == ((index >> 48) & 0xff) as u8,
            b2 == ((index >> 40) & 0xff) as u8,
            b3 == ((index >> 32) & 0xff) as u8,
            b4 == ((index >> 24) & 0xff) as u8,
            b5 == ((index >> 16) & 0xff) as u8,
            b6 == ((index >> 8) & 0xff) as u8,
            b7 == (index & 0xff) as u8,
    ;
}

/// The key of a slot gives its prefix and its index back, whatever follows
/// its ninth byte.
pub proof fn lemma_slot_index(key: Seq<u8>, prefix: u8, index: u64)
    requires
        key.len() >= 9,
        key.subrange(0, 9) == index_key(prefix, index),
    ensures
        has_prefix(key, prefix),
        slot_index(key) == index,
{
    assert(key[0] == key.subrange(0, 9)[0]);
    assert(key.subrange(1, 9) =~= be_bytes(index)) by {
        assert forall|at: int| 0 <= at < 8 implies key.subrange(1, 9)[at] == be_bytes(
            index,
        )[at] by {
            assert(key.subrange(1, 9)[at] == key.subrange(0, 9)[at + 1]);
        }
    }
    lemma_be_value_of_bytes(index);
}

/// A key is not before its own beginning.
pub proof fn lemma_not_before_beginning(key: Seq<u8>, len: int)
    requires
        0 <= len <= key.len(),
    ensures
        !lex_lt(key, key.subrange(0, len)),
{
}

/// A key is before every key that starts with a greater byte.
pub proof fn lemma_prefix_order(first: Seq<u8>, second: Seq<u8>)
    requires
        first.len() > 0,
        second.len() > 0,
        first[0] < second[0],
    ensures
        lex_lt(first, second),
{
    assert(precedes_at(first, second, 0));
}

/// Of two keys in order, the first does not start with the greater byte.
pub proof fn lemma_order_prefix(first: Seq<u8>, second: Seq<u8>)
    requires
        lex_lt(first, second),
        first.len() > 0,
    ensures
        second.len() > 0,
        first[0] <= second[0],
{
}

} // verus!

//! The encoding, stated as specification functions on a byte sequence.
//!
//! Each function reads at a position and gives either what stands there
//! together with the position just past it, or the error that reading there
//! meets first. The decoder's contracts are stated over these functions.
use crate::cbor::cursor::{byte_at, bytes_at};
use crate::cbor::error::DecodeError;
use crate::cbor::value::Value;
use vstd::prelude::*;

verus! {

/// The major type: the top three bits of an item's first byte.
pub open spec fn major_type(first: u8) -> u8 {
    first >> 5
}

/// The additional information: the low five bits of an item's first byte.
pub open spec fn additional_info(first: u8) -> u8 {
    first & 0x1f
}

/// The number that a byte sequence spells, most significant byte first.
pub open spec fn be_value(bytes: Seq<u8>) -> nat
    decreases bytes.len(),
{
    if bytes.len() == 0 {
        0
    } else {
        be_value(bytes.drop_last()) * 256 + bytes.last() as nat
    }
}

/// How many bytes after the first hold the argument, by additional
/// information: none where the information is the argument itself.
pub open spec fn argument_width(info: u8) -> nat {
    if info == 24 {
        1
    } else if info == 25 {
        2
    } else if info == 26 {
        4
    } else if info == 27 {
        8
    } else {
        0
    }
}

/// The argument of the head at `pos`, and the position after the head.
///
/// Additional information 0 to 23 is the argument; 24 to 27 announce 1, 2,
/// 4 or 8 bytes that spell it; 28 to 30 are reserved; 31 marks an indefinite
/// length. The major type plays no part.
pub open spec fn head_at(s: Seq<u8>, pos: int) -> Result<(u64, int), DecodeError> {
    match byte_at(s, pos) {
        Err(e) => Err(e),
        Ok(first) => {
            let info = additional_info(first);
            if info < 24 {
                Ok((info as u64, pos + 1))
            } else if info <= 27 {
                match bytes_at(s, pos + 1, argument_width(info) as int) {
                    Err(e) => Err(e),
                    Ok(spelled) => Ok((be_value(spelled) as u64, pos + 1 + argument_width(info))),
                }
            } else if info < 31 {
                Err(DecodeError::MalformedInput)
            } else {
                Err(DecodeError::UnsupportedIndefiniteLength)
            }
        },
    }
}

/// The negative integer whose head stands at `pos`: -1 minus the argument,
/// where that fits in 64 signed bits.
pub open spec fn negative_at(s: Seq<u8>, pos: int) -> Result<(i64, int), DecodeError> {
    match head_at(s, pos) {
        Err(e) => Err(e),
        Ok((n, next)) => if n > i64::MAX {
            Err(DecodeError::MalformedInput)
        } else {
            Ok(((-1 - n) as i64, next))
        },
    }
}

/// The byte string whose head stands at `pos`: as many bytes as the
/// argument says, taken as they are.
pub open spec fn byte_string_at(s: Seq<u8>, pos: int) -> Result<(Seq<u8>, int), DecodeError> {
    match head_at(s, pos) {
        Err(e) => Err(e),
        Ok((len, next)) => if len > usize::MAX {
            Err(DecodeError::MalformedInput)
        } else {
            match bytes_at(s, next, len as int) {
                Err(e) => Err(e),
                Ok(content) => Ok((content, next + len)),
            }
        },
    }
}

/// Whether one of `entries` has `key` as its key.
pub open spec fn has_key(entries: Seq<(Value, Value)>, key: Value) -> bool {
    exists|i: int| 0 <= i < entries.len() && (#[trigger] entries[i]).0 == key
}

/// The item at `pos`, chosen by the major type of its first byte.
///
/// `depth` is how many levels of arrays and maps may still be opened from
/// here; `unique_keys` says whether a map that holds a key twice is
/// malformed.
pub open spec fn item_at(s: Seq<u8>, pos: int, depth: nat, unique_keys: bool) -> Result<
    (Value, int),
    DecodeError,
>
    decreases depth, 0nat, 1nat,
{
    match byte_at(s, pos) {
        Err(e) => Err(e),
        Ok(first) => {
            let major = major_type(first);
            if major == 0 {
                match head_at(s, pos) {
                    Err(e) => Err(e),
                    Ok((n, next)) => Ok((Value::UnsignedInteger(n), next)),
                }
            } else if major == 1 {
                match negative_at(s, pos) {
                    Err(e) => Err(e),
                    Ok((n, next)) => Ok((Value::NegativeInteger(n), next)),
                }
            } else if major == 2 {
                match byte_string_at(s, pos) {
                    Err(e) => Err(e),
                    Ok((content, next)) => Ok((Value::ByteString(content), next)),
                }
            } else if major == 3 {
                Err(DecodeError::Unimplemented)
            } else if major == 4 {
                match array_at(s, pos, depth, unique_keys) {
                    Err(e) => Err(e),
                    Ok((items, next)) => Ok((Value::Array(items), next)),
                }
            } else if major == 5 {
                match map_at(s, pos, depth, unique_keys) {
                    Err(e) => Err(e),
                    Ok((entries, next)) => Ok((Value::MapEntries(entries), next)),
                }
            } else if major == 6 {
                match head_at(s, pos) {
                    Err(e) => Err(e),
                    Ok((n, next)) => Ok((Value::Tag(n), next)),
                }
            } else if major == 7 {
                Err(DecodeError::Unimplemented)
            } else {
                Err(DecodeError::MalformedInput)
            }
        },
    }
}

/// The array whose head stands at `pos`: as many items as the argument
/// says, one after the other. Opening it takes one level of `depth`.
pub open spec fn array_at(s: Seq<u8>, pos: int, depth: nat, unique_keys: bool) -> Result<
    (Seq<Value>, int),
    DecodeError,
>
    decreases depth, 0nat, 0nat,
{
    if depth == 0 {
        Err(DecodeError::RecursionLimitExceeded)
    } else {
        match head_at(s, pos) {
            Err(e) => Err(e),
            Ok((count, next)) => items_at(s, next, count as nat, (depth - 1) as nat, unique_keys),
        }
    }
}

/// The map whose head stands at `pos`: as many pairs as the argument says,
/// each a key and then a value. Opening it takes one level of `depth`.
pub open spec fn map_at(s: Seq<u8>, pos: int, depth: nat, unique_keys: bool) -> Result<
    (Seq<(Value, Value)>, int),
    DecodeError,
>
    decreases depth, 0nat, 0nat,
{
    if depth == 0 {
        Err(DecodeError::RecursionLimitExceeded)
    } else {
        match head_at(s, pos) {
            Err(e) => Err(e),
            Ok((count, next)) => entries_at(
                s,
                next,
                count as nat,
                (depth - 1) as nat,
                unique_keys,
            ),
        }
    }
}

/// The first `count` items from `pos` on, in order, and the position after
/// the last. The first item that fails fails them all.
pub open spec fn items_at(
    s: Seq<u8>,
    pos: int,
    count: nat,
    depth: nat,
    unique_keys: bool,
) -> Result<(Seq<Value>, int), DecodeError>
    decreases depth, count, 0nat,
{
    if count == 0 {
        Ok((Seq::empty(), pos))
    } else {
        match items_at(s, pos, (count - 1) as nat, depth, unique_keys) {
            Err(e) => Err(e),
            Ok((items, next)) => match item_at(s, next, depth, unique_keys) {
                Err(e) => Err(e),
                Ok((item, end)) => Ok((items.push(item), end)),
            },
        }
    }
}

/// The first `count` pairs from `pos` on, in order, and the position after
/// the last. With `unique_keys`, a key that an earlier pair has is malformed,
/// and is found before the value behind it is read.
pub open spec fn entries_at(
    s: Seq<u8>,
    pos: int,
    count: nat,
    depth: nat,
    unique_keys: bool,
) -> Result<(Seq<(Value, Value)>, int), DecodeError>
    decreases depth, count, 0nat,
{
    if count == 0 {
        Ok((Seq::empty(), pos))
    } else {
        match entries_at(s, pos, (count - 1) as nat, depth, unique_keys) {
            Err(e) => Err(e),
            Ok((entries, key_pos)) => match item_at(s, key_pos, depth, unique_keys) {
                Err(e) => Err(e),
                Ok((key, value_pos)) => if unique_keys && has_key(entries, key) {
                    Err(DecodeError::MalformedInput)
                } else {
                    match item_at(s, value_pos, depth, unique_keys) {
                        Err(e) => Err(e),
                        Ok((value, end)) => Ok((entries.push((key, value)), end)),
                    }
                },
            },
        }
    }
}

/// How many levels of arrays and maps a document may nest unless the
/// decoder is told otherwise.
pub const DEFAULT_MAX_DEPTH: usize = 256;

/// What decoding a whole buffer gives: the one item at its start, read with
/// the default depth and with duplicate keys allowed.
pub open spec fn document_of(s: Seq<u8>) -> Result<Seq<Value>, DecodeError> {
    match item_at(s, 0, DEFAULT_MAX_DEPTH as nat, false) {
        Err(e) => Err(e),
        Ok((value, next)) => Ok(seq![value]),
    }
}

/// 256 to the power `n`.
pub open spec fn pow256(n: nat) -> nat
    decreases n,
{
    if n == 0 {
        1
    } else {
        256 * pow256((n - 1) as nat)
    }
}

/// A sequence of `n` bytes spells a number below 256 to the `n`.
pub proof fn lemma_be_value_bound(bytes: Seq<u8>)
    ensures
        be_value(bytes) < pow256(bytes.len()),
    decreases bytes.len(),
{
    if bytes.len() > 0 {
        lemma_be_value_bound(bytes.drop_last());
    }
}

/// Up to eight bytes spell a number that fits in 64 bits.
pub proof fn lemma_be_value_fits(bytes: Seq<u8>)
    requires
        bytes.len() <= 8,
    ensures
        be_value(bytes) <= u64::MAX,
{
    lemma_be_value_bound(bytes);
    reveal_with_fuel(pow256, 9);
}

/// The major type is the first byte divided by 32, the additional
/// information its remainder.
pub proof fn lemma_first_byte(first: u8)
    ensures
        major_type(first) == first / 32,
        additional_info(first) == first % 32,
        major_type(first) < 8,
        additional_info(first) < 32,
{
    assert(first >> 5 == first / 32) by (bit_vector);
    assert(first & 0x1f == first % 32) by (bit_vector);
}

/// Once the first `failed` items fail, any larger count of them fails with
/// the same error.
pub proof fn lemma_items_error_stays(
    s: Seq<u8>,
    pos: int,
    failed: nat,
    count: nat,
    depth: nat,
    unique_keys: bool,
)
    requires
        failed <= count,
        items_at(s, pos, failed, depth, unique_keys) is Err,
    ensures
        items_at(s, pos, count, depth, unique_keys) == items_at(
            s,
            pos,
            failed,
            depth,
            unique_keys,
        ),
    decreases count,
{
    if failed < count {
        lemma_items_error_stays(s, pos, failed, (count - 1) as nat, depth, unique_keys);
    }
}

/// Once the first `failed` pairs fail, any larger count of them fails with
/// the same error.
pub proof fn lemma_entries_error_stays(
    s: Seq<u8>,
    pos: int,
    failed: nat,
    count: nat,
    depth: nat,
    unique_keys: bool,
)
    requires
        failed <= count,
        entries_at(s, pos, failed, depth, unique_keys) is Err,
    ensures
        entries_at(s, pos, count, depth, unique_keys) == entries_at(
            s,
            pos,
            failed,
            depth,
            unique_keys,
        ),
    decreases count,
{
    if failed < count {
        lemma_entries_error_stays(s, pos, failed, (count - 1) as nat, depth, unique_keys);
    }
}

} // verus!

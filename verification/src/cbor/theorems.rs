//! What holds of the encoding as a whole: that the shortest encodings of
//! integers and byte strings decode to what was encoded, that a container
//! holds as many items as it announces, in the order of the stream, and that
//! decoding is a function of the bytes.
use crate::cbor::cursor::byte_at;
use crate::cbor::decoder::decodes_to;
use crate::cbor::encoding::{
    additional_info, argument_width, array_at, be_value, document_of, entries_at, has_key,
    head_at, item_at, items_at, lemma_entries_error_stays, lemma_first_byte,
    lemma_items_error_stays, major_type, map_at, pow256,
};
use crate::cbor::error::DecodeError;
use crate::cbor::value::{CBORObject, Value};
use vstd::prelude::*;
use vstd::std_specs::cmp::PartialEqSpec;

verus! {

/// The `width` bytes that spell `n`, most significant byte first.
pub open spec fn be_bytes(n: nat, width: nat) -> Seq<u8>
    decreases width,
{
    if width == 0 {
        Seq::empty()
    } else {
        be_bytes(n / 256, (width - 1) as nat).push((n % 256) as u8)
    }
}

/// The first byte of an item of major type `major` (below 8) with
/// additional information `info` (below 32).
pub open spec fn first_byte(major: u8, info: u8) -> u8 {
    (major * 32 + info) as u8
}

/// The head that carries `argument` under `major` in the width that `info`
/// announces: 24, 25, 26 or 27 for 1, 2, 4 or 8 bytes.
pub open spec fn wide_head_bytes(major: u8, info: u8, argument: u64) -> Seq<u8> {
    seq![first_byte(major, info)] + be_bytes(argument as nat, argument_width(info))
}

/// The shortest head that carries `argument` under `major`.
pub open spec fn head_bytes(major: u8, argument: u64) -> Seq<u8> {
    if argument < 24 {
        seq![first_byte(major, argument as u8)]
    } else if argument < 0x100 {
        wide_head_bytes(major, 24, argument)
    } else if argument < 0x1_0000 {
        wide_head_bytes(major, 25, argument)
    } else if argument < 0x1_0000_0000 {
        wide_head_bytes(major, 26, argument)
    } else {
        wide_head_bytes(major, 27, argument)
    }
}

/// `be_bytes` gives as many bytes as asked for, and where the number fits
/// in them, they spell it.
pub proof fn lemma_be_bytes_spell(n: nat, width: nat)
    ensures
        be_bytes(n, width).len() == width,
        n < pow256(width) ==> be_value(be_bytes(n, width)) == n,
    decreases width,
{
    if width > 0 {
        let shorter = be_bytes(n / 256, (width - 1) as nat);
        lemma_be_bytes_spell(n / 256, (width - 1) as nat);
        assert(be_bytes(n, width).drop_last() =~= shorter);
    }
}

/// The first byte made of a major type and an additional information gives
/// both back.
pub proof fn lemma_first_byte_parts(major: u8, info: u8)
    requires
        major < 8,
        info < 32,
    ensures
        major_type(first_byte(major, info)) == major,
        additional_info(first_byte(major, info)) == info,
{
    lemma_first_byte(first_byte(major, info));
}

/// A head in any of the four widths, whatever follows it, reads back as its
/// argument, and ends where its bytes end.
pub proof fn theorem_wide_head_reads_back(major: u8, info: u8, argument: u64, rest: Seq<u8>)
    requires
        major < 8,
        24 <= info <= 27,
        argument < pow256(argument_width(info)),
    ensures
        wide_head_bytes(major, info, argument).len() == 1 + argument_width(info),
        head_at(wide_head_bytes(major, info, argument) + rest, 0) == Ok::<(u64, int), DecodeError>(
            (argument, 1 + argument_width(info) as int),
        ),
        byte_at(wide_head_bytes(major, info, argument) + rest, 0) == Ok::<u8, DecodeError>(
            first_byte(major, info),
        ),
{
    let width = argument_width(info);
    let spelled = be_bytes(argument as nat, width);
    let s = wide_head_bytes(major, info, argument) + rest;
    lemma_be_bytes_spell(argument as nat, width);
    lemma_first_byte_parts(major, info);
    assert(s[0] == first_byte(major, info));
    assert(s.subrange(1, 1 + width as int) =~= spelled);
}

/// The shortest head of an argument, whatever follows it, reads back as
/// that argument, and ends where its bytes end.
pub proof fn theorem_head_reads_back(major: u8, argument: u64, rest: Seq<u8>)
    requires
        major < 8,
    ensures
        head_at(head_bytes(major, argument) + rest, 0) == Ok::<(u64, int), DecodeError>(
            (argument, head_bytes(major, argument).len() as int),
        ),
        byte_at(head_bytes(major, argument) + rest, 0) is Ok,
        major_type(byte_at(head_bytes(major, argument) + rest, 0)->Ok_0) == major,
{
    reveal_with_fuel(pow256, 9);
    if argument < 24 {
        lemma_first_byte_parts(major, argument as u8);
        let s = head_bytes(major, argument) + rest;
        assert(s[0] == first_byte(major, argument as u8));
    } else if argument < 0x100 {
        theorem_wide_head_reads_back(major, 24, argument, rest);
        lemma_first_byte_parts(major, 24);
    } else if argument < 0x1_0000 {
        theorem_wide_head_reads_back(major, 25, argument, rest);
        lemma_first_byte_parts(major, 25);
    } else if argument < 0x1_0000_0000 {
        theorem_wide_head_reads_back(major, 26, argument, rest);
        lemma_first_byte_parts(major, 26);
    } else {
        theorem_wide_head_reads_back(major, 27, argument, rest);
        lemma_first_byte_parts(major, 27);
    }
}

/// Every unsigned integer, encoded in the shortest form, decodes to itself,
/// whatever follows it in the buffer.
pub proof fn theorem_unsigned_integer_decodes(v: u64, rest: Seq<u8>)
    ensures
        document_of(head_bytes(0, v) + rest) == Ok::<Seq<Value>, DecodeError>(
            seq![Value::UnsignedInteger(v)],
        ),
{
    theorem_head_reads_back(0, v, rest);
}

/// An unsigned integer decodes to itself in every width that holds it, not
/// only in the shortest: what an item is does not depend on how long its
/// encoding was chosen.
pub proof fn theorem_unsigned_integer_decodes_in_any_width(v: u64, info: u8, rest: Seq<u8>)
    requires
        24 <= info <= 27,
        v < pow256(argument_width(info)),
    ensures
        document_of(wide_head_bytes(0, info, v) + rest) == Ok::<Seq<Value>, DecodeError>(
            seq![Value::UnsignedInteger(v)],
        ),
{
    theorem_wide_head_reads_back(0, info, v, rest);
    lemma_first_byte_parts(0, info);
}

/// The negative integer -1 - n, encoded in the shortest form, decodes to
/// itself where n is at most `i64::MAX`; above that the encoding is
/// malformed.
pub proof fn theorem_negative_integer_decodes(n: u64, rest: Seq<u8>)
    ensures
        n <= i64::MAX ==> document_of(head_bytes(1, n) + rest) == Ok::<Seq<Value>, DecodeError>(
            seq![Value::NegativeInteger((-1 - n) as i64)],
        ),
        n > i64::MAX ==> document_of(head_bytes(1, n) + rest) == Err::<Seq<Value>, DecodeError>(
            DecodeError::MalformedInput,
        ),
{
    theorem_head_reads_back(1, n, rest);
}

/// A byte string behind the shortest head of its length decodes to exactly
/// its bytes, whatever follows it in the buffer. The length is one that the
/// machine can address.
pub proof fn theorem_byte_string_decodes(content: Seq<u8>, rest: Seq<u8>)
    requires
        content.len() <= usize::MAX,
        content.len() <= u64::MAX,
    ensures
        document_of(head_bytes(2, content.len() as u64) + content + rest) == Ok::<
            Seq<Value>,
            DecodeError,
        >(seq![Value::ByteString(content)]),
{
    let head = head_bytes(2, content.len() as u64);
    let s = head + content + rest;
    theorem_head_reads_back(2, content.len() as u64, content + rest);
    assert(s =~= head + (content + rest));
    assert(s.subrange(head.len() as int, (head.len() + content.len()) as int) =~= content);
}

/// Decoding is a function of the bytes: two results of decoding one buffer
/// are both errors, and then the same error, or both documents, and then
/// equal ones.
pub proof fn theorem_decoding_twice_agrees(
    bytes: Seq<u8>,
    first: Result<CBORObject, DecodeError>,
    second: Result<CBORObject, DecodeError>,
)
    requires
        decodes_to(bytes, first),
        decodes_to(bytes, second),
    ensures
        first is Ok <==> second is Ok,
        first is Ok ==> first->Ok_0@ == second->Ok_0@ && first->Ok_0.eq_spec(&second->Ok_0),
        first is Err ==> first == second,
{
}

/// Of the items of a run that decodes, the first `k` are the run of `k`
/// items from the same position: each item stands where the ones before it
/// end.
pub proof fn lemma_items_prefix(
    s: Seq<u8>,
    pos: int,
    k: nat,
    count: nat,
    depth: nat,
    unique_keys: bool,
)
    requires
        k <= count,
        items_at(s, pos, count, depth, unique_keys) is Ok,
    ensures
        items_at(s, pos, k, depth, unique_keys) is Ok,
        items_at(s, pos, count, depth, unique_keys)->Ok_0.0.len() == count,
        items_at(s, pos, k, depth, unique_keys)->Ok_0.0 == items_at(
            s,
            pos,
            count,
            depth,
            unique_keys,
        )->Ok_0.0.subrange(0, k as int),
    decreases count,
{
    let all = items_at(s, pos, count, depth, unique_keys)->Ok_0.0;
    if count == 0 {
        assert(all.subrange(0, 0) =~= all);
    } else {
        let fewer = items_at(s, pos, (count - 1) as nat, depth, unique_keys)->Ok_0.0;
        lemma_items_prefix(s, pos, (count - 1) as nat, (count - 1) as nat, depth, unique_keys);
        if k < count {
            lemma_items_prefix(s, pos, k, (count - 1) as nat, depth, unique_keys);
            assert(fewer.subrange(0, k as int) =~= all.subrange(0, k as int));
        } else {
            assert(all.subrange(0, k as int) =~= all);
        }
    }
}

/// Of the pairs of a run that decodes, the first `k` are the run of `k`
/// pairs from the same position.
pub proof fn lemma_entries_prefix(
    s: Seq<u8>,
    pos: int,
    k: nat,
    count: nat,
    depth: nat,
    unique_keys: bool,
)
    requires
        k <= count,
        entries_at(s, pos, count, depth, unique_keys) is Ok,
    ensures
        entries_at(s, pos, k, depth, unique_keys) is Ok,
        entries_at(s, pos, count, depth, unique_keys)->Ok_0.0.len() == count,
        entries_at(s, pos, k, depth, unique_keys)->Ok_0.0 == entries_at(
            s,
            pos,
            count,
            depth,
            unique_keys,
        )->Ok_0.0.subrange(0, k as int),
    decreases count,
{
    let all = entries_at(s, pos, count, depth, unique_keys)->Ok_0.0;
    if count == 0 {
        assert(all.subrange(0, 0) =~= all);
    } else {
        let fewer = entries_at(s, pos, (count - 1) as nat, depth, unique_keys)->Ok_0.0;
        lemma_entries_prefix(s, pos, (count - 1) as nat, (count - 1) as nat, depth, unique_keys);
        if k < count {
            lemma_entries_prefix(s, pos, k, (count - 1) as nat, depth, unique_keys);
            assert(fewer.subrange(0, k as int) =~= all.subrange(0, k as int));
        } else {
            assert(all.subrange(0, k as int) =~= all);
        }
    }
}

/// An array that decodes holds exactly as many items as its head announces,
/// and its item `i` is the item that stands where the `i` items before it
/// end.
pub proof fn theorem_array_holds_announced_items(
    s: Seq<u8>,
    pos: int,
    depth: nat,
    unique_keys: bool,
    i: nat,
)
    requires
        array_at(s, pos, depth, unique_keys) is Ok,
    ensures
        depth > 0,
        head_at(s, pos) is Ok,
        array_at(s, pos, depth, unique_keys)->Ok_0.0.len() == head_at(s, pos)->Ok_0.0,
        i < head_at(s, pos)->Ok_0.0 ==> {
            let first = head_at(s, pos)->Ok_0.1;
            let before = items_at(s, first, i, (depth - 1) as nat, unique_keys);
            let here = item_at(s, before->Ok_0.1, (depth - 1) as nat, unique_keys);
            &&& before is Ok
            &&& here is Ok
            &&& array_at(s, pos, depth, unique_keys)->Ok_0.0[i as int] == here->Ok_0.0
        },
{
    let count = head_at(s, pos)->Ok_0.0 as nat;
    let first = head_at(s, pos)->Ok_0.1;
    let inner = (depth - 1) as nat;
    lemma_items_prefix(s, first, count, count, inner, unique_keys);
    if i < count {
        lemma_items_prefix(s, first, i, count, inner, unique_keys);
        lemma_items_prefix(s, first, i + 1, count, inner, unique_keys);
    }
}

/// A map that decodes holds exactly as many pairs as its head announces,
/// and its pair `i` is the key and the value that stand where the `i` pairs
/// before it end.
pub proof fn theorem_map_holds_announced_pairs(
    s: Seq<u8>,
    pos: int,
    depth: nat,
    unique_keys: bool,
    i: nat,
)
    requires
        map_at(s, pos, depth, unique_keys) is Ok,
    ensures
        depth > 0,
        head_at(s, pos) is Ok,
        map_at(s, pos, depth, unique_keys)->Ok_0.0.len() == head_at(s, pos)->Ok_0.0,
        i < head_at(s, pos)->Ok_0.0 ==> {
            let first = head_at(s, pos)->Ok_0.1;
            let before = entries_at(s, first, i, (depth - 1) as nat, unique_keys);
            let key = item_at(s, before->Ok_0.1, (depth - 1) as nat, unique_keys);
            let value = item_at(s, key->Ok_0.1, (depth - 1) as nat, unique_keys);
            &&& before is Ok
            &&& key is Ok
            &&& value is Ok
            &&& map_at(s, pos, depth, unique_keys)->Ok_0.0[i as int] == (key->Ok_0.0, value->Ok_0.0)
        },
{
    let count = head_at(s, pos)->Ok_0.0 as nat;
    let first = head_at(s, pos)->Ok_0.1;
    let inner = (depth - 1) as nat;
    lemma_entries_prefix(s, first, count, count, inner, unique_keys);
    if i < count {
        lemma_entries_prefix(s, first, i, count, inner, unique_keys);
        lemma_entries_prefix(s, first, i + 1, count, inner, unique_keys);
    }
}

/// An array whose input ends after fewer items than its head announces
/// fails with the end of input: it never comes out short.
pub proof fn theorem_truncated_array_fails(
    s: Seq<u8>,
    pos: int,
    depth: nat,
    unique_keys: bool,
    present: nat,
)
    requires
        depth > 0,
        head_at(s, pos) is Ok,
        present < head_at(s, pos)->Ok_0.0,
        items_at(s, head_at(s, pos)->Ok_0.1, present, (depth - 1) as nat, unique_keys) is Ok,
        items_at(s, head_at(s, pos)->Ok_0.1, present, (depth - 1) as nat, unique_keys)->Ok_0.1
            >= s.len(),
    ensures
        array_at(s, pos, depth, unique_keys) == Err::<(Seq<Value>, int), DecodeError>(
            DecodeError::UnexpectedEndOfInput,
        ),
{
    let count = head_at(s, pos)->Ok_0.0 as nat;
    let first = head_at(s, pos)->Ok_0.1;
    let inner = (depth - 1) as nat;
    let end = items_at(s, first, present, inner, unique_keys)->Ok_0.1;
    let one_more = (present + 1) as nat;
    assert(item_at(s, end, inner, unique_keys) == Err::<(Value, int), DecodeError>(
        DecodeError::UnexpectedEndOfInput,
    ));
    assert((one_more - 1) as nat == present);
    assert(items_at(s, first, one_more, inner, unique_keys) == Err::<
        (Seq<Value>, int),
        DecodeError,
    >(DecodeError::UnexpectedEndOfInput));
    lemma_items_error_stays(s, first, one_more, count, inner, unique_keys);
}

/// A map whose input ends after fewer pairs than its head announces, or
/// between a key and its value, fails with the end of input.
pub proof fn theorem_truncated_map_fails(
    s: Seq<u8>,
    pos: int,
    depth: nat,
    unique_keys: bool,
    present: nat,
)
    requires
        depth > 0,
        head_at(s, pos) is Ok,
        present < head_at(s, pos)->Ok_0.0,
        entries_at(s, head_at(s, pos)->Ok_0.1, present, (depth - 1) as nat, unique_keys) is Ok,
        ({
            let inner = (depth - 1) as nat;
            let key_pos = entries_at(
                s,
                head_at(s, pos)->Ok_0.1,
                present,
                inner,
                unique_keys,
            )->Ok_0.1;
            let entries = entries_at(
                s,
                head_at(s, pos)->Ok_0.1,
                present,
                inner,
                unique_keys,
            )->Ok_0.0;
            let key = item_at(s, key_pos, inner, unique_keys);
            ||| key_pos >= s.len()
            ||| key is Ok && key->Ok_0.1 >= s.len() && !(unique_keys && has_key(
                entries,
                key->Ok_0.0,
            ))
        }),
    ensures
        map_at(s, pos, depth, unique_keys) == Err::<(Seq<(Value, Value)>, int), DecodeError>(
            DecodeError::UnexpectedEndOfInput,
        ),
{
    let count = head_at(s, pos)->Ok_0.0 as nat;
    let first = head_at(s, pos)->Ok_0.1;
    let inner = (depth - 1) as nat;
    let key_pos = entries_at(s, first, present, inner, unique_keys)->Ok_0.1;
    let key = item_at(s, key_pos, inner, unique_keys);
    let one_more = (present + 1) as nat;
    if key_pos >= s.len() {
        assert(key == Err::<(Value, int), DecodeError>(DecodeError::UnexpectedEndOfInput));
    } else {
        assert(item_at(s, key->Ok_0.1, inner, unique_keys) == Err::<(Value, int), DecodeError>(
            DecodeError::UnexpectedEndOfInput,
        ));
    }
    assert((one_more - 1) as nat == present);
    assert(entries_at(s, first, one_more, inner, unique_keys) == Err::<
        (Seq<(Value, Value)>, int),
        DecodeError,
    >(DecodeError::UnexpectedEndOfInput));
    lemma_entries_error_stays(s, first, one_more, count, inner, unique_keys);
}

/// A head that reads ends behind its first byte and within the input.
pub proof fn lemma_head_ends_within_input(s: Seq<u8>, pos: int)
    requires
        head_at(s, pos) is Ok,
    ensures
        0 <= pos < head_at(s, pos)->Ok_0.1 <= s.len(),
{
}

/// An item that decodes takes at least one byte and ends within the input:
/// the cursor behind it stands just past its last byte.
pub proof fn theorem_item_ends_within_input(s: Seq<u8>, pos: int, depth: nat, unique_keys: bool)
    requires
        item_at(s, pos, depth, unique_keys) is Ok,
    ensures
        0 <= pos < item_at(s, pos, depth, unique_keys)->Ok_0.1 <= s.len(),
    decreases depth, 0nat, 1nat,
{
    let major = major_type(s[pos]);
    if major == 4 {
        let count = head_at(s, pos)->Ok_0.0 as nat;
        let first = head_at(s, pos)->Ok_0.1;
        lemma_items_end_within_input(s, first, count, (depth - 1) as nat, unique_keys);
    } else if major == 5 {
        let count = head_at(s, pos)->Ok_0.0 as nat;
        let first = head_at(s, pos)->Ok_0.1;
        lemma_entries_end_within_input(s, first, count, (depth - 1) as nat, unique_keys);
    }
}

/// A run of items that decodes from a position within the input ends
/// within the input, and not before it starts.
pub proof fn lemma_items_end_within_input(
    s: Seq<u8>,
    pos: int,
    count: nat,
    depth: nat,
    unique_keys: bool,
)
    requires
        0 <= pos <= s.len(),
        items_at(s, pos, count, depth, unique_keys) is Ok,
    ensures
        pos <= items_at(s, pos, count, depth, unique_keys)->Ok_0.1 <= s.len(),
    decreases depth, count, 0nat,
{
    if count > 0 {
        let before = items_at(s, pos, (count - 1) as nat, depth, unique_keys);
        lemma_items_end_within_input(s, pos, (count - 1) as nat, depth, unique_keys);
        theorem_item_ends_within_input(s, before->Ok_0.1, depth, unique_keys);
    }
}

/// A run of pairs that decodes from a position within the input ends
/// within the input, and not before it starts.
pub proof fn lemma_entries_end_within_input(
    s: Seq<u8>,
    pos: int,
    count: nat,
    depth: nat,
    unique_keys: bool,
)
    requires
        0 <= pos <= s.len(),
        entries_at(s, pos, count, depth, unique_keys) is Ok,
    ensures
        pos <= entries_at(s, pos, count, depth, unique_keys)->Ok_0.1 <= s.len(),
    decreases depth, count, 0nat,
{
    if count > 0 {
        let before = entries_at(s, pos, (count - 1) as nat, depth, unique_keys);
        lemma_entries_end_within_input(s, pos, (count - 1) as nat, depth, unique_keys);
        let key = item_at(s, before->Ok_0.1, depth, unique_keys);
        theorem_item_ends_within_input(s, before->Ok_0.1, depth, unique_keys);
        theorem_item_ends_within_input(s, key->Ok_0.1, depth, unique_keys);
    }
}

} // verus!

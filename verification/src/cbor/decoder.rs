//! The decoder: a recursive descent over a positioned byte cursor.
//!
//! Every reader either succeeds, and leaves the cursor just past what it
//! read, or fails, and leaves the decoder as it was. What it reads is stated
//! over the functions of [`crate::cbor::encoding`].
use crate::cbor::cursor::{bytes_at, Cursor};
use crate::cbor::encoding::{
    array_at, be_value, byte_string_at, document_of, entries_at, has_key, head_at, item_at,
    items_at, lemma_be_value_fits, lemma_entries_error_stays, lemma_first_byte,
    lemma_items_error_stays, map_at, negative_at, DEFAULT_MAX_DEPTH,
};
use crate::cbor::error::DecodeError;
pub use crate::cbor::value::{CBORMap, CBORObject, CBORType};
use crate::cbor::value::{
    entries_view, lemma_array_view, lemma_entries_view_push, lemma_map_view,
    lemma_values_view_push, values_view, Value,
};
use vstd::prelude::*;

verus! {

/// A cursor over the input, the items decoded from it so far, and the
/// decoder's settings.
#[derive(Debug)]
pub struct DecoderCursor {
    pub cursor: Cursor,
    pub decoded: CBORObject,
    /// How many levels of arrays and maps may still be opened at the
    /// cursor's position. An array or a map takes one level for what it
    /// holds; where none is left, it is refused.
    pub depth_remaining: usize,
    /// Whether a map that holds one key twice is refused. Off by default:
    /// the pairs are then kept as they come, duplicates included.
    pub reject_duplicate_keys: bool,
}

impl DecoderCursor {
    /// The bytes being decoded.
    pub open spec fn input(&self) -> Seq<u8> {
        self.cursor.buffer()
    }

    /// The position of the cursor in the input.
    pub open spec fn offset(&self) -> int {
        self.cursor.position() as int
    }

    /// The head at the cursor.
    pub open spec fn next_head(&self) -> Result<(u64, int), DecodeError> {
        head_at(self.input(), self.offset())
    }

    /// The negative integer at the cursor.
    pub open spec fn next_negative(&self) -> Result<(i64, int), DecodeError> {
        negative_at(self.input(), self.offset())
    }

    /// The byte string at the cursor.
    pub open spec fn next_byte_string(&self) -> Result<(Seq<u8>, int), DecodeError> {
        byte_string_at(self.input(), self.offset())
    }

    /// The array at the cursor, under the decoder's settings.
    pub open spec fn next_array(&self) -> Result<(Seq<Value>, int), DecodeError> {
        array_at(
            self.input(),
            self.offset(),
            self.depth_remaining as nat,
            self.reject_duplicate_keys,
        )
    }

    /// The map at the cursor, under the decoder's settings.
    pub open spec fn next_map(&self) -> Result<(Seq<(Value, Value)>, int), DecodeError> {
        map_at(
            self.input(),
            self.offset(),
            self.depth_remaining as nat,
            self.reject_duplicate_keys,
        )
    }

    /// The item at the cursor, under the decoder's settings.
    pub open spec fn next_item(&self) -> Result<(Value, int), DecodeError> {
        item_at(
            self.input(),
            self.offset(),
            self.depth_remaining as nat,
            self.reject_duplicate_keys,
        )
    }

    /// The input and the settings are those of `before`, and the cursor is
    /// within the input.
    pub open spec fn same_setup(&self, before: &DecoderCursor) -> bool {
        &&& self.input() == before.input()
        &&& self.depth_remaining == before.depth_remaining
        &&& self.reject_duplicate_keys == before.reject_duplicate_keys
        &&& 0 <= self.offset() <= self.input().len()
    }

    /// The decoder is `before` with the cursor moved to `pos`: the decoded
    /// items are untouched.
    pub open spec fn moved_from(&self, before: &DecoderCursor, pos: int) -> bool {
        &&& self.same_setup(before)
        &&& self.decoded == before.decoded
        &&& self.offset() == pos
    }

    /// The decoder is `before` with the cursor moved to `pos` and `value`
    /// appended to the decoded items.
    pub open spec fn kept_from(&self, before: &DecoderCursor, value: Value, pos: int) -> bool {
        &&& self.same_setup(before)
        &&& self.decoded@ == before.decoded@.push(value)
        &&& self.offset() == pos
    }

    /// A decoder at the start of `bytes`, with nothing decoded, the default
    /// depth and duplicate keys allowed.
    pub fn new(bytes: Vec<u8>) -> (decoder: DecoderCursor)
        ensures
            decoder.input() == bytes@,
            decoder.offset() == 0,
            decoder.decoded@ == Seq::<Value>::empty(),
            decoder.depth_remaining == DEFAULT_MAX_DEPTH,
            !decoder.reject_duplicate_keys,
    {
        let decoder = DecoderCursor {
            cursor: Cursor::new(bytes),
            decoded: CBORObject { values: Vec::new() },
            depth_remaining: DEFAULT_MAX_DEPTH,
            reject_duplicate_keys: false,
        };
        assert(decoder.decoded@ =~= Seq::<Value>::empty());
        decoder
    }

    /// Puts the cursor back to `position`.
    fn rewind(&mut self, position: usize)
        requires
            position <= old(self).input().len(),
        ensures
            final(self).moved_from(old(self), position as int),
    {
        let _ = self.cursor.set_position(position);
    }

    /// Appends `item` to the decoded items.
    fn keep(&mut self, item: CBORType)
        requires
            0 <= old(self).offset() <= old(self).input().len(),
        ensures
            final(self).kept_from(old(self), item@, old(self).offset()),
    {
        proof {
            lemma_values_view_push(self.decoded.values@, item);
        }
        self.decoded.values.push(item);
    }

    /// Reads the next `num` bytes as one number, most significant byte
    /// first. `num` is at most 8: more bytes do not fit in 64 bits.
    pub fn read_int_from_bytes(&mut self, num: usize) -> (r: Result<u64, DecodeError>)
        requires
            num <= 8,
        ensures
            match bytes_at(old(self).input(), old(self).offset(), num as int) {
                Ok(spelled) => {
                    &&& be_value(spelled) <= u64::MAX
                    &&& r == Ok::<u64, DecodeError>(be_value(spelled) as u64)
                    &&& final(self).moved_from(old(self), old(self).offset() + num)
                },
                Err(e) => {
                    &&& r == Err::<u64, DecodeError>(e)
                    &&& final(self).moved_from(old(self), old(self).offset())
                },
            },
    {
        let taken = match self.cursor.read_exact(num) {
            Ok(taken) => taken,
            Err(e) => {
                return Err(e);
            },
        };
        let mut result: u64 = 0;
        let mut i: usize = 0;
        while i < num
            invariant
                i <= num <= 8,
                taken@.len() == num,
                result == be_value(taken@.subrange(0, i as int)),
            decreases num - i,
        {
            proof {
                let longer = taken@.subrange(0, i + 1);
                assert(longer.drop_last() =~= taken@.subrange(0, i as int));
                lemma_be_value_fits(longer);
            }
            result = result * 256 + taken[i] as u64;
            i += 1;
        }
        proof {
            assert(taken@.subrange(0, num as int) =~= taken@);
        }
        Ok(result)
    }

    /// Reads the head at the cursor and returns its argument: the additional
    /// information itself up to 23, else the number that the 1, 2, 4 or 8
    /// bytes behind the first byte spell.
    pub fn read_int(&mut self) -> (r: Result<u64, DecodeError>)
        ensures
            match old(self).next_head() {
                Ok((n, next)) => {
                    &&& r == Ok::<u64, DecodeError>(n)
                    &&& final(self).moved_from(old(self), next)
                },
                Err(e) => {
                    &&& r == Err::<u64, DecodeError>(e)
                    &&& final(self).moved_from(old(self), old(self).offset())
                },
            },
    {
        let start = self.cursor.position();
        let first = match self.cursor.peek_byte() {
            Ok(first) => first,
            Err(e) => {
                return Err(e);
            },
        };
        let first_value = first & 0x1F;
        proof {
            lemma_first_byte(first);
        }
        // The byte that was peeked is there to be passed.
        let _ = self.cursor.advance(1);
        let r = match first_value {
            24 => self.read_int_from_bytes(1),
            25 => self.read_int_from_bytes(2),
            26 => self.read_int_from_bytes(4),
            27 => self.read_int_from_bytes(8),
            28..=30 => Err(DecodeError::MalformedInput),
            31 => Err(DecodeError::UnsupportedIndefiniteLength),
            _ => Ok(first_value as u64),
        };
        if r.is_err() {
            self.rewind(start);
        }
        r
    }

    /// Reads the head at the cursor and appends its argument to the decoded
    /// items: as a tag where `tag` is set, else as an unsigned integer.
    pub fn parse_int(&mut self, tag: bool) -> (r: Result<(), DecodeError>)
        ensures
            match old(self).next_head() {
                Ok((n, next)) => {
                    &&& r is Ok
                    &&& final(self).kept_from(
                        old(self),
                        if tag {
                            Value::Tag(n)
                        } else {
                            Value::UnsignedInteger(n)
                        },
                        next,
                    )
                },
                Err(e) => {
                    &&& r == Err::<(), DecodeError>(e)
                    &&& final(self).moved_from(old(self), old(self).offset())
                },
            },
    {
        let val = match self.read_int() {
            Ok(val) => val,
            Err(e) => {
                return Err(e);
            },
        };
        if tag {
            self.keep(CBORType::Tag(val));
        } else {
            self.keep(CBORType::Integer(val));
        }
        Ok(())
    }

    /// Reads a negative integer: -1 minus the argument of the head at the
    /// cursor. An argument above `i64::MAX` has no such value.
    pub fn read_signed_int(&mut self) -> (r: Result<CBORType, DecodeError>)
        ensures
            match old(self).next_negative() {
                Ok((n, next)) => {
                    &&& r == Ok::<CBORType, DecodeError>(CBORType::SignedInteger(n))
                    &&& final(self).moved_from(old(self), next)
                },
                Err(e) => {
                    &&& r == Err::<CBORType, DecodeError>(e)
                    &&& final(self).moved_from(old(self), old(self).offset())
                },
            },
    {
        let start = self.cursor.position();
        let uint = match self.read_int() {
            Ok(uint) => uint,
            Err(e) => {
                return Err(e);
            },
        };
        if uint > i64::MAX as u64 {
            self.rewind(start);
            return Err(DecodeError::MalformedInput);
        }
        let result: i64 = -1 - (uint as i64);
        Ok(CBORType::SignedInteger(result))
    }

    /// Reads a negative integer and appends it to the decoded items.
    pub fn parse_signed_int(&mut self) -> (r: Result<(), DecodeError>)
        ensures
            match old(self).next_negative() {
                Ok((n, next)) => {
                    &&& r is Ok
                    &&& final(self).kept_from(old(self), Value::NegativeInteger(n), next)
                },
                Err(e) => {
                    &&& r == Err::<(), DecodeError>(e)
                    &&& final(self).moved_from(old(self), old(self).offset())
                },
            },
    {
        let val = match self.read_signed_int() {
            Ok(val) => val,
            Err(e) => {
                return Err(e);
            },
        };
        self.keep(val);
        Ok(())
    }

    /// Reads an array: the head at the cursor says how many items it holds,
    /// and they follow one after the other. The first item that fails
    /// fails the array: a shorter array is never returned.
    #[verifier::loop_isolation(false)]
    pub fn read_array(&mut self) -> (r: Result<CBORType, DecodeError>)
        ensures
            match old(self).next_array() {
                Ok((items, next)) => {
                    &&& r is Ok
                    &&& r->Ok_0@ == Value::Array(items)
                    &&& final(self).moved_from(old(self), next)
                },
                Err(e) => {
                    &&& r == Err::<CBORType, DecodeError>(e)
                    &&& final(self).moved_from(old(self), old(self).offset())
                },
            },
        decreases old(self).depth_remaining, 0nat, 0nat,
    {
        let start = self.cursor.position();
        if self.depth_remaining == 0 {
            return Err(DecodeError::RecursionLimitExceeded);
        }
        // Read the length of the array.
        let num_items = match self.read_int() {
            Ok(num_items) => num_items,
            Err(e) => {
                return Err(e);
            },
        };
        let ghost s = self.input();
        let ghost first = self.offset();
        let ghost depth = (self.depth_remaining - 1) as nat;
        let ghost unique_keys = self.reject_duplicate_keys;
        self.depth_remaining = self.depth_remaining - 1;
        // Decode each of the num_items data items. Nothing is allocated
        // ahead for them: the array grows as they are found.
        let mut array: Vec<CBORType> = Vec::new();
        let mut item_num: u64 = 0;
        assert(values_view(array@) =~= Seq::<Value>::empty());
        while item_num < num_items
            invariant
                item_num <= num_items,
                self.input() == s,
                self.depth_remaining == depth,
                self.reject_duplicate_keys == unique_keys,
                self.decoded == old(self).decoded,
                0 <= self.offset() <= s.len(),
                items_at(s, first, item_num as nat, depth, unique_keys) == Ok::<
                    (Seq<Value>, int),
                    DecodeError,
                >((values_view(array@), self.offset())),
            decreases num_items - item_num,
        {
            match self.decode_item() {
                Ok(item) => {
                    proof {
                        lemma_values_view_push(array@, item);
                    }
                    array.push(item);
                },
                Err(e) => {
                    proof {
                        lemma_items_error_stays(
                            s,
                            first,
                            (item_num + 1) as nat,
                            num_items as nat,
                            depth,
                            unique_keys,
                        );
                    }
                    self.depth_remaining = self.depth_remaining + 1;
                    self.rewind(start);
                    return Err(e);
                },
            }
            item_num += 1;
        }
        self.depth_remaining = self.depth_remaining + 1;
        proof {
            lemma_array_view(array);
        }
        Ok(CBORType::Array(array))
    }

    /// Reads an array and appends it to the decoded items.
    pub fn parse_array(&mut self) -> (r: Result<(), DecodeError>)
        ensures
            match old(self).next_array() {
                Ok((items, next)) => {
                    &&& r is Ok
                    &&& final(self).kept_from(old(self), Value::Array(items), next)
                },
                Err(e) => {
                    &&& r == Err::<(), DecodeError>(e)
                    &&& final(self).moved_from(old(self), old(self).offset())
                },
            },
    {
        let array = match self.read_array() {
            Ok(array) => array,
            Err(e) => {
                return Err(e);
            },
        };
        self.keep(array);
        Ok(())
    }

    /// Reads a byte string: the head at the cursor says how long it is, and
    /// that many bytes follow. They are copied only once they are known to
    /// be there, so a length that the input cannot hold costs nothing.
    pub fn read_byte_string(&mut self) -> (r: Result<CBORType, DecodeError>)
        ensures
            match old(self).next_byte_string() {
                Ok((content, next)) => {
                    &&& r is Ok
                    &&& r->Ok_0@ == Value::ByteString(content)
                    &&& final(self).moved_from(old(self), next)
                },
                Err(e) => {
                    &&& r == Err::<CBORType, DecodeError>(e)
                    &&& final(self).moved_from(old(self), old(self).offset())
                },
            },
    {
        let start = self.cursor.position();
        let length = match self.read_int() {
            Ok(length) => length,
            Err(e) => {
                return Err(e);
            },
        };
        if length > usize::MAX as u64 {
            self.rewind(start);
            return Err(DecodeError::MalformedInput);
        }
        let length = length as usize;
        match self.cursor.read_exact(length) {
            Ok(byte_string) => Ok(CBORType::Bytes(byte_string)),
            Err(e) => {
                self.rewind(start);
                Err(e)
            },
        }
    }

    /// Reads a byte string and appends it to the decoded items.
    pub fn parse_byte_string(&mut self) -> (r: Result<(), DecodeError>)
        ensures
            match old(self).next_byte_string() {
                Ok((content, next)) => {
                    &&& r is Ok
                    &&& final(self).kept_from(old(self), Value::ByteString(content), next)
                },
                Err(e) => {
                    &&& r == Err::<(), DecodeError>(e)
                    &&& final(self).moved_from(old(self), old(self).offset())
                },
            },
    {
        let bytes = match self.read_byte_string() {
            Ok(bytes) => bytes,
            Err(e) => {
                return Err(e);
            },
        };
        self.keep(bytes);
        Ok(())
    }

    /// Whether one of `entries` has `key` as its key.
    fn holds_key(entries: &Vec<CBORMap>, key: &CBORType) -> (held: bool)
        ensures
            held == has_key(entries_view(entries@), key@),
    {
        let mut i: usize = 0;
        while i < entries.len()
            invariant
                i <= entries.len(),
                forall|j: int| 0 <= j < i ==> entries@[j].key@ != key@,
            decreases entries.len() - i,
        {
            if entries[i].key == *key {
                assert(entries_view(entries@)[i as int].0 == key@);
                return true;
            }
            i += 1;
        }
        false
    }

    /// Reads a map: the head at the cursor says how many pairs it holds, and
    /// for each a key and then a value follow. The pairs keep the order of
    /// the stream. A key met twice is kept twice, unless
    /// `reject_duplicate_keys` is set: then it fails the map.
    #[verifier::loop_isolation(false)]
    pub fn read_map(&mut self) -> (r: Result<CBORType, DecodeError>)
        ensures
            match old(self).next_map() {
                Ok((entries, next)) => {
                    &&& r is Ok
                    &&& r->Ok_0@ == Value::MapEntries(entries)
                    &&& final(self).moved_from(old(self), next)
                },
                Err(e) => {
                    &&& r == Err::<CBORType, DecodeError>(e)
                    &&& final(self).moved_from(old(self), old(self).offset())
                },
            },
        decreases old(self).depth_remaining, 0nat, 0nat,
    {
        let start = self.cursor.position();
        if self.depth_remaining == 0 {
            return Err(DecodeError::RecursionLimitExceeded);
        }
        let num_items = match self.read_int() {
            Ok(num_items) => num_items,
            Err(e) => {
                return Err(e);
            },
        };
        let ghost s = self.input();
        let ghost first = self.offset();
        let ghost depth = (self.depth_remaining - 1) as nat;
        let ghost unique_keys = self.reject_duplicate_keys;
        self.depth_remaining = self.depth_remaining - 1;
        let mut map: Vec<CBORMap> = Vec::new();
        let mut item_num: u64 = 0;
        assert(entries_view(map@) =~= Seq::<(Value, Value)>::empty());
        // Decode each of the num_items (key, data item) pairs.
        while item_num < num_items
            invariant
                item_num <= num_items,
                self.input() == s,
                self.depth_remaining == depth,
                self.reject_duplicate_keys == unique_keys,
                self.decoded == old(self).decoded,
                0 <= self.offset() <= s.len(),
                entries_at(s, first, item_num as nat, depth, unique_keys) == Ok::<
                    (Seq<(Value, Value)>, int),
                    DecodeError,
                >((entries_view(map@), self.offset())),
            decreases num_items - item_num,
        {
            proof {
                // Whatever fails this pair fails the map with the same error.
                if entries_at(s, first, (item_num + 1) as nat, depth, unique_keys) is Err {
                    lemma_entries_error_stays(
                        s,
                        first,
                        (item_num + 1) as nat,
                        num_items as nat,
                        depth,
                        unique_keys,
                    );
                }
            }
            let key_val = match self.decode_item() {
                Ok(key_val) => key_val,
                Err(e) => {
                    self.depth_remaining = self.depth_remaining + 1;
                    self.rewind(start);
                    return Err(e);
                },
            };
            if self.reject_duplicate_keys && Self::holds_key(&map, &key_val) {
                self.depth_remaining = self.depth_remaining + 1;
                self.rewind(start);
                return Err(DecodeError::MalformedInput);
            }
            let item_value = match self.decode_item() {
                Ok(item_value) => item_value,
                Err(e) => {
                    self.depth_remaining = self.depth_remaining + 1;
                    self.rewind(start);
                    return Err(e);
                },
            };
            let item = CBORMap { key: key_val, value: item_value };
            proof {
                lemma_entries_view_push(map@, item);
            }
            map.push(item);
            item_num += 1;
        }
        self.depth_remaining = self.depth_remaining + 1;
        proof {
            lemma_map_view(map);
        }
        Ok(CBORType::MapEntries(map))
    }

    /// Reads a map and appends it to the decoded items.
    pub fn parse_map(&mut self) -> (r: Result<(), DecodeError>)
        ensures
            match old(self).next_map() {
                Ok((entries, next)) => {
                    &&& r is Ok
                    &&& final(self).kept_from(old(self), Value::MapEntries(entries), next)
                },
                Err(e) => {
                    &&& r == Err::<(), DecodeError>(e)
                    &&& final(self).moved_from(old(self), old(self).offset())
                },
            },
    {
        let map = match self.read_map() {
            Ok(map) => map,
            Err(e) => {
                return Err(e);
            },
        };
        self.keep(map);
        Ok(())
    }

    /// Decodes the item at the cursor, whatever its kind: the major type of
    /// its first byte says which reader takes it. Text strings, floats and
    /// simple values are refused.
    pub fn decode_item(&mut self) -> (r: Result<CBORType, DecodeError>)
        ensures
            match old(self).next_item() {
                Ok((value, next)) => {
                    &&& r is Ok
                    &&& r->Ok_0@ == value
                    &&& final(self).moved_from(old(self), next)
                },
                Err(e) => {
                    &&& r == Err::<CBORType, DecodeError>(e)
                    &&& final(self).moved_from(old(self), old(self).offset())
                },
            },
        decreases old(self).depth_remaining, 0nat, 1nat,
    {
        let first = match self.cursor.peek_byte() {
            Ok(first) => first,
            Err(e) => {
                return Err(e);
            },
        };
        let major_type = first >> 5;
        proof {
            lemma_first_byte(first);
        }
        match major_type {
            0 => match self.read_int() {
                Ok(value) => Ok(CBORType::Integer(value)),
                Err(e) => Err(e),
            },
            1 => self.read_signed_int(),
            2 => self.read_byte_string(),
            3 => Err(DecodeError::Unimplemented),
            4 => self.read_array(),
            5 => self.read_map(),
            6 => match self.read_int() {
                Ok(value) => Ok(CBORType::Tag(value)),
                Err(e) => Err(e),
            },
            7 => Err(DecodeError::Unimplemented),
            // Three bits hold no other value.
            _ => Err(DecodeError::MalformedInput),
        }
    }
}

/// Decodes the item at the cursor and appends it to the decoded items. On
/// failure nothing is appended and the cursor stays where it was.
pub fn decode_item(decoder_cursor: &mut DecoderCursor) -> (r: Result<(), DecodeError>)
    ensures
        match old(decoder_cursor).next_item() {
            Ok((value, next)) => {
                &&& r is Ok
                &&& final(decoder_cursor).kept_from(old(decoder_cursor), value, next)
            },
            Err(e) => {
                &&& r == Err::<(), DecodeError>(e)
                &&& final(decoder_cursor).moved_from(
                    old(decoder_cursor),
                    old(decoder_cursor).offset(),
                )
            },
        },
{
    let first = match decoder_cursor.cursor.peek_byte() {
        Ok(first) => first,
        Err(e) => {
            return Err(e);
        },
    };
    let major_type = first >> 5;
    proof {
        lemma_first_byte(first);
    }
    match major_type {
        0 => decoder_cursor.parse_int(false),
        1 => decoder_cursor.parse_signed_int(),
        2 => decoder_cursor.parse_byte_string(),
        3 => Err(DecodeError::Unimplemented),
        4 => decoder_cursor.parse_array(),
        5 => decoder_cursor.parse_map(),
        6 => decoder_cursor.parse_int(true),
        7 => Err(DecodeError::Unimplemented),
        // Three bits hold no other value.
        _ => Err(DecodeError::MalformedInput),
    }
}

/// Whether `r` is what decoding `bytes` returns: the document that the
/// bytes spell, or the error that reading them meets first.
pub open spec fn decodes_to(bytes: Seq<u8>, r: Result<CBORObject, DecodeError>) -> bool {
    match document_of(bytes) {
        Ok(values) => r is Ok && r->Ok_0@ == values,
        Err(e) => r == Err::<CBORObject, DecodeError>(e),
    }
}

/// Reads the CBOR structure in `bytes` and returns it as a CBOR object: the
/// one item that starts the buffer. What follows that item is not read.
pub fn decode(bytes: Vec<u8>) -> (r: Result<CBORObject, DecodeError>)
    ensures
        decodes_to(bytes@, r),
{
    let mut decoder_cursor = DecoderCursor::new(bytes);
    match decode_item(&mut decoder_cursor) {
        Ok(()) => {
            assert(decoder_cursor.decoded@ =~= document_of(bytes@)->Ok_0);
            Ok(decoder_cursor.decoded)
        },
        Err(e) => Err(e),
    }
}

} // verus!

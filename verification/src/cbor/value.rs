//! The value tree that decoding produces, and its mathematical model.
use vstd::prelude::*;

verus! {

/// The mathematical model of one data item: what the contracts speak of.
///
/// Two items are the same item exactly when their models are equal, whatever
/// bytes they were decoded from.
pub enum Value {
    /// Major type 0.
    UnsignedInteger(u64),
    /// Major type 1. A decoded one is at most -1.
    NegativeInteger(i64),
    /// Major type 6: the tag number alone. A tag stands for itself here; it
    /// does not hold the item that follows it in the stream.
    Tag(u64),
    /// Major type 2.
    ByteString(Seq<u8>),
    /// Major type 3. No decoder produces it.
    TextString(Seq<char>),
    /// Major type 4: the elements in the order of the stream.
    Array(Seq<Value>),
    /// Major type 5: the (key, value) pairs in the order of the stream.
    MapEntries(Seq<(Value, Value)>),
}

/// One (key, value) pair of a map.
#[derive(Debug)]
pub struct CBORMap {
    pub key: CBORType,
    pub value: CBORType,
}

/// One decoded data item.
#[derive(Debug)]
pub enum CBORType {
    Integer(u64),
    SignedInteger(i64),
    /// The tag number alone: the item that follows a tag in the stream is
    /// an item of its own.
    Tag(u64),
    Bytes(Vec<u8>),
    /// Part of the type, but no decoder produces it.
    String(String),
    Array(Vec<CBORType>),
    /// The pairs of a map, in the order of the stream.
    MapEntries(Vec<CBORMap>),
}

/// The top-level items decoded from one buffer, in order.
#[derive(Debug)]
pub struct CBORObject {
    pub values: Vec<CBORType>,
}

/// The models of a sequence of items, element by element.
pub open spec fn values_view(items: Seq<CBORType>) -> Seq<Value> {
    Seq::new(items.len(), |i: int| items[i]@)
}

/// The models of a sequence of map pairs, pair by pair.
pub open spec fn entries_view(entries: Seq<CBORMap>) -> Seq<(Value, Value)> {
    Seq::new(entries.len(), |i: int| entries[i]@)
}

impl CBORType {
    /// The item as a mathematical value: containers become sequences of the
    /// models of what they hold.
    pub open spec fn model(self) -> Value
        decreases self,
    {
        match self {
            CBORType::Integer(v) => Value::UnsignedInteger(v),
            CBORType::SignedInteger(v) => Value::NegativeInteger(v),
            CBORType::Tag(v) => Value::Tag(v),
            CBORType::Bytes(b) => Value::ByteString(b@),
            CBORType::String(s) => Value::TextString(s@),
            CBORType::Array(items) => Value::Array(
                Seq::new(
                    items.len() as nat,
                    |i: int|
                        if 0 <= i < items.len() {
                            items[i].model()
                        } else {
                            arbitrary()
                        },
                ),
            ),
            CBORType::MapEntries(entries) => Value::MapEntries(
                Seq::new(
                    entries.len() as nat,
                    |i: int|
                        if 0 <= i < entries.len() {
                            (entries[i].key.model(), entries[i].value.model())
                        } else {
                            arbitrary()
                        },
                ),
            ),
        }
    }
}

impl View for CBORType {
    type V = Value;

    open spec fn view(&self) -> Value {
        self.model()
    }
}

impl View for CBORMap {
    type V = (Value, Value);

    open spec fn view(&self) -> (Value, Value) {
        (self.key@, self.value@)
    }
}

impl View for CBORObject {
    type V = Seq<Value>;

    open spec fn view(&self) -> Seq<Value> {
        values_view(self.values@)
    }
}

/// The model of an array is the array of its elements' models.
pub proof fn lemma_array_view(items: Vec<CBORType>)
    ensures
        CBORType::Array(items)@ == Value::Array(values_view(items@)),
{
    assert(CBORType::Array(items)@->Array_0 =~= values_view(items@));
}

/// The model of a map is the sequence of its pairs' models.
pub proof fn lemma_map_view(entries: Vec<CBORMap>)
    ensures
        CBORType::MapEntries(entries)@ == Value::MapEntries(entries_view(entries@)),
{
    assert(CBORType::MapEntries(entries)@->MapEntries_0 =~= entries_view(entries@));
}

/// Appending an item appends its model.
pub proof fn lemma_values_view_push(items: Seq<CBORType>, item: CBORType)
    ensures
        values_view(items.push(item)) == values_view(items).push(item@),
{
    assert(values_view(items.push(item)) =~= values_view(items).push(item@));
}

/// Appending a pair appends its model.
pub proof fn lemma_entries_view_push(entries: Seq<CBORMap>, entry: CBORMap)
    ensures
        entries_view(entries.push(entry)) == entries_view(entries).push(entry@),
{
    assert(entries_view(entries.push(entry)) =~= entries_view(entries).push(entry@));
}

/// Whether two byte strings hold the same bytes.
fn same_bytes(a: &Vec<u8>, b: &Vec<u8>) -> (r: bool)
    ensures
        r == (a@ == b@),
{
    if a.len() != b.len() {
        return false;
    }
    let mut i: usize = 0;
    while i < a.len()
        invariant
            i <= a.len(),
            a.len() == b.len(),
            a@.subrange(0, i as int) == b@.subrange(0, i as int),
        decreases a.len() - i,
    {
        if a[i] != b[i] {
            return false;
        }
        proof {
            assert(a@.subrange(0, i + 1) =~= a@.subrange(0, i as int).push(a@[i as int]));
            assert(b@.subrange(0, i + 1) =~= b@.subrange(0, i as int).push(b@[i as int]));
        }
        i += 1;
    }
    proof {
        assert(a@ =~= a@.subrange(0, a.len() as int));
        assert(b@ =~= b@.subrange(0, b.len() as int));
    }
    true
}

/// Whether two items are the same item: the same variant, holding the same
/// contents all the way down.
#[verifier::loop_isolation(false)]
pub fn same_item(a: &CBORType, b: &CBORType) -> (r: bool)
    ensures
        r == (a@ == b@),
    decreases a,
{
    match a {
        CBORType::Integer(x) => match b {
            CBORType::Integer(y) => *x == *y,
            _ => false,
        },
        CBORType::SignedInteger(x) => match b {
            CBORType::SignedInteger(y) => *x == *y,
            _ => false,
        },
        CBORType::Tag(x) => match b {
            CBORType::Tag(y) => *x == *y,
            _ => false,
        },
        CBORType::Bytes(x) => match b {
            CBORType::Bytes(y) => same_bytes(x, y),
            _ => false,
        },
        CBORType::String(x) => match b {
            CBORType::String(y) => *x == *y,
            _ => false,
        },
        CBORType::Array(xs) => match b {
            CBORType::Array(ys) => {
                proof {
                    lemma_array_view(*xs);
                    lemma_array_view(*ys);
                }
                if xs.len() != ys.len() {
                    assert(values_view(xs@).len() != values_view(ys@).len());
                    return false;
                }
                let mut i: usize = 0;
                while i < xs.len()
                    invariant
                        i <= xs.len(),
                        forall|j: int| 0 <= j < i ==> xs@[j]@ == ys@[j]@,
                    decreases xs.len() - i,
                {
                    if !same_item(&xs[i], &ys[i]) {
                        proof {
                            assert(values_view(xs@)[i as int] == xs@[i as int]@);
                            assert(values_view(ys@)[i as int] == ys@[i as int]@);
                        }
                        return false;
                    }
                    i += 1;
                }
                proof {
                    assert(values_view(xs@) =~= values_view(ys@));
                }
                true
            },
            _ => false,
        },
        CBORType::MapEntries(xs) => match b {
            CBORType::MapEntries(ys) => {
                proof {
                    lemma_map_view(*xs);
                    lemma_map_view(*ys);
                }
                if xs.len() != ys.len() {
                    assert(entries_view(xs@).len() != entries_view(ys@).len());
                    return false;
                }
                let mut i: usize = 0;
                while i < xs.len()
                    invariant
                        i <= xs.len(),
                        forall|j: int| 0 <= j < i ==> xs@[j]@ == ys@[j]@,
                    decreases xs.len() - i,
                {
                    if !(same_item(&xs[i].key, &ys[i].key) && same_item(
                        &xs[i].value,
                        &ys[i].value,
                    )) {
                        proof {
                            assert(entries_view(xs@)[i as int] == xs@[i as int]@);
                            assert(entries_view(ys@)[i as int] == ys@[i as int]@);
                        }
                        return false;
                    }
                    i += 1;
                }
                proof {
                    assert(entries_view(xs@) =~= entries_view(ys@));
                }
                true
            },
            _ => false,
        },
    }
}

impl PartialEq for CBORType {
    fn eq(&self, other: &CBORType) -> (r: bool) {
        same_item(self, other)
    }
}

impl vstd::std_specs::cmp::PartialEqSpecImpl for CBORType {
    open spec fn obeys_eq_spec() -> bool {
        true
    }

    open spec fn eq_spec(&self, other: &CBORType) -> bool {
        self@ == other@
    }
}

impl PartialEq for CBORMap {
    fn eq(&self, other: &CBORMap) -> (r: bool) {
        same_item(&self.key, &other.key) && same_item(&self.value, &other.value)
    }
}

impl vstd::std_specs::cmp::PartialEqSpecImpl for CBORMap {
    open spec fn obeys_eq_spec() -> bool {
        true
    }

    open spec fn eq_spec(&self, other: &CBORMap) -> bool {
        self@ == other@
    }
}

impl PartialEq for CBORObject {
    fn eq(&self, other: &CBORObject) -> (r: bool) {
        if self.values.len() != other.values.len() {
            assert(self@.len() != other@.len());
            return false;
        }
        let mut i: usize = 0;
        while i < self.values.len()
            invariant
                i <= self.values.len(),
                self.values.len() == other.values.len(),
                forall|j: int| 0 <= j < i ==> self.values@[j]@ == other.values@[j]@,
            decreases self.values.len() - i,
        {
            if !same_item(&self.values[i], &other.values[i]) {
                proof {
                    assert(self@[i as int] == self.values@[i as int]@);
                    assert(other@[i as int] == other.values@[i as int]@);
                }
                return false;
            }
            i += 1;
        }
        proof {
            assert(self@ =~= other@);
        }
        true
    }
}

impl vstd::std_specs::cmp::PartialEqSpecImpl for CBORObject {
    open spec fn obeys_eq_spec() -> bool {
        true
    }

    open spec fn eq_spec(&self, other: &CBORObject) -> bool {
        self@ == other@
    }
}

impl Clone for CBORType {
    /// A copy that is the same item.
    #[verifier::loop_isolation(false)]
    fn clone(&self) -> (copy: CBORType)
        ensures
            copy@ == self@,
        decreases self,
    {
        match self {
            CBORType::Integer(x) => CBORType::Integer(*x),
            CBORType::SignedInteger(x) => CBORType::SignedInteger(*x),
            CBORType::Tag(x) => CBORType::Tag(*x),
            CBORType::Bytes(x) => {
                let bytes = x.clone();
                assert(bytes@ =~= x@);
                CBORType::Bytes(bytes)
            },
            CBORType::String(x) => CBORType::String(x.clone()),
            CBORType::Array(xs) => {
                let mut items: Vec<CBORType> = Vec::new();
                let mut i: usize = 0;
                while i < xs.len()
                    invariant
                        i <= xs.len(),
                        items@.len() == i,
                        forall|j: int| 0 <= j < i ==> items@[j]@ == xs@[j]@,
                    decreases xs.len() - i,
                {
                    items.push(xs[i].clone());
                    i += 1;
                }
                proof {
                    lemma_array_view(*xs);
                    lemma_array_view(items);
                    assert(values_view(items@) =~= values_view(xs@));
                }
                CBORType::Array(items)
            },
            CBORType::MapEntries(xs) => {
                let mut entries: Vec<CBORMap> = Vec::new();
                let mut i: usize = 0;
                while i < xs.len()
                    invariant
                        i <= xs.len(),
                        entries@.len() == i,
                        forall|j: int| 0 <= j < i ==> entries@[j]@ == xs@[j]@,
                    decreases xs.len() - i,
                {
                    entries.push(CBORMap { key: xs[i].key.clone(), value: xs[i].value.clone() });
                    i += 1;
                }
                proof {
                    lemma_map_view(*xs);
                    lemma_map_view(entries);
                    assert(entries_view(entries@) =~= entries_view(xs@));
                }
                CBORType::MapEntries(entries)
            },
        }
    }
}

impl Clone for CBORMap {
    /// A copy that is the same pair.
    fn clone(&self) -> (copy: CBORMap)
        ensures
            copy@ == self@,
    {
        CBORMap { key: self.key.clone(), value: self.value.clone() }
    }
}

impl From<u64> for CBORType {
    fn from(x: u64) -> (item: CBORType) {
        CBORType::Integer(x)
    }
}

impl vstd::std_specs::convert::FromSpecImpl<u64> for CBORType {
    open spec fn obeys_from_spec() -> bool {
        true
    }

    open spec fn from_spec(x: u64) -> CBORType {
        CBORType::Integer(x)
    }
}

impl From<i64> for CBORType {
    fn from(x: i64) -> (item: CBORType) {
        CBORType::SignedInteger(x)
    }
}

impl vstd::std_specs::convert::FromSpecImpl<i64> for CBORType {
    open spec fn obeys_from_spec() -> bool {
        true
    }

    open spec fn from_spec(x: i64) -> CBORType {
        CBORType::SignedInteger(x)
    }
}

impl From<Vec<u8>> for CBORType {
    fn from(x: Vec<u8>) -> (item: CBORType) {
        CBORType::Bytes(x)
    }
}

impl vstd::std_specs::convert::FromSpecImpl<Vec<u8>> for CBORType {
    open spec fn obeys_from_spec() -> bool {
        true
    }

    open spec fn from_spec(x: Vec<u8>) -> CBORType {
        CBORType::Bytes(x)
    }
}

impl From<String> for CBORType {
    fn from(x: String) -> (item: CBORType) {
        CBORType::String(x)
    }
}

impl vstd::std_specs::convert::FromSpecImpl<String> for CBORType {
    open spec fn obeys_from_spec() -> bool {
        true
    }

    open spec fn from_spec(x: String) -> CBORType {
        CBORType::String(x)
    }
}

impl From<Vec<CBORType>> for CBORType {
    fn from(x: Vec<CBORType>) -> (item: CBORType) {
        CBORType::Array(x)
    }
}

impl vstd::std_specs::convert::FromSpecImpl<Vec<CBORType>> for CBORType {
    open spec fn obeys_from_spec() -> bool {
        true
    }

    open spec fn from_spec(x: Vec<CBORType>) -> CBORType {
        CBORType::Array(x)
    }
}

impl From<Vec<CBORMap>> for CBORType {
    fn from(x: Vec<CBORMap>) -> (item: CBORType) {
        CBORType::MapEntries(x)
    }
}

impl vstd::std_specs::convert::FromSpecImpl<Vec<CBORMap>> for CBORType {
    open spec fn obeys_from_spec() -> bool {
        true
    }

    open spec fn from_spec(x: Vec<CBORMap>) -> CBORType {
        CBORType::MapEntries(x)
    }
}

} // verus!

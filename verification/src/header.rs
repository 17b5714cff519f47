use vstd::prelude::*;

use crate::message::{is_token, is_token_byte, token_byte};
use crate::text::{all_text, is_text, lower, same_bytes};

verus! {

/// The bytes of `connection`.
pub const CONNECTION: [u8; 10] = [99, 111, 110, 110, 101, 99, 116, 105, 111, 110];

/// The bytes of `content-length`.
pub const CONTENT_LENGTH: [u8; 14] = [
    99,
    111,
    110,
    116,
    101,
    110,
    116,
    45,
    108,
    101,
    110,
    103,
    116,
    104,
];

/// The bytes of `location`.
pub const LOCATION: [u8; 8] = [108, 111, 99, 97, 116, 105, 111, 110];

/// The bytes of `transfer-encoding`.
pub const TRANSFER_ENCODING: [u8; 17] = [
    116,
    114,
    97,
    110,
    115,
    102,
    101,
    114,
    45,
    101,
    110,
    99,
    111,
    100,
    105,
    110,
    103,
];

/// The lower-case form of `s`.
pub open spec fn lowered(s: Seq<u8>) -> Seq<u8> {
    Seq::new(s.len(), |i: int| lower(s[i]))
}

/// True for a byte that may stand in a header value: anything but a
/// control character, or a tab.
pub open spec fn is_value_byte(b: u8) -> bool {
    (b >= 32 && b != 127) || b == 9
}

/// True if every byte of `s` may stand in a header value.
pub open spec fn is_value(s: Seq<u8>) -> bool {
    forall|i: int| 0 <= i < s.len() ==> is_value_byte(#[trigger] s[i])
}

/// True if `s` holds no upper-case letter.
pub open spec fn is_lower(s: Seq<u8>) -> bool {
    forall|i: int| 0 <= i < s.len() ==> !(65 <= #[trigger] s[i] && s[i] <= 90)
}

/// The name of a header field: a token in lower case, so that two names
/// are the same field exactly if they hold the same bytes.
#[derive(Debug)]
pub struct HeaderName {
    bytes: Vec<u8>,
}

impl View for HeaderName {
    type V = Seq<u8>;

    closed spec fn view(&self) -> Seq<u8> {
        self.bytes@
    }
}

impl HeaderName {
    #[verifier::type_invariant]
    spec fn legal(self) -> bool {
        is_token(self.bytes@) && is_lower(self.bytes@)
    }

    /// The name that `name` writes, in any case, if `name` is a token.
    pub fn from_bytes(name: &[u8]) -> (header: Option<HeaderName>)
        ensures
            header is Some <==> is_token(name@),
            header matches Some(h) ==> h@ == lowered(name@),
    {
        if name.len() == 0 {
            return None;
        }
        let mut bytes: Vec<u8> = Vec::new();
        let mut i: usize = 0;
        while i < name.len()
            invariant
                i <= name@.len(),
                bytes@.len() == i,
                forall|j: int| 0 <= j < i ==> is_token_byte(#[trigger] name@[j]),
                forall|j: int| 0 <= j < i ==> bytes@[j] == lower(name@[j]),
                forall|j: int| 0 <= j < i ==> is_token_byte(#[trigger] bytes@[j]),
            decreases name@.len() - i,
        {
            let b: u8 = name[i];
            if !token_byte(b) {
                return None;
            }
            if 65 <= b && b <= 90 {
                bytes.push(b + 32);
            } else {
                bytes.push(b);
            }
            i += 1;
        }
        assert(bytes@ =~= lowered(name@));
        Some(HeaderName { bytes })
    }

    /// The name, in lower case.
    pub fn as_bytes(&self) -> (bytes: &[u8])
        ensures
            bytes@ == self@,
            is_token(bytes@),
            is_lower(bytes@),
    {
        proof {
            use_type_invariant(self);
        }
        self.bytes.as_slice()
    }

    /// True if both names are the same field.
    pub fn same(&self, other: &HeaderName) -> (same: bool)
        ensures
            same == (self@ == other@),
    {
        same_bytes(self.bytes.as_slice(), other.bytes.as_slice())
    }

    /// True if `name` writes this name, in any case.
    pub fn is(&self, name: &[u8]) -> (same: bool)
        ensures
            same == (self@ == lowered(name@)),
    {
        if self.bytes.len() != name.len() {
            return false;
        }
        let mut i: usize = 0;
        while i < name.len()
            invariant
                i <= name@.len(),
                self.bytes@.len() == name@.len(),
                forall|j: int| 0 <= j < i ==> self.bytes@[j] == lower(name@[j]),
            decreases name@.len() - i,
        {
            let b: u8 = name[i];
            let folded: u8 = if 65 <= b && b <= 90 {
                b + 32
            } else {
                b
            };
            if self.bytes[i] != folded {
                assert(lowered(name@)[i as int] != self@[i as int]);
                return false;
            }
            i += 1;
        }
        assert(self@ =~= lowered(name@));
        true
    }
}

/// The value of a header field: bytes without control characters.
#[derive(Debug)]
pub struct HeaderValue {
    bytes: Vec<u8>,
}

impl View for HeaderValue {
    type V = Seq<u8>;

    closed spec fn view(&self) -> Seq<u8> {
        self.bytes@
    }
}

impl HeaderValue {
    #[verifier::type_invariant]
    spec fn legal(self) -> bool {
        is_value(self.bytes@)
    }

    /// The value that holds `value`, if each byte may stand in a value.
    pub fn from_bytes(value: &[u8]) -> (header: Option<HeaderValue>)
        ensures
            header is Some <==> is_value(value@),
            header matches Some(h) ==> h@ == value@,
    {
        let mut i: usize = 0;
        while i < value.len()
            invariant
                i <= value@.len(),
                forall|j: int| 0 <= j < i ==> is_value_byte(#[trigger] value@[j]),
            decreases value@.len() - i,
        {
            let b: u8 = value[i];
            if !((b >= 32 && b != 127) || b == 9) {
                return None;
            }
            i += 1;
        }
        let mut bytes: Vec<u8> = Vec::new();
        bytes.extend_from_slice(value);
        Some(HeaderValue { bytes })
    }

    /// The bytes of the value.
    pub fn as_bytes(&self) -> (bytes: &[u8])
        ensures
            bytes@ == self@,
            is_value(bytes@),
    {
        proof {
            use_type_invariant(self);
        }
        self.bytes.as_slice()
    }

    /// The value as text: its bytes, if all of them are visible ASCII,
    /// spaces or tabs.
    pub fn to_str(&self) -> (text: Option<&[u8]>)
        ensures
            text is Some <==> is_text(self@),
            text matches Some(t) ==> t@ == self@,
    {
        if all_text(self.bytes.as_slice()) {
            Some(self.bytes.as_slice())
        } else {
            None
        }
    }
}

/// The bytes of each value of `values`, in order.
pub open spec fn bytes_of(values: Seq<&HeaderValue>) -> Seq<Seq<u8>> {
    Seq::new(values.len(), |i: int| values[i]@)
}

/// The values that `entries` holds under `name`, in order.
pub open spec fn values_of(entries: Seq<(Seq<u8>, Seq<u8>)>, name: Seq<u8>) -> Seq<Seq<u8>>
    decreases entries.len(),
{
    if entries.len() == 0 {
        Seq::empty()
    } else if entries.last().0 == name {
        values_of(entries.drop_last(), name).push(entries.last().1)
    } else {
        values_of(entries.drop_last(), name)
    }
}

/// The header fields of a message, in the order in which they were added.
/// A name may occur more than once.
#[derive(Debug)]
pub struct HeaderMap {
    entries: Vec<(HeaderName, HeaderValue)>,
}

impl View for HeaderMap {
    type V = Seq<(Seq<u8>, Seq<u8>)>;

    closed spec fn view(&self) -> Seq<(Seq<u8>, Seq<u8>)> {
        Seq::new(self.entries@.len(), |i: int| (self.entries@[i].0@, self.entries@[i].1@))
    }
}

impl HeaderMap {
    /// No fields.
    pub fn new() -> (map: HeaderMap)
        ensures
            map@ == Seq::<(Seq<u8>, Seq<u8>)>::empty(),
    {
        let map = HeaderMap { entries: Vec::new() };
        assert(map@ =~= Seq::<(Seq<u8>, Seq<u8>)>::empty());
        map
    }

    /// Adds a field after the fields that are there.
    pub fn append(&mut self, name: HeaderName, value: HeaderValue)
        ensures
            final(self)@ == old(self)@.push((name@, value@)),
    {
        self.entries.push((name, value));
        assert(self@ =~= old(self)@.push((name@, value@)));
    }

    /// The number of fields.
    pub fn len(&self) -> (len: usize)
        ensures
            len == self@.len(),
    {
        self.entries.len()
    }

    /// The name of the field at `index`.
    pub fn name_at(&self, index: usize) -> (name: &HeaderName)
        requires
            index < self@.len(),
        ensures
            name@ == self@[index as int].0,
    {
        &self.entries[index].0
    }

    /// The value of the field at `index`.
    pub fn value_at(&self, index: usize) -> (value: &HeaderValue)
        requires
            index < self@.len(),
        ensures
            value@ == self@[index as int].1,
    {
        &self.entries[index].1
    }

    /// True if a field with the name `name`, in any case, is there.
    pub fn contains_key(&self, name: &[u8]) -> (found: bool)
        ensures
            found == (values_of(self@, lowered(name@)).len() > 0),
    {
        self.get_all(name).len() > 0
    }

    /// The value of the first field with the name `name`, in any case.
    pub fn get(&self, name: &[u8]) -> (value: Option<&HeaderValue>)
        ensures
            value is Some <==> values_of(self@, lowered(name@)).len() > 0,
            value matches Some(v) ==> v@ == values_of(self@, lowered(name@))[0],
    {
        let all = self.get_all(name);
        if all.len() > 0 {
            Some(all[0])
        } else {
            None
        }
    }

    /// The values of all fields with the name `name`, in any case, in
    /// order.
    pub fn get_all(&self, name: &[u8]) -> (values: Vec<&HeaderValue>)
        ensures
            bytes_of(values@) == values_of(self@, lowered(name@)),
    {
        let mut values: Vec<&HeaderValue> = Vec::new();
        let mut i: usize = 0;
        assert(self@.take(0) =~= Seq::<(Seq<u8>, Seq<u8>)>::empty());
        while i < self.entries.len()
            invariant
                i <= self.entries@.len(),
                self@.len() == self.entries@.len(),
                bytes_of(values@) == values_of(self@.take(i as int), lowered(name@)),
            decreases self.entries@.len() - i,
        {
            assert(self@.take(i + 1).drop_last() =~= self@.take(i as int));
            assert(self@.take(i + 1).last() == self@[i as int]);
            if self.entries[i].0.is(name) {
                let ghost before = values@;
                values.push(&self.entries[i].1);
                assert(bytes_of(values@) =~= bytes_of(before).push(self@[i as int].1));
            }
            i += 1;
        }
        assert(self@.take(i as int) =~= self@);
        values
    }
}

} // verus!

//! A minimal but complete NBT (Named Binary Tag) reader/writer.
//!
//! Documents are parsed into a generic [`Value`] tree, so an editor can
//! preserve every tag it does not touch. Floating-point tags are carried as
//! their raw IEEE-754 bit patterns: the codec never computes with them.
use vstd::prelude::*;
use vstd::utf8::*;

use crate::text::{copy_range, str_from_utf8};

verus! {

broadcast use vstd::std_specs::vec::group_vec_axioms, vstd::seq::group_seq_axioms;

/// Maximum compound/list nesting accepted by the reader.
pub const MAX_DEPTH: u32 = 64;

/// A generic NBT value. Compounds keep insertion order.
#[derive(Debug, PartialEq)]
pub enum Value {
    Byte(i8),
    Short(i16),
    Int(i32),
    Long(i64),
    /// An `f32`, as its IEEE-754 bit pattern.
    Float(u32),
    /// An `f64`, as its IEEE-754 bit pattern.
    Double(u64),
    ByteArray(Vec<u8>),
    String(String),
    List(Vec<Value>),
    Compound(Vec<(String, Value)>),
    IntArray(Vec<i32>),
    LongArray(Vec<i64>),
}

/// The mathematical model of a [`Value`].
pub enum Nbt {
    Byte(i8),
    Short(i16),
    Int(i32),
    Long(i64),
    Float(u32),
    Double(u64),
    ByteArray(Seq<u8>),
    String(Seq<char>),
    List(Seq<Nbt>),
    Compound(Seq<(Seq<char>, Nbt)>),
    IntArray(Seq<i32>),
    LongArray(Seq<i64>),
}

pub open spec fn value_model(v: Value) -> Nbt
    decreases v,
{
    match v {
        Value::Byte(x) => Nbt::Byte(x),
        Value::Short(x) => Nbt::Short(x),
        Value::Int(x) => Nbt::Int(x),
        Value::Long(x) => Nbt::Long(x),
        Value::Float(x) => Nbt::Float(x),
        Value::Double(x) => Nbt::Double(x),
        Value::ByteArray(b) => Nbt::ByteArray(b@),
        Value::String(s) => Nbt::String(s@),
        Value::List(items) => Nbt::List(values_model(items@)),
        Value::Compound(entries) => Nbt::Compound(entries_model(entries@)),
        Value::IntArray(a) => Nbt::IntArray(a@),
        Value::LongArray(a) => Nbt::LongArray(a@),
    }
}

pub open spec fn values_model(s: Seq<Value>) -> Seq<Nbt>
    decreases s,
{
    if s.len() == 0 {
        Seq::empty()
    } else {
        seq![value_model(s[0])] + values_model(s.drop_first())
    }
}

pub open spec fn entries_model(s: Seq<(String, Value)>) -> Seq<(Seq<char>, Nbt)>
    decreases s,
{
    if s.len() == 0 {
        Seq::empty()
    } else {
        seq![(s[0].0@, value_model(s[0].1))] + entries_model(s.drop_first())
    }
}

impl View for Value {
    type V = Nbt;

    open spec fn view(&self) -> Nbt {
        value_model(*self)
    }
}


proof fn lemma_values_model(s: Seq<Value>)
    ensures
        values_model(s).len() == s.len(),
        forall|i: int| 0 <= i < s.len() ==> #[trigger] values_model(s)[i] == value_model(s[i]),
    decreases s.len(),
{
    if s.len() > 0 {
        lemma_values_model(s.drop_first());
        assert forall|i: int| 0 <= i < s.len() implies #[trigger] values_model(s)[i] == value_model(
            s[i],
        ) by {
            if i > 0 {
                assert(s.drop_first()[i - 1] == s[i]);
            }
        }
    }
}

proof fn lemma_entries_model(s: Seq<(String, Value)>)
    ensures
        entries_model(s).len() == s.len(),
        forall|i: int|
            0 <= i < s.len() ==> #[trigger] entries_model(s)[i] == (s[i].0@, value_model(s[i].1)),
    decreases s.len(),
{
    if s.len() > 0 {
        lemma_entries_model(s.drop_first());
        assert forall|i: int| 0 <= i < s.len() implies #[trigger] entries_model(s)[i] == (
            s[i].0@,
            value_model(s[i].1),
        ) by {
            if i > 0 {
                assert(s.drop_first()[i - 1] == s[i]);
            }
        }
    }
}

// ---------------------------------------------------------------------------
// Encoding
// ---------------------------------------------------------------------------

/// The NBT tag id of a value (as written before its name).
pub open spec fn tag_id(v: Nbt) -> u8 {
    match v {
        Nbt::Byte(_) => 1,
        Nbt::Short(_) => 2,
        Nbt::Int(_) => 3,
        Nbt::Long(_) => 4,
        Nbt::Float(_) => 5,
        Nbt::Double(_) => 6,
        Nbt::ByteArray(_) => 7,
        Nbt::String(_) => 8,
        Nbt::List(_) => 9,
        Nbt::Compound(_) => 10,
        Nbt::IntArray(_) => 11,
        Nbt::LongArray(_) => 12,
    }
}

/// Big-endian bytes of a 16-bit word.
pub open spec fn be16(x: u16) -> Seq<u8> {
    seq![(x / 0x100) as u8, (x % 0x100) as u8]
}

/// Big-endian bytes of a 32-bit word.
pub open spec fn be32(x: u32) -> Seq<u8> {
    seq![
        (x / 0x100_0000) as u8,
        ((x / 0x1_0000) % 0x100) as u8,
        ((x / 0x100) % 0x100) as u8,
        (x % 0x100) as u8,
    ]
}

/// Big-endian bytes of a 64-bit word.
pub open spec fn be64(x: u64) -> Seq<u8> {
    be32((x / 0x1_0000_0000) as u32) + be32((x % 0x1_0000_0000) as u32)
}

/// A length-prefixed UTF-8 string (the prefix is the byte length, truncated to 16 bits).
pub open spec fn enc_str(s: Seq<char>) -> Seq<u8> {
    be16(encode_utf8(s).len() as u16) + encode_utf8(s)
}

pub open spec fn enc_i32s(s: Seq<i32>) -> Seq<u8>
    decreases s.len(),
{
    if s.len() == 0 {
        Seq::empty()
    } else {
        be32(s[0] as u32) + enc_i32s(s.drop_first())
    }
}

pub open spec fn enc_i64s(s: Seq<i64>) -> Seq<u8>
    decreases s.len(),
{
    if s.len() == 0 {
        Seq::empty()
    } else {
        be64(s[0] as u64) + enc_i64s(s.drop_first())
    }
}

/// The 32-bit signed length field written in front of arrays and lists.
pub open spec fn len_field(n: nat) -> Seq<u8> {
    be32(n as i32 as u32)
}

/// The tag id written in front of a list's items: the first item's, or 0.
pub open spec fn list_tag(items: Seq<Nbt>) -> u8 {
    if items.len() > 0 {
        tag_id(items[0])
    } else {
        0
    }
}

/// The payload bytes of a value.
pub open spec fn enc_payload(v: Nbt) -> Seq<u8>
    decreases v,
{
    match v {
        Nbt::Byte(x) => seq![x as u8],
        Nbt::Short(x) => be16(x as u16),
        Nbt::Int(x) => be32(x as u32),
        Nbt::Long(x) => be64(x as u64),
        Nbt::Float(b) => be32(b),
        Nbt::Double(b) => be64(b),
        Nbt::ByteArray(b) => len_field(b.len()) + b,
        Nbt::String(s) => enc_str(s),
        Nbt::List(items) => seq![list_tag(items)] + len_field(items.len()) + enc_items(items),
        Nbt::Compound(entries) => enc_entries(entries) + seq![0u8],
        Nbt::IntArray(a) => len_field(a.len()) + enc_i32s(a),
        Nbt::LongArray(a) => len_field(a.len()) + enc_i64s(a),
    }
}

/// The payloads of list items, back to back.
pub open spec fn enc_items(s: Seq<Nbt>) -> Seq<u8>
    decreases s,
{
    if s.len() == 0 {
        Seq::empty()
    } else {
        enc_payload(s[0]) + enc_items(s.drop_first())
    }
}

/// Named compound entries: tag id, name, payload for each.
pub open spec fn enc_entries(s: Seq<(Seq<char>, Nbt)>) -> Seq<u8>
    decreases s,
{
    if s.len() == 0 {
        Seq::empty()
    } else {
        seq![tag_id(s[0].1)] + enc_str(s[0].0) + enc_payload(s[0].1) + enc_entries(s.drop_first())
    }
}

/// A whole document: the compound tag id, the root name and the root payload.
pub open spec fn enc_document(name: Seq<char>, v: Nbt) -> Seq<u8> {
    seq![10u8] + enc_str(name) + enc_payload(v)
}

proof fn lemma_enc_items_push(s: Seq<Nbt>, x: Nbt)
    ensures
        enc_items(s.push(x)) == enc_items(s) + enc_payload(x),
    decreases s.len(),
{
    if s.len() == 0 {
        assert(s.push(x).drop_first() =~= Seq::<Nbt>::empty());
        assert(s.push(x)[0] == x);
        assert(enc_items(Seq::<Nbt>::empty()) == Seq::<u8>::empty());
        assert(enc_items(s.push(x)) =~= enc_payload(x));
    } else {
        lemma_enc_items_push(s.drop_first(), x);
        assert(s.push(x).drop_first() =~= s.drop_first().push(x));
        assert(enc_items(s.push(x)) =~= enc_items(s) + enc_payload(x));
    }
}

proof fn lemma_enc_entries_push(s: Seq<(Seq<char>, Nbt)>, x: (Seq<char>, Nbt))
    ensures
        enc_entries(s.push(x)) == enc_entries(s) + (seq![tag_id(x.1)] + enc_str(x.0)
            + enc_payload(x.1)),
    decreases s.len(),
{
    if s.len() == 0 {
        assert(s.push(x).drop_first() =~= Seq::<(Seq<char>, Nbt)>::empty());
        assert(s.push(x)[0] == x);
        assert(enc_entries(Seq::<(Seq<char>, Nbt)>::empty()) == Seq::<u8>::empty());
        assert(enc_entries(s.push(x)) =~= seq![tag_id(x.1)] + enc_str(x.0) + enc_payload(x.1));
    } else {
        lemma_enc_entries_push(s.drop_first(), x);
        assert(s.push(x).drop_first() =~= s.drop_first().push(x));
        assert(enc_entries(s.push(x)) =~= enc_entries(s) + (seq![tag_id(x.1)] + enc_str(x.0)
            + enc_payload(x.1)));
    }
}

proof fn lemma_enc_i32s_push(s: Seq<i32>, x: i32)
    ensures
        enc_i32s(s.push(x)) == enc_i32s(s) + be32(x as u32),
    decreases s.len(),
{
    if s.len() == 0 {
        assert(s.push(x).drop_first() =~= Seq::<i32>::empty());
        assert(s.push(x)[0] == x);
        assert(enc_i32s(Seq::<i32>::empty()) == Seq::<u8>::empty());
        assert(enc_i32s(s.push(x)) =~= be32(x as u32));
    } else {
        lemma_enc_i32s_push(s.drop_first(), x);
        assert(s.push(x).drop_first() =~= s.drop_first().push(x));
        assert(enc_i32s(s.push(x)) =~= enc_i32s(s) + be32(x as u32));
    }
}

proof fn lemma_enc_i64s_push(s: Seq<i64>, x: i64)
    ensures
        enc_i64s(s.push(x)) == enc_i64s(s) + be64(x as u64),
    decreases s.len(),
{
    if s.len() == 0 {
        assert(s.push(x).drop_first() =~= Seq::<i64>::empty());
        assert(s.push(x)[0] == x);
        assert(enc_i64s(Seq::<i64>::empty()) == Seq::<u8>::empty());
        assert(enc_i64s(s.push(x)) =~= be64(x as u64));
    } else {
        lemma_enc_i64s_push(s.drop_first(), x);
        assert(s.push(x).drop_first() =~= s.drop_first().push(x));
        assert(enc_i64s(s.push(x)) =~= enc_i64s(s) + be64(x as u64));
    }
}

/// The NBT tag id of a value (as written before the name).
/// The first position at or after `from` of an entry named `key`.
pub open spec fn first_key(entries: Seq<(String, Value)>, key: Seq<char>, from: int) -> Option<int>
    decreases entries.len() - from,
{
    if from < 0 || from >= entries.len() {
        None
    } else if entries[from].0@ == key {
        Some(from)
    } else {
        first_key(entries, key, from + 1)
    }
}

impl Value {
    /// The text of a string value.
    pub fn as_string(&self) -> (r: Option<&str>)
        ensures
            match r {
                Some(s) => *self matches Value::String(t) && t@ == s@,
                None => !(*self is String),
            },
    {
        match self {
            Value::String(s) => Some(s.as_str()),
            _ => None,
        }
    }

    /// The value of the first entry named `key` of a compound.
    pub fn compound_get(&self, key: &str) -> (r: Option<&Value>)
        ensures
            match r {
                Some(v) => *self matches Value::Compound(es) && first_key(es@, key@, 0) matches Some(k) && *v
                    == es@[k].1,
                None => !(*self is Compound) || first_key(self->Compound_0@, key@, 0) is None,
            },
    {
        match self {
            Value::Compound(entries) => {
                let mut i: usize = 0;
                while i < entries.len()
                    invariant
                        i <= entries.len(),
                        *self == Value::Compound(*entries),
                        first_key(entries@, key@, 0) == first_key(entries@, key@, i as int),
                    decreases entries.len() - i,
                {
                    if crate::text::str_eq(entries[i].0.as_str(), key) {
                        return Some(&entries[i].1);
                    }
                    i += 1;
                }
                None
            },
            _ => None,
        }
    }
}

pub fn tag_of(value: &Value) -> (t: u8)
    ensures
        t == tag_id(value@),
{
    match value {
        Value::Byte(_) => 1,
        Value::Short(_) => 2,
        Value::Int(_) => 3,
        Value::Long(_) => 4,
        Value::Float(_) => 5,
        Value::Double(_) => 6,
        Value::ByteArray(_) => 7,
        Value::String(_) => 8,
        Value::List(_) => 9,
        Value::Compound(_) => 10,
        Value::IntArray(_) => 11,
        Value::LongArray(_) => 12,
    }
}

fn put_u8(out: &mut Vec<u8>, b: u8)
    ensures
        final(out)@ == old(out)@.push(b),
{
    out.push(b);
}

fn put_be16(out: &mut Vec<u8>, x: u16)
    ensures
        final(out)@ == old(out)@ + be16(x),
{
    out.push((x / 0x100) as u8);
    out.push((x % 0x100) as u8);
    assert(out@ =~= old(out)@ + be16(x));
}

fn put_be32(out: &mut Vec<u8>, x: u32)
    ensures
        final(out)@ == old(out)@ + be32(x),
{
    out.push((x / 0x100_0000) as u8);
    out.push(((x / 0x1_0000) % 0x100) as u8);
    out.push(((x / 0x100) % 0x100) as u8);
    out.push((x % 0x100) as u8);
    assert(out@ =~= old(out)@ + be32(x));
}

fn put_be64(out: &mut Vec<u8>, x: u64)
    ensures
        final(out)@ == old(out)@ + be64(x),
{
    put_be32(out, (x / 0x1_0000_0000) as u32);
    put_be32(out, (x % 0x1_0000_0000) as u32);
    assert(out@ =~= old(out)@ + be64(x));
}

fn put_bytes(out: &mut Vec<u8>, bytes: &[u8])
    ensures
        final(out)@ == old(out)@ + bytes@,
{
    let mut i: usize = 0;
    while i < bytes.len()
        invariant
            i <= bytes.len(),
            out@ == old(out)@ + bytes@.take(i as int),
        decreases bytes.len() - i,
    {
        out.push(bytes[i]);
        i += 1;
        assert(out@ =~= old(out)@ + bytes@.take(i as int));
    }
    assert(bytes@.take(bytes.len() as int) =~= bytes@);
}

fn put_str(out: &mut Vec<u8>, s: &str)
    ensures
        final(out)@ == old(out)@ + enc_str(s@),
{
    let bytes = s.as_bytes();
    put_be16(out, bytes.len() as u16);
    put_bytes(out, bytes);
    assert(out@ =~= old(out)@ + enc_str(s@));
}

fn put_payload(out: &mut Vec<u8>, value: &Value)
    ensures
        final(out)@ == old(out)@ + enc_payload(value@),
    decreases value,
{
    match value {
        Value::Byte(v) => put_u8(out, *v as u8),
        Value::Short(v) => put_be16(out, *v as u16),
        Value::Int(v) => put_be32(out, *v as u32),
        Value::Long(v) => put_be64(out, *v as u64),
        Value::Float(v) => put_be32(out, *v),
        Value::Double(v) => put_be64(out, *v),
        Value::ByteArray(bytes) => {
            put_be32(out, bytes.len() as i32 as u32);
            put_bytes(out, bytes.as_slice());
            assert(out@ =~= old(out)@ + enc_payload(value@));
        },
        Value::String(s) => put_str(out, s.as_str()),
        Value::List(items) => {
            let n = items.len();
            proof {
                lemma_values_model(items@);
            }
            let inner = if n > 0 {
                tag_of(&items[0])
            } else {
                0
            };
            put_u8(out, inner);
            put_be32(out, n as i32 as u32);
            let ghost start = out@;
            let mut i: usize = 0;
            while i < n
                invariant
                    n == items.len(),
                    i <= n,
                    *value == Value::List(*items),
                    out@ == start + enc_items(values_model(items@).take(i as int)),
                decreases n - i,
            {
                proof {
                    assert(decreases_to!(*value => value->List_0));
                    assert(decreases_to!(*items => items@));
                    assert(decreases_to!(items@ => items@[i as int]));
                    assert(decreases_to!(*value => items@[i as int]));
                }
                put_payload(out, &items[i]);
                proof {
                    lemma_values_model(items@);
                    let vm = values_model(items@);
                    assert(vm.take(i + 1) =~= vm.take(i as int).push(vm[i as int]));
                    lemma_enc_items_push(vm.take(i as int), vm[i as int]);
                }
                i += 1;
            }
            proof {
                assert(values_model(items@).take(n as int) =~= values_model(items@));
            }
            assert(out@ =~= old(out)@ + enc_payload(value@));
        },
        Value::Compound(entries) => {
            let n = entries.len();
            let ghost start = out@;
            let mut i: usize = 0;
            while i < n
                invariant
                    n == entries.len(),
                    i <= n,
                    *value == Value::Compound(*entries),
                    out@ == start + enc_entries(entries_model(entries@).take(i as int)),
                decreases n - i,
            {
                let entry = &entries[i];
                put_u8(out, tag_of(&entry.1));
                put_str(out, entry.0.as_str());
                proof {
                    assert(decreases_to!(*value => value->Compound_0));
                    assert(decreases_to!(*entries => entries@));
                    assert(decreases_to!(entries@ => entries@[i as int]));
                    assert(decreases_to!(entries@[i as int] => entries@[i as int].1));
                    assert(decreases_to!(*value => entries@[i as int].1));
                }
                put_payload(out, &entry.1);
                proof {
                    lemma_entries_model(entries@);
                    let em = entries_model(entries@);
                    assert(em.take(i + 1) =~= em.take(i as int).push(em[i as int]));
                    lemma_enc_entries_push(em.take(i as int), em[i as int]);
                }
                i += 1;
            }
            put_u8(out, 0);
            proof {
                lemma_entries_model(entries@);
                assert(entries_model(entries@).take(n as int) =~= entries_model(entries@));
            }
            assert(out@ =~= old(out)@ + enc_payload(value@));
        },
        Value::IntArray(items) => {
            let n = items.len();
            put_be32(out, n as i32 as u32);
            let ghost start = out@;
            let mut i: usize = 0;
            while i < n
                invariant
                    n == items.len(),
                    i <= n,
                    out@ == start + enc_i32s(items@.take(i as int)),
                decreases n - i,
            {
                put_be32(out, items[i] as u32);
                proof {
                    assert(items@.take(i + 1) =~= items@.take(i as int).push(items@[i as int]));
                    lemma_enc_i32s_push(items@.take(i as int), items@[i as int]);
                }
                i += 1;
            }
            assert(items@.take(n as int) =~= items@);
            assert(out@ =~= old(out)@ + enc_payload(value@));
        },
        Value::LongArray(items) => {
            let n = items.len();
            put_be32(out, n as i32 as u32);
            let ghost start = out@;
            let mut i: usize = 0;
            while i < n
                invariant
                    n == items.len(),
                    i <= n,
                    out@ == start + enc_i64s(items@.take(i as int)),
                decreases n - i,
            {
                put_be64(out, items[i] as u64);
                proof {
                    assert(items@.take(i + 1) =~= items@.take(i as int).push(items@[i as int]));
                    lemma_enc_i64s_push(items@.take(i as int), items@[i as int]);
                }
                i += 1;
            }
            assert(items@.take(n as int) =~= items@);
            assert(out@ =~= old(out)@ + enc_payload(value@));
        },
    }
}

/// Serialize a NBT document with the given root name and payload.
pub fn write(root_name: &str, value: &Value) -> (out: Vec<u8>)
    ensures
        out@ == enc_document(root_name@, value@),
{
    let mut out: Vec<u8> = Vec::new();
    put_u8(&mut out, 10);
    put_str(&mut out, root_name);
    put_payload(&mut out, value);
    assert(out@ =~= enc_document(root_name@, value@));
    out
}


// ---------------------------------------------------------------------------
// Decoding
// ---------------------------------------------------------------------------

/// Why a byte sequence is not an NBT document.
#[derive(Debug, Clone, Copy, PartialEq, Eq)]
pub enum NbtError {
    /// The data ends in the middle of a value.
    UnexpectedEnd,
    /// The document does not start with a compound tag (the id found).
    RootNotCompound(u8),
    /// A string is not valid UTF-8.
    InvalidUtf8,
    /// Compounds and lists are nested deeper than [`MAX_DEPTH`].
    TooDeep,
    /// An array or list declares a negative length.
    NegativeLength,
    /// A byte array declares more than 4 MiB (the declared length).
    ByteArrayTooLarge(u32),
    /// An unknown tag id.
    UnknownTag(u8),
}

/// The largest byte array the reader accepts.
pub const MAX_BYTE_ARRAY: u32 = 4194304;

pub open spec fn dec16(d: Seq<u8>) -> u16 {
    (d[0] as int * 0x100 + d[1] as int) as u16
}

pub open spec fn dec32(d: Seq<u8>) -> u32 {
    (d[0] as int * 0x100_0000 + d[1] as int * 0x1_0000 + d[2] as int * 0x100 + d[3] as int) as u32
}

pub open spec fn dec64(d: Seq<u8>) -> u64 {
    (dec32(d) as int * 0x1_0000_0000 + dec32(d.skip(4)) as int) as u64
}

/// Reads a length-prefixed UTF-8 string at the start of `d`.
pub open spec fn read_str(d: Seq<u8>) -> Result<(Seq<char>, nat), NbtError> {
    if d.len() < 2 {
        Err(NbtError::UnexpectedEnd)
    } else {
        let n = dec16(d) as nat;
        if d.len() < 2 + n {
            Err(NbtError::UnexpectedEnd)
        } else if !valid_utf8(d.subrange(2, 2 + n as int)) {
            Err(NbtError::InvalidUtf8)
        } else {
            Ok((decode_utf8(d.subrange(2, 2 + n as int)), 2 + n))
        }
    }
}

pub open spec fn read_i32s(d: Seq<u8>, n: nat) -> Result<(Seq<i32>, nat), NbtError>
    decreases n,
{
    if n == 0 {
        Ok((Seq::empty(), 0))
    } else if d.len() < 4 {
        Err(NbtError::UnexpectedEnd)
    } else {
        match read_i32s(d.skip(4), (n - 1) as nat) {
            Ok((rest, k)) => Ok((seq![dec32(d) as i32] + rest, 4 + k)),
            Err(e) => Err(e),
        }
    }
}

pub open spec fn read_i64s(d: Seq<u8>, n: nat) -> Result<(Seq<i64>, nat), NbtError>
    decreases n,
{
    if n == 0 {
        Ok((Seq::empty(), 0))
    } else if d.len() < 8 {
        Err(NbtError::UnexpectedEnd)
    } else {
        match read_i64s(d.skip(8), (n - 1) as nat) {
            Ok((rest, k)) => Ok((seq![dec64(d) as i64] + rest, 8 + k)),
            Err(e) => Err(e),
        }
    }
}

/// Reads a fixed-size scalar payload (tag ids 1 to 6).
pub open spec fn read_scalar(d: Seq<u8>, tag: u8) -> Result<(Nbt, nat), NbtError> {
    let size: nat = if tag == 1 {
        1
    } else if tag == 2 {
        2
    } else if tag == 3 || tag == 5 {
        4
    } else {
        8
    };
    if d.len() < size {
        Err(NbtError::UnexpectedEnd)
    } else if tag == 1 {
        Ok((Nbt::Byte(d[0] as i8), 1))
    } else if tag == 2 {
        Ok((Nbt::Short(dec16(d) as i16), 2))
    } else if tag == 3 {
        Ok((Nbt::Int(dec32(d) as i32), 4))
    } else if tag == 4 {
        Ok((Nbt::Long(dec64(d) as i64), 8))
    } else if tag == 5 {
        Ok((Nbt::Float(dec32(d)), 4))
    } else {
        Ok((Nbt::Double(dec64(d)), 8))
    }
}

/// Reads a byte array payload: signed length, then the bytes.
pub open spec fn read_byte_array(d: Seq<u8>) -> Result<(Nbt, nat), NbtError> {
    if d.len() < 4 {
        Err(NbtError::UnexpectedEnd)
    } else {
        let len = dec32(d) as i32;
        if len < 0 {
            Err(NbtError::NegativeLength)
        } else if len > MAX_BYTE_ARRAY {
            Err(NbtError::ByteArrayTooLarge(len as u32))
        } else if d.len() < 4 + len {
            Err(NbtError::UnexpectedEnd)
        } else {
            Ok((Nbt::ByteArray(d.subrange(4, 4 + len)), (4 + len) as nat))
        }
    }
}

/// Reads an int array payload: signed length, then the big-endian items.
pub open spec fn read_int_array(d: Seq<u8>) -> Result<(Nbt, nat), NbtError> {
    if d.len() < 4 {
        Err(NbtError::UnexpectedEnd)
    } else {
        let len = dec32(d) as i32;
        if len < 0 {
            Err(NbtError::NegativeLength)
        } else {
            match read_i32s(d.skip(4), len as nat) {
                Ok((a, k)) => Ok((Nbt::IntArray(a), 4 + k)),
                Err(e) => Err(e),
            }
        }
    }
}

/// Reads a long array payload: signed length, then the big-endian items.
pub open spec fn read_long_array(d: Seq<u8>) -> Result<(Nbt, nat), NbtError> {
    if d.len() < 4 {
        Err(NbtError::UnexpectedEnd)
    } else {
        let len = dec32(d) as i32;
        if len < 0 {
            Err(NbtError::NegativeLength)
        } else {
            match read_i64s(d.skip(4), len as nat) {
                Ok((a, k)) => Ok((Nbt::LongArray(a), 4 + k)),
                Err(e) => Err(e),
            }
        }
    }
}

/// Reads a list payload: item tag id, signed length, then the items.
pub open spec fn read_list(d: Seq<u8>, depth: int) -> Result<(Nbt, nat), NbtError>
    decreases d.len(), 0int,
{
    if d.len() < 5 {
        Err(NbtError::UnexpectedEnd)
    } else {
        let len = dec32(d.skip(1)) as i32;
        if len < 0 {
            Err(NbtError::NegativeLength)
        } else {
            match read_items(d.skip(5), d[0], len as nat, depth + 1) {
                Ok((items, k)) => Ok((Nbt::List(items), 5 + k)),
                Err(e) => Err(e),
            }
        }
    }
}

/// Reads the payload of a value with tag id `tag` at nesting `depth` from the
/// start of `d`: the value and the number of bytes it occupies.
pub open spec fn read_payload(d: Seq<u8>, tag: u8, depth: int) -> Result<(Nbt, nat), NbtError>
    decreases d.len(), 1int,
{
    if depth > MAX_DEPTH {
        Err(NbtError::TooDeep)
    } else if 1 <= tag <= 6 {
        read_scalar(d, tag)
    } else if tag == 7 {
        read_byte_array(d)
    } else if tag == 8 {
        match read_str(d) {
            Ok((s, k)) => Ok((Nbt::String(s), k)),
            Err(e) => Err(e),
        }
    } else if tag == 9 {
        read_list(d, depth)
    } else if tag == 10 {
        match read_entries(d, depth + 1) {
            Ok((entries, k)) => Ok((Nbt::Compound(entries), k)),
            Err(e) => Err(e),
        }
    } else if tag == 11 {
        read_int_array(d)
    } else if tag == 12 {
        read_long_array(d)
    } else {
        Err(NbtError::UnknownTag(tag))
    }
}

/// Reads `n` list items with tag id `tag` back to back.
pub open spec fn read_items(d: Seq<u8>, tag: u8, n: nat, depth: int) -> Result<(Seq<Nbt>, nat), NbtError>
    decreases d.len(), n + 1,
{
    if n == 0 {
        Ok((Seq::empty(), 0))
    } else {
        match read_payload(d, tag, depth) {
            Ok((v, k)) => if k <= d.len() {
                match read_items(d.skip(k as int), tag, (n - 1) as nat, depth) {
                    Ok((rest, k2)) => Ok((seq![v] + rest, k + k2)),
                    Err(e) => Err(e),
                }
            } else {
                Err(NbtError::UnexpectedEnd)
            },
            Err(e) => Err(e),
        }
    }
}

/// Reads compound entries up to and including the end tag.
pub open spec fn read_entries(d: Seq<u8>, depth: int) -> Result<(Seq<(Seq<char>, Nbt)>, nat), NbtError>
    decreases d.len(), 0int,
{
    if d.len() < 1 {
        Err(NbtError::UnexpectedEnd)
    } else if d[0] == 0 {
        Ok((Seq::empty(), 1))
    } else {
        match read_str(d.skip(1)) {
            Ok((name, k1)) => match read_payload(d.skip(1 + k1 as int), d[0], depth) {
                Ok((v, k2)) => if 1 + k1 + k2 <= d.len() {
                    match read_entries(d.skip(1 + k1 + k2 as int), depth) {
                        Ok((rest, k3)) => Ok((seq![(name, v)] + rest, 1 + k1 + k2 + k3)),
                        Err(e) => Err(e),
                    }
                } else {
                    Err(NbtError::UnexpectedEnd)
                },
                Err(e) => Err(e),
            },
            Err(e) => Err(e),
        }
    }
}

/// Reads a whole document: `(root name, root payload)`. Bytes after the
/// document are ignored.
pub open spec fn read_document(d: Seq<u8>) -> Result<(Seq<char>, Nbt), NbtError> {
    if d.len() < 1 {
        Err(NbtError::UnexpectedEnd)
    } else if d[0] != 10 {
        Err(NbtError::RootNotCompound(d[0]))
    } else {
        match read_str(d.skip(1)) {
            Ok((name, k1)) => match read_payload(d.skip(1 + k1 as int), 10, 0) {
                Ok((v, _)) => Ok((name, v)),
                Err(e) => Err(e),
            },
            Err(e) => Err(e),
        }
    }
}


proof fn lemma_values_model_push(s: Seq<Value>, x: Value)
    ensures
        values_model(s.push(x)) == values_model(s).push(value_model(x)),
{
    lemma_values_model(s);
    lemma_values_model(s.push(x));
    assert(values_model(s.push(x)) =~= values_model(s).push(value_model(x)));
}

proof fn lemma_entries_model_push(s: Seq<(String, Value)>, x: (String, Value))
    ensures
        entries_model(s.push(x)) == entries_model(s).push((x.0@, value_model(x.1))),
{
    lemma_entries_model(s);
    lemma_entries_model(s.push(x));
    assert(entries_model(s.push(x)) =~= entries_model(s).push((x.0@, value_model(x.1))));
}

fn rd_u16(data: &[u8], pos: usize) -> (r: u16)
    requires
        pos + 2 <= data.len(),
    ensures
        r == dec16(data@.skip(pos as int)),
{
    (data[pos] as u16) * 0x100 + (data[pos + 1] as u16)
}

fn rd_u32(data: &[u8], pos: usize) -> (r: u32)
    requires
        pos + 4 <= data.len(),
    ensures
        r == dec32(data@.skip(pos as int)),
{
    (data[pos] as u32) * 0x100_0000 + (data[pos + 1] as u32) * 0x1_0000 + (data[pos + 2] as u32)
        * 0x100 + (data[pos + 3] as u32)
}

fn rd_u64(data: &[u8], pos: usize) -> (r: u64)
    requires
        pos + 8 <= data.len(),
    ensures
        r == dec64(data@.skip(pos as int)),
{
    let hi = rd_u32(data, pos);
    let lo = rd_u32(data, pos + 4);
    assert(data@.skip(pos as int).skip(4) =~= data@.skip(pos + 4));
    (hi as u64) * 0x1_0000_0000 + (lo as u64)
}

fn read_string(data: &[u8], pos: usize) -> (r: Result<(String, usize), NbtError>)
    requires
        pos <= data.len(),
    ensures
        match r {
            Ok((s, p)) => pos <= p <= data.len() && read_str(data@.skip(pos as int)) == Ok::<
                _,
                NbtError,
            >((s@, (p - pos) as nat)),
            Err(e) => read_str(data@.skip(pos as int)) == Err::<(Seq<char>, nat), _>(e),
        },
{
    let ghost d = data@.skip(pos as int);
    if data.len() - pos < 2 {
        return Err(NbtError::UnexpectedEnd);
    }
    let n = rd_u16(data, pos) as usize;
    if data.len() - pos - 2 < n {
        return Err(NbtError::UnexpectedEnd);
    }
    let bytes = &data[pos + 2..pos + 2 + n];
    assert(bytes@ =~= d.subrange(2, 2 + n as int));
    match str_from_utf8(bytes) {
        Some(s) => Ok((s.to_owned(), pos + 2 + n)),
        None => Err(NbtError::InvalidUtf8),
    }
}

fn read_list_items(data: &[u8], start: usize, inner: u8, n: usize, depth: u32) -> (r: Result<
    (Vec<Value>, usize),
    NbtError,
>)
    requires
        start <= data.len(),
        depth <= MAX_DEPTH + 1,
    ensures
        match r {
            Ok((items, p)) => start <= p <= data.len() && read_items(
                data@.skip(start as int),
                inner,
                n as nat,
                depth as int,
            ) == Ok::<_, NbtError>((values_model(items@), (p - start) as nat)),
            Err(e) => read_items(data@.skip(start as int), inner, n as nat, depth as int) == Err::<
                (Seq<Nbt>, nat),
                _,
            >(e),
        },
    decreases data.len() - start, 2nat,
{
    let ghost d0 = data@.skip(start as int);
    let mut items: Vec<Value> = Vec::new();
    let mut p = start;
    let mut i: usize = 0;
    while i < n
        invariant
            start <= p <= data.len(),
            i <= n,
            depth <= MAX_DEPTH + 1,
            d0 == data@.skip(start as int),
            i > 0 ==> p > start,
            read_items(d0, inner, n as nat, depth as int) == match read_items(
                data@.skip(p as int),
                inner,
                (n - i) as nat,
                depth as int,
            ) {
                Ok((rest, k)) => Ok((values_model(items@) + rest, ((p - start) + k) as nat)),
                Err(e) => Err(e),
            },
        decreases n - i,
    {
        match read_value(data, p, inner, depth) {
            Ok((v, q)) => {
                proof {
                    assert(data@.skip(p as int).skip(q - p) =~= data@.skip(q as int));
                    lemma_values_model_push(items@, v);
                    let tail = read_items(data@.skip(q as int), inner, (n - i - 1) as nat, depth as int);
                    if let Ok((rest, k)) = tail {
                        assert(values_model(items@) + (seq![v@] + rest) =~= values_model(
                            items@.push(v),
                        ) + rest);
                    }
                }
                items.push(v);
                p = q;
            },
            Err(e) => {
                assert(read_items(data@.skip(p as int), inner, (n - i) as nat, depth as int) == Err::<
                    (Seq<Nbt>, nat),
                    NbtError,
                >(e));
                return Err(e);
            },
        }
        i += 1;
    }
    proof {
        assert(values_model(items@) + Seq::<Nbt>::empty() =~= values_model(items@));
    }
    Ok((items, p))
}

#[verifier::rlimit(40)]
fn read_compound_entries(data: &[u8], start: usize, depth: u32) -> (r: Result<
    (Vec<(String, Value)>, usize),
    NbtError,
>)
    requires
        start <= data.len(),
        depth <= MAX_DEPTH + 1,
    ensures
        match r {
            Ok((entries, p)) => start <= p <= data.len() && read_entries(
                data@.skip(start as int),
                depth as int,
            ) == Ok::<_, NbtError>((entries_model(entries@), (p - start) as nat)),
            Err(e) => read_entries(data@.skip(start as int), depth as int) == Err::<
                (Seq<(Seq<char>, Nbt)>, nat),
                _,
            >(e),
        },
    decreases data.len() - start, 0nat,
{
    let ghost d = data@.skip(start as int);
    let mut entries: Vec<(String, Value)> = Vec::new();
    let mut p = start;
    loop
        invariant
            start <= p <= data.len(),
            depth <= MAX_DEPTH + 1,
            d == data@.skip(start as int),
            read_entries(d, depth as int) == match read_entries(data@.skip(p as int), depth as int) {
                Ok((rest, k)) => Ok((entries_model(entries@) + rest, ((p - start) + k) as nat)),
                Err(e) => Err(e),
            },
        decreases data.len() - p,
    {
        let ghost dp = data@.skip(p as int);
        if p >= data.len() {
            assert(read_entries(dp, depth as int) == Err::<(Seq<(Seq<char>, Nbt)>, nat), NbtError>(
                NbtError::UnexpectedEnd,
            ));
            return Err(NbtError::UnexpectedEnd);
        }
        let t = data[p];
        if t == 0 {
            proof {
                assert(entries_model(entries@) + Seq::<(Seq<char>, Nbt)>::empty() =~= entries_model(
                    entries@,
                ));
            }
            return Ok((entries, p + 1));
        }
        proof {
            assert(data@.skip(p + 1) =~= dp.skip(1));
        }
        let (name, p1) = match read_string(data, p + 1) {
            Ok(x) => x,
            Err(e) => {
                assert(read_entries(dp, depth as int) == Err::<(Seq<(Seq<char>, Nbt)>, nat), NbtError>(
                    e,
                ));
                return Err(e);
            },
        };
        proof {
            assert(data@.skip(p1 as int) =~= dp.skip(1 + (p1 - p - 1)));
        }
        let (v, p2) = match read_value(data, p1, t, depth) {
            Ok(x) => x,
            Err(e) => {
                assert(read_entries(dp, depth as int) == Err::<(Seq<(Seq<char>, Nbt)>, nat), NbtError>(
                    e,
                ));
                return Err(e);
            },
        };
        proof {
            assert(data@.skip(p2 as int) =~= dp.skip((p2 - p) as int));
            lemma_entries_model_push(entries@, (name, v));
            let tail = read_entries(data@.skip(p2 as int), depth as int);
            if let Ok((rest, k)) = tail {
                assert(entries_model(entries@) + (seq![(name@, v@)] + rest) =~= entries_model(
                    entries@.push((name, v)),
                ) + rest);
            }
        }
        entries.push((name, v));
        p = p2;
    }
}

fn load_i32s(data: &[u8], start: usize, n: usize) -> (r: Result<(Vec<i32>, usize), NbtError>)
    requires
        start <= data.len(),
    ensures
        match r {
            Ok((items, p)) => start <= p <= data.len() && read_i32s(data@.skip(start as int), n as nat)
                == Ok::<_, NbtError>((items@, (p - start) as nat)),
            Err(e) => read_i32s(data@.skip(start as int), n as nat) == Err::<(Seq<i32>, nat), _>(e),
        },
{
    let ghost d0 = data@.skip(start as int);
    let mut items: Vec<i32> = Vec::new();
    let mut p = start;
    let mut i: usize = 0;
    while i < n
        invariant
            start <= p <= data.len(),
            i <= n,
            d0 == data@.skip(start as int),
            read_i32s(d0, n as nat) == match read_i32s(data@.skip(p as int), (n - i) as nat) {
                Ok((rest, k)) => Ok((items@ + rest, ((p - start) + k) as nat)),
                Err(e) => Err(e),
            },
        decreases n - i,
    {
        if data.len() - p < 4 {
            assert(read_i32s(data@.skip(p as int), (n - i) as nat) == Err::<(Seq<i32>, nat), NbtError>(
                NbtError::UnexpectedEnd,
            ));
            return Err(NbtError::UnexpectedEnd);
        }
        let x = rd_u32(data, p) as i32;
        proof {
            assert(data@.skip(p as int).skip(4) =~= data@.skip(p + 4));
            let tail = read_i32s(data@.skip(p + 4), (n - i - 1) as nat);
            if let Ok((rest, k)) = tail {
                assert(items@ + (seq![x] + rest) =~= items@.push(x) + rest);
            }
        }
        items.push(x);
        p = p + 4;
        i += 1;
    }
    proof {
        assert(items@ + Seq::<i32>::empty() =~= items@);
    }
    Ok((items, p))
}

fn load_i64s(data: &[u8], start: usize, n: usize) -> (r: Result<(Vec<i64>, usize), NbtError>)
    requires
        start <= data.len(),
    ensures
        match r {
            Ok((items, p)) => start <= p <= data.len() && read_i64s(data@.skip(start as int), n as nat)
                == Ok::<_, NbtError>((items@, (p - start) as nat)),
            Err(e) => read_i64s(data@.skip(start as int), n as nat) == Err::<(Seq<i64>, nat), _>(e),
        },
{
    let ghost d0 = data@.skip(start as int);
    let mut items: Vec<i64> = Vec::new();
    let mut p = start;
    let mut i: usize = 0;
    while i < n
        invariant
            start <= p <= data.len(),
            i <= n,
            d0 == data@.skip(start as int),
            read_i64s(d0, n as nat) == match read_i64s(data@.skip(p as int), (n - i) as nat) {
                Ok((rest, k)) => Ok((items@ + rest, ((p - start) + k) as nat)),
                Err(e) => Err(e),
            },
        decreases n - i,
    {
        if data.len() - p < 8 {
            assert(read_i64s(data@.skip(p as int), (n - i) as nat) == Err::<(Seq<i64>, nat), NbtError>(
                NbtError::UnexpectedEnd,
            ));
            return Err(NbtError::UnexpectedEnd);
        }
        let x = rd_u64(data, p) as i64;
        proof {
            assert(data@.skip(p as int).skip(8) =~= data@.skip(p + 8));
            let tail = read_i64s(data@.skip(p + 8), (n - i - 1) as nat);
            if let Ok((rest, k)) = tail {
                assert(items@ + (seq![x] + rest) =~= items@.push(x) + rest);
            }
        }
        items.push(x);
        p = p + 8;
        i += 1;
    }
    proof {
        assert(items@ + Seq::<i64>::empty() =~= items@);
    }
    Ok((items, p))
}

fn read_value(data: &[u8], pos: usize, tag: u8, depth: u32) -> (r: Result<(Value, usize), NbtError>)
    requires
        pos <= data.len(),
    ensures
        match r {
            Ok((v, p)) => pos <= p <= data.len() && read_payload(
                data@.skip(pos as int),
                tag,
                depth as int,
            ) == Ok::<_, NbtError>((v@, (p - pos) as nat)),
            Err(e) => read_payload(data@.skip(pos as int), tag, depth as int) == Err::<
                (Nbt, nat),
                _,
            >(e),
        },
    decreases data.len() - pos, 1nat,
{
    let ghost d = data@.skip(pos as int);
    let avail = data.len() - pos;
    if depth > MAX_DEPTH {
        return Err(NbtError::TooDeep);
    }
    if tag == 1 {
        if avail < 1 {
            return Err(NbtError::UnexpectedEnd);
        }
        Ok((Value::Byte(data[pos] as i8), pos + 1))
    } else if tag == 2 {
        if avail < 2 {
            return Err(NbtError::UnexpectedEnd);
        }
        Ok((Value::Short(rd_u16(data, pos) as i16), pos + 2))
    } else if tag == 3 {
        if avail < 4 {
            return Err(NbtError::UnexpectedEnd);
        }
        Ok((Value::Int(rd_u32(data, pos) as i32), pos + 4))
    } else if tag == 4 {
        if avail < 8 {
            return Err(NbtError::UnexpectedEnd);
        }
        Ok((Value::Long(rd_u64(data, pos) as i64), pos + 8))
    } else if tag == 5 {
        if avail < 4 {
            return Err(NbtError::UnexpectedEnd);
        }
        Ok((Value::Float(rd_u32(data, pos)), pos + 4))
    } else if tag == 6 {
        if avail < 8 {
            return Err(NbtError::UnexpectedEnd);
        }
        Ok((Value::Double(rd_u64(data, pos)), pos + 8))
    } else if tag == 7 {
        if avail < 4 {
            return Err(NbtError::UnexpectedEnd);
        }
        let len = rd_u32(data, pos) as i32;
        if len < 0 {
            return Err(NbtError::NegativeLength);
        }
        if len as u32 > MAX_BYTE_ARRAY {
            return Err(NbtError::ByteArrayTooLarge(len as u32));
        }
        let n = len as usize;
        if avail - 4 < n {
            return Err(NbtError::UnexpectedEnd);
        }
        let bytes = copy_range(data, pos + 4, pos + 4 + n);
        assert(bytes@ =~= d.subrange(4, 4 + n as int));
        Ok((Value::ByteArray(bytes), pos + 4 + n))
    } else if tag == 8 {
        match read_string(data, pos) {
            Ok((s, p)) => Ok((Value::String(s), p)),
            Err(e) => Err(e),
        }
    } else if tag == 9 {
        if avail < 1 {
            return Err(NbtError::UnexpectedEnd);
        }
        let inner = data[pos];
        if avail < 5 {
            return Err(NbtError::UnexpectedEnd);
        }
        let len = rd_u32(data, pos + 1) as i32;
        proof {
            assert(data@.skip(pos + 1) =~= d.skip(1));
            assert(data@.skip(pos + 5) =~= d.skip(5));
        }
        if len < 0 {
            return Err(NbtError::NegativeLength);
        }
        match read_list_items(data, pos + 5, inner, len as usize, depth + 1) {
            Ok((items, p)) => Ok((Value::List(items), p)),
            Err(e) => Err(e),
        }
    } else if tag == 10 {
        match read_compound_entries(data, pos, depth + 1) {
            Ok((entries, p)) => Ok((Value::Compound(entries), p)),
            Err(e) => Err(e),
        }
    } else if tag == 11 {
        if avail < 4 {
            return Err(NbtError::UnexpectedEnd);
        }
        let len = rd_u32(data, pos) as i32;
        assert(data@.skip(pos + 4) =~= d.skip(4));
        if len < 0 {
            return Err(NbtError::NegativeLength);
        }
        match load_i32s(data, pos + 4, len as usize) {
            Ok((items, p)) => Ok((Value::IntArray(items), p)),
            Err(e) => Err(e),
        }
    } else if tag == 12 {
        if avail < 4 {
            return Err(NbtError::UnexpectedEnd);
        }
        let len = rd_u32(data, pos) as i32;
        assert(data@.skip(pos + 4) =~= d.skip(4));
        if len < 0 {
            return Err(NbtError::NegativeLength);
        }
        match load_i64s(data, pos + 4, len as usize) {
            Ok((items, p)) => Ok((Value::LongArray(items), p)),
            Err(e) => Err(e),
        }
    } else {
        Err(NbtError::UnknownTag(tag))
    }
}

/// Parse a whole NBT document: `(root name, root payload)`.
pub fn parse(data: &[u8]) -> (r: Result<(String, Value), NbtError>)
    ensures
        match r {
            Ok((name, v)) => read_document(data@) == Ok::<_, NbtError>((name@, v@)),
            Err(e) => read_document(data@) == Err::<(Seq<char>, Nbt), _>(e),
        },
{
    if data.len() < 1 {
        return Err(NbtError::UnexpectedEnd);
    }
    let tag = data[0];
    if tag != 10 {
        return Err(NbtError::RootNotCompound(tag));
    }
    let (name, p) = read_string(data, 1)?;
    assert(data@.skip(p as int) =~= data@.skip(1).skip((p - 1) as int));
    let (value, _) = read_value(data, p, tag, 0)?;
    Ok((name, value))
}


// ---------------------------------------------------------------------------
// Round trip: what `write` produces, `parse` reads back.
// ---------------------------------------------------------------------------

/// A string that fits the 16-bit length prefix.
pub open spec fn wf_str(s: Seq<char>) -> bool {
    encode_utf8(s).len() <= 0xffff
}

/// A value that the reader accepts back at nesting `depth`: strings fit their
/// length prefix, byte arrays stay within [`MAX_BYTE_ARRAY`], lengths fit an
/// `i32`, list items all share the first item's tag, and nothing is nested
/// deeper than [`MAX_DEPTH`].
pub open spec fn wf_nbt(v: Nbt, depth: int) -> bool
    decreases v, 1int,
{
    &&& depth <= MAX_DEPTH
    &&& match v {
        Nbt::ByteArray(b) => b.len() <= MAX_BYTE_ARRAY,
        Nbt::String(s) => wf_str(s),
        Nbt::List(items) => items.len() <= i32::MAX && wf_items(items, list_tag(items), depth + 1),
        Nbt::Compound(entries) => wf_entries(entries, depth + 1),
        Nbt::IntArray(a) => a.len() <= i32::MAX,
        Nbt::LongArray(a) => a.len() <= i32::MAX,
        _ => true,
    }
}

/// List items that all carry tag id `tag` and are well-formed at `depth`.
pub open spec fn wf_items(s: Seq<Nbt>, tag: u8, depth: int) -> bool
    decreases s, 0int,
{
    s.len() > 0 ==> {
        &&& tag_id(s[0]) == tag
        &&& wf_nbt(s[0], depth)
        &&& wf_items(s.drop_first(), tag, depth)
    }
}

/// Compound entries whose names fit their prefix and whose values are
/// well-formed at `depth`.
pub open spec fn wf_entries(s: Seq<(Seq<char>, Nbt)>, depth: int) -> bool
    decreases s, 0int,
{
    s.len() > 0 ==> {
        &&& wf_str(s[0].0)
        &&& wf_nbt(s[0].1, depth)
        &&& wf_entries(s.drop_first(), depth)
    }
}

proof fn lemma_split<T>(a: Seq<T>, b: Seq<T>)
    ensures
        (a + b).skip(a.len() as int) == b,
        (a + b).subrange(0, a.len() as int) == a,
{
    assert((a + b).skip(a.len() as int) =~= b);
    assert((a + b).subrange(0, a.len() as int) =~= a);
}

proof fn lemma_dec16(x: u16, rest: Seq<u8>)
    ensures
        dec16(be16(x) + rest) == x,
{
    let d = be16(x) + rest;
    assert(d[0] == (x / 0x100) as u8);
    assert(d[1] == (x % 0x100) as u8);
}

proof fn lemma_dec32(x: u32, rest: Seq<u8>)
    ensures
        dec32(be32(x) + rest) == x,
{
    lemma_be32_value(x, rest);
}

proof fn lemma_dec64(x: u64, rest: Seq<u8>)
    ensures
        dec64(be64(x) + rest) == x,
{
    let hi = (x / 0x1_0000_0000) as u32;
    let lo = (x % 0x1_0000_0000) as u32;
    lemma_dec32(hi, be32(lo) + rest);
    assert(be64(x) + rest =~= be32(hi) + (be32(lo) + rest));
    lemma_split(be32(hi), be32(lo) + rest);
    lemma_dec32(lo, rest);
}

proof fn lemma_signed_casts(a: i8, b: i16, c: i32, d: i64)
    ensures
        (a as u8) as i8 == a,
        (b as u16) as i16 == b,
        (c as u32) as i32 == c,
        (d as u64) as i64 == d,
{
    assert((a as u8) as i8 == a) by (bit_vector);
    assert((b as u16) as i16 == b) by (bit_vector);
    assert((c as u32) as i32 == c) by (bit_vector);
    assert((d as u64) as i64 == d) by (bit_vector);
}

proof fn lemma_len_field(n: nat, rest: Seq<u8>)
    requires
        n <= i32::MAX,
    ensures
        dec32(len_field(n) + rest) as i32 == n,
        len_field(n).len() == 4,
{
    lemma_dec32(n as i32 as u32, rest);
}

proof fn lemma_read_str(s: Seq<char>, rest: Seq<u8>)
    requires
        wf_str(s),
    ensures
        read_str(enc_str(s) + rest) == Ok::<_, NbtError>((s, enc_str(s).len())),
{
    let b = encode_utf8(s);
    let d = enc_str(s) + rest;
    lemma_dec16(b.len() as u16, b + rest);
    assert(d =~= be16(b.len() as u16) + (b + rest));
    assert(d.subrange(2, 2 + b.len() as int) =~= b);
    encode_utf8_valid_utf8(s);
    encode_utf8_decode_utf8(s);
}

proof fn lemma_read_i32s(a: Seq<i32>, rest: Seq<u8>)
    ensures
        read_i32s(enc_i32s(a) + rest, a.len()) == Ok::<_, NbtError>((a, enc_i32s(a).len())),
    decreases a.len(),
{
    if a.len() == 0 {
        assert(a =~= Seq::<i32>::empty());
    } else {
        let x = a[0];
        let a2 = a.drop_first();
        let tail = enc_i32s(a2) + rest;
        let d = enc_i32s(a) + rest;
        assert(enc_i32s(a) == be32(x as u32) + enc_i32s(a2));
        assert(d =~= be32(x as u32) + tail);
        assert(be32(x as u32).len() == 4);
        lemma_split(be32(x as u32), tail);
        lemma_dec32(x as u32, tail);
        lemma_signed_casts(0, 0, x, 0);
        lemma_read_i32s(a2, rest);
        assert((a.len() - 1) as nat == a2.len());
        assert(seq![x] + a2 =~= a);
        assert(enc_i32s(a).len() == 4 + enc_i32s(a2).len());
        assert(read_i32s(d, a.len()) == Ok::<(Seq<i32>, nat), NbtError>((a, enc_i32s(a).len())));
    }
}

proof fn lemma_read_i64s(a: Seq<i64>, rest: Seq<u8>)
    ensures
        read_i64s(enc_i64s(a) + rest, a.len()) == Ok::<_, NbtError>((a, enc_i64s(a).len())),
    decreases a.len(),
{
    if a.len() == 0 {
        assert(a =~= Seq::<i64>::empty());
    } else {
        let x = a[0];
        let a2 = a.drop_first();
        let tail = enc_i64s(a2) + rest;
        let d = enc_i64s(a) + rest;
        assert(enc_i64s(a) == be64(x as u64) + enc_i64s(a2));
        assert(d =~= be64(x as u64) + tail);
        assert(be64(x as u64).len() == 8);
        lemma_split(be64(x as u64), tail);
        lemma_dec64(x as u64, tail);
        lemma_signed_casts(0, 0, 0, x);
        lemma_read_i64s(a2, rest);
        assert((a.len() - 1) as nat == a2.len());
        assert(seq![x] + a2 =~= a);
        assert(enc_i64s(a).len() == 8 + enc_i64s(a2).len());
        assert(read_i64s(d, a.len()) == Ok::<(Seq<i64>, nat), NbtError>((a, enc_i64s(a).len())));
    }
}

#[verifier::rlimit(60)]
#[verifier::spinoff_prover]
proof fn lemma_read_scalar(v: Nbt, rest: Seq<u8>)
    requires
        1 <= tag_id(v) <= 6,
    ensures
        read_scalar(enc_payload(v) + rest, tag_id(v)) == Ok::<_, NbtError>(
            (v, enc_payload(v).len()),
        ),
{
    let d = enc_payload(v) + rest;
    match v {
        Nbt::Byte(x) => {
            lemma_signed_casts(x, 0, 0, 0);
        },
        Nbt::Short(x) => {
            lemma_dec16(x as u16, rest);
            lemma_signed_casts(0, x, 0, 0);
        },
        Nbt::Int(x) => {
            lemma_dec32(x as u32, rest);
            lemma_signed_casts(0, 0, x, 0);
        },
        Nbt::Long(x) => {
            lemma_dec64(x as u64, rest);
            lemma_signed_casts(0, 0, 0, x);
        },
        Nbt::Float(x) => {
            lemma_dec32(x, rest);
        },
        Nbt::Double(x) => {
            lemma_dec64(x, rest);
        },
        _ => {},
    }
}

proof fn lemma_read_byte_array(b: Seq<u8>, rest: Seq<u8>)
    requires
        b.len() <= MAX_BYTE_ARRAY,
    ensures
        read_byte_array(enc_payload(Nbt::ByteArray(b)) + rest) == Ok::<_, NbtError>(
            (Nbt::ByteArray(b), enc_payload(Nbt::ByteArray(b)).len()),
        ),
{
    let d = enc_payload(Nbt::ByteArray(b)) + rest;
    lemma_len_field(b.len(), b + rest);
    assert(d =~= len_field(b.len()) + (b + rest));
    assert(d.subrange(4, 4 + b.len() as int) =~= b);
}

proof fn lemma_read_int_array(a: Seq<i32>, rest: Seq<u8>)
    requires
        a.len() <= i32::MAX,
    ensures
        read_int_array(enc_payload(Nbt::IntArray(a)) + rest) == Ok::<_, NbtError>(
            (Nbt::IntArray(a), enc_payload(Nbt::IntArray(a)).len()),
        ),
{
    let d = enc_payload(Nbt::IntArray(a)) + rest;
    lemma_len_field(a.len(), enc_i32s(a) + rest);
    assert(d =~= len_field(a.len()) + (enc_i32s(a) + rest));
    assert(d.skip(4) =~= enc_i32s(a) + rest);
    lemma_read_i32s(a, rest);
}

proof fn lemma_read_long_array(a: Seq<i64>, rest: Seq<u8>)
    requires
        a.len() <= i32::MAX,
    ensures
        read_long_array(enc_payload(Nbt::LongArray(a)) + rest) == Ok::<_, NbtError>(
            (Nbt::LongArray(a), enc_payload(Nbt::LongArray(a)).len()),
        ),
{
    let d = enc_payload(Nbt::LongArray(a)) + rest;
    lemma_len_field(a.len(), enc_i64s(a) + rest);
    assert(d =~= len_field(a.len()) + (enc_i64s(a) + rest));
    assert(d.skip(4) =~= enc_i64s(a) + rest);
    lemma_read_i64s(a, rest);
}

#[verifier::rlimit(60)]
#[verifier::spinoff_prover]
proof fn lemma_read_payload(v: Nbt, depth: int, rest: Seq<u8>)
    requires
        wf_nbt(v, depth),
    ensures
        read_payload(enc_payload(v) + rest, tag_id(v), depth) == Ok::<_, NbtError>(
            (v, enc_payload(v).len()),
        ),
    decreases v, 2int,
{
    match v {
        Nbt::ByteArray(b) => lemma_read_byte_array(b, rest),
        Nbt::String(s) => lemma_read_str(s, rest),
        Nbt::List(items) => lemma_read_list(items, depth, rest),
        Nbt::Compound(entries) => lemma_read_compound(entries, depth, rest),
        Nbt::IntArray(a) => lemma_read_int_array(a, rest),
        Nbt::LongArray(a) => lemma_read_long_array(a, rest),
        _ => lemma_read_scalar(v, rest),
    }
}

#[verifier::rlimit(60)]
#[verifier::spinoff_prover]
proof fn lemma_read_list(items: Seq<Nbt>, depth: int, rest: Seq<u8>)
    requires
        wf_nbt(Nbt::List(items), depth),
    ensures
        read_payload(enc_payload(Nbt::List(items)) + rest, 9, depth) == Ok::<_, NbtError>(
            (Nbt::List(items), enc_payload(Nbt::List(items)).len()),
        ),
    decreases items, 1int,
{
    let v = Nbt::List(items);
    let d = enc_payload(v) + rest;
    let body = enc_items(items) + rest;
    assert(d =~= seq![list_tag(items)] + (len_field(items.len()) + body));
    lemma_len_field(items.len(), body);
    assert(d.skip(1) =~= len_field(items.len()) + body);
    assert(d.skip(5) =~= body);
    lemma_read_items(items, list_tag(items), depth + 1, rest);
    assert(read_list(d, depth) == Ok::<_, NbtError>((v, enc_payload(v).len())));
}

#[verifier::rlimit(60)]
#[verifier::spinoff_prover]
proof fn lemma_read_compound(entries: Seq<(Seq<char>, Nbt)>, depth: int, rest: Seq<u8>)
    requires
        wf_nbt(Nbt::Compound(entries), depth),
    ensures
        read_payload(enc_payload(Nbt::Compound(entries)) + rest, 10, depth) == Ok::<_, NbtError>(
            (Nbt::Compound(entries), enc_payload(Nbt::Compound(entries)).len()),
        ),
    decreases entries, 1int,
{
    let v = Nbt::Compound(entries);
    let d = enc_payload(v) + rest;
    assert(d =~= enc_entries(entries) + (seq![0u8] + rest));
    lemma_read_entries(entries, depth + 1, seq![0u8] + rest);
}

#[verifier::rlimit(60)]
#[verifier::spinoff_prover]
proof fn lemma_read_items(s: Seq<Nbt>, tag: u8, depth: int, rest: Seq<u8>)
    requires
        wf_items(s, tag, depth),
    ensures
        read_items(enc_items(s) + rest, tag, s.len(), depth) == Ok::<_, NbtError>(
            (s, enc_items(s).len()),
        ),
    decreases s, 0int,
{
    if s.len() == 0 {
        assert(s =~= Seq::<Nbt>::empty());
    } else {
        let x = s[0];
        let s2 = s.drop_first();
        let tail = enc_items(s2) + rest;
        let d = enc_items(s) + rest;
        assert(enc_items(s) == enc_payload(x) + enc_items(s2));
        assert(d =~= enc_payload(x) + tail);
        lemma_read_payload(x, depth, tail);
        lemma_split(enc_payload(x), tail);
        lemma_read_items(s2, tag, depth, rest);
        assert((s.len() - 1) as nat == s2.len());
        assert(seq![x] + s2 =~= s);
        assert(read_items(d, tag, s.len(), depth) == Ok::<_, NbtError>(
            (seq![x] + s2, enc_payload(x).len() + enc_items(s2).len()),
        ));
    }
}

#[verifier::rlimit(60)]
#[verifier::spinoff_prover]
proof fn lemma_read_entries(s: Seq<(Seq<char>, Nbt)>, depth: int, rest: Seq<u8>)
    requires
        wf_entries(s, depth),
        rest.len() > 0,
        rest[0] == 0,
    ensures
        read_entries(enc_entries(s) + rest, depth) == Ok::<_, NbtError>(
            (s, enc_entries(s).len() + 1),
        ),
    decreases s, 0int,
{
    let d = enc_entries(s) + rest;
    if s.len() == 0 {
        assert(d =~= rest);
        assert(s =~= Seq::<(Seq<char>, Nbt)>::empty());
    } else {
        let name = s[0].0;
        let v = s[0].1;
        let s2 = s.drop_first();
        let tail = enc_entries(s2) + rest;
        let after_name = enc_payload(v) + tail;
        assert(enc_entries(s) == seq![tag_id(v)] + enc_str(name) + enc_payload(v) + enc_entries(s2));
        assert(d =~= seq![tag_id(v)] + (enc_str(name) + after_name));
        assert(d.skip(1) =~= enc_str(name) + after_name);
        lemma_read_str(name, after_name);
        let k1 = enc_str(name).len();
        assert(d.skip(1 + k1 as int) =~= after_name);
        lemma_read_payload(v, depth, tail);
        let k2 = enc_payload(v).len();
        assert(d.skip(1 + k1 + k2 as int) =~= tail);
        lemma_read_entries(s2, depth, rest);
        assert(seq![(name, v)] + s2 =~= s);
        assert(d[0] == tag_id(v));
        assert(read_entries(d, depth) == Ok::<_, NbtError>(
            (seq![(name, v)] + s2, 1 + k1 + k2 + enc_entries(s2).len() + 1),
        ));
    }
}

/// Reading back a written document gives its root name and value, whatever
/// follows it: for every well-formed compound `value` whose `name` fits the
/// 16-bit length prefix.
pub proof fn lemma_write_then_parse(name: Seq<char>, value: Nbt, rest: Seq<u8>)
    requires
        wf_str(name),
        value is Compound,
        wf_nbt(value, 0),
    ensures
        read_document(enc_document(name, value) + rest) == Ok::<_, NbtError>((name, value)),
{
    let d = enc_document(name, value) + rest;
    let tail = enc_payload(value) + rest;
    assert(d =~= seq![10u8] + (enc_str(name) + tail));
    assert(d.skip(1) =~= enc_str(name) + tail);
    lemma_read_str(name, tail);
    assert(d.skip(1 + enc_str(name).len() as int) =~= tail);
    lemma_read_payload(value, 0, rest);
}


// ---------------------------------------------------------------------------
// Reading depends only on the bytes read
// ---------------------------------------------------------------------------

/// `e` is a prefix of `d`.
pub open spec fn prefix_of(e: Seq<u8>, d: Seq<u8>) -> bool {
    e.len() <= d.len() && forall|i: int| 0 <= i < e.len() ==> #[trigger] e[i] == d[i]
}

proof fn lemma_prefix_skip(e: Seq<u8>, d: Seq<u8>, k: int)
    requires
        prefix_of(e, d),
        0 <= k <= e.len(),
    ensures
        prefix_of(e.skip(k), d.skip(k)),
{
    assert forall|i: int| 0 <= i < e.skip(k).len() implies #[trigger] e.skip(k)[i] == d.skip(k)[i] by {
        assert(e.skip(k)[i] == e[k + i]);
        assert(d.skip(k)[i] == d[k + i]);
    }
}

proof fn lemma_dec_prefix(e: Seq<u8>, d: Seq<u8>)
    requires
        prefix_of(e, d),
    ensures
        e.len() >= 2 ==> dec16(e) == dec16(d),
        e.len() >= 4 ==> dec32(e) == dec32(d),
        e.len() >= 8 ==> dec64(e) == dec64(d),
{
    if e.len() >= 2 {
        assert(e[0] == d[0] && e[1] == d[1]);
    }
    if e.len() >= 4 {
        assert(e[2] == d[2] && e[3] == d[3]);
    }
    if e.len() >= 8 {
        lemma_prefix_skip(e, d, 4);
        assert(e.skip(4)[0] == d.skip(4)[0] && e.skip(4)[1] == d.skip(4)[1]);
        assert(e.skip(4)[2] == d.skip(4)[2] && e.skip(4)[3] == d.skip(4)[3]);
    }
}

proof fn lemma_str_extend(e: Seq<u8>, d: Seq<u8>)
    requires
        prefix_of(e, d),
    ensures
        read_str(e) matches Ok((_, k)) ==> k <= e.len() && read_str(d) == read_str(e),
{
    lemma_dec_prefix(e, d);
    if read_str(e) is Ok {
        let n = dec16(e) as int;
        assert(e.subrange(2, 2 + n) =~= d.subrange(2, 2 + n));
    }
}

proof fn lemma_i32s_extend(e: Seq<u8>, d: Seq<u8>, n: nat)
    requires
        prefix_of(e, d),
    ensures
        read_i32s(e, n) matches Ok((_, k)) ==> k <= e.len() && read_i32s(d, n) == read_i32s(e, n),
    decreases n,
{
    if n > 0 && e.len() >= 4 {
        lemma_dec_prefix(e, d);
        lemma_prefix_skip(e, d, 4);
        lemma_i32s_extend(e.skip(4), d.skip(4), (n - 1) as nat);
    }
}

proof fn lemma_i64s_extend(e: Seq<u8>, d: Seq<u8>, n: nat)
    requires
        prefix_of(e, d),
    ensures
        read_i64s(e, n) matches Ok((_, k)) ==> k <= e.len() && read_i64s(d, n) == read_i64s(e, n),
    decreases n,
{
    if n > 0 && e.len() >= 8 {
        lemma_dec_prefix(e, d);
        lemma_prefix_skip(e, d, 8);
        lemma_i64s_extend(e.skip(8), d.skip(8), (n - 1) as nat);
    }
}

proof fn lemma_arrays_extend(e: Seq<u8>, d: Seq<u8>, tag: u8)
    requires
        prefix_of(e, d),
    ensures
        1 <= tag <= 6 ==> (read_scalar(e, tag) matches Ok((_, k)) ==> k <= e.len() && read_scalar(d, tag)
            == read_scalar(e, tag)),
        read_byte_array(e) matches Ok((_, k)) ==> k <= e.len() && read_byte_array(d) == read_byte_array(e),
        read_int_array(e) matches Ok((_, k)) ==> k <= e.len() && read_int_array(d) == read_int_array(e),
        read_long_array(e) matches Ok((_, k)) ==> k <= e.len() && read_long_array(d) == read_long_array(e),
{
    lemma_dec_prefix(e, d);
    if e.len() >= 1 {
        assert(e[0] == d[0]);
    }
    if read_byte_array(e) is Ok {
        let len = dec32(e) as i32 as int;
        assert(e.subrange(4, 4 + len) =~= d.subrange(4, 4 + len));
    }
    if e.len() >= 4 {
        lemma_prefix_skip(e, d, 4);
        let len = dec32(e) as i32;
        if len >= 0 {
            lemma_i32s_extend(e.skip(4), d.skip(4), len as nat);
            lemma_i64s_extend(e.skip(4), d.skip(4), len as nat);
        }
    }
}

proof fn lemma_payload_extend(e: Seq<u8>, d: Seq<u8>, tag: u8, depth: int)
    requires
        prefix_of(e, d),
    ensures
        read_payload(e, tag, depth) matches Ok((_, k)) ==> k <= e.len() && read_payload(d, tag, depth)
            == read_payload(e, tag, depth),
    decreases e.len(), 1int,
{
    lemma_arrays_extend(e, d, tag);
    lemma_str_extend(e, d);
    if depth <= MAX_DEPTH {
        if tag == 9 {
            lemma_list_extend(e, d, depth);
        } else if tag == 10 {
            lemma_entries_extend(e, d, depth + 1);
        }
    }
}

proof fn lemma_list_extend(e: Seq<u8>, d: Seq<u8>, depth: int)
    requires
        prefix_of(e, d),
    ensures
        read_list(e, depth) matches Ok((_, k)) ==> k <= e.len() && read_list(d, depth) == read_list(
            e,
            depth,
        ),
    decreases e.len(), 0int,
{
    if e.len() >= 5 {
        lemma_prefix_skip(e, d, 1);
        lemma_dec_prefix(e.skip(1), d.skip(1));
        assert(e[0] == d[0]);
        lemma_prefix_skip(e, d, 5);
        let len = dec32(e.skip(1)) as i32;
        if len >= 0 {
            lemma_items_extend(e.skip(5), d.skip(5), e[0], len as nat, depth + 1);
        }
    }
}

proof fn lemma_items_extend(e: Seq<u8>, d: Seq<u8>, tag: u8, n: nat, depth: int)
    requires
        prefix_of(e, d),
    ensures
        read_items(e, tag, n, depth) matches Ok((_, k)) ==> k <= e.len() && read_items(d, tag, n, depth)
            == read_items(e, tag, n, depth),
    decreases e.len(), n + 1,
{
    if n > 0 {
        lemma_payload_extend(e, d, tag, depth);
        match read_payload(e, tag, depth) {
            Ok((_, k)) => {
                if k <= e.len() {
                    lemma_prefix_skip(e, d, k as int);
                    lemma_items_extend(e.skip(k as int), d.skip(k as int), tag, (n - 1) as nat, depth);
                }
            },
            Err(_) => {},
        }
    }
}

proof fn lemma_entries_extend(e: Seq<u8>, d: Seq<u8>, depth: int)
    requires
        prefix_of(e, d),
    ensures
        read_entries(e, depth) matches Ok((_, k)) ==> k <= e.len() && read_entries(d, depth) == read_entries(
            e,
            depth,
        ),
    decreases e.len(), 0int,
{
    if e.len() >= 1 {
        assert(e[0] == d[0]);
        if e[0] != 0 {
            lemma_prefix_skip(e, d, 1);
            lemma_str_extend(e.skip(1), d.skip(1));
            match read_str(e.skip(1)) {
                Ok((_, k1)) => {
                    lemma_prefix_skip(e, d, 1 + k1 as int);
                    lemma_payload_extend(e.skip(1 + k1 as int), d.skip(1 + k1 as int), e[0], depth);
                    match read_payload(e.skip(1 + k1 as int), e[0], depth) {
                        Ok((_, k2)) => {
                            if 1 + k1 + k2 <= e.len() {
                                lemma_prefix_skip(e, d, 1 + k1 + k2 as int);
                                lemma_entries_extend(
                                    e.skip(1 + k1 + k2 as int),
                                    d.skip(1 + k1 + k2 as int),
                                    depth,
                                );
                            }
                        },
                        Err(_) => {},
                    }
                },
                Err(_) => {},
            }
        }
    }
}

/// The number that bytes `d[from..from + n]` spell in big-endian order.
pub open spec fn be_value(d: Seq<u8>, from: int, n: nat) -> int
    decreases n,
{
    if n == 0 {
        0
    } else {
        be_value(d, from, (n - 1) as nat) * 0x100 + d[from + n - 1]
    }
}

#[verifier::spinoff_prover]
proof fn lemma_be32_value(w: u32, rest: Seq<u8>)
    ensures
        be_value(be32(w) + rest, 0, 4) == w,
        be_value(be32(w) + rest, 0, 4) == dec32(be32(w) + rest),
{
    let d = be32(w) + rest;
    reveal_with_fuel(be_value, 5);
    assert(w / 0x100_0000 * 0x100_0000 + (w / 0x1_0000) % 0x100 * 0x1_0000 + (w / 0x100) % 0x100 * 0x100
        + w % 0x100 == w) by (nonlinear_arith);
    assert(d[0] == (w / 0x100_0000) as u8 && d[1] == ((w / 0x1_0000) % 0x100) as u8);
    assert(d[2] == ((w / 0x100) % 0x100) as u8 && d[3] == (w % 0x100) as u8);
}

proof fn lemma_be_value_split(d: Seq<u8>, n: nat)
    requires
        d.len() >= 4 + n,
    ensures
        be_value(d, 0, 4 + n) == be_value(d, 0, 4) * pow256(n) + be_value(d.skip(4), 0, n),
    decreases n,
{
    if n > 0 {
        lemma_be_value_split(d, (n - 1) as nat);
        assert(d.skip(4)[n - 1] == d[4 + n - 1]);
        assert(be_value(d, 0, 4) * pow256(n) == be_value(d, 0, 4) * pow256((n - 1) as nat) * 0x100)
            by (nonlinear_arith)
            requires
                pow256(n) == pow256((n - 1) as nat) * 0x100,
        ;
    }
}

/// 256 to the power `n`.
pub open spec fn pow256(n: nat) -> int
    decreases n,
{
    if n == 0 {
        1
    } else {
        pow256((n - 1) as nat) * 0x100
    }
}

#[verifier::spinoff_prover]
proof fn lemma_be64_value(x: u64, rest: Seq<u8>)
    ensures
        be_value(be64(x) + rest, 0, 8) == x,
        be_value(be64(x) + rest, 0, 8) == dec64(be64(x) + rest),
{
    let hi = (x / 0x1_0000_0000) as u32;
    let lo = (x % 0x1_0000_0000) as u32;
    let d = be64(x) + rest;
    assert(d =~= be32(hi) + (be32(lo) + rest));
    lemma_be32_value(hi, be32(lo) + rest);
    assert(d.skip(4) =~= be32(lo) + rest);
    lemma_be32_value(lo, rest);
    lemma_be_value_split(d, 4);
    reveal_with_fuel(pow256, 5);
    assert(hi * 0x1_0000_0000 + lo == x);
}

proof fn lemma_be_value_decoded(d: Seq<u8>)
    ensures
        d.len() >= 2 ==> be_value(d, 0, 2) == dec16(d),
        d.len() >= 4 ==> be_value(d, 0, 4) == dec32(d),
        d.len() >= 8 ==> be_value(d, 0, 8) == dec64(d),
{
    reveal_with_fuel(be_value, 5);
    if d.len() >= 8 {
        assert(be_value(d.skip(4), 0, 4) == dec32(d.skip(4)));
        lemma_be_value_split(d, 4);
        reveal_with_fuel(pow256, 5);
    }
}

#[verifier::spinoff_prover]
proof fn lemma_scalar_encoding(x: i8, y: i16, z: i32, l: i64, f: u32, g: u64)
    ensures
        enc_payload(Nbt::Byte(x)) == seq![x as u8],
        enc_payload(Nbt::Short(y)).len() == 2,
        be_value(enc_payload(Nbt::Short(y)), 0, 2) == y as u16,
        enc_payload(Nbt::Int(z)).len() == 4,
        be_value(enc_payload(Nbt::Int(z)), 0, 4) == z as u32,
        enc_payload(Nbt::Long(l)).len() == 8,
        be_value(enc_payload(Nbt::Long(l)), 0, 8) == l as u64,
        enc_payload(Nbt::Float(f)).len() == 4,
        be_value(enc_payload(Nbt::Float(f)), 0, 4) == f,
        enc_payload(Nbt::Double(g)).len() == 8,
        be_value(enc_payload(Nbt::Double(g)), 0, 8) == g,
{
    reveal_with_fuel(be_value, 3);
    let u = y as u16;
    assert((u / 0x100) * 0x100 + u % 0x100 == u);
    lemma_be32_value(z as u32, Seq::empty());
    assert(be32(z as u32) + Seq::<u8>::empty() =~= be32(z as u32));
    lemma_be32_value(f, Seq::empty());
    assert(be32(f) + Seq::<u8>::empty() =~= be32(f));
    lemma_be64_value(l as u64, Seq::empty());
    assert(be64(l as u64) + Seq::<u8>::empty() =~= be64(l as u64));
    lemma_be64_value(g, Seq::empty());
    assert(be64(g) + Seq::<u8>::empty() =~= be64(g));
}

#[verifier::spinoff_prover]
proof fn lemma_scalar_reading(d: Seq<u8>, depth: int)
    requires
        depth <= MAX_DEPTH,
    ensures
        d.len() >= 1 ==> read_payload(d, 1, depth) == Ok::<(Nbt, nat), NbtError>(
            (Nbt::Byte(d[0] as i8), 1nat),
        ),
        d.len() >= 2 ==> read_payload(d, 2, depth) == Ok::<(Nbt, nat), NbtError>(
            (Nbt::Short(be_value(d, 0, 2) as u16 as i16), 2nat),
        ),
        d.len() >= 4 ==> read_payload(d, 3, depth) == Ok::<(Nbt, nat), NbtError>(
            (Nbt::Int(be_value(d, 0, 4) as u32 as i32), 4nat),
        ),
        d.len() >= 8 ==> read_payload(d, 4, depth) == Ok::<(Nbt, nat), NbtError>(
            (Nbt::Long(be_value(d, 0, 8) as u64 as i64), 8nat),
        ),
        d.len() >= 4 ==> read_payload(d, 5, depth) == Ok::<(Nbt, nat), NbtError>(
            (Nbt::Float(be_value(d, 0, 4) as u32), 4nat),
        ),
        d.len() >= 8 ==> read_payload(d, 6, depth) == Ok::<(Nbt, nat), NbtError>(
            (Nbt::Double(be_value(d, 0, 8) as u64), 8nat),
        ),
{
    lemma_be_value_decoded(d);
}

/// The scalar payloads follow the NBT format byte for byte, not only a
/// round trip with this reader: a byte is written as itself; shorts, ints,
/// longs, floats and doubles as their bits in big-endian order; and reading
/// tags 1 to 6 turns those bytes back into the value they spell.
pub proof fn lemma_scalar_format(x: i8, y: i16, z: i32, l: i64, f: u32, g: u64, d: Seq<u8>, depth: int)
    requires
        depth <= MAX_DEPTH,
    ensures
        enc_payload(Nbt::Byte(x)) == seq![x as u8],
        enc_payload(Nbt::Short(y)).len() == 2,
        be_value(enc_payload(Nbt::Short(y)), 0, 2) == y as u16,
        enc_payload(Nbt::Int(z)).len() == 4,
        be_value(enc_payload(Nbt::Int(z)), 0, 4) == z as u32,
        enc_payload(Nbt::Long(l)).len() == 8,
        be_value(enc_payload(Nbt::Long(l)), 0, 8) == l as u64,
        enc_payload(Nbt::Float(f)).len() == 4,
        be_value(enc_payload(Nbt::Float(f)), 0, 4) == f,
        enc_payload(Nbt::Double(g)).len() == 8,
        be_value(enc_payload(Nbt::Double(g)), 0, 8) == g,
        d.len() >= 1 ==> read_payload(d, 1, depth) == Ok::<(Nbt, nat), NbtError>(
            (Nbt::Byte(d[0] as i8), 1nat),
        ),
        d.len() >= 2 ==> read_payload(d, 2, depth) == Ok::<(Nbt, nat), NbtError>(
            (Nbt::Short(be_value(d, 0, 2) as u16 as i16), 2nat),
        ),
        d.len() >= 4 ==> read_payload(d, 3, depth) == Ok::<(Nbt, nat), NbtError>(
            (Nbt::Int(be_value(d, 0, 4) as u32 as i32), 4nat),
        ),
        d.len() >= 8 ==> read_payload(d, 4, depth) == Ok::<(Nbt, nat), NbtError>(
            (Nbt::Long(be_value(d, 0, 8) as u64 as i64), 8nat),
        ),
        d.len() >= 4 ==> read_payload(d, 5, depth) == Ok::<(Nbt, nat), NbtError>(
            (Nbt::Float(be_value(d, 0, 4) as u32), 4nat),
        ),
        d.len() >= 8 ==> read_payload(d, 6, depth) == Ok::<(Nbt, nat), NbtError>(
            (Nbt::Double(be_value(d, 0, 8) as u64), 8nat),
        ),
{
    lemma_scalar_encoding(x, y, z, l, f, g);
    lemma_scalar_reading(d, depth);
}

/// A compound holding one byte is written exactly as Minecraft writes it:
/// the compound tag, the root name, the byte tag, the entry name, the byte
/// itself and the end tag.
pub proof fn lemma_byte_entry_document(name: Seq<char>, key: Seq<char>, x: i8)
    ensures
        enc_document(name, Nbt::Compound(seq![(key, Nbt::Byte(x))])) == seq![10u8] + enc_str(name) + seq![1u8]
            + enc_str(key) + seq![x as u8, 0u8],
{
    let entries = seq![(key, Nbt::Byte(x))];
    assert(entries.drop_first() =~= Seq::<(Seq<char>, Nbt)>::empty());
    assert(enc_entries(entries.drop_first()) =~= Seq::<u8>::empty());
    assert(entries[0] == (key, Nbt::Byte(x)));
    assert(tag_id(Nbt::Byte(x)) == 1);
    assert(enc_payload(Nbt::Byte(x)) == seq![x as u8]);
    assert(enc_entries(entries) == seq![tag_id(entries[0].1)] + enc_str(entries[0].0) + enc_payload(
        entries[0].1,
    ) + enc_entries(entries.drop_first()));
    assert(enc_entries(entries) =~= seq![1u8] + enc_str(key) + seq![x as u8]);
    assert(enc_payload(Nbt::Compound(entries)) =~= seq![1u8] + enc_str(key) + seq![x as u8, 0u8]);
    assert(enc_document(name, Nbt::Compound(entries)) =~= seq![10u8] + enc_str(name) + seq![1u8] + enc_str(
        key,
    ) + seq![x as u8, 0u8]);
}

/// `n` compounds nested one in another, each holding the next under an
/// empty name; the innermost is empty.
pub open spec fn nested_compounds(n: nat) -> Nbt
    decreases n,
{
    if n == 0 {
        Nbt::Compound(Seq::empty())
    } else {
        Nbt::Compound(seq![(Seq::<char>::empty(), nested_compounds((n - 1) as nat))])
    }
}

proof fn lemma_deep_payload_fails(n: nat, depth: int, rest: Seq<u8>)
    requires
        depth + n > MAX_DEPTH,
    ensures
        read_payload(enc_payload(nested_compounds(n)) + rest, 10, depth) is Err,
    decreases n,
{
    if n > 0 && depth <= MAX_DEPTH {
        let inner = nested_compounds((n - 1) as nat);
        let entries = seq![(Seq::<char>::empty(), inner)];
        let d = enc_payload(nested_compounds(n)) + rest;
        let tail = enc_payload(inner) + (seq![0u8] + rest);
        assert(entries.drop_first() =~= Seq::<(Seq<char>, Nbt)>::empty());
        assert(inner is Compound);
        assert(tag_id(inner) == 10);
        assert(entries[0] == (Seq::<char>::empty(), inner));
        assert(enc_entries(entries.drop_first()) =~= Seq::<u8>::empty());
        assert(enc_entries(entries) =~= seq![10u8] + enc_str(Seq::empty()) + enc_payload(inner));
        assert(encode_utf8(Seq::<char>::empty()) =~= Seq::<u8>::empty());
        assert(wf_str(Seq::<char>::empty()));
        assert(d =~= seq![10u8] + (enc_str(Seq::empty()) + tail));
        assert(d.skip(1) =~= enc_str(Seq::empty()) + tail);
        lemma_read_str(Seq::empty(), tail);
        let k1 = enc_str(Seq::<char>::empty()).len();
        assert(d.skip(1 + k1 as int) =~= tail);
        lemma_deep_payload_fails((n - 1) as nat, depth + 1, seq![0u8] + rest);
        assert(read_payload(tail, 10, depth + 1) is Err);
        assert(read_entries(d, depth + 1) is Err);
    }
}

/// The reader refuses an empty document, one whose root is not a compound,
/// and compounds nested more than [`MAX_DEPTH`] levels below the root.
pub proof fn lemma_refused_documents(data: Seq<u8>, name: Seq<char>, n: nat)
    ensures
        data.len() == 0 ==> read_document(data) == Err::<(Seq<char>, Nbt), NbtError>(NbtError::UnexpectedEnd),
        data.len() > 0 && data[0] != 10 ==> read_document(data) == Err::<(Seq<char>, Nbt), NbtError>(
            NbtError::RootNotCompound(data[0]),
        ),
        wf_str(name) && n > MAX_DEPTH ==> read_document(enc_document(name, nested_compounds(n))) is Err,
{
    if wf_str(name) && n > MAX_DEPTH {
        let d = enc_document(name, nested_compounds(n));
        let body = enc_payload(nested_compounds(n));
        assert(d.skip(1) =~= enc_str(name) + body);
        lemma_read_str(name, body);
        let k1 = enc_str(name).len();
        assert(d.skip(1 + k1 as int) =~= body + Seq::<u8>::empty());
        lemma_deep_payload_fails(n, 0, Seq::<u8>::empty());
    }
}

/// A document cut short is refused: reading any proper prefix of a written
/// document fails, for every compound the reader accepts back whose root
/// name fits the 16-bit length prefix.
pub proof fn lemma_truncated_document_fails(name: Seq<char>, value: Nbt, m: int)
    requires
        wf_str(name),
        value is Compound,
        wf_nbt(value, 0),
        0 <= m < enc_document(name, value).len(),
    ensures
        read_document(enc_document(name, value).take(m)) is Err,
{
    let d = enc_document(name, value);
    let e = d.take(m);
    let body = enc_payload(value);
    assert(d.skip(1) =~= enc_str(name) + body);
    lemma_read_str(name, body);
    let k1 = enc_str(name).len();
    assert(d.skip(1 + k1 as int) =~= body + Seq::<u8>::empty());
    lemma_read_payload(value, 0, Seq::<u8>::empty());
    assert(tag_id(value) == 10);
    assert(prefix_of(e, d));
    if read_document(e) is Ok {
        assert(e.len() >= 1 && e[0] == 10);
        lemma_prefix_skip(e, d, 1);
        lemma_str_extend(e.skip(1), d.skip(1));
        let j1 = read_str(e.skip(1))->Ok_0.1;
        assert(j1 == k1);
        lemma_prefix_skip(e, d, 1 + k1 as int);
        lemma_payload_extend(e.skip(1 + k1 as int), d.skip(1 + k1 as int), 10, 0);
        let j2 = read_payload(e.skip(1 + k1 as int), 10, 0)->Ok_0.1;
        assert(j2 == body.len());
        assert(false);
    }
}

} // verus!

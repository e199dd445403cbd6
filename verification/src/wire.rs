//! The binary Thrift protocol: typed values as bytes and back.
use crate::bytes::{
    be_bytes, be_value, lemma_be_bytes_len, lemma_be_round_trip, lemma_be_value_bound,
    lemma_pow256, pow256, push_be, read_be, signed, unsigned,
};
use crate::number::Real;
use crate::lists::copies;
use vstd::prelude::*;

verus! {

pub const STOP: u8 = 0;

pub const BOOL: u8 = 2;

pub const BYTE: u8 = 3;

pub const DOUBLE: u8 = 4;

pub const I16: u8 = 6;

pub const I32: u8 = 8;

pub const I64: u8 = 10;

pub const STRING: u8 = 11;

pub const STRUCT: u8 = 12;

pub const MAP: u8 = 13;

pub const SET: u8 = 14;

pub const LIST: u8 = 15;

/// The largest length of a string or collection that a reader accepts.
pub const MAX_ITEMS: i32 = 1_000_000;

/// One numbered field of a Thrift struct.
#[derive(Debug, PartialEq)]
pub struct Field {
    pub id: i16,
    pub value: Value,
}

/// A Thrift value. A double is held by its bit pattern.
#[derive(Debug, PartialEq)]
pub enum Value {
    Bool(bool),
    Byte(i8),
    Double(Real),
    I16(i16),
    I32(i32),
    I64(i64),
    String(Vec<u8>),
    Struct(Vec<Field>),
    MapOf { key_type: u8, value_type: u8, entries: Vec<(Value, Value)> },
    SetOf { element_type: u8, values: Vec<Value> },
    List { element_type: u8, values: Vec<Value> },
}

/// Why bytes are not a Thrift struct or a transport text.
#[derive(Clone, Debug, PartialEq, Eq)]
pub enum ThriftError {
    /// The transport text is not base64, and why.
    Base64(String),
    /// The input ended early, or its compressed form is damaged, and how.
    Io(String),
    /// A type code that the protocol does not have.
    UnsupportedType(u8),
    /// A length below zero or above the accepted maximum.
    InvalidSize(i32),
    /// Bytes after the end of the outermost struct.
    TrailingBytes(usize),
    /// There is nothing to encode, or nothing was encoded.
    EmptyPayload,
    /// The decompressed payload exceeds the accepted maximum.
    PayloadTooLarge,
}

/// Why bytes are refused, as a mathematical value.
pub ghost enum ThriftFault {
    Base64(Seq<char>),
    Io(Seq<char>),
    UnsupportedType(u8),
    InvalidSize(i32),
    TrailingBytes(usize),
    EmptyPayload,
    PayloadTooLarge,
}

impl View for ThriftError {
    type V = ThriftFault;

    open spec fn view(&self) -> ThriftFault {
        match *self {
            ThriftError::Base64(text) => ThriftFault::Base64(text@),
            ThriftError::Io(text) => ThriftFault::Io(text@),
            ThriftError::UnsupportedType(v) => ThriftFault::UnsupportedType(v),
            ThriftError::InvalidSize(v) => ThriftFault::InvalidSize(v),
            ThriftError::TrailingBytes(v) => ThriftFault::TrailingBytes(v),
            ThriftError::EmptyPayload => ThriftFault::EmptyPayload,
            ThriftError::PayloadTooLarge => ThriftFault::PayloadTooLarge,
        }
    }
}

/// That the input ended early.
pub open spec fn early_end() -> ThriftFault {
    ThriftFault::Io("failed to fill whole buffer"@)
}

fn ended_early() -> (e: ThriftError)
    ensures
        e@ == early_end(),
{
    ThriftError::Io("failed to fill whole buffer".to_owned())
}

/// A Thrift value as a mathematical tree.
pub enum Wire {
    Bool(bool),
    Byte(i8),
    Double(Real),
    I16(i16),
    I32(i32),
    I64(i64),
    String(Seq<u8>),
    Struct(Seq<(i16, Wire)>),
    MapOf { key_type: u8, value_type: u8, entries: Seq<(Wire, Wire)> },
    SetOf { element_type: u8, values: Seq<Wire> },
    List { element_type: u8, values: Seq<Wire> },
}

impl View for Value {
    type V = Wire;

    open spec fn view(&self) -> Wire {
        value_model(*self)
    }
}

pub open spec fn value_model(v: Value) -> Wire
    decreases v,
{
    match v {
        Value::Bool(b) => Wire::Bool(b),
        Value::Byte(b) => Wire::Byte(b),
        Value::Double(d) => Wire::Double(d),
        Value::I16(i) => Wire::I16(i),
        Value::I32(i) => Wire::I32(i),
        Value::I64(i) => Wire::I64(i),
        Value::String(s) => Wire::String(s@),
        Value::Struct(fields) => Wire::Struct(fields_model(fields@)),
        Value::MapOf { key_type, value_type, entries } => Wire::MapOf {
            key_type,
            value_type,
            entries: entries_model(entries@),
        },
        Value::SetOf { element_type, values } => Wire::SetOf {
            element_type,
            values: values_model(values@),
        },
        Value::List { element_type, values } => Wire::List {
            element_type,
            values: values_model(values@),
        },
    }
}

/// The fields of a struct: their numbers and values, in order.
pub open spec fn fields_model(fields: Seq<Field>) -> Seq<(i16, Wire)>
    decreases fields,
{
    if fields.len() == 0 {
        Seq::empty()
    } else {
        fields_model(fields.drop_last()).push((fields.last().id, value_model(fields.last().value)))
    }
}

pub open spec fn values_model(values: Seq<Value>) -> Seq<Wire>
    decreases values,
{
    if values.len() == 0 {
        Seq::empty()
    } else {
        values_model(values.drop_last()).push(value_model(values.last()))
    }
}

pub open spec fn entries_model(entries: Seq<(Value, Value)>) -> Seq<(Wire, Wire)>
    decreases entries,
{
    if entries.len() == 0 {
        Seq::empty()
    } else {
        entries_model(entries.drop_last()).push(
            (value_model(entries.last().0), value_model(entries.last().1)),
        )
    }
}

/// The type code that announces a value.
pub open spec fn kind_of(w: Wire) -> u8 {
    match w {
        Wire::Bool(_) => BOOL,
        Wire::Byte(_) => BYTE,
        Wire::Double(_) => DOUBLE,
        Wire::I16(_) => I16,
        Wire::I32(_) => I32,
        Wire::I64(_) => I64,
        Wire::String(_) => STRING,
        Wire::Struct(_) => STRUCT,
        Wire::MapOf { .. } => MAP,
        Wire::SetOf { .. } => SET,
        Wire::List { .. } => LIST,
    }
}

/// A length as the protocol writes it: its lowest four bytes.
pub open spec fn size_bytes(n: nat) -> Seq<u8> {
    be_bytes(n % 0x1_0000_0000, 4)
}

/// The bytes of a value, without its type code.
pub open spec fn value_bytes(w: Wire) -> Seq<u8>
    decreases w,
{
    match w {
        Wire::Bool(b) => seq![if b { 1u8 } else { 0u8 }],
        Wire::Byte(v) => be_bytes(unsigned(v as int, 1), 1),
        Wire::Double(v) => be_bytes(v.bits as nat, 8),
        Wire::I16(v) => be_bytes(unsigned(v as int, 2), 2),
        Wire::I32(v) => be_bytes(unsigned(v as int, 4), 4),
        Wire::I64(v) => be_bytes(unsigned(v as int, 8), 8),
        Wire::String(s) => size_bytes(s.len()) + s,
        Wire::Struct(fields) => fields_bytes(fields),
        Wire::MapOf { key_type, value_type, entries } => seq![key_type, value_type] + size_bytes(
            entries.len(),
        ) + entries_bytes(entries),
        Wire::SetOf { element_type, values } => seq![element_type] + size_bytes(values.len())
            + values_bytes(values),
        Wire::List { element_type, values } => seq![element_type] + size_bytes(values.len())
            + values_bytes(values),
    }
}

/// Each field as type code, number and value, then the stop code.
pub open spec fn fields_bytes(fields: Seq<(i16, Wire)>) -> Seq<u8>
    decreases fields,
{
    if fields.len() == 0 {
        seq![STOP]
    } else {
        seq![kind_of(fields[0].1)] + be_bytes(unsigned(fields[0].0 as int, 2), 2) + value_bytes(
            fields[0].1,
        ) + fields_bytes(fields.drop_first())
    }
}

pub open spec fn values_bytes(values: Seq<Wire>) -> Seq<u8>
    decreases values,
{
    if values.len() == 0 {
        Seq::empty()
    } else {
        value_bytes(values[0]) + values_bytes(values.drop_first())
    }
}

pub open spec fn entries_bytes(entries: Seq<(Wire, Wire)>) -> Seq<u8>
    decreases entries,
{
    if entries.len() == 0 {
        Seq::empty()
    } else {
        value_bytes(entries[0].0) + value_bytes(entries[0].1) + entries_bytes(entries.drop_first())
    }
}

// ---- what bytes say ----

/// A signed number of `n` bytes at the front of `b`, and what follows it.
pub open spec fn parse_int(b: Seq<u8>, n: nat) -> Result<(int, Seq<u8>), ThriftFault> {
    if b.len() < n {
        Err(early_end())
    } else {
        Ok((signed(be_value(b.subrange(0, n as int)), n), b.skip(n as int)))
    }
}

/// A length at the front of `b`, and what follows it.
pub open spec fn parse_size(b: Seq<u8>) -> Result<(nat, Seq<u8>), ThriftFault> {
    match parse_int(b, 4) {
        Err(e) => Err(e),
        Ok((n, rest)) => if 0 <= n <= MAX_ITEMS {
            Ok((n as nat, rest))
        } else {
            Err(ThriftFault::InvalidSize(n as i32))
        },
    }
}

/// The value of type `kind` at the front of `b`, and what follows it.
pub open spec fn parse_value(b: Seq<u8>, kind: u8) -> Result<(Wire, Seq<u8>), ThriftFault>
    decreases b.len(), 1int,
{
    if kind == BOOL {
        if b.len() == 0 {
            Err(early_end())
        } else {
            Ok((Wire::Bool(b[0] != 0), b.skip(1)))
        }
    } else if kind == BYTE {
        match parse_int(b, 1) {
            Err(e) => Err(e),
            Ok((v, rest)) => Ok((Wire::Byte(v as i8), rest)),
        }
    } else if kind == DOUBLE {
        if b.len() < 8 {
            Err(early_end())
        } else {
            Ok((Wire::Double(Real { bits: be_value(b.subrange(0, 8)) as u64 }), b.skip(8)))
        }
    } else if kind == I16 {
        match parse_int(b, 2) {
            Err(e) => Err(e),
            Ok((v, rest)) => Ok((Wire::I16(v as i16), rest)),
        }
    } else if kind == I32 {
        match parse_int(b, 4) {
            Err(e) => Err(e),
            Ok((v, rest)) => Ok((Wire::I32(v as i32), rest)),
        }
    } else if kind == I64 {
        match parse_int(b, 8) {
            Err(e) => Err(e),
            Ok((v, rest)) => Ok((Wire::I64(v as i64), rest)),
        }
    } else if kind == STRING {
        match parse_size(b) {
            Err(e) => Err(e),
            Ok((n, rest)) => if rest.len() < n {
                Err(early_end())
            } else {
                Ok((Wire::String(rest.subrange(0, n as int)), rest.skip(n as int)))
            },
        }
    } else if kind == STRUCT {
        match parse_fields(b) {
            Err(e) => Err(e),
            Ok((fields, rest)) => Ok((Wire::Struct(fields), rest)),
        }
    } else if kind == MAP {
        if b.len() < 2 {
            Err(early_end())
        } else {
            match parse_size(b.skip(2)) {
                Err(e) => Err(e),
                Ok((n, rest)) => match parse_entries(rest, b[0], b[1], n) {
                    Err(e) => Err(e),
                    Ok((entries, end)) => Ok(
                        (Wire::MapOf { key_type: b[0], value_type: b[1], entries }, end),
                    ),
                },
            }
        }
    } else if kind == SET || kind == LIST {
        if b.len() < 1 {
            Err(early_end())
        } else {
            match parse_size(b.skip(1)) {
                Err(e) => Err(e),
                Ok((n, rest)) => match parse_values(rest, b[0], n) {
                    Err(e) => Err(e),
                    Ok((values, end)) => if kind == SET {
                        Ok((Wire::SetOf { element_type: b[0], values }, end))
                    } else {
                        Ok((Wire::List { element_type: b[0], values }, end))
                    },
                },
            }
        }
    } else {
        Err(ThriftFault::UnsupportedType(kind))
    }
}

/// The fields up to the stop code at the front of `b`, and what follows it.
pub open spec fn parse_fields(b: Seq<u8>) -> Result<(Seq<(i16, Wire)>, Seq<u8>), ThriftFault>
    decreases b.len(), 0int,
{
    if b.len() == 0 {
        Err(early_end())
    } else if b[0] == STOP {
        Ok((Seq::empty(), b.skip(1)))
    } else {
        match parse_int(b.skip(1), 2) {
            Err(e) => Err(e),
            Ok((id, body)) => match parse_value(body, b[0]) {
                Err(e) => Err(e),
                Ok((value, rest)) => if rest.len() >= b.len() {
                    Err(early_end())
                } else {
                    match parse_fields(rest) {
                        Err(e) => Err(e),
                        Ok((more, end)) => Ok((seq![(id as i16, value)] + more, end)),
                    }
                },
            },
        }
    }
}

/// `n` values of one type at the front of `b`, and what follows them.
pub open spec fn parse_values(b: Seq<u8>, kind: u8, n: nat) -> Result<
    (Seq<Wire>, Seq<u8>),
    ThriftFault,
>
    decreases b.len(), 2int,
{
    if n == 0 {
        Ok((Seq::empty(), b))
    } else {
        match parse_value(b, kind) {
            Err(e) => Err(e),
            Ok((value, rest)) => if rest.len() >= b.len() {
                Err(early_end())
            } else {
                match parse_values(rest, kind, (n - 1) as nat) {
                    Err(e) => Err(e),
                    Ok((more, end)) => Ok((seq![value] + more, end)),
                }
            },
        }
    }
}

/// `n` pairs of values at the front of `b`, and what follows them.
pub open spec fn parse_entries(b: Seq<u8>, key_kind: u8, value_kind: u8, n: nat) -> Result<
    (Seq<(Wire, Wire)>, Seq<u8>),
    ThriftFault,
>
    decreases b.len(), 2int,
{
    if n == 0 {
        Ok((Seq::empty(), b))
    } else {
        match parse_value(b, key_kind) {
            Err(e) => Err(e),
            Ok((key, middle)) => if middle.len() >= b.len() {
                Err(early_end())
            } else {
                match parse_value(middle, value_kind) {
                    Err(e) => Err(e),
                    Ok((value, rest)) => if rest.len() >= middle.len() {
                        Err(early_end())
                    } else {
                        match parse_entries(rest, key_kind, value_kind, (n - 1) as nat) {
                            Err(e) => Err(e),
                            Ok((more, end)) => Ok((seq![(key, value)] + more, end)),
                        }
                    },
                }
            },
        }
    }
}

/// A whole message: one struct and nothing after it.
pub open spec fn parse_message(raw: Seq<u8>) -> Result<Seq<(i16, Wire)>, ThriftFault> {
    match parse_fields(raw) {
        Err(e) => Err(e),
        Ok((fields, rest)) => if rest.len() != 0 {
            Err(ThriftFault::TrailingBytes(rest.len() as usize))
        } else {
            Ok(fields)
        },
    }
}

/// Every value takes at least one byte, and what follows it is a suffix.
pub proof fn lemma_value_consumes(b: Seq<u8>, kind: u8)
    ensures
        parse_value(b, kind) matches Ok((_, rest)) ==> rest.len() < b.len() && rest == b.skip(
            b.len() - rest.len(),
        ),
    decreases b.len(), 1int,
{
    if kind == STRUCT {
        lemma_fields_consume(b);
    } else if kind == MAP {
        if b.len() >= 2 {
            if let Ok((n, rest)) = parse_size(b.skip(2)) {
                lemma_entries_consume(rest, b[0], b[1], n);
            }
        }
    } else if kind == SET || kind == LIST {
        if b.len() >= 1 {
            if let Ok((n, rest)) = parse_size(b.skip(1)) {
                lemma_values_consume(rest, b[0], n);
            }
        }
    }
    if let Ok((_, rest)) = parse_value(b, kind) {
        assert(rest =~= b.skip(b.len() - rest.len()));
    }
}

pub proof fn lemma_fields_consume(b: Seq<u8>)
    ensures
        parse_fields(b) matches Ok((_, rest)) ==> rest.len() < b.len() && rest == b.skip(
            b.len() - rest.len(),
        ),
    decreases b.len(), 0int,
{
    if b.len() > 0 && b[0] != STOP {
        if let Ok((_, body)) = parse_int(b.skip(1), 2) {
            lemma_value_consumes(body, b[0]);
            if let Ok((_, rest)) = parse_value(body, b[0]) {
                lemma_fields_consume(rest);
            }
        }
    }
    if let Ok((_, rest)) = parse_fields(b) {
        assert(rest =~= b.skip(b.len() - rest.len()));
    }
}

pub proof fn lemma_values_consume(b: Seq<u8>, kind: u8, n: nat)
    ensures
        parse_values(b, kind, n) matches Ok((values, rest)) ==> rest.len() <= b.len() && rest
            == b.skip(b.len() - rest.len()) && values.len() == n,
    decreases b.len(), 2int,
{
    if n > 0 {
        lemma_value_consumes(b, kind);
        if let Ok((_, rest)) = parse_value(b, kind) {
            lemma_values_consume(rest, kind, (n - 1) as nat);
        }
    }
    if let Ok((_, rest)) = parse_values(b, kind, n) {
        assert(rest =~= b.skip(b.len() - rest.len()));
    }
}

pub proof fn lemma_entries_consume(b: Seq<u8>, key_kind: u8, value_kind: u8, n: nat)
    ensures
        parse_entries(b, key_kind, value_kind, n) matches Ok((entries, rest)) ==> rest.len()
            <= b.len() && rest == b.skip(b.len() - rest.len()) && entries.len() == n,
    decreases b.len(), 2int,
{
    if n > 0 {
        lemma_value_consumes(b, key_kind);
        if let Ok((_, middle)) = parse_value(b, key_kind) {
            lemma_value_consumes(middle, value_kind);
            if let Ok((_, rest)) = parse_value(middle, value_kind) {
                lemma_entries_consume(rest, key_kind, value_kind, (n - 1) as nat);
            }
        }
    }
    if let Ok((_, rest)) = parse_entries(b, key_kind, value_kind, n) {
        assert(rest =~= b.skip(b.len() - rest.len()));
    }
}

// ---- the models of vectors ----

pub proof fn lemma_fields_model(fields: Seq<Field>)
    ensures
        fields_model(fields).len() == fields.len(),
        forall|i: int|
            0 <= i < fields.len() ==> #[trigger] fields_model(fields)[i] == (
                fields[i].id,
                fields[i].value@,
            ),
    decreases fields.len(),
{
    if fields.len() > 0 {
        lemma_fields_model(fields.drop_last());
    }
}

pub proof fn lemma_values_model(values: Seq<Value>)
    ensures
        values_model(values).len() == values.len(),
        forall|i: int| 0 <= i < values.len() ==> #[trigger] values_model(values)[i] == values[i]@,
    decreases values.len(),
{
    if values.len() > 0 {
        lemma_values_model(values.drop_last());
    }
}

pub proof fn lemma_entries_model(entries: Seq<(Value, Value)>)
    ensures
        entries_model(entries).len() == entries.len(),
        forall|i: int|
            0 <= i < entries.len() ==> #[trigger] entries_model(entries)[i] == (
                entries[i].0@,
                entries[i].1@,
            ),
    decreases entries.len(),
{
    if entries.len() > 0 {
        lemma_entries_model(entries.drop_last());
    }
}

// ---- reading ----

/// A position in a sequence of bytes.
pub struct Cursor<'a> {
    raw: &'a [u8],
    at: usize,
}

impl<'a> Cursor<'a> {
    /// The bytes that are still to be read.
    pub closed spec fn rest(&self) -> Seq<u8> {
        self.raw@.skip(self.at as int)
    }

    pub closed spec fn wf(&self) -> bool {
        self.at <= self.raw@.len()
    }

    pub fn new(raw: &'a [u8]) -> (cursor: Cursor<'a>)
        ensures
            cursor.wf(),
            cursor.rest() == raw@,
    {
        Cursor { raw, at: 0 }
    }

    /// How many bytes are still to be read.
    pub fn remaining(&self) -> (n: usize)
        requires
            self.wf(),
        ensures
            n == self.rest().len(),
    {
        self.raw.len() - self.at
    }

    /// The big-endian number in the next `n` bytes.
    fn take(&mut self, n: usize) -> (r: Result<u64, ThriftError>)
        requires
            old(self).wf(),
            n <= 8,
        ensures
            final(self).wf(),
            match r {
                Ok(u) => {
                    &&& n <= old(self).rest().len()
                    &&& u == be_value(old(self).rest().subrange(0, n as int))
                    &&& final(self).rest() == old(self).rest().skip(n as int)
                },
                Err(e) => e@ == early_end() && old(self).rest().len() < n,
            },
    {
        let total: usize = self.raw.len();
        if total - self.at < n {
            return Err(ended_early());
        }
        let u: u64 = read_be(self.raw, self.at, n);
        proof {
            assert(self.rest().subrange(0, n as int) =~= self.raw@.subrange(
                self.at as int,
                self.at + n,
            ));
            assert(self.rest().skip(n as int) =~= self.raw@.skip(self.at + n));
        }
        self.at = self.at + n;
        Ok(u)
    }

    /// The next `n` bytes.
    fn take_bytes(&mut self, n: usize) -> (r: Result<Vec<u8>, ThriftError>)
        requires
            old(self).wf(),
        ensures
            final(self).wf(),
            match r {
                Ok(bytes) => {
                    &&& n <= old(self).rest().len()
                    &&& bytes@ == old(self).rest().subrange(0, n as int)
                    &&& final(self).rest() == old(self).rest().skip(n as int)
                },
                Err(e) => e@ == early_end() && old(self).rest().len() < n,
            },
    {
        if self.remaining() < n {
            return Err(ended_early());
        }
        let mut bytes: Vec<u8> = Vec::new();
        let mut i: usize = 0;
        let total: usize = self.raw.len();
        while i < n
            invariant
                i <= n,
                self.at + n <= total == self.raw@.len(),
                bytes@ == self.raw@.subrange(self.at as int, self.at + i),
            decreases n - i,
        {
            bytes.push(self.raw[self.at + i]);
            proof {
                assert(self.raw@.subrange(self.at as int, self.at + i + 1) =~= self.raw@.subrange(
                    self.at as int,
                    self.at + i,
                ).push(self.raw@[self.at + i]));
            }
            i = i + 1;
        }
        proof {
            assert(self.rest().subrange(0, n as int) =~= self.raw@.subrange(
                self.at as int,
                self.at + n,
            ));
            assert(self.rest().skip(n as int) =~= self.raw@.skip(self.at + n));
        }
        self.at = self.at + n;
        Ok(bytes)
    }
}

pub fn read_u8(input: &mut Cursor) -> (r: Result<u8, ThriftError>)
    requires
        old(input).wf(),
    ensures
        final(input).wf(),
        match r {
            Ok(v) => old(input).rest().len() >= 1 && v == old(input).rest()[0]
                && final(input).rest() == old(input).rest().skip(1),
            Err(e) => e@ == early_end() && old(input).rest().len() == 0,
        },
{
    match input.take(1) {
        Ok(u) => {
            proof {
                let s = old(input).rest().subrange(0, 1);
                reveal_with_fuel(be_value, 2);
                assert(s.drop_last() =~= Seq::<u8>::empty());
            }
            Ok(u as u8)
        },
        Err(e) => Err(e),
    }
}

pub fn read_i8(input: &mut Cursor) -> (r: Result<i8, ThriftError>)
    requires
        old(input).wf(),
    ensures
        final(input).wf(),
        match r {
            Ok(v) => parse_int(old(input).rest(), 1) == Ok::<(int, Seq<u8>), ThriftFault>(
                (v as int, final(input).rest()),
            ),
            Err(e) => parse_int(old(input).rest(), 1) == Err::<(int, Seq<u8>), ThriftFault>(e@),
        },
{
    match input.take(1) {
        Ok(u) => {
            proof {
                lemma_pow256();
                lemma_be_value_bound(old(input).rest().subrange(0, 1));
            }
            if u < 0x80 {
                Ok(u as i8)
            } else {
                Ok((u as i64 - 0x100) as i8)
            }
        },
        Err(e) => Err(e),
    }
}

pub fn read_i16(input: &mut Cursor) -> (r: Result<i16, ThriftError>)
    requires
        old(input).wf(),
    ensures
        final(input).wf(),
        match r {
            Ok(v) => parse_int(old(input).rest(), 2) == Ok::<(int, Seq<u8>), ThriftFault>(
                (v as int, final(input).rest()),
            ),
            Err(e) => parse_int(old(input).rest(), 2) == Err::<(int, Seq<u8>), ThriftFault>(e@),
        },
{
    match input.take(2) {
        Ok(u) => {
            proof {
                lemma_pow256();
                lemma_be_value_bound(old(input).rest().subrange(0, 2));
            }
            if u < 0x8000 {
                Ok(u as i16)
            } else {
                Ok((u as i64 - 0x1_0000) as i16)
            }
        },
        Err(e) => Err(e),
    }
}

pub fn read_i32(input: &mut Cursor) -> (r: Result<i32, ThriftError>)
    requires
        old(input).wf(),
    ensures
        final(input).wf(),
        match r {
            Ok(v) => parse_int(old(input).rest(), 4) == Ok::<(int, Seq<u8>), ThriftFault>(
                (v as int, final(input).rest()),
            ),
            Err(e) => parse_int(old(input).rest(), 4) == Err::<(int, Seq<u8>), ThriftFault>(e@),
        },
{
    match input.take(4) {
        Ok(u) => {
            proof {
                lemma_pow256();
                lemma_be_value_bound(old(input).rest().subrange(0, 4));
            }
            if u < 0x8000_0000 {
                Ok(u as i32)
            } else {
                Ok((u as i64 - 0x1_0000_0000) as i32)
            }
        },
        Err(e) => Err(e),
    }
}

pub fn read_i64(input: &mut Cursor) -> (r: Result<i64, ThriftError>)
    requires
        old(input).wf(),
    ensures
        final(input).wf(),
        match r {
            Ok(v) => parse_int(old(input).rest(), 8) == Ok::<(int, Seq<u8>), ThriftFault>(
                (v as int, final(input).rest()),
            ),
            Err(e) => parse_int(old(input).rest(), 8) == Err::<(int, Seq<u8>), ThriftFault>(e@),
        },
{
    match input.take(8) {
        Ok(u) => {
            proof {
                lemma_pow256();
            }
            if u < 0x8000_0000_0000_0000 {
                Ok(u as i64)
            } else {
                Ok((u as i128 - 0x1_0000_0000_0000_0000) as i64)
            }
        },
        Err(e) => Err(e),
    }
}

pub fn read_u64(input: &mut Cursor) -> (r: Result<u64, ThriftError>)
    requires
        old(input).wf(),
    ensures
        final(input).wf(),
        match r {
            Ok(v) => {
                &&& old(input).rest().len() >= 8
                &&& v == be_value(old(input).rest().subrange(0, 8))
                &&& final(input).rest() == old(input).rest().skip(8)
            },
            Err(e) => e@ == early_end() && old(input).rest().len() < 8,
        },
{
    input.take(8)
}

/// Accepts a length between zero and the maximum.
pub fn checked_size(value: i32) -> (r: Result<usize, ThriftError>)
    ensures
        r == if 0 <= value <= MAX_ITEMS {
            Ok::<usize, ThriftError>(value as usize)
        } else {
            Err(ThriftError::InvalidSize(value))
        },
{
    if value < 0 || value > MAX_ITEMS {
        Err(ThriftError::InvalidSize(value))
    } else {
        Ok(value as usize)
    }
}

fn read_size(input: &mut Cursor) -> (r: Result<usize, ThriftError>)
    requires
        old(input).wf(),
    ensures
        final(input).wf(),
        match r {
            Ok(v) => parse_size(old(input).rest()) == Ok::<(nat, Seq<u8>), ThriftFault>(
                (v as nat, final(input).rest()),
            ),
            Err(e) => parse_size(old(input).rest()) == Err::<(nat, Seq<u8>), ThriftFault>(e@),
        },
{
    match read_i32(input) {
        Ok(v) => checked_size(v),
        Err(e) => Err(e),
    }
}

/// `r` with the items of `prefix` before its own.
pub open spec fn after_items<A>(
    prefix: Seq<A>,
    r: Result<(Seq<A>, Seq<u8>), ThriftFault>,
) -> Result<(Seq<A>, Seq<u8>), ThriftFault> {
    match r {
        Err(e) => Err(e),
        Ok((more, end)) => Ok((prefix + more, end)),
    }
}

pub fn read_struct_from(input: &mut Cursor) -> (r: Result<Vec<Field>, ThriftError>)
    requires
        old(input).wf(),
    ensures
        final(input).wf(),
        match r {
            Ok(fields) => parse_fields(old(input).rest()) == Ok::<
                (Seq<(i16, Wire)>, Seq<u8>),
                ThriftFault,
            >((fields_model(fields@), final(input).rest())),
            Err(e) => parse_fields(old(input).rest()) == Err::<
                (Seq<(i16, Wire)>, Seq<u8>),
                ThriftFault,
            >(e@),
        },
    decreases old(input).rest().len(), 0int,
{
    let mut fields: Vec<Field> = Vec::new();
    let ghost start = input.rest();
    proof {
        match parse_fields(start) {
            Ok((more, end)) => {
                assert(fields_model(fields@) + more =~= more);
            },
            Err(_) => {},
        }
    }
    loop
        invariant
            input.wf(),
            input.rest().len() <= start.len(),
            start == old(input).rest(),
            parse_fields(start) == after_items(fields_model(fields@), parse_fields(input.rest())),
        decreases input.rest().len(),
    {
        let ghost here = input.rest();
        let kind: u8 = match read_u8(input) {
            Ok(kind) => kind,
            Err(e) => {
                return Err(e);
            },
        };
        if kind == STOP {
            proof {
                assert(fields_model(fields@) + Seq::<(i16, Wire)>::empty() =~= fields_model(
                    fields@,
                ));
            }
            return Ok(fields);
        }
        let id: i16 = match read_i16(input) {
            Ok(id) => id,
            Err(e) => {
                return Err(e);
            },
        };
        let ghost body = input.rest();
        let value = match read_value(input, kind) {
            Ok(value) => value,
            Err(e) => {
                return Err(e);
            },
        };
        proof {
            lemma_value_consumes(body, kind);
        }
        let ghost before = fields@;
        fields.push(Field { id, value });
        proof {
            assert(fields@.drop_last() =~= before);
            match parse_fields(input.rest()) {
                Ok((more, end)) => {
                    assert(fields_model(before) + (seq![(id, value@)] + more) =~= fields_model(
                        fields@,
                    ) + more);
                },
                Err(_) => {},
            }
        }
    }
}

fn read_values(input: &mut Cursor, kind: u8, count: usize) -> (r: Result<Vec<Value>, ThriftError>)
    requires
        old(input).wf(),
    ensures
        final(input).wf(),
        match r {
            Ok(values) => parse_values(old(input).rest(), kind, count as nat) == Ok::<
                (Seq<Wire>, Seq<u8>),
                ThriftFault,
            >((values_model(values@), final(input).rest())),
            Err(e) => parse_values(old(input).rest(), kind, count as nat) == Err::<
                (Seq<Wire>, Seq<u8>),
                ThriftFault,
            >(e@),
        },
    decreases old(input).rest().len(), 2int,
{
    let mut values: Vec<Value> = Vec::new();
    let ghost start = input.rest();
    let mut i: usize = 0;
    proof {
        match parse_values(start, kind, count as nat) {
            Ok((more, end)) => {
                assert(values_model(values@) + more =~= more);
            },
            Err(_) => {},
        }
    }
    while i < count
        invariant
            i <= count,
            input.wf(),
            input.rest().len() <= start.len(),
            start == old(input).rest(),
            parse_values(start, kind, count as nat) == after_items(
                values_model(values@),
                parse_values(input.rest(), kind, (count - i) as nat),
            ),
        decreases count - i,
    {
        let ghost here = input.rest();
        let value = match read_value(input, kind) {
            Ok(value) => value,
            Err(e) => {
                return Err(e);
            },
        };
        proof {
            lemma_value_consumes(here, kind);
        }
        let ghost before = values@;
        values.push(value);
        proof {
            assert(values@.drop_last() =~= before);
            match parse_values(input.rest(), kind, (count - i - 1) as nat) {
                Ok((more, end)) => {
                    assert(values_model(before) + (seq![value@] + more) =~= values_model(values@)
                        + more);
                },
                Err(_) => {},
            }
        }
        i = i + 1;
    }
    proof {
        assert(values_model(values@) + Seq::<Wire>::empty() =~= values_model(values@));
    }
    Ok(values)
}

fn read_entries(input: &mut Cursor, key_kind: u8, value_kind: u8, count: usize) -> (r: Result<
    Vec<(Value, Value)>,
    ThriftError,
>)
    requires
        old(input).wf(),
    ensures
        final(input).wf(),
        match r {
            Ok(entries) => parse_entries(old(input).rest(), key_kind, value_kind, count as nat)
                == Ok::<(Seq<(Wire, Wire)>, Seq<u8>), ThriftFault>(
                (entries_model(entries@), final(input).rest()),
            ),
            Err(e) => parse_entries(old(input).rest(), key_kind, value_kind, count as nat) == Err::<
                (Seq<(Wire, Wire)>, Seq<u8>),
                ThriftFault,
            >(e@),
        },
    decreases old(input).rest().len(), 2int,
{
    let mut entries: Vec<(Value, Value)> = Vec::new();
    let ghost start = input.rest();
    let mut i: usize = 0;
    proof {
        match parse_entries(start, key_kind, value_kind, count as nat) {
            Ok((more, end)) => {
                assert(entries_model(entries@) + more =~= more);
            },
            Err(_) => {},
        }
    }
    while i < count
        invariant
            i <= count,
            input.wf(),
            input.rest().len() <= start.len(),
            start == old(input).rest(),
            parse_entries(start, key_kind, value_kind, count as nat) == after_items(
                entries_model(entries@),
                parse_entries(input.rest(), key_kind, value_kind, (count - i) as nat),
            ),
        decreases count - i,
    {
        let ghost here = input.rest();
        let key = match read_value(input, key_kind) {
            Ok(key) => key,
            Err(e) => {
                return Err(e);
            },
        };
        let ghost middle = input.rest();
        proof {
            lemma_value_consumes(here, key_kind);
        }
        let value = match read_value(input, value_kind) {
            Ok(value) => value,
            Err(e) => {
                return Err(e);
            },
        };
        proof {
            lemma_value_consumes(middle, value_kind);
        }
        let ghost before = entries@;
        entries.push((key, value));
        proof {
            assert(entries@.drop_last() =~= before);
            match parse_entries(input.rest(), key_kind, value_kind, (count - i - 1) as nat) {
                Ok((more, end)) => {
                    assert(entries_model(before) + (seq![(key@, value@)] + more) =~= entries_model(
                        entries@,
                    ) + more);
                },
                Err(_) => {},
            }
        }
        i = i + 1;
    }
    proof {
        assert(entries_model(entries@) + Seq::<(Wire, Wire)>::empty() =~= entries_model(entries@));
    }
    Ok(entries)
}

pub fn read_value(input: &mut Cursor, kind: u8) -> (r: Result<Value, ThriftError>)
    requires
        old(input).wf(),
    ensures
        final(input).wf(),
        match r {
            Ok(value) => parse_value(old(input).rest(), kind) == Ok::<
                (Wire, Seq<u8>),
                ThriftFault,
            >((value@, final(input).rest())),
            Err(e) => parse_value(old(input).rest(), kind) == Err::<(Wire, Seq<u8>), ThriftFault>(
                e@,
            ),
        },
    decreases old(input).rest().len(), 1int,
{
    let ghost start = input.rest();
    if kind == BOOL {
        match read_u8(input) {
            Ok(v) => Ok(Value::Bool(v != 0)),
            Err(e) => Err(e),
        }
    } else if kind == BYTE {
        match read_i8(input) {
            Ok(v) => Ok(Value::Byte(v)),
            Err(e) => Err(e),
        }
    } else if kind == DOUBLE {
        match read_u64(input) {
            Ok(bits) => Ok(Value::Double(Real { bits })),
            Err(e) => Err(e),
        }
    } else if kind == I16 {
        match read_i16(input) {
            Ok(v) => Ok(Value::I16(v)),
            Err(e) => Err(e),
        }
    } else if kind == I32 {
        match read_i32(input) {
            Ok(v) => Ok(Value::I32(v)),
            Err(e) => Err(e),
        }
    } else if kind == I64 {
        match read_i64(input) {
            Ok(v) => Ok(Value::I64(v)),
            Err(e) => Err(e),
        }
    } else if kind == STRING {
        match read_size(input) {
            Ok(length) => match input.take_bytes(length) {
                Ok(bytes) => Ok(Value::String(bytes)),
                Err(e) => Err(e),
            },
            Err(e) => Err(e),
        }
    } else if kind == STRUCT {
        match read_struct_from(input) {
            Ok(fields) => Ok(Value::Struct(fields)),
            Err(e) => Err(e),
        }
    } else if kind == MAP {
        let key_type: u8 = match read_u8(input) {
            Ok(v) => v,
            Err(e) => {
                return Err(e);
            },
        };
        let value_type: u8 = match read_u8(input) {
            Ok(v) => v,
            Err(e) => {
                return Err(e);
            },
        };
        proof {
            assert(start.skip(1).skip(1) =~= start.skip(2));
        }
        match read_size(input) {
            Ok(count) => match read_entries(input, key_type, value_type, count) {
                Ok(entries) => Ok(Value::MapOf { key_type, value_type, entries }),
                Err(e) => Err(e),
            },
            Err(e) => Err(e),
        }
    } else if kind == SET || kind == LIST {
        let element_type: u8 = match read_u8(input) {
            Ok(v) => v,
            Err(e) => {
                return Err(e);
            },
        };
        match read_size(input) {
            Ok(count) => match read_values(input, element_type, count) {
                Ok(values) => if kind == SET {
                    Ok(Value::SetOf { element_type, values })
                } else {
                    Ok(Value::List { element_type, values })
                },
                Err(e) => Err(e),
            },
            Err(e) => Err(e),
        }
    } else {
        Err(ThriftError::UnsupportedType(kind))
    }
}

/// Reads a whole message: one struct and nothing after it.
pub fn read_struct(raw: &[u8]) -> (r: Result<Vec<Field>, ThriftError>)
    ensures
        match r {
            Ok(fields) => parse_message(raw@) == Ok::<Seq<(i16, Wire)>, ThriftFault>(
                fields_model(fields@),
            ),
            Err(e) => parse_message(raw@) == Err::<Seq<(i16, Wire)>, ThriftFault>(e@),
        },
{
    let mut cursor = Cursor::new(raw);
    let fields = match read_struct_from(&mut cursor) {
        Ok(fields) => fields,
        Err(e) => {
            return Err(e);
        },
    };
    let trailing: usize = cursor.remaining();
    if trailing != 0 {
        return Err(ThriftError::TrailingBytes(trailing));
    }
    Ok(fields)
}

// ---- writing ----

/// The type code that announces a value.
pub fn value_kind(value: &Value) -> (kind: u8)
    ensures
        kind == kind_of(value@),
{
    match value {
        Value::Bool(_) => BOOL,
        Value::Byte(_) => BYTE,
        Value::Double(_) => DOUBLE,
        Value::I16(_) => I16,
        Value::I32(_) => I32,
        Value::I64(_) => I64,
        Value::String(_) => STRING,
        Value::Struct(_) => STRUCT,
        Value::MapOf { .. } => MAP,
        Value::SetOf { .. } => SET,
        Value::List { .. } => LIST,
    }
}

/// Appends the two's complement digits of `value` in `n` bytes.
fn push_signed(output: &mut Vec<u8>, value: i64, n: usize)
    requires
        n == 1 || n == 2 || n == 4 || n == 8,
        -pow256(n as nat) <= 2 * value < pow256(n as nat),
    ensures
        final(output)@ == old(output)@ + be_bytes(unsigned(value as int, n as nat), n as nat),
{
    proof {
        lemma_pow256();
    }
    if value >= 0 {
        push_be(output, value as u64, n);
    } else {
        let limit: i128 = if n == 1 {
            0x100
        } else if n == 2 {
            0x1_0000
        } else if n == 4 {
            0x1_0000_0000
        } else {
            0x1_0000_0000_0000_0000
        };
        push_be(output, (value as i128 + limit) as u64, n);
    }
}

/// Appends a length: its lowest four bytes.
fn push_size(output: &mut Vec<u8>, n: usize)
    ensures
        final(output)@ == old(output)@ + size_bytes(n as nat),
{
    push_be(output, n as u64 % 0x1_0000_0000, 4);
}

pub fn write_struct_to(output: &mut Vec<u8>, fields: &Vec<Field>) -> (r: Result<(), ThriftError>)
    ensures
        r == Ok::<(), ThriftError>(()),
        final(output)@ == old(output)@ + fields_bytes(fields_model(fields@)),
    decreases fields,
{
    let ghost model = fields_model(fields@);
    let ghost start = output@;
    let mut i: usize = 0;
    proof {
        lemma_fields_model(fields@);
        assert(model.skip(0) =~= model);
    }
    while i < fields.len()
        invariant
            i <= fields.len(),
            model == fields_model(fields@),
            output@ + fields_bytes(model.skip(i as int)) == start + fields_bytes(model),
        decreases fields.len() - i,
    {
        let ghost before = output@;
        let ghost tail = model.skip(i as int);
        proof {
            lemma_fields_model(fields@);
            lemma_pow256();
            assert(tail.drop_first() =~= model.skip(i + 1));
            assert(decreases_to!(fields => fields@[i as int].value));
        }
        output.push(value_kind(&fields[i].value));
        push_signed(output, fields[i].id as i64, 2);
        let r = write_value(output, &fields[i].value);
        proof {
            assert(output@ + fields_bytes(model.skip(i + 1)) =~= before + fields_bytes(tail));
        }
        i = i + 1;
    }
    output.push(STOP);
    proof {
        assert(model.skip(i as int) =~= Seq::empty());
    }
    Ok(())
}

fn write_values(output: &mut Vec<u8>, values: &Vec<Value>)
    ensures
        final(output)@ == old(output)@ + values_bytes(values_model(values@)),
    decreases values,
{
    let ghost model = values_model(values@);
    let ghost start = output@;
    let mut i: usize = 0;
    proof {
        lemma_values_model(values@);
        assert(model.skip(0) =~= model);
    }
    while i < values.len()
        invariant
            i <= values.len(),
            model == values_model(values@),
            output@ + values_bytes(model.skip(i as int)) == start + values_bytes(model),
        decreases values.len() - i,
    {
        let ghost before = output@;
        let ghost tail = model.skip(i as int);
        proof {
            lemma_values_model(values@);
            assert(tail.drop_first() =~= model.skip(i + 1));
            assert(decreases_to!(values => values@[i as int]));
        }
        let r = write_value(output, &values[i]);
        proof {
            assert(output@ + values_bytes(model.skip(i + 1)) =~= before + values_bytes(tail));
        }
        i = i + 1;
    }
    proof {
        lemma_values_model(values@);
        assert(model.skip(i as int) =~= Seq::empty());
        assert(output@ =~= output@ + Seq::<u8>::empty());
    }
}

fn write_entries(output: &mut Vec<u8>, entries: &Vec<(Value, Value)>)
    ensures
        final(output)@ == old(output)@ + entries_bytes(entries_model(entries@)),
    decreases entries,
{
    let ghost model = entries_model(entries@);
    let ghost start = output@;
    let mut i: usize = 0;
    proof {
        lemma_entries_model(entries@);
        assert(model.skip(0) =~= model);
    }
    while i < entries.len()
        invariant
            i <= entries.len(),
            model == entries_model(entries@),
            output@ + entries_bytes(model.skip(i as int)) == start + entries_bytes(model),
        decreases entries.len() - i,
    {
        let ghost before = output@;
        let ghost tail = model.skip(i as int);
        proof {
            lemma_entries_model(entries@);
            assert(tail.drop_first() =~= model.skip(i + 1));
            assert(decreases_to!(entries => entries@[i as int]));
            assert(decreases_to!(entries => entries@[i as int].0));
            assert(decreases_to!(entries => entries@[i as int].1));
        }
        let r = write_value(output, &entries[i].0);
        let r = write_value(output, &entries[i].1);
        proof {
            assert(output@ + entries_bytes(model.skip(i + 1)) =~= before + entries_bytes(tail));
        }
        i = i + 1;
    }
    proof {
        lemma_entries_model(entries@);
        assert(model.skip(i as int) =~= Seq::empty());
        assert(output@ =~= output@ + Seq::<u8>::empty());
    }
}

pub fn write_value(output: &mut Vec<u8>, value: &Value) -> (r: Result<(), ThriftError>)
    ensures
        r == Ok::<(), ThriftError>(()),
        final(output)@ == old(output)@ + value_bytes(value@),
    decreases value,
{
    proof {
        lemma_pow256();
    }
    match value {
        Value::Bool(v) => {
            output.push(
                if *v {
                    1
                } else {
                    0
                },
            );
        },
        Value::Byte(v) => {
            push_signed(output, *v as i64, 1);
        },
        Value::Double(v) => {
            push_be(output, v.bits, 8);
        },
        Value::I16(v) => {
            push_signed(output, *v as i64, 2);
        },
        Value::I32(v) => {
            push_signed(output, *v as i64, 4);
        },
        Value::I64(v) => {
            push_signed(output, *v, 8);
        },
        Value::String(bytes) => {
            push_size(output, bytes.len());
            output.extend_from_slice(bytes.as_slice());
        },
        Value::Struct(fields) => {
            let r = write_struct_to(output, fields);
        },
        Value::MapOf { key_type, value_type, entries } => {
            output.push(*key_type);
            output.push(*value_type);
            push_size(output, entries.len());
            write_entries(output, entries);
            proof {
                lemma_entries_model(entries@);
            }
        },
        Value::SetOf { element_type, values } => {
            output.push(*element_type);
            push_size(output, values.len());
            write_values(output, values);
            proof {
                lemma_values_model(values@);
            }
        },
        Value::List { element_type, values } => {
            output.push(*element_type);
            push_size(output, values.len());
            write_values(output, values);
            proof {
                lemma_values_model(values@);
            }
        },
    }
    proof {
        assert(output@ =~= old(output)@ + value_bytes(value@));
    }
    Ok(())
}

/// Writes a message: the fields and the stop code.
pub fn write_struct(fields: &Vec<Field>) -> (r: Result<Vec<u8>, ThriftError>)
    ensures
        r is Ok,
        r->Ok_0@ == fields_bytes(fields_model(fields@)),
{
    let mut output: Vec<u8> = Vec::new();
    let r = write_struct_to(&mut output, fields);
    proof {
        assert(output@ =~= fields_bytes(fields_model(fields@)));
    }
    Ok(output)
}

// ---- what is written can be read ----

/// Whether a reader accepts what a writer makes of `w`: no length exceeds the
/// maximum, and the items of a collection have the announced type.
pub open spec fn readable(w: Wire) -> bool
    decreases w,
{
    match w {
        Wire::String(s) => s.len() <= MAX_ITEMS,
        Wire::Struct(fields) => forall|i: int|
            0 <= i < fields.len() ==> readable(#[trigger] fields[i].1),
        Wire::MapOf { key_type, value_type, entries } => entries.len() <= MAX_ITEMS && (forall|
            i: int,
        |
            0 <= i < entries.len() ==> readable(#[trigger] entries[i].0) && kind_of(entries[i].0)
                == key_type) && (forall|i: int|
            0 <= i < entries.len() ==> readable(#[trigger] entries[i].1) && kind_of(entries[i].1)
                == value_type),
        Wire::SetOf { element_type, values } => values.len() <= MAX_ITEMS && (forall|i: int|
            0 <= i < values.len() ==> readable(#[trigger] values[i]) && kind_of(values[i])
                == element_type),
        Wire::List { element_type, values } => values.len() <= MAX_ITEMS && (forall|i: int|
            0 <= i < values.len() ==> readable(#[trigger] values[i]) && kind_of(values[i])
                == element_type),
        _ => true,
    }
}

proof fn lemma_int_round_trip(v: int, n: nat, tail: Seq<u8>)
    requires
        n > 0,
        -pow256(n) <= 2 * v < pow256(n),
    ensures
        parse_int(be_bytes(unsigned(v, n), n) + tail, n) == Ok::<(int, Seq<u8>), ThriftFault>(
            (v, tail),
        ),
{
    let digits = be_bytes(unsigned(v, n), n);
    lemma_be_bytes_len(unsigned(v, n), n);
    lemma_be_round_trip(unsigned(v, n), n);
    assert((digits + tail).subrange(0, n as int) =~= digits);
    assert((digits + tail).skip(n as int) =~= tail);
}

proof fn lemma_size_round_trip(n: nat, tail: Seq<u8>)
    requires
        n <= MAX_ITEMS,
    ensures
        parse_size(size_bytes(n) + tail) == Ok::<(nat, Seq<u8>), ThriftFault>((n, tail)),
{
    lemma_pow256();
    lemma_int_round_trip(n as int, 4, tail);
}

pub proof fn lemma_value_round_trip(w: Wire, tail: Seq<u8>)
    requires
        readable(w),
    ensures
        parse_value(value_bytes(w) + tail, kind_of(w)) == Ok::<(Wire, Seq<u8>), ThriftFault>(
            (w, tail),
        ),
    decreases w,
{
    lemma_pow256();
    let b = value_bytes(w) + tail;
    match w {
        Wire::Bool(v) => {
            assert(b.skip(1) =~= tail);
        },
        Wire::Byte(v) => {
            lemma_int_round_trip(v as int, 1, tail);
        },
        Wire::Double(v) => {
            lemma_be_bytes_len(v.bits as nat, 8);
            lemma_be_round_trip(v.bits as nat, 8);
            assert(b.subrange(0, 8) =~= be_bytes(v.bits as nat, 8));
            assert(b.skip(8) =~= tail);
        },
        Wire::I16(v) => {
            lemma_int_round_trip(v as int, 2, tail);
        },
        Wire::I32(v) => {
            lemma_int_round_trip(v as int, 4, tail);
        },
        Wire::I64(v) => {
            lemma_int_round_trip(v as int, 8, tail);
        },
        Wire::String(s) => {
            assert(b =~= size_bytes(s.len()) + (s + tail));
            lemma_size_round_trip(s.len(), s + tail);
            assert((s + tail).subrange(0, s.len() as int) =~= s);
            assert((s + tail).skip(s.len() as int) =~= tail);
        },
        Wire::Struct(fields) => {
            lemma_fields_round_trip(fields, tail);
        },
        Wire::MapOf { key_type, value_type, entries } => {
            let rest = entries_bytes(entries) + tail;
            assert(b.skip(2) =~= size_bytes(entries.len()) + rest);
            lemma_size_round_trip(entries.len(), rest);
            lemma_entries_round_trip(key_type, value_type, entries, tail);
        },
        Wire::SetOf { element_type, values } => {
            let rest = values_bytes(values) + tail;
            assert(b.skip(1) =~= size_bytes(values.len()) + rest);
            lemma_size_round_trip(values.len(), rest);
            lemma_values_round_trip(element_type, values, tail);
        },
        Wire::List { element_type, values } => {
            let rest = values_bytes(values) + tail;
            assert(b.skip(1) =~= size_bytes(values.len()) + rest);
            lemma_size_round_trip(values.len(), rest);
            lemma_values_round_trip(element_type, values, tail);
        },
    }
}

pub proof fn lemma_fields_round_trip(fields: Seq<(i16, Wire)>, tail: Seq<u8>)
    requires
        forall|i: int| 0 <= i < fields.len() ==> readable(#[trigger] fields[i].1),
    ensures
        parse_fields(fields_bytes(fields) + tail) == Ok::<(Seq<(i16, Wire)>, Seq<u8>), ThriftFault>(
            (fields, tail),
        ),
    decreases fields,
{
    let b = fields_bytes(fields) + tail;
    if fields.len() == 0 {
        assert(b.skip(1) =~= tail);
        assert(fields =~= Seq::empty());
    } else {
        lemma_pow256();
        let (id, w) = fields[0];
        let rest = fields_bytes(fields.drop_first()) + tail;
        let body = value_bytes(w) + rest;
        assert(b.skip(1) =~= be_bytes(unsigned(id as int, 2), 2) + body);
        lemma_int_round_trip(id as int, 2, body);
        assert(readable(fields[0].1));
        assert(decreases_to!(fields => fields[0].1));
        lemma_value_round_trip(w, rest);
        lemma_value_consumes(body, kind_of(w));
        assert forall|i: int| 0 <= i < fields.drop_first().len() implies readable(
            #[trigger] fields.drop_first()[i].1,
        ) by {
            assert(readable(fields[i + 1].1));
        }
        lemma_fields_round_trip(fields.drop_first(), tail);
        assert(seq![fields[0]] + fields.drop_first() =~= fields);
    }
}

pub proof fn lemma_values_round_trip(kind: u8, values: Seq<Wire>, tail: Seq<u8>)
    requires
        forall|i: int|
            0 <= i < values.len() ==> readable(#[trigger] values[i]) && kind_of(values[i]) == kind,
    ensures
        parse_values(values_bytes(values) + tail, kind, values.len()) == Ok::<
            (Seq<Wire>, Seq<u8>),
            ThriftFault,
        >((values, tail)),
    decreases values,
{
    let b = values_bytes(values) + tail;
    if values.len() == 0 {
        assert(b =~= tail);
        assert(values =~= Seq::empty());
    } else {
        let rest = values_bytes(values.drop_first()) + tail;
        assert(b =~= value_bytes(values[0]) + rest);
        assert(decreases_to!(values => values[0]));
        lemma_value_round_trip(values[0], rest);
        lemma_value_consumes(b, kind);
        lemma_values_round_trip(kind, values.drop_first(), tail);
        assert(seq![values[0]] + values.drop_first() =~= values);
    }
}

pub proof fn lemma_entries_round_trip(
    key_kind: u8,
    value_kind: u8,
    entries: Seq<(Wire, Wire)>,
    tail: Seq<u8>,
)
    requires
        forall|i: int|
            0 <= i < entries.len() ==> readable(#[trigger] entries[i].0) && kind_of(entries[i].0)
                == key_kind,
        forall|i: int|
            0 <= i < entries.len() ==> readable(#[trigger] entries[i].1) && kind_of(entries[i].1)
                == value_kind,
    ensures
        parse_entries(entries_bytes(entries) + tail, key_kind, value_kind, entries.len()) == Ok::<
            (Seq<(Wire, Wire)>, Seq<u8>),
            ThriftFault,
        >((entries, tail)),
    decreases entries,
{
    let b = entries_bytes(entries) + tail;
    if entries.len() == 0 {
        assert(b =~= tail);
        assert(entries =~= Seq::empty());
    } else {
        let rest = entries_bytes(entries.drop_first()) + tail;
        let middle = value_bytes(entries[0].1) + rest;
        assert(b =~= value_bytes(entries[0].0) + middle);
        assert(decreases_to!(entries => entries[0]));
        assert(decreases_to!(entries => entries[0].0));
        assert(decreases_to!(entries => entries[0].1));
        lemma_value_round_trip(entries[0].0, middle);
        lemma_value_consumes(b, key_kind);
        lemma_value_round_trip(entries[0].1, rest);
        lemma_value_consumes(middle, value_kind);
        assert forall|i: int| 0 <= i < entries.drop_first().len() implies readable(
            #[trigger] entries.drop_first()[i].0,
        ) && kind_of(entries.drop_first()[i].0) == key_kind by {
            assert(readable(entries[i + 1].0));
        }
        assert forall|i: int| 0 <= i < entries.drop_first().len() implies readable(
            #[trigger] entries.drop_first()[i].1,
        ) && kind_of(entries.drop_first()[i].1) == value_kind by {
            assert(readable(entries[i + 1].1));
        }
        lemma_entries_round_trip(key_kind, value_kind, entries.drop_first(), tail);
        assert(seq![entries[0]] + entries.drop_first() =~= entries);
    }
}

/// Reading back what was written gives the fields that were written.
pub proof fn law_message_round_trip(fields: Seq<(i16, Wire)>)
    requires
        readable(Wire::Struct(fields)),
    ensures
        parse_message(fields_bytes(fields)) == Ok::<Seq<(i16, Wire)>, ThriftFault>(fields),
{
    assert forall|i: int| 0 <= i < fields.len() implies readable(#[trigger] fields[i].1) by {
        let w = Wire::Struct(fields);
        assert(w->Struct_0 == fields);
    }
    lemma_fields_round_trip(fields, Seq::empty());
    assert(fields_bytes(fields) + Seq::<u8>::empty() =~= fields_bytes(fields));
}

// ---- copies ----

pub(crate) fn dup_fields(fields: &Vec<Field>) -> (r: Vec<Field>)
    ensures
        fields_model(r@) == fields_model(fields@),
    decreases fields,
{
    let mut r: Vec<Field> = Vec::new();
    let mut i: usize = 0;
    while i < fields.len()
        invariant
            i <= fields.len(),
            r@.len() == i,
            forall|j: int|
                0 <= j < i ==> (#[trigger] r@[j]).id == fields@[j].id && r@[j].value@
                    == fields@[j].value@,
        decreases fields.len() - i,
    {
        proof {
            assert(decreases_to!(fields => fields@[i as int].value));
        }
        r.push(Field { id: fields[i].id, value: dup_value(&fields[i].value) });
        i = i + 1;
    }
    proof {
        lemma_fields_model(r@);
        lemma_fields_model(fields@);
        assert(fields_model(r@) =~= fields_model(fields@));
    }
    r
}

fn dup_values(values: &Vec<Value>) -> (r: Vec<Value>)
    ensures
        values_model(r@) == values_model(values@),
    decreases values,
{
    let mut r: Vec<Value> = Vec::new();
    let mut i: usize = 0;
    while i < values.len()
        invariant
            i <= values.len(),
            r@.len() == i,
            forall|j: int| 0 <= j < i ==> (#[trigger] r@[j])@ == values@[j]@,
        decreases values.len() - i,
    {
        proof {
            assert(decreases_to!(values => values@[i as int]));
        }
        r.push(dup_value(&values[i]));
        i = i + 1;
    }
    proof {
        lemma_values_model(r@);
        lemma_values_model(values@);
        assert(values_model(r@) =~= values_model(values@));
    }
    r
}

fn dup_entries(entries: &Vec<(Value, Value)>) -> (r: Vec<(Value, Value)>)
    ensures
        entries_model(r@) == entries_model(entries@),
    decreases entries,
{
    let mut r: Vec<(Value, Value)> = Vec::new();
    let mut i: usize = 0;
    while i < entries.len()
        invariant
            i <= entries.len(),
            r@.len() == i,
            forall|j: int|
                0 <= j < i ==> (#[trigger] r@[j]).0@ == entries@[j].0@ && r@[j].1@
                    == entries@[j].1@,
        decreases entries.len() - i,
    {
        proof {
            assert(decreases_to!(entries => entries@[i as int]));
            assert(decreases_to!(entries => entries@[i as int].0));
            assert(decreases_to!(entries => entries@[i as int].1));
        }
        r.push((dup_value(&entries[i].0), dup_value(&entries[i].1)));
        i = i + 1;
    }
    proof {
        lemma_entries_model(r@);
        lemma_entries_model(entries@);
        assert(entries_model(r@) =~= entries_model(entries@));
    }
    r
}

fn dup_value(value: &Value) -> (r: Value)
    ensures
        r@ == value@,
    decreases value,
{
    match value {
        Value::Bool(v) => Value::Bool(*v),
        Value::Byte(v) => Value::Byte(*v),
        Value::Double(v) => Value::Double(*v),
        Value::I16(v) => Value::I16(*v),
        Value::I32(v) => Value::I32(*v),
        Value::I64(v) => Value::I64(*v),
        Value::String(bytes) => Value::String(copies(bytes)),
        Value::Struct(fields) => Value::Struct(dup_fields(fields)),
        Value::MapOf { key_type, value_type, entries } => Value::MapOf {
            key_type: *key_type,
            value_type: *value_type,
            entries: dup_entries(entries),
        },
        Value::SetOf { element_type, values } => Value::SetOf {
            element_type: *element_type,
            values: dup_values(values),
        },
        Value::List { element_type, values } => Value::List {
            element_type: *element_type,
            values: dup_values(values),
        },
    }
}

impl Clone for Value {
    fn clone(&self) -> (r: Value)
        ensures
            r@ == self@,
    {
        dup_value(self)
    }
}

impl Clone for Field {
    fn clone(&self) -> (r: Field)
        ensures
            r.id == self.id,
            r.value@ == self.value@,
    {
        Field { id: self.id, value: dup_value(&self.value) }
    }
}

} // verus!

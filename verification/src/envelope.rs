//! Requests and responses: what surrounds the data of a call.
use crate::ints::{clip32, to_i32_saturated};
use crate::names::{law_find_name_put, NameTable};
use crate::number::{Real, ZERO};
use crate::registry::{
    exec_full_name, full_name, FieldSpec, ProtocolSchema, RpcSpec, TypeSpec, WireSpec,
};
use crate::table::find;
use crate::text::{chars_of, opt_text, push_chars, same_text, text_from_utf8, utf8_text};
use crate::wire::{
    dup_fields, fields_bytes, fields_model, law_message_round_trip, lemma_fields_model,
    lemma_values_model, parse_message, read_struct, readable, values_model, write_struct, Field,
    ThriftError, ThriftFault, Value, Wire, BOOL, BYTE, DOUBLE, I16, I32, I64, LIST, MAP,
    MAX_ITEMS, STRING, STRUCT,
};
use vstd::prelude::*;
use vstd::string::StrSliceExecFns;
use vstd::utf8::encode_utf8;

verus! {

/// A request with its fields by name.
#[derive(Debug)]
pub struct NamedRequest {
    pub call: String,
    pub fields: NameTable<Value>,
    pub raw_fields: Vec<Field>,
}

/// Why a request cannot be understood, or a response cannot be made.
#[derive(Clone, Debug)]
pub enum ProtocolEnvelopeError {
    Thrift(ThriftError),
    /// The request does not name its call.
    MissingCall,
    /// The request has no data.
    MissingData,
    /// The request names another call than the route.
    CallMismatch { expected: String, actual: String },
    /// The call has no type for its data.
    MissingWire(String),
    /// The protocol has no such type.
    MissingType(String),
    /// Types contain each other too deeply.
    RecursionLimit(String),
    /// The type is not a struct.
    ExpectedStruct(String),
    /// The type has no such field.
    UnknownField { wire_type: String, field: String },
}

/// Why an envelope is refused, as a mathematical value.
pub ghost enum Fault {
    Thrift(ThriftFault),
    MissingCall,
    MissingData,
    CallMismatch { expected: Seq<char>, actual: Seq<char> },
    MissingWire(Seq<char>),
    MissingType(Seq<char>),
    RecursionLimit(Seq<char>),
    ExpectedStruct(Seq<char>),
    UnknownField { wire_type: Seq<char>, field: Seq<char> },
}

impl View for ProtocolEnvelopeError {
    type V = Fault;

    open spec fn view(&self) -> Fault {
        match *self {
            ProtocolEnvelopeError::Thrift(e) => Fault::Thrift(e@),
            ProtocolEnvelopeError::MissingCall => Fault::MissingCall,
            ProtocolEnvelopeError::MissingData => Fault::MissingData,
            ProtocolEnvelopeError::CallMismatch { expected, actual } => Fault::CallMismatch {
                expected: expected@,
                actual: actual@,
            },
            ProtocolEnvelopeError::MissingWire(name) => Fault::MissingWire(name@),
            ProtocolEnvelopeError::MissingType(name) => Fault::MissingType(name@),
            ProtocolEnvelopeError::RecursionLimit(name) => Fault::RecursionLimit(name@),
            ProtocolEnvelopeError::ExpectedStruct(name) => Fault::ExpectedStruct(name@),
            ProtocolEnvelopeError::UnknownField { wire_type, field } => Fault::UnknownField {
                wire_type: wire_type@,
                field: field@,
            },
        }
    }
}

// ---- what a request holds ----

/// An integer of any width.
pub open spec fn integer_of(w: Wire) -> Option<i64> {
    match w {
        Wire::Byte(v) => Some(v as i64),
        Wire::I16(v) => Some(v as i64),
        Wire::I32(v) => Some(v as i64),
        Wire::I64(v) => Some(v),
        _ => None,
    }
}

fn exec_integer_of(value: &Value) -> (r: Option<i64>)
    ensures
        r == integer_of(value@),
{
    match value {
        Value::Byte(v) => Some(*v as i64),
        Value::I16(v) => Some(*v as i64),
        Value::I32(v) => Some(*v as i64),
        Value::I64(v) => Some(*v),
        _ => None,
    }
}

/// Integers of any width, if all are integers.
pub open spec fn integers_of(values: Seq<Wire>) -> Option<Seq<i64>>
    decreases values.len(),
{
    if values.len() == 0 {
        Some(Seq::empty())
    } else {
        match (integers_of(values.drop_last()), integer_of(values.last())) {
            (Some(before), Some(v)) => Some(before.push(v)),
            _ => None,
        }
    }
}

proof fn lemma_not_integers(values: Seq<Wire>, i: int)
    requires
        0 <= i <= values.len(),
        integers_of(values.take(i)) is None,
    ensures
        integers_of(values) is None,
    decreases values.len() - i,
{
    if i < values.len() {
        assert(values.take(i + 1).drop_last() =~= values.take(i));
        lemma_not_integers(values, i + 1);
    } else {
        assert(values.take(i) =~= values);
    }
}

impl NamedRequest {
    /// A field.
    pub open spec fn at(&self, name: Seq<char>) -> Option<Wire> {
        match find(self.fields@, name) {
            Some(value) => Some(value@),
            None => None,
        }
    }

    /// The field with a name.
    pub fn value(&self, name: &str) -> (r: Option<&Value>)
        ensures
            match r {
                Some(value) => find(self.fields@, name@) == Some(*value),
                None => find(self.fields@, name@) is None,
            },
    {
        self.fields.find(name)
    }

    /// An integer of any width.
    pub fn integer(&self, name: &str) -> (r: Option<i64>)
        ensures
            r == match self.at(name@) {
                Some(w) => integer_of(w),
                None => None,
            },
    {
        match self.fields.find(name) {
            Some(value) => exec_integer_of(value),
            None => None,
        }
    }

    /// A text.
    pub fn string(&self, name: &str) -> (r: Option<String>)
        ensures
            opt_text(r) == match self.at(name@) {
                Some(Wire::String(bytes)) => utf8_text(bytes),
                _ => None,
            },
    {
        match self.fields.find(name) {
            Some(value) => match value {
                Value::String(bytes) => text_from_utf8(bytes),
                _ => None,
            },
            None => None,
        }
    }

    /// A list of integers of any width.
    pub fn integers(&self, name: &str) -> (r: Option<Vec<i64>>)
        ensures
            match self.at(name@) {
                Some(Wire::List { values, .. }) => match integers_of(values) {
                    Some(v) => r matches Some(list) && list@ == v,
                    None => r is None,
                },
                _ => r is None,
            },
    {
        let values = match self.fields.find(name) {
            Some(value) => match value {
                Value::List { values, .. } => values,
                _ => {
                    return None;
                },
            },
            None => {
                return None;
            },
        };
        let ghost model = values_model(values@);
        let mut list: Vec<i64> = Vec::new();
        let mut i: usize = 0;
        proof {
            lemma_values_model(values@);
            assert(model.take(0) =~= Seq::empty());
        }
        while i < values.len()
            invariant
                i <= values@.len(),
                model == values_model(values@),
                model.len() == values@.len(),
                (self.at(name@) matches Some(Wire::List { values: listed, .. }) && listed == model),
                forall|j: int| 0 <= j < values@.len() ==> #[trigger] model[j] == values@[j]@,
                integers_of(model.take(i as int)) == Some(list@),
            decreases values@.len() - i,
        {
            proof {
                assert(model.take(i + 1).drop_last() =~= model.take(i as int));
                assert(model.take(i + 1).last() == model[i as int]);
                assert(model[i as int] == values@[i as int]@);
            }
            match exec_integer_of(&values[i]) {
                Some(v) => {
                    list.push(v);
                },
                None => {
                    proof {
                        lemma_not_integers(model, i + 1);
                    }
                    return None;
                },
            }
            i = i + 1;
        }
        proof {
            assert(model.take(i as int) =~= model);
        }
        Some(list)
    }

    /// A list.
    pub fn list(&self, name: &str) -> (r: Option<&Vec<Value>>)
        ensures
            match self.at(name@) {
                Some(Wire::List { values, .. }) => r matches Some(list) && values_model(list@)
                    == values,
                _ => r is None,
            },
    {
        match self.fields.find(name) {
            Some(value) => match value {
                Value::List { values, .. } => Some(values),
                _ => None,
            },
            None => None,
        }
    }
}

// ---- the names of types ----

/// Whether a text begins with another.
pub open spec fn begins(s: Seq<char>, with: Seq<char>) -> bool {
    s.len() >= with.len() && s.take(with.len() as int) == with
}

/// The last dot of a text.
pub open spec fn last_dot(s: Seq<char>) -> Option<int>
    decreases s.len(),
{
    if s.len() == 0 {
        None
    } else if s.last() == '.' {
        Some(s.len() - 1)
    } else {
        last_dot(s.drop_last())
    }
}

/// Whether a text holds two colons in a row.
pub open spec fn has_colons(s: Seq<char>) -> bool {
    exists|i: int| 0 <= i < s.len() - 1 && s[i] == ':' && #[trigger] s[i + 1] == ':'
}

/// The full name of a type that is named in a namespace: with its own namespace
/// before the last dot, with its full name, or with its name alone.
pub open spec fn qualified(namespace: Seq<char>, wire_type: Seq<char>) -> Seq<char> {
    match last_dot(wire_type) {
        Some(i) => full_name(wire_type.take(i), wire_type.skip(i + 1)),
        None => if has_colons(wire_type) {
            wire_type
        } else {
            full_name(namespace, wire_type)
        },
    }
}

/// The type that is named in a namespace.
pub open spec fn type_named(
    schema: ProtocolSchema,
    namespace: Seq<char>,
    wire_type: Seq<char>,
) -> Result<TypeSpec, Fault> {
    match find(schema.types@, qualified(namespace, wire_type)) {
        Some(spec) => Ok(spec),
        None => Err(Fault::MissingType(qualified(namespace, wire_type))),
    }
}

/// The first closing bracket of a text.
pub open spec fn first_bracket(s: Seq<char>) -> Option<int>
    decreases s.len(),
{
    if s.len() == 0 {
        None
    } else if s[0] == ']' {
        Some(0)
    } else {
        match first_bracket(s.drop_first()) {
            Some(i) => Some(i + 1),
            None => None,
        }
    }
}

/// The types of the keys and of the values of a map.
pub open spec fn map_parts(s: Seq<char>) -> Option<(Seq<char>, Seq<char>)> {
    if begins(s, "map["@) {
        let rest = s.skip(4);
        match first_bracket(rest) {
            Some(i) => Some((rest.take(i), rest.skip(i + 1))),
            None => None,
        }
    } else {
        None
    }
}

/// The types that are not made of others.
pub ghost enum Simple {
    Bool,
    Byte,
    I16,
    I32,
    I64,
    Double,
    String,
}

pub open spec fn simple(s: Seq<char>) -> Option<Simple> {
    if s == "bool"@ {
        Some(Simple::Bool)
    } else if s == "byte"@ || s == "int8"@ || s == "uint8"@ {
        Some(Simple::Byte)
    } else if s == "int16"@ || s == "uint16"@ {
        Some(Simple::I16)
    } else if s == "int"@ || s == "int32"@ || s == "uint"@ || s == "uint32"@ {
        Some(Simple::I32)
    } else if s == "int64"@ || s == "uint64"@ {
        Some(Simple::I64)
    } else if s == "float32"@ || s == "float64"@ {
        Some(Simple::Double)
    } else if s == "string"@ {
        Some(Simple::String)
    } else {
        None
    }
}

pub open spec fn simple_kind(s: Simple) -> u8 {
    match s {
        Simple::Bool => BOOL,
        Simple::Byte => BYTE,
        Simple::I16 => I16,
        Simple::I32 => I32,
        Simple::I64 => I64,
        Simple::Double => DOUBLE,
        Simple::String => STRING,
    }
}

pub open spec fn simple_default(s: Simple) -> Wire {
    match s {
        Simple::Bool => Wire::Bool(false),
        Simple::Byte => Wire::Byte(0),
        Simple::I16 => Wire::I16(0),
        Simple::I32 => Wire::I32(0),
        Simple::I64 => Wire::I64(0),
        Simple::Double => Wire::Double(Real { bits: ZERO }),
        Simple::String => Wire::String(Seq::empty()),
    }
}

/// The type code of a named type.
pub open spec fn named_kind(
    schema: ProtocolSchema,
    namespace: Seq<char>,
    wire_type: Seq<char>,
) -> Result<u8, Fault> {
    if begins(wire_type, "[]"@) {
        Ok(LIST)
    } else if begins(wire_type, "map["@) {
        Ok(MAP)
    } else {
        match simple(wire_type) {
            Some(s) => Ok(simple_kind(s)),
            None => match type_named(schema, namespace, wire_type) {
                Ok(_) => Ok(STRUCT),
                Err(f) => Err(f),
            },
        }
    }
}

/// How deeply types may contain each other.
pub const MAX_DEPTH: usize = 32;

/// The value of a type that says nothing: zeros, empty texts and collections, and
/// structs of such.
pub open spec fn default_wire(
    schema: ProtocolSchema,
    namespace: Seq<char>,
    wire_type: Seq<char>,
    depth: nat,
) -> Result<Wire, Fault>
    decreases MAX_DEPTH + 1 - depth, 0nat,
{
    if depth > MAX_DEPTH {
        Err(Fault::RecursionLimit(wire_type))
    } else if begins(wire_type, "[]"@) {
        match named_kind(schema, namespace, wire_type.skip(2)) {
            Ok(element_type) => Ok(Wire::List { element_type, values: Seq::empty() }),
            Err(f) => Err(f),
        }
    } else {
        match map_parts(wire_type) {
            Some((key, value)) => match named_kind(schema, namespace, key) {
                Err(f) => Err(f),
                Ok(key_type) => match named_kind(schema, namespace, value) {
                    Err(f) => Err(f),
                    Ok(value_type) => Ok(
                        Wire::MapOf { key_type, value_type, entries: Seq::empty() },
                    ),
                },
            },
            None => match simple(wire_type) {
                Some(s) => Ok(simple_default(s)),
                None => match type_named(schema, namespace, wire_type) {
                    Err(f) => Err(f),
                    Ok(spec) => match default_fields(
                        schema,
                        spec.namespace@,
                        spec.fields@,
                        depth + 1,
                    ) {
                        Err(f) => Err(f),
                        Ok(fields) => Ok(Wire::Struct(fields)),
                    },
                },
            },
        }
    }
}

/// The fields of a struct that say nothing.
pub open spec fn default_fields(
    schema: ProtocolSchema,
    namespace: Seq<char>,
    fields: Seq<FieldSpec>,
    depth: nat,
) -> Result<Seq<(i16, Wire)>, Fault>
    decreases MAX_DEPTH + 1 - depth, fields.len() + 1,
{
    if fields.len() == 0 {
        Ok(Seq::empty())
    } else {
        match default_fields(schema, namespace, fields.drop_last(), depth) {
            Err(f) => Err(f),
            Ok(before) => match default_wire(schema, namespace, fields.last().wire_type@, depth) {
                Err(f) => Err(f),
                Ok(w) => Ok(before.push((fields.last().id, w))),
            },
        }
    }
}

proof fn lemma_default_error(
    schema: ProtocolSchema,
    namespace: Seq<char>,
    fields: Seq<FieldSpec>,
    depth: nat,
    i: int,
)
    requires
        0 <= i <= fields.len(),
        default_fields(schema, namespace, fields.take(i), depth) is Err,
    ensures
        default_fields(schema, namespace, fields, depth) == default_fields(
            schema,
            namespace,
            fields.take(i),
            depth,
        ),
    decreases fields.len() - i,
{
    if i < fields.len() {
        assert(fields.take(i + 1).drop_last() =~= fields.take(i));
        lemma_default_error(schema, namespace, fields, depth, i + 1);
    } else {
        assert(fields.take(i) =~= fields);
    }
}

fn begins_with(v: &Vec<char>, with: &str) -> (r: bool)
    ensures
        r == begins(v@, with@),
{
    let w = chars_of(with);
    if v.len() < w.len() {
        return false;
    }
    let mut i: usize = 0;
    while i < w.len()
        invariant
            i <= w@.len() <= v@.len(),
            w@ == with@,
            forall|j: int| 0 <= j < i ==> #[trigger] v@[j] == w@[j],
        decreases w@.len() - i,
    {
        if v[i] != w[i] {
            proof {
                assert(v@.take(w@.len() as int)[i as int] != w@[i as int]);
            }
            return false;
        }
        i = i + 1;
    }
    proof {
        assert(v@.take(w@.len() as int) =~= w@);
    }
    true
}

fn part(v: &Vec<char>, from: usize, to: usize) -> (s: String)
    requires
        from <= to <= v@.len(),
    ensures
        s@ == v@.subrange(from as int, to as int),
{
    let mut s = String::new();
    push_chars(&mut s, v, from, to);
    proof {
        assert(s@ =~= v@.subrange(from as int, to as int));
    }
    s
}

fn find_last_dot(v: &Vec<char>) -> (r: Option<usize>)
    ensures
        match r {
            Some(i) => last_dot(v@) == Some(i as int) && i < v@.len(),
            None => last_dot(v@) is None,
        },
{
    let mut i: usize = v.len();
    proof {
        assert(v@.take(i as int) =~= v@);
    }
    while i > 0
        invariant
            i <= v@.len(),
            last_dot(v@) == last_dot(v@.take(i as int)),
        decreases i,
    {
        proof {
            assert(v@.take(i as int).drop_last() =~= v@.take(i - 1));
        }
        if v[i - 1] == '.' {
            return Some(i - 1);
        }
        i = i - 1;
    }
    None
}

fn holds_colons(v: &Vec<char>) -> (r: bool)
    ensures
        r == has_colons(v@),
{
    let n: usize = v.len();
    let mut i: usize = 1;
    while i < n
        invariant
            1 <= i,
            n == v@.len(),
            i <= n || n == 0,
            forall|j: int| 0 <= j < i - 1 ==> !(v@[j] == ':' && #[trigger] v@[j + 1] == ':'),
        decreases n - i,
    {
        if v[i - 1] == ':' && v[i] == ':' {
            proof {
                assert(v@[(i - 1) + 1] == ':');
            }
            return true;
        }
        i = i + 1;
    }
    false
}

fn qualified_name(namespace: &str, wire_type: &str) -> (name: String)
    ensures
        name@ == qualified(namespace@, wire_type@),
{
    let v = chars_of(wire_type);
    let n: usize = v.len();
    match find_last_dot(&v) {
        Some(i) => {
            let outer = part(&v, 0, i);
            let inner = part(&v, i + 1, n);
            proof {
                assert(v@.subrange(0, i as int) =~= v@.take(i as int));
                assert(v@.subrange(i + 1, v@.len() as int) =~= v@.skip(i + 1));
            }
            exec_full_name(outer.as_str(), inner.as_str())
        },
        None => if holds_colons(&v) {
            wire_type.to_owned()
        } else {
            exec_full_name(namespace, wire_type)
        },
    }
}

/// What looking for a type returns.
pub open spec fn finds_type(
    r: Result<&TypeSpec, ProtocolEnvelopeError>,
    found: Result<TypeSpec, Fault>,
) -> bool {
    match r {
        Ok(spec) => found == Ok::<TypeSpec, Fault>(*spec),
        Err(e) => found == Err::<TypeSpec, Fault>(e@),
    }
}

fn resolve_type<'a>(schema: &'a ProtocolSchema, namespace: &str, wire_type: &str) -> (r: Result<
    &'a TypeSpec,
    ProtocolEnvelopeError,
>)
    ensures
        finds_type(r, type_named(*schema, namespace@, wire_type@)),
{
    let name = qualified_name(namespace, wire_type);
    match schema.type_spec(name.as_str()) {
        Some(spec) => Ok(spec),
        None => Err(ProtocolEnvelopeError::MissingType(name)),
    }
}

fn split_map(v: &Vec<char>) -> (r: Option<(String, String)>)
    ensures
        match r {
            Some((key, value)) => map_parts(v@) == Some((key@, value@)),
            None => map_parts(v@) is None,
        },
{
    if !begins_with(v, "map[") {
        return None;
    }
    proof {
        reveal_strlit("map[");
    }
    let ghost rest = v@.skip(4);
    let n: usize = v.len();
    let mut i: usize = 4;
    proof {
        assert(rest.skip(0) =~= rest);
    }
    while i < n
        invariant
            4 <= i <= n == v@.len(),
            rest == v@.skip(4),
            begins(v@, "map["@),
            match first_bracket(rest.skip(i - 4)) {
                Some(k) => first_bracket(rest) == Some(k + i - 4),
                None => first_bracket(rest) is None,
            },
        decreases n - i,
    {
        proof {
            assert(rest.skip(i - 4)[0] == v@[i as int]);
            assert(rest.skip(i - 4).drop_first() =~= rest.skip(i + 1 - 4));
        }
        if v[i] == ']' {
            let key = part(v, 4, i);
            let value = part(v, i + 1, n);
            proof {
                assert(v@.subrange(4, i as int) =~= rest.take(i - 4));
                assert(v@.subrange(i + 1, n as int) =~= rest.skip(i - 4 + 1));
            }
            return Some((key, value));
        }
        i = i + 1;
    }
    None
}

/// The value of a simple type that says nothing.
fn simple_value(wire_type: &str) -> (r: Option<Value>)
    ensures
        match simple(wire_type@) {
            Some(s) => r matches Some(v) && v@ == simple_default(s) && crate::wire::kind_of(v@)
                == simple_kind(s),
            None => r is None,
        },
{
    if same_text(wire_type, "bool") {
        Some(Value::Bool(false))
    } else if same_text(wire_type, "byte") || same_text(wire_type, "int8") || same_text(
        wire_type,
        "uint8",
    ) {
        Some(Value::Byte(0))
    } else if same_text(wire_type, "int16") || same_text(wire_type, "uint16") {
        Some(Value::I16(0))
    } else if same_text(wire_type, "int") || same_text(wire_type, "int32") || same_text(
        wire_type,
        "uint",
    ) || same_text(wire_type, "uint32") {
        Some(Value::I32(0))
    } else if same_text(wire_type, "int64") || same_text(wire_type, "uint64") {
        Some(Value::I64(0))
    } else if same_text(wire_type, "float32") || same_text(wire_type, "float64") {
        Some(Value::Double(Real { bits: ZERO }))
    } else if same_text(wire_type, "string") {
        let empty: Vec<u8> = Vec::new();
        proof {
            assert(empty@ =~= Seq::<u8>::empty());
        }
        Some(Value::String(empty))
    } else {
        None
    }
}

/// What a method that makes a type code returns.
pub open spec fn kind_result(
    r: Result<u8, ProtocolEnvelopeError>,
    found: Result<u8, Fault>,
) -> bool {
    match r {
        Ok(kind) => found == Ok::<u8, Fault>(kind),
        Err(e) => found == Err::<u8, Fault>(e@),
    }
}

fn wire_kind(schema: &ProtocolSchema, namespace: &str, wire_type: &str) -> (r: Result<
    u8,
    ProtocolEnvelopeError,
>)
    ensures
        kind_result(r, named_kind(*schema, namespace@, wire_type@)),
{
    let v = chars_of(wire_type);
    if begins_with(&v, "[]") {
        return Ok(LIST);
    }
    if begins_with(&v, "map[") {
        return Ok(MAP);
    }
    match simple_value(wire_type) {
        Some(value) => Ok(crate::wire::value_kind(&value)),
        None => match resolve_type(schema, namespace, wire_type) {
            Ok(_) => Ok(STRUCT),
            Err(e) => Err(e),
        },
    }
}

/// What a method that makes a value returns.
pub open spec fn value_result(
    r: Result<Value, ProtocolEnvelopeError>,
    found: Result<Wire, Fault>,
) -> bool {
    match r {
        Ok(value) => found == Ok::<Wire, Fault>(value@),
        Err(e) => found == Err::<Wire, Fault>(e@),
    }
}

fn default_value(schema: &ProtocolSchema, namespace: &str, wire_type: &str, depth: usize) -> (r:
    Result<Value, ProtocolEnvelopeError>)
    requires
        depth <= MAX_DEPTH + 1,
    ensures
        value_result(r, default_wire(*schema, namespace@, wire_type@, depth as nat)),
    decreases MAX_DEPTH + 1 - depth, 0nat,
{
    if depth > MAX_DEPTH {
        return Err(ProtocolEnvelopeError::RecursionLimit(wire_type.to_owned()));
    }
    let v = chars_of(wire_type);
    if begins_with(&v, "[]") {
        proof {
            reveal_strlit("[]");
        }
        let element = part(&v, 2, v.len());
        proof {
            assert(v@.subrange(2, v@.len() as int) =~= v@.skip(2));
        }
        let values: Vec<Value> = Vec::new();
        proof {
            assert(values_model(values@) =~= Seq::empty());
        }
        return match wire_kind(schema, namespace, element.as_str()) {
            Ok(element_type) => Ok(Value::List { element_type, values }),
            Err(e) => Err(e),
        };
    }
    if let Some((key, value)) = split_map(&v) {
        let key_type = match wire_kind(schema, namespace, key.as_str()) {
            Ok(kind) => kind,
            Err(e) => {
                return Err(e);
            },
        };
        let value_type = match wire_kind(schema, namespace, value.as_str()) {
            Ok(kind) => kind,
            Err(e) => {
                return Err(e);
            },
        };
        let entries: Vec<(Value, Value)> = Vec::new();
        proof {
            assert(crate::wire::entries_model(entries@) =~= Seq::empty());
        }
        return Ok(Value::MapOf { key_type, value_type, entries });
    }
    if let Some(value) = simple_value(wire_type) {
        return Ok(value);
    }
    match resolve_type(schema, namespace, wire_type) {
        Err(e) => Err(e),
        Ok(spec) => match default_struct(schema, spec, depth + 1) {
            Ok(fields) => Ok(Value::Struct(fields)),
            Err(e) => Err(e),
        },
    }
}

fn default_struct(schema: &ProtocolSchema, spec: &TypeSpec, depth: usize) -> (r: Result<
    Vec<Field>,
    ProtocolEnvelopeError,
>)
    requires
        depth <= MAX_DEPTH + 1,
    ensures
        match r {
            Ok(fields) => default_fields(*schema, spec.namespace@, spec.fields@, depth as nat)
                == Ok::<Seq<(i16, Wire)>, Fault>(fields_model(fields@)),
            Err(e) => default_fields(*schema, spec.namespace@, spec.fields@, depth as nat) == Err::<
                Seq<(i16, Wire)>,
                Fault,
            >(e@),
        },
    decreases MAX_DEPTH + 1 - depth, 1nat,
{
    let ghost specs = spec.fields@;
    let mut fields: Vec<Field> = Vec::new();
    let mut i: usize = 0;
    proof {
        assert(specs.take(0) =~= Seq::empty());
        assert(fields_model(fields@) =~= Seq::empty());
    }
    while i < spec.fields.len()
        invariant
            i <= specs.len(),
            specs == spec.fields@,
            depth <= MAX_DEPTH + 1,
            default_fields(*schema, spec.namespace@, specs.take(i as int), depth as nat) == Ok::<
                Seq<(i16, Wire)>,
                Fault,
            >(fields_model(fields@)),
        decreases specs.len() - i,
    {
        proof {
            assert(specs.take(i + 1).drop_last() =~= specs.take(i as int));
            assert(specs.take(i + 1).last() == specs[i as int]);
        }
        match default_value(
            schema,
            spec.namespace.as_str(),
            spec.fields[i].wire_type.as_str(),
            depth,
        ) {
            Ok(value) => {
                let ghost before = fields@;
                fields.push(Field { id: spec.fields[i].id, value });
                proof {
                    assert(fields@.drop_last() =~= before);
                }
            },
            Err(e) => {
                proof {
                    lemma_default_error(
                        *schema,
                        spec.namespace@,
                        specs,
                        depth as nat,
                        i + 1,
                    );
                }
                return Err(e);
            },
        }
        i = i + 1;
    }
    proof {
        assert(specs.take(i as int) =~= specs);
    }
    Ok(fields)
}

// ---- requests ----

/// Where the first field with a number is.
pub open spec fn field_index(fields: Seq<(i16, Wire)>, id: i16) -> Option<int>
    decreases fields.len(),
{
    if fields.len() == 0 {
        None
    } else {
        match field_index(fields.drop_last(), id) {
            Some(i) => Some(i),
            None => if fields.last().0 == id {
                Some(fields.len() - 1)
            } else {
                None
            },
        }
    }
}

/// The first field with a number.
pub open spec fn field_at(fields: Seq<(i16, Wire)>, id: i16) -> Option<Wire> {
    match field_index(fields, id) {
        Some(i) => Some(fields[i].1),
        None => None,
    }
}

proof fn lemma_field_index(fields: Seq<(i16, Wire)>, id: i16)
    ensures
        match field_index(fields, id) {
            Some(i) => 0 <= i < fields.len() && fields[i].0 == id,
            None => forall|j: int| 0 <= j < fields.len() ==> #[trigger] fields[j].0 != id,
        },
    decreases fields.len(),
{
    if fields.len() > 0 {
        lemma_field_index(fields.drop_last(), id);
        if field_index(fields, id) is None {
            assert forall|j: int| 0 <= j < fields.len() implies #[trigger] fields[j].0 != id by {
                if j < fields.len() - 1 {
                    assert(fields.drop_last()[j].0 != id);
                }
            }
        }
    }
}

proof fn lemma_field_index_stays(fields: Seq<(i16, Wire)>, id: i16, n: int)
    requires
        0 <= n <= fields.len(),
        field_index(fields.take(n), id) is Some,
    ensures
        field_index(fields, id) == field_index(fields.take(n), id),
    decreases fields.len() - n,
{
    if n < fields.len() {
        assert(fields.take(n + 1).drop_last() =~= fields.take(n));
        lemma_field_index_stays(fields, id, n + 1);
    } else {
        assert(fields.take(n) =~= fields);
    }
}

fn find_field(fields: &Vec<Field>, id: i16) -> (r: Option<usize>)
    ensures
        match r {
            Some(i) => i < fields@.len() && field_index(
                fields_model(fields@),
                id,
            ) == Some(i as int),
            None => field_index(fields_model(fields@), id) is None,
        },
{
    let ghost model = fields_model(fields@);
    let mut i: usize = 0;
    proof {
        lemma_fields_model(fields@);
        assert(model.take(0) =~= Seq::empty());
    }
    while i < fields.len()
        invariant
            i <= fields@.len(),
            model == fields_model(fields@),
            model.len() == fields@.len(),
            forall|j: int|
                0 <= j < fields@.len() ==> #[trigger] model[j] == (
                    fields@[j].id,
                    fields@[j].value@,
                ),
            field_index(model.take(i as int), id) is None,
        decreases fields@.len() - i,
    {
        proof {
            assert(model.take(i + 1).drop_last() =~= model.take(i as int));
            assert(model.take(i + 1).last() == model[i as int]);
        }
        if fields[i].id == id {
            proof {
                lemma_field_index_stays(model, id, i + 1);
            }
            return Some(i);
        }
        i = i + 1;
    }
    proof {
        assert(model.take(i as int) =~= model);
    }
    None
}

/// What a request holds under a name: the value of the last field of that name
/// that the data has.
pub open spec fn request_field(
    specs: Seq<FieldSpec>,
    data: Seq<(i16, Wire)>,
    name: Seq<char>,
) -> Option<Wire>
    decreases specs.len(),
{
    if specs.len() == 0 {
        None
    } else if specs.last().name@ == name && field_at(data, specs.last().id) is Some {
        field_at(data, specs.last().id)
    } else {
        request_field(specs.drop_last(), data, name)
    }
}

/// What a request says: its data and the type of its data.
pub open spec fn request_parts(
    raw: Seq<u8>,
    expected: RpcSpec,
    schema: ProtocolSchema,
) -> Result<(Seq<(i16, Wire)>, TypeSpec), Fault> {
    match parse_message(raw) {
        Err(e) => Err(Fault::Thrift(e)),
        Ok(fields) => match called(fields) {
            None => Err(Fault::MissingCall),
            Some(call) => if call != expected.name@ {
                Err(Fault::CallMismatch { expected: expected.name@, actual: call })
            } else {
                match field_at(fields, 2) {
                    Some(Wire::Struct(data)) => if expected.request_wires@.len() == 0 {
                        Err(Fault::MissingWire(expected.name@))
                    } else {
                        match type_named(
                            schema,
                            expected.request_wires@[0].namespace@,
                            expected.request_wires@[0].wire_type@,
                        ) {
                            Ok(spec) => Ok((data, spec)),
                            Err(f) => Err(f),
                        }
                    },
                    _ => Err(Fault::MissingData),
                }
            },
        },
    }
}

/// The call that a request names.
pub open spec fn called(fields: Seq<(i16, Wire)>) -> Option<Seq<char>> {
    match field_at(fields, 1) {
        Some(Wire::String(bytes)) => utf8_text(bytes),
        _ => None,
    }
}

fn read_call(fields: &Vec<Field>) -> (r: Option<String>)
    ensures
        opt_text(r) == called(fields_model(fields@)),
{
    proof {
        lemma_fields_model(fields@);
    }
    match find_field(fields, 1) {
        Some(i) => match &fields[i].value {
            Value::String(bytes) => text_from_utf8(bytes),
            _ => None,
        },
        None => None,
    }
}

/// The data of a request.
fn read_data(fields: &Vec<Field>) -> (r: Option<Vec<Field>>)
    ensures
        match field_at(fields_model(fields@), 2) {
            Some(Wire::Struct(data)) => r matches Some(list) && fields_model(list@) == data,
            _ => r is None,
        },
{
    proof {
        lemma_fields_model(fields@);
    }
    match find_field(fields, 2) {
        Some(i) => match &fields[i].value {
            Value::Struct(data) => Some(dup_fields(data)),
            _ => None,
        },
        None => None,
    }
}

fn name_fields(specs: &Vec<FieldSpec>, data: &Vec<Field>) -> (r: NameTable<Value>)
    ensures
        forall|name: Seq<char>|
            #![trigger find(r@, name)]
            request_field(specs@, fields_model(data@), name) == match find(r@, name) {
                Some(value) => Some(value@),
                None => None,
            },
{
    let ghost model = fields_model(data@);
    let mut table: NameTable<Value> = NameTable::new();
    let mut i: usize = 0;
    proof {
        lemma_fields_model(data@);
    }
    while i < specs.len()
        invariant
            i <= specs@.len(),
            model == fields_model(data@),
            model.len() == data@.len(),
            forall|j: int|
                0 <= j < data@.len() ==> #[trigger] model[j] == (data@[j].id, data@[j].value@),
            forall|name: Seq<char>|
                #![trigger find(table@, name)]
                request_field(specs@.take(i as int), model, name) == match find(table@, name) {
                    Some(value) => Some(value@),
                    None => None,
                },
        decreases specs@.len() - i,
    {
        let ghost before = table@;
        proof {
            assert(specs@.take(i + 1).drop_last() =~= specs@.take(i as int));
            assert(specs@.take(i + 1).last() == specs@[i as int]);
        }
        match find_field(data, specs[i].id) {
            Some(k) => {
                let value = data[k].value.clone();
                table.put(specs[i].name.as_str().to_owned(), value);
                proof {
                    assert forall|name: Seq<char>| #![trigger find(table@, name)]
                        request_field(specs@.take(i + 1), model, name) == match find(
                            table@,
                            name,
                        ) {
                            Some(value) => Some(value@),
                            None => None,
                        } by {
                        law_find_name_put(before, specs@[i as int].name@, value, name);
                        let earlier = find(before, name);
                    }
                }
            },
            None => {
                proof {
                    assert forall|name: Seq<char>| #![trigger find(table@, name)]
                        request_field(specs@.take(i + 1), model, name) == match find(
                            table@,
                            name,
                        ) {
                            Some(value) => Some(value@),
                            None => None,
                        } by {
                        let earlier = find(before, name);
                    }
                }
            },
        }
        i = i + 1;
    }
    proof {
        assert(specs@.take(i as int) =~= specs@);
    }
    table
}

/// Reads a request to a call and names its fields.
pub fn decode_request(raw: &[u8], expected: &RpcSpec, schema: &ProtocolSchema) -> (r: Result<
    NamedRequest,
    ProtocolEnvelopeError,
>)
    ensures
        match request_parts(raw@, *expected, *schema) {
            Ok((data, spec)) => r matches Ok(request) && request.call@ == expected.name@
                && fields_model(request.raw_fields@) == data && (forall|name: Seq<char>| #[trigger]
                request.at(name) == request_field(spec.fields@, data, name)),
            Err(f) => r matches Err(e) && e@ == f,
        },
{
    let fields = match read_struct(raw) {
        Ok(fields) => fields,
        Err(e) => {
            return Err(ProtocolEnvelopeError::Thrift(e));
        },
    };
    let call = match read_call(&fields) {
        Some(call) => call,
        None => {
            return Err(ProtocolEnvelopeError::MissingCall);
        },
    };
    if !same_text(call.as_str(), expected.name.as_str()) {
        return Err(
            ProtocolEnvelopeError::CallMismatch {
                expected: expected.name.as_str().to_owned(),
                actual: call,
            },
        );
    }
    let data = match read_data(&fields) {
        Some(data) => data,
        None => {
            return Err(ProtocolEnvelopeError::MissingData);
        },
    };
    if expected.request_wires.len() == 0 {
        return Err(ProtocolEnvelopeError::MissingWire(expected.name.as_str().to_owned()));
    }
    let spec = match resolve_type(
        schema,
        expected.request_wires[0].namespace.as_str(),
        expected.request_wires[0].wire_type.as_str(),
    ) {
        Ok(spec) => spec,
        Err(e) => {
            return Err(e);
        },
    };
    let named = name_fields(&spec.fields, &data);
    let request = NamedRequest { call, fields: named, raw_fields: data };
    proof {
        assert forall|name: Seq<char>| #[trigger] request.at(name) == request_field(
            spec.fields@,
            fields_model(data@),
            name,
        ) by {
            let value = find(named@, name);
        }
    }
    Ok(request)
}

// ---- responses ----

/// The number of the field with a name.
pub open spec fn id_named(specs: Seq<FieldSpec>, name: Seq<char>) -> Option<i16>
    decreases specs.len(),
{
    if specs.len() == 0 {
        None
    } else {
        match id_named(specs.drop_last(), name) {
            Some(id) => Some(id),
            None => if specs.last().name@ == name {
                Some(specs.last().id)
            } else {
                None
            },
        }
    }
}

proof fn lemma_id_stays(specs: Seq<FieldSpec>, name: Seq<char>, n: int)
    requires
        0 <= n <= specs.len(),
        id_named(specs.take(n), name) is Some,
    ensures
        id_named(specs, name) == id_named(specs.take(n), name),
    decreases specs.len() - n,
{
    if n < specs.len() {
        assert(specs.take(n + 1).drop_last() =~= specs.take(n));
        lemma_id_stays(specs, name, n + 1);
    } else {
        assert(specs.take(n) =~= specs);
    }
}

fn find_id(specs: &Vec<FieldSpec>, name: &str) -> (r: Option<i16>)
    ensures
        r == id_named(specs@, name@),
{
    let mut i: usize = 0;
    proof {
        assert(specs@.take(0) =~= Seq::empty());
    }
    while i < specs.len()
        invariant
            i <= specs@.len(),
            id_named(specs@.take(i as int), name@) is None,
        decreases specs@.len() - i,
    {
        proof {
            assert(specs@.take(i + 1).drop_last() =~= specs@.take(i as int));
            assert(specs@.take(i + 1).last() == specs@[i as int]);
        }
        if same_text(specs[i].name.as_str(), name) {
            proof {
                lemma_id_stays(specs@, name@, i + 1);
            }
            return Some(specs[i].id);
        }
        i = i + 1;
    }
    proof {
        assert(specs@.take(i as int) =~= specs@);
    }
    None
}

/// Named values, as mathematical values.
pub open spec fn given(values: Seq<(String, Value)>) -> Seq<(Seq<char>, Wire)> {
    values.map_values(|p: (String, Value)| (p.0@, p.1@))
}

/// The fields with one more, behind those whose numbers are not larger.
pub open spec fn field_put(fields: Seq<(i16, Wire)>, field: (i16, Wire)) -> Seq<(i16, Wire)>
    decreases fields.len(),
{
    if fields.len() == 0 || fields.last().0 <= field.0 {
        fields.push(field)
    } else {
        field_put(fields.drop_last(), field).push(fields.last())
    }
}

/// The fields of a struct that holds what is given and nothing else, in the order
/// of their numbers.
pub open spec fn sparse_fields(
    specs: Seq<FieldSpec>,
    wire_type: Seq<char>,
    values: Seq<(Seq<char>, Wire)>,
) -> Result<Seq<(i16, Wire)>, Fault>
    decreases values.len(),
{
    if values.len() == 0 {
        Ok(Seq::empty())
    } else {
        match sparse_fields(specs, wire_type, values.drop_last()) {
            Err(f) => Err(f),
            Ok(before) => match id_named(specs, values.last().0) {
                None => Err(Fault::UnknownField { wire_type, field: values.last().0 }),
                Some(id) => Ok(field_put(before, (id, values.last().1))),
            },
        }
    }
}

/// The fields of a struct with what is given in their places.
pub open spec fn overridden(
    fields: Seq<(i16, Wire)>,
    specs: Seq<FieldSpec>,
    wire_type: Seq<char>,
    values: Seq<(Seq<char>, Wire)>,
) -> Result<Seq<(i16, Wire)>, Fault>
    decreases values.len(),
{
    if values.len() == 0 {
        Ok(fields)
    } else {
        match overridden(fields, specs, wire_type, values.drop_last()) {
            Err(f) => Err(f),
            Ok(before) => match id_named(specs, values.last().0) {
                None => Err(Fault::UnknownField { wire_type, field: values.last().0 }),
                Some(id) => match field_index(before, id) {
                    Some(i) => Ok(before.update(i, (id, values.last().1))),
                    None => Ok(before),
                },
            },
        }
    }
}

/// A struct that holds what is given and nothing else.
pub open spec fn sparse_wire(
    schema: ProtocolSchema,
    namespace: Seq<char>,
    wire_type: Seq<char>,
    values: Seq<(Seq<char>, Wire)>,
) -> Result<Wire, Fault> {
    match type_named(schema, namespace, wire_type) {
        Err(f) => Err(f),
        Ok(spec) => match sparse_fields(spec.fields@, wire_type, values) {
            Err(f) => Err(f),
            Ok(fields) => Ok(Wire::Struct(fields)),
        },
    }
}

/// A struct that says nothing but what is given.
pub open spec fn struct_wire(
    schema: ProtocolSchema,
    namespace: Seq<char>,
    wire_type: Seq<char>,
    values: Seq<(Seq<char>, Wire)>,
) -> Result<Wire, Fault> {
    match type_named(schema, namespace, wire_type) {
        Err(f) => Err(f),
        Ok(spec) => match default_wire(schema, namespace, wire_type, 0) {
            Err(f) => Err(f),
            Ok(Wire::Struct(fields)) => match overridden(
                fields,
                spec.fields@,
                wire_type,
                values,
            ) {
                Err(f) => Err(f),
                Ok(fields) => Ok(Wire::Struct(fields)),
            },
            Ok(_) => Err(Fault::ExpectedStruct(wire_type)),
        },
    }
}

proof fn lemma_sparse_error(
    specs: Seq<FieldSpec>,
    wire_type: Seq<char>,
    values: Seq<(Seq<char>, Wire)>,
    i: int,
)
    requires
        0 <= i <= values.len(),
        sparse_fields(specs, wire_type, values.take(i)) is Err,
    ensures
        sparse_fields(specs, wire_type, values) == sparse_fields(
            specs,
            wire_type,
            values.take(i),
        ),
    decreases values.len() - i,
{
    if i < values.len() {
        assert(values.take(i + 1).drop_last() =~= values.take(i));
        lemma_sparse_error(specs, wire_type, values, i + 1);
    } else {
        assert(values.take(i) =~= values);
    }
}

proof fn lemma_override_error(
    fields: Seq<(i16, Wire)>,
    specs: Seq<FieldSpec>,
    wire_type: Seq<char>,
    values: Seq<(Seq<char>, Wire)>,
    i: int,
)
    requires
        0 <= i <= values.len(),
        overridden(fields, specs, wire_type, values.take(i)) is Err,
    ensures
        overridden(fields, specs, wire_type, values) == overridden(
            fields,
            specs,
            wire_type,
            values.take(i),
        ),
    decreases values.len() - i,
{
    if i < values.len() {
        assert(values.take(i + 1).drop_last() =~= values.take(i));
        lemma_override_error(fields, specs, wire_type, values, i + 1);
    } else {
        assert(values.take(i) =~= values);
    }
}

proof fn lemma_field_put(fields: Seq<(i16, Wire)>, field: (i16, Wire), i: int)
    requires
        0 <= i <= fields.len(),
        i > 0 ==> fields[i - 1].0 <= field.0,
        forall|j: int| i <= j < fields.len() ==> (#[trigger] fields[j]).0 > field.0,
    ensures
        field_put(fields, field) == fields.insert(i, field),
    decreases fields.len(),
{
    if i == fields.len() {
        assert(fields.insert(i, field) =~= fields.push(field));
    } else {
        assert(fields[fields.len() - 1].0 > field.0);
        assert forall|j: int| i <= j < fields.drop_last().len() implies (
        #[trigger] fields.drop_last()[j]).0 > field.0 by {
            assert(fields[j].0 > field.0);
        }
        lemma_field_put(fields.drop_last(), field, i);
        assert(fields.insert(i, field) =~= fields.drop_last().insert(i, field).push(
            fields.last(),
        ));
    }
}

fn put_field(fields: &mut Vec<Field>, id: i16, value: Value)
    ensures
        fields_model(final(fields)@) == field_put(fields_model(old(fields)@), (id, value@)),
{
    let ghost before = fields@;
    let ghost model = fields_model(before);
    let mut i: usize = fields.len();
    proof {
        lemma_fields_model(before);
    }
    while i > 0 && fields[i - 1].id > id
        invariant
            i <= fields@.len(),
            fields@ == before,
            model.len() == before.len(),
            forall|j: int|
                0 <= j < before.len() ==> #[trigger] model[j] == (before[j].id, before[j].value@),
            forall|j: int| i <= j < model.len() ==> (#[trigger] model[j]).0 > id,
        decreases i,
    {
        i = i - 1;
        proof {
            assert(model[i as int].0 > id);
        }
    }
    proof {
        if i > 0 {
            assert(model[i - 1].0 <= id);
        }
        lemma_field_put(model, (id, value@), i as int);
    }
    let field = Field { id, value };
    fields.insert(i, field);
    proof {
        lemma_fields_model(fields@);
        assert(fields_model(fields@) =~= model.insert(i as int, (id, value@)));
    }
}

/// Builds a struct that holds what is given and nothing else. A field that is
/// absent says that there is no value.
pub fn sparse_struct_value(
    schema: &ProtocolSchema,
    namespace: &str,
    wire_type: &str,
    fields: Vec<(String, Value)>,
) -> (r: Result<Value, ProtocolEnvelopeError>)
    ensures
        value_result(r, sparse_wire(*schema, namespace@, wire_type@, given(fields@))),
{
    let spec = match resolve_type(schema, namespace, wire_type) {
        Ok(spec) => spec,
        Err(e) => {
            return Err(e);
        },
    };
    let ghost values = given(fields@);
    let mut encoded: Vec<Field> = Vec::new();
    let mut i: usize = 0;
    proof {
        assert(values.take(0) =~= Seq::empty());
        assert(fields_model(encoded@) =~= Seq::empty());
    }
    while i < fields.len()
        invariant
            i <= fields@.len(),
            values == given(fields@),
            type_named(*schema, namespace@, wire_type@) == Ok::<TypeSpec, Fault>(*spec),
            sparse_fields(spec.fields@, wire_type@, values.take(i as int)) == Ok::<
                Seq<(i16, Wire)>,
                Fault,
            >(fields_model(encoded@)),
        decreases fields@.len() - i,
    {
        proof {
            assert(values.take(i + 1).drop_last() =~= values.take(i as int));
            assert(values.take(i + 1).last() == (fields@[i as int].0@, fields@[i as int].1@));
        }
        match find_id(&spec.fields, fields[i].0.as_str()) {
            Some(id) => {
                put_field(&mut encoded, id, fields[i].1.clone());
            },
            None => {
                proof {
                    lemma_sparse_error(spec.fields@, wire_type@, values, i + 1);
                }
                return Err(
                    ProtocolEnvelopeError::UnknownField {
                        wire_type: wire_type.to_owned(),
                        field: fields[i].0.as_str().to_owned(),
                    },
                );
            },
        }
        i = i + 1;
    }
    proof {
        assert(values.take(i as int) =~= values);
    }
    Ok(Value::Struct(encoded))
}

/// Builds a struct with all its fields: what is given, and values that say
/// nothing.
pub fn struct_value(
    schema: &ProtocolSchema,
    namespace: &str,
    wire_type: &str,
    overrides: Vec<(String, Value)>,
) -> (r: Result<Value, ProtocolEnvelopeError>)
    ensures
        value_result(r, struct_wire(*schema, namespace@, wire_type@, given(overrides@))),
{
    let spec = match resolve_type(schema, namespace, wire_type) {
        Ok(spec) => spec,
        Err(e) => {
            return Err(e);
        },
    };
    let mut fields = match default_value(schema, namespace, wire_type, 0) {
        Ok(value) => match value {
            Value::Struct(fields) => fields,
            _ => {
                return Err(ProtocolEnvelopeError::ExpectedStruct(wire_type.to_owned()));
            },
        },
        Err(e) => {
            return Err(e);
        },
    };
    let ghost values = given(overrides@);
    let ghost start = fields_model(fields@);
    let mut i: usize = 0;
    proof {
        assert(values.take(0) =~= Seq::empty());
    }
    while i < overrides.len()
        invariant
            i <= overrides@.len(),
            values == given(overrides@),
            type_named(*schema, namespace@, wire_type@) == Ok::<TypeSpec, Fault>(*spec),
            default_wire(*schema, namespace@, wire_type@, 0) == Ok::<Wire, Fault>(
                Wire::Struct(start),
            ),
            overridden(start, spec.fields@, wire_type@, values.take(i as int)) == Ok::<
                Seq<(i16, Wire)>,
                Fault,
            >(fields_model(fields@)),
        decreases overrides@.len() - i,
    {
        proof {
            assert(values.take(i + 1).drop_last() =~= values.take(i as int));
            assert(values.take(i + 1).last() == (overrides@[i as int].0@, overrides@[i as int].1@));
        }
        match find_id(&spec.fields, overrides[i].0.as_str()) {
            Some(id) => {
                if let Some(k) = find_field(&fields, id) {
                    let ghost before = fields@;
                    fields.set(k, Field { id, value: overrides[i].1.clone() });
                    proof {
                        lemma_fields_model(before);
                        lemma_fields_model(fields@);
                        assert(fields_model(fields@) =~= fields_model(before).update(
                            k as int,
                            (id, overrides@[i as int].1@),
                        ));
                    }
                }
            },
            None => {
                proof {
                    lemma_override_error(start, spec.fields@, wire_type@, values, i + 1);
                }
                return Err(
                    ProtocolEnvelopeError::UnknownField {
                        wire_type: wire_type.to_owned(),
                        field: overrides[i].0.as_str().to_owned(),
                    },
                );
            },
        }
        i = i + 1;
    }
    proof {
        assert(values.take(i as int) =~= values);
    }
    Ok(Value::Struct(fields))
}

/// What a call announces of maintenance when there is none.
pub open spec fn no_maintenance() -> Wire {
    Wire::Struct(
        seq![
            (1i16, Wire::I16(0)),
            (2i16, Wire::String(Seq::empty())),
            (3i16, Wire::String(Seq::empty())),
            (4i16, Wire::I16(0)),
            (5i16, Wire::String(Seq::empty())),
            (6i16, Wire::String(Seq::empty())),
            (7i16, Wire::String(Seq::empty())),
        ],
    )
}

/// A response: the status, the time where the call has one, the category and the
/// name of the call, the data where there is any, and the maintenance. The fields
/// behind the time have smaller numbers where there is no time.
pub open spec fn response_fields(
    spec: RpcSpec,
    unix_seconds: i64,
    code: i32,
    message: Seq<char>,
    data: Option<Wire>,
    maintenance: Option<Wire>,
) -> Seq<(i16, Wire)> {
    let first: int = if spec.has_server_time {
        3
    } else {
        2
    };
    let status = seq![
        (
            1i16,
            Wire::Struct(
                seq![(1i16, Wire::I32(code)), (2i16, Wire::String(encode_utf8(message)))],
            ),
        ),
    ];
    let time = if spec.has_server_time {
        seq![
            (
                2i16,
                Wire::Struct(
                    seq![
                        (1i16, Wire::I32(clip32(unix_seconds as int))),
                        (2i16, Wire::I64(unix_seconds)),
                    ],
                ),
            ),
        ]
    } else {
        Seq::empty()
    };
    let call = seq![
        (first as i16, Wire::String(encode_utf8(spec.category@))),
        ((first + 1) as i16, Wire::String(encode_utf8(spec.name@))),
    ];
    let content = match data {
        Some(w) => seq![((first + 2) as i16, w)],
        None => Seq::empty(),
    };
    let notice = seq![
        (
            (first + 3) as i16,
            match maintenance {
                Some(w) => w,
                None => no_maintenance(),
            },
        ),
    ];
    status + time + call + content + notice
}

/// The view of an optional value.
pub open spec fn opt_wire(value: Option<Value>) -> Option<Wire> {
    match value {
        Some(v) => Some(v@),
        None => None,
    }
}

fn push_field(fields: &mut Vec<Field>, id: i16, value: Value)
    ensures
        fields_model(final(fields)@) == fields_model(old(fields)@).push((id, value@)),
{
    fields.push(Field { id, value });
    proof {
        assert(fields@.drop_last() =~= old(fields)@);
    }
}

fn text_value(text: &str) -> (value: Value)
    ensures
        value@ == Wire::String(encode_utf8(text@)),
{
    Value::String(text.as_bytes_vec())
}

fn empty_text() -> (value: Value)
    ensures
        value@ == Wire::String(Seq::empty()),
{
    let bytes: Vec<u8> = Vec::new();
    proof {
        assert(bytes@ =~= Seq::<u8>::empty());
    }
    Value::String(bytes)
}

fn no_fields() -> (fields: Vec<Field>)
    ensures
        fields_model(fields@) == Seq::<(i16, Wire)>::empty(),
{
    let fields: Vec<Field> = Vec::new();
    proof {
        assert(fields@ =~= Seq::<Field>::empty());
    }
    fields
}

fn quiet() -> (value: Value)
    ensures
        value@ == no_maintenance(),
{
    let mut fields = no_fields();
    push_field(&mut fields, 1, Value::I16(0));
    push_field(&mut fields, 2, empty_text());
    push_field(&mut fields, 3, empty_text());
    push_field(&mut fields, 4, Value::I16(0));
    push_field(&mut fields, 5, empty_text());
    push_field(&mut fields, 6, empty_text());
    push_field(&mut fields, 7, empty_text());
    proof {
        assert(fields_model(fields@) =~= no_maintenance()->Struct_0);
    }
    Value::Struct(fields)
}

/// Two fields, numbered from one.
fn pair_value(first: Value, second: Value) -> (value: Value)
    ensures
        value@ == Wire::Struct(seq![(1i16, first@), (2i16, second@)]),
{
    let mut fields = no_fields();
    push_field(&mut fields, 1, first);
    push_field(&mut fields, 2, second);
    proof {
        assert(fields_model(fields@) =~= seq![(1i16, first@), (2i16, second@)]);
    }
    Value::Struct(fields)
}

/// What a function that writes a response returns.
pub open spec fn writes(
    r: Result<Vec<u8>, ProtocolEnvelopeError>,
    response: Result<Seq<(i16, Wire)>, Fault>,
) -> bool {
    match response {
        Ok(fields) => r matches Ok(raw) && raw@ == fields_bytes(fields),
        Err(f) => r matches Err(e) && e@ == f,
    }
}

fn response_with_optional_data(
    spec: &RpcSpec,
    unix_seconds: i64,
    code: i32,
    message: &str,
    data: Option<Value>,
    maintenance: Option<Value>,
) -> (r: Result<Vec<u8>, ProtocolEnvelopeError>)
    ensures
        writes(
            r,
            Ok(
                response_fields(
                    *spec,
                    unix_seconds,
                    code,
                    message@,
                    opt_wire(data),
                    opt_wire(maintenance),
                ),
            ),
        ),
{
    let ghost full = response_fields(
        *spec,
        unix_seconds,
        code,
        message@,
        opt_wire(data),
        opt_wire(maintenance),
    );
    let mut fields = no_fields();
    push_field(&mut fields, 1, pair_value(Value::I32(code), text_value(message)));
    let mut first: i16 = 2;
    if spec.has_server_time {
        push_field(
            &mut fields,
            2,
            pair_value(Value::I32(to_i32_saturated(unix_seconds)), Value::I64(unix_seconds)),
        );
        first = 3;
    }
    push_field(&mut fields, first, text_value(spec.category.as_str()));
    push_field(&mut fields, first + 1, text_value(spec.name.as_str()));
    if let Some(value) = data {
        push_field(&mut fields, first + 2, value);
    }
    let notice = match maintenance {
        Some(value) => value,
        None => quiet(),
    };
    push_field(&mut fields, first + 3, notice);
    proof {
        assert(fields_model(fields@) =~= full);
    }
    match write_struct(&fields) {
        Ok(raw) => Ok(raw),
        Err(e) => Err(ProtocolEnvelopeError::Thrift(e)),
    }
}

/// The type of the data of a response.
pub open spec fn response_wire(spec: RpcSpec) -> Result<WireSpec, Fault> {
    if spec.response_wires@.len() == 0 {
        Err(Fault::MissingWire(spec.name@))
    } else {
        Ok(spec.response_wires@[0])
    }
}

/// A response of success: with the data, or with data that say nothing.
pub open spec fn success_fields(
    spec: RpcSpec,
    schema: ProtocolSchema,
    unix_seconds: i64,
    data: Option<Wire>,
    maintenance: Option<Wire>,
) -> Result<Seq<(i16, Wire)>, Fault> {
    match response_wire(spec) {
        Err(f) => Err(f),
        Ok(wire) => match (match data {
            Some(w) => Ok(w),
            None => default_wire(schema, wire.namespace@, wire.wire_type@, 0),
        }) {
            Err(f) => Err(f),
            Ok(w) => Ok(
                response_fields(spec, unix_seconds, 0, Seq::empty(), Some(w), maintenance),
            ),
        },
    }
}

fn succeed(
    spec: &RpcSpec,
    schema: &ProtocolSchema,
    unix_seconds: i64,
    data: Option<Value>,
    maintenance: Option<Value>,
) -> (r: Result<Vec<u8>, ProtocolEnvelopeError>)
    ensures
        writes(
            r,
            success_fields(*spec, *schema, unix_seconds, opt_wire(data), opt_wire(maintenance)),
        ),
{
    if spec.response_wires.len() == 0 {
        return Err(ProtocolEnvelopeError::MissingWire(spec.name.as_str().to_owned()));
    }
    let value = match data {
        Some(value) => value,
        None => match default_value(
            schema,
            spec.response_wires[0].namespace.as_str(),
            spec.response_wires[0].wire_type.as_str(),
            0,
        ) {
            Ok(value) => value,
            Err(e) => {
                return Err(e);
            },
        },
    };
    proof {
        reveal_strlit("");
        assert(""@ =~= Seq::<char>::empty());
    }
    response_with_optional_data(spec, unix_seconds, 0, "", Some(value), maintenance)
}

/// Writes a response of success, with data that say nothing if none are given.
pub fn success_response(
    spec: &RpcSpec,
    schema: &ProtocolSchema,
    unix_seconds: i64,
    data: Option<Value>,
) -> (r: Result<Vec<u8>, ProtocolEnvelopeError>)
    ensures
        writes(r, success_fields(*spec, *schema, unix_seconds, opt_wire(data), None)),
{
    succeed(spec, schema, unix_seconds, data, None)
}

/// Writes a response of success that announces maintenance.
pub fn success_response_with_maintenance(
    spec: &RpcSpec,
    schema: &ProtocolSchema,
    unix_seconds: i64,
    data: Option<Value>,
    maintenance: Value,
) -> (r: Result<Vec<u8>, ProtocolEnvelopeError>)
    ensures
        writes(
            r,
            success_fields(*spec, *schema, unix_seconds, opt_wire(data), Some(maintenance@)),
        ),
{
    succeed(spec, schema, unix_seconds, data, Some(maintenance))
}

/// Writes a response of failure, without data.
pub fn error_response(spec: &RpcSpec, unix_seconds: i64, code: i32, message: &str) -> (r: Result<
    Vec<u8>,
    ProtocolEnvelopeError,
>)
    ensures
        writes(r, Ok(response_fields(*spec, unix_seconds, code, message@, None, None))),
{
    response_with_optional_data(spec, unix_seconds, code, message, None, None)
}

/// Builds the data of a response: what is given, and values that say nothing.
pub fn response_struct(
    spec: &RpcSpec,
    schema: &ProtocolSchema,
    overrides: Vec<(String, Value)>,
) -> (r: Result<Value, ProtocolEnvelopeError>)
    ensures
        value_result(
            r,
            match response_wire(*spec) {
                Ok(wire) => struct_wire(
                    *schema,
                    wire.namespace@,
                    wire.wire_type@,
                    given(overrides@),
                ),
                Err(f) => Err(f),
            },
        ),
{
    if spec.response_wires.len() == 0 {
        return Err(ProtocolEnvelopeError::MissingWire(spec.name.as_str().to_owned()));
    }
    struct_value(
        schema,
        spec.response_wires[0].namespace.as_str(),
        spec.response_wires[0].wire_type.as_str(),
        overrides,
    )
}

/// Builds the data of a response that holds what is given and nothing else.
pub fn response_sparse_struct(
    spec: &RpcSpec,
    schema: &ProtocolSchema,
    fields: Vec<(String, Value)>,
) -> (r: Result<Value, ProtocolEnvelopeError>)
    ensures
        value_result(
            r,
            match response_wire(*spec) {
                Ok(wire) => sparse_wire(
                    *schema,
                    wire.namespace@,
                    wire.wire_type@,
                    given(fields@),
                ),
                Err(f) => Err(f),
            },
        ),
{
    if spec.response_wires.len() == 0 {
        return Err(ProtocolEnvelopeError::MissingWire(spec.name.as_str().to_owned()));
    }
    sparse_struct_value(
        schema,
        spec.response_wires[0].namespace.as_str(),
        spec.response_wires[0].wire_type.as_str(),
        fields,
    )
}

// ---- laws ----

/// A value that says nothing can be written and read back.
pub proof fn law_default_readable(
    schema: ProtocolSchema,
    namespace: Seq<char>,
    wire_type: Seq<char>,
    depth: nat,
)
    requires
        default_wire(schema, namespace, wire_type, depth) is Ok,
    ensures
        readable(default_wire(schema, namespace, wire_type, depth)->Ok_0),
    decreases MAX_DEPTH + 1 - depth, 0nat,
{
    if !begins(wire_type, "[]"@) && map_parts(wire_type) is None && simple(wire_type) is None {
        let spec = type_named(schema, namespace, wire_type)->Ok_0;
        lemma_default_fields_readable(schema, spec.namespace@, spec.fields@, depth + 1);
    }
}

proof fn lemma_default_fields_readable(
    schema: ProtocolSchema,
    namespace: Seq<char>,
    specs: Seq<FieldSpec>,
    depth: nat,
)
    requires
        default_fields(schema, namespace, specs, depth) is Ok,
    ensures
        ({
            let fields = default_fields(schema, namespace, specs, depth)->Ok_0;
            &&& fields.len() == specs.len()
            &&& forall|i: int|
                0 <= i < fields.len() ==> readable((#[trigger] fields[i]).1) && fields[i].0
                    == specs[i].id
        }),
    decreases MAX_DEPTH + 1 - depth, specs.len() + 1,
{
    if specs.len() > 0 {
        lemma_default_fields_readable(schema, namespace, specs.drop_last(), depth);
        law_default_readable(schema, namespace, specs.last().wire_type@, depth);
        let before = default_fields(schema, namespace, specs.drop_last(), depth)->Ok_0;
        let fields = default_fields(schema, namespace, specs, depth)->Ok_0;
        assert forall|i: int| 0 <= i < fields.len() implies readable((#[trigger] fields[i]).1)
            && fields[i].0 == specs[i].id by {
            if i < before.len() {
                assert(fields[i] == before[i]);
                assert(specs.drop_last()[i] == specs[i]);
            }
        }
    }
}

/// A struct that says nothing has every field of its type, so whatever is given
/// for a field finds its place.
pub proof fn law_default_has_fields(
    schema: ProtocolSchema,
    namespace: Seq<char>,
    specs: Seq<FieldSpec>,
    depth: nat,
    name: Seq<char>,
)
    requires
        default_fields(schema, namespace, specs, depth) is Ok,
        id_named(specs, name) is Some,
    ensures
        field_index(
            default_fields(schema, namespace, specs, depth)->Ok_0,
            id_named(specs, name)->Some_0,
        ) is Some,
{
    let fields = default_fields(schema, namespace, specs, depth)->Ok_0;
    let id = id_named(specs, name)->Some_0;
    lemma_default_fields_readable(schema, namespace, specs, depth);
    lemma_field_index(fields, id);
    let i = lemma_id_place(specs, name);
    assert(fields[i].0 == id);
}

proof fn lemma_id_place(specs: Seq<FieldSpec>, name: Seq<char>) -> (i: int)
    requires
        id_named(specs, name) is Some,
    ensures
        0 <= i < specs.len(),
        specs[i].id == id_named(specs, name)->Some_0,
    decreases specs.len(),
{
    if id_named(specs.drop_last(), name) is Some {
        lemma_id_place(specs.drop_last(), name)
    } else {
        specs.len() - 1
    }
}

/// A response can be read back, field by field, where its parts can be.
pub proof fn law_response_round_trip(
    spec: RpcSpec,
    unix_seconds: i64,
    code: i32,
    message: Seq<char>,
    data: Option<Wire>,
    maintenance: Option<Wire>,
)
    requires
        encode_utf8(spec.name@).len() <= MAX_ITEMS,
        encode_utf8(spec.category@).len() <= MAX_ITEMS,
        encode_utf8(message).len() <= MAX_ITEMS,
        data is Some ==> readable(data->Some_0),
        maintenance is Some ==> readable(maintenance->Some_0),
    ensures
        parse_message(
            fields_bytes(
                response_fields(spec, unix_seconds, code, message, data, maintenance),
            ),
        ) == Ok::<Seq<(i16, Wire)>, ThriftFault>(
            response_fields(spec, unix_seconds, code, message, data, maintenance),
        ),
{
    let fields = response_fields(spec, unix_seconds, code, message, data, maintenance);
    let status = Wire::Struct(
        seq![(1i16, Wire::I32(code)), (2i16, Wire::String(encode_utf8(message)))],
    );
    assert forall|i: int| 0 <= i < status->Struct_0.len() implies readable(
        #[trigger] status->Struct_0[i].1,
    ) by {}
    assert(readable(status));
    let time = Wire::Struct(
        seq![
            (1i16, Wire::I32(clip32(unix_seconds as int))),
            (2i16, Wire::I64(unix_seconds)),
        ],
    );
    assert forall|i: int| 0 <= i < time->Struct_0.len() implies readable(
        #[trigger] time->Struct_0[i].1,
    ) by {}
    assert(readable(time));
    let none = no_maintenance();
    assert forall|i: int| 0 <= i < none->Struct_0.len() implies readable(
        #[trigger] none->Struct_0[i].1,
    ) by {}
    assert(readable(none));
    assert(readable(Wire::String(encode_utf8(spec.name@))));
    assert(readable(Wire::String(encode_utf8(spec.category@))));
    assert forall|i: int| 0 <= i < fields.len() implies readable(#[trigger] fields[i].1) by {}
    assert(Wire::Struct(fields)->Struct_0 == fields);
    assert(readable(Wire::Struct(fields)));
    law_message_round_trip(fields);
}

/// Every call whose response type is known has a response that can be read back.
pub proof fn law_every_call_answers(spec: RpcSpec, schema: ProtocolSchema, unix_seconds: i64)
    requires
        encode_utf8(spec.name@).len() <= MAX_ITEMS,
        encode_utf8(spec.category@).len() <= MAX_ITEMS,
        success_fields(spec, schema, unix_seconds, None, None) is Ok,
    ensures
        ({
            let fields = success_fields(spec, schema, unix_seconds, None, None)->Ok_0;
            parse_message(fields_bytes(fields)) == Ok::<Seq<(i16, Wire)>, ThriftFault>(fields)
        }),
{
    let wire = spec.response_wires@[0];
    law_default_readable(schema, wire.namespace@, wire.wire_type@, 0);
    let w = default_wire(schema, wire.namespace@, wire.wire_type@, 0)->Ok_0;
    encode_utf8_empty();
    law_response_round_trip(spec, unix_seconds, 0, Seq::empty(), Some(w), None);
}

proof fn encode_utf8_empty()
    ensures
        encode_utf8(Seq::empty()).len() == 0,
{
    assert(encode_utf8(Seq::empty()) =~= Seq::empty());
}

/// A response of failure has no data: its fields are numbered without the number
/// of the data.
pub proof fn law_failure_has_no_data(
    spec: RpcSpec,
    unix_seconds: i64,
    code: i32,
    message: Seq<char>,
)
    ensures
        response_fields(spec, unix_seconds, code, message, None, None).map_values(
            |f: (i16, Wire)| f.0,
        ) == if spec.has_server_time {
            seq![1i16, 2i16, 3i16, 4i16, 6i16]
        } else {
            seq![1i16, 2i16, 3i16, 5i16]
        },
{
    let fields = response_fields(spec, unix_seconds, code, message, None, None);
    assert(fields.map_values(|f: (i16, Wire)| f.0) =~= if spec.has_server_time {
        seq![1i16, 2i16, 3i16, 4i16, 6i16]
    } else {
        seq![1i16, 2i16, 3i16, 5i16]
    });
}

/// A request that is written with the name of its call and with its data is read
/// as that data, under the names of the fields of its type.
pub proof fn law_request_round_trip(
    expected: RpcSpec,
    schema: ProtocolSchema,
    data: Seq<(i16, Wire)>,
)
    requires
        encode_utf8(expected.name@).len() <= MAX_ITEMS,
        readable(Wire::Struct(data)),
        expected.request_wires@.len() > 0,
        type_named(
            schema,
            expected.request_wires@[0].namespace@,
            expected.request_wires@[0].wire_type@,
        ) is Ok,
    ensures
        request_parts(
            fields_bytes(
                seq![
                    (1i16, Wire::String(encode_utf8(expected.name@))),
                    (2i16, Wire::Struct(data)),
                ],
            ),
            expected,
            schema,
        ) == Ok::<(Seq<(i16, Wire)>, TypeSpec), Fault>(
            (
                data,
                type_named(
                    schema,
                    expected.request_wires@[0].namespace@,
                    expected.request_wires@[0].wire_type@,
                )->Ok_0,
            ),
        ),
{
    let fields = seq![
        (1i16, Wire::String(encode_utf8(expected.name@))),
        (2i16, Wire::Struct(data)),
    ];
    assert forall|i: int| 0 <= i < fields.len() implies readable(#[trigger] fields[i].1) by {}
    assert(Wire::Struct(fields)->Struct_0 == fields);
    assert(readable(Wire::Struct(fields)));
    law_message_round_trip(fields);
    reveal_with_fuel(field_index, 3);
    assert(fields.drop_last() =~= seq![(1i16, Wire::String(encode_utf8(expected.name@)))]);
    assert(fields.drop_last().drop_last() =~= Seq::empty());
    vstd::utf8::encode_utf8_valid_utf8(expected.name@);
    vstd::utf8::encode_utf8_decode_utf8(expected.name@);
}

/// The fields of a struct that holds only what is given are in the order of their
/// numbers.
pub proof fn law_sparse_sorted(
    specs: Seq<FieldSpec>,
    wire_type: Seq<char>,
    values: Seq<(Seq<char>, Wire)>,
)
    requires
        sparse_fields(specs, wire_type, values) is Ok,
    ensures
        sparse_fields(specs, wire_type, values)->Ok_0.len() == values.len(),
        in_order(sparse_fields(specs, wire_type, values)->Ok_0),
    decreases values.len(),
{
    if values.len() > 0 {
        law_sparse_sorted(specs, wire_type, values.drop_last());
        let before = sparse_fields(specs, wire_type, values.drop_last())->Ok_0;
        lemma_put_in_order(
            before,
            (id_named(specs, values.last().0)->Some_0, values.last().1),
        );
    }
}

/// Whether the numbers of the fields do not fall.
pub open spec fn in_order(fields: Seq<(i16, Wire)>) -> bool {
    forall|i: int, j: int|
        0 <= i <= j < fields.len() ==> (#[trigger] fields[i]).0 <= (#[trigger] fields[j]).0
}

proof fn lemma_put_in_order(fields: Seq<(i16, Wire)>, field: (i16, Wire))
    requires
        in_order(fields),
    ensures
        field_put(fields, field).len() == fields.len() + 1,
        in_order(field_put(fields, field)),
        forall|i: int|
            0 <= i < field_put(fields, field).len() ==> (#[trigger] field_put(fields, field)[i]).0
                <= if fields.len() > 0 && fields.last().0 > field.0 {
                fields.last().0
            } else {
                field.0
            },
    decreases fields.len(),
{
    if fields.len() > 0 && fields.last().0 > field.0 {
        lemma_put_in_order(fields.drop_last(), field);
        let rest = field_put(fields.drop_last(), field);
        assert forall|i: int| 0 <= i < rest.len() implies (#[trigger] rest[i]).0
            <= fields.last().0 by {
            if fields.drop_last().len() > 0 {
                assert(fields[fields.len() - 2].0 <= fields[fields.len() - 1].0);
            }
        }
    }
}

} // verus!

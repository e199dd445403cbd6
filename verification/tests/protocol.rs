//! Messages, their transport and what surrounds them.
use ggfm::envelope::{
    decode_request, error_response, response_sparse_struct, response_struct, sparse_struct_value,
    struct_value, success_response, success_response_with_maintenance, NamedRequest,
    ProtocolEnvelopeError,
};
use ggfm::names::NameTable;
use ggfm::number::Real;
use ggfm::registry::{FieldSpec, ProtocolSchema, RpcClass, RpcSpec, TypeSpec, WireSpec};
use ggfm::transport::{accept_payload, decode_transport, encode_transport, normalize};
use ggfm::wire::{read_struct, write_struct, Field, ThriftError, Value, BOOL, I32, LIST, STRING};
use ggfm::PROTOCOL_VERSION;
use std::io::Read;

fn field(name: &str, wire_type: &str, id: i16) -> FieldSpec {
    FieldSpec { name: name.to_owned(), wire_type: wire_type.to_owned(), id }
}

fn type_spec(namespace: &str, name: &str, fields: Vec<FieldSpec>) -> TypeSpec {
    TypeSpec { namespace: namespace.to_owned(), name: name.to_owned(), fields }
}

fn wire(namespace: &str, wire_type: &str) -> WireSpec {
    WireSpec { namespace: namespace.to_owned(), wire_type: wire_type.to_owned() }
}

fn call(
    name: &str,
    category: &str,
    class: &str,
    request: &str,
    response: &str,
    has_server_time: bool,
) -> RpcSpec {
    let candidates = |full: &str| if full.is_empty() { vec![] } else { vec![full.to_owned()] };
    let wires = |full: &str| match full.split_once("::") {
        Some((namespace, name)) => vec![wire(namespace, name)],
        None => vec![],
    };
    RpcSpec {
        name: name.to_owned(),
        category: category.to_owned(),
        class: class.to_owned(),
        request_candidates: candidates(request),
        response_candidates: candidates(response),
        request_wires: wires(request),
        response_wires: wires(response),
        has_server_time,
    }
}

fn schema() -> ProtocolSchema {
    let calls = vec![
        call("userLoad", "user", "active", "user_model::UserLoad", "user_model::UserLoadRet", true),
        call("buyCheck", "shop", "transport-only", "", "shop_model::BuyCheckRet", false),
        call("getPostTime", "post", "active", "", "post_model::GetPostTimeRetDataInfo", true),
        call("userLogin", "user", "active", "", "user_model::UserLoadRet", true),
        call("oldRow", "user", "dto-only", "user_model::Row", "user_model::Row", true),
    ];
    let types = vec![
        type_spec(
            "user_model",
            "UserLoad",
            vec![field("U_seq", "int32", 1), field("U_id", "string", 2)],
        ),
        type_spec(
            "user_model",
            "UserLoadRet",
            vec![
                field("Level", "int16", 4),
                field("Names", "[]string", 1),
                field("Rows", "map[int32]user_model.Row", 2),
                field("Row", "Row", 3),
                field("Post", "post_model::GetPostTimeRetDataInfo", 5),
                field("Grid", "[][]float64", 6),
            ],
        ),
        type_spec(
            "user_model",
            "Row",
            vec![field("On", "bool", 1), field("Half", "float32", 2), field("B", "uint8", 3)],
        ),
        type_spec("shop_model", "BuyCheckRet", vec![field("Result", "string", 1)]),
        type_spec(
            "post_model",
            "GetPostTimeRetDataInfo",
            vec![field("Time", "int64", 1), field("Now", "int", 2)],
        ),
    ];
    ProtocolSchema::new(calls, types)
}

/// A schema with calls that cannot be read or answered.
fn broken() -> ProtocolSchema {
    let calls = vec![
        call("forgotten", "user", "dto-only", "", "", true),
        call("endless", "user", "dto-only", "user_model::Missing", "user_model::Endless", true),
    ];
    let endless = type_spec("user_model", "Endless", vec![field("Again", "Endless", 1)]);
    ProtocolSchema::new(calls, vec![endless])
}

fn text(value: &str) -> Value {
    Value::String(value.as_bytes().to_vec())
}

#[test]
fn nested_binary_protocol_round_trips() {
    let fields = vec![Field {
        id: 1,
        value: Value::Struct(vec![Field {
            id: 2,
            value: Value::List {
                element_type: I32,
                values: vec![Value::I32(7), Value::I32(8)],
            },
        }]),
    }];
    let raw = write_struct(&fields).unwrap();
    assert_eq!(read_struct(&raw).unwrap(), fields);
    let encoded = encode_transport(&raw).unwrap();
    assert_eq!(decode_transport(&encoded).unwrap(), raw);
}

#[test]
fn messages_have_their_documented_bytes() {
    let fields = vec![
        Field { id: 1, value: Value::Bool(true) },
        Field { id: -2, value: Value::I16(-1) },
        Field { id: 3, value: Value::Double(Real { bits: 1.5_f64.to_bits() }) },
        Field {
            id: 4,
            value: Value::MapOf {
                key_type: STRING,
                value_type: BOOL,
                entries: vec![(text("a"), Value::Bool(false))],
            },
        },
        Field { id: 5, value: Value::SetOf { element_type: I32, values: vec![] } },
    ];
    let raw = write_struct(&fields).unwrap();
    assert_eq!(
        raw,
        [
            2, 0, 1, 1, // a flag
            6, 0xff, 0xfe, 0xff, 0xff, // a short number
            4, 0, 3, 0x3f, 0xf8, 0, 0, 0, 0, 0, 0, // a real number
            13, 0, 4, 11, 2, 0, 0, 0, 1, 0, 0, 0, 1, b'a', 0, // a map
            14, 0, 5, 8, 0, 0, 0, 0, // a set
            0,
        ]
    );
    assert_eq!(read_struct(&raw).unwrap(), fields);
}

#[test]
fn damaged_messages_are_refused() {
    // What the standard reader says of an early end.
    let short = (&[0_u8][..]).read_exact(&mut [0; 2]).unwrap_err().to_string();
    assert_eq!(read_struct(&[]), Err(ThriftError::Io(short.clone())));
    assert_eq!(read_struct(&[2, 0]), Err(ThriftError::Io(short)));
    assert_eq!(read_struct(&[1, 0, 1]), Err(ThriftError::UnsupportedType(1)));
    assert_eq!(read_struct(&[0, 9, 9]), Err(ThriftError::TrailingBytes(2)));
    let negative = [11, 0, 1, 0xff, 0xff, 0xff, 0xff, 0];
    assert_eq!(read_struct(&negative), Err(ThriftError::InvalidSize(-1)));
    let huge = [15, 0, 1, 8, 0, 0x0f, 0x42, 0x41, 0];
    assert_eq!(read_struct(&huge), Err(ThriftError::InvalidSize(1_000_001)));
}

#[test]
fn transport_refuses_what_is_not_a_message() {
    assert_eq!(decode_transport(""), Err(ThriftError::EmptyPayload));
    assert_eq!(decode_transport("   "), Err(ThriftError::EmptyPayload));
    let complaint = |text: &str| decode_transport(text).unwrap_err();
    assert_eq!(complaint("***"), ThriftError::Base64("Invalid symbol 42, offset 0.".to_owned()));
    assert_eq!(complaint("AAAA"), ThriftError::Io("bzip2: bz2 header missing".to_owned()));
    assert_eq!(
        complaint("Qlpo"),
        ThriftError::Io("decompression not finished but EOF reached".to_owned())
    );
    // Padding is owed, stands at the end alone, and hides no bits.
    for damaged in ["AAA", "AA", "A", "AA=A", "AA==AAAA", "A===", "AB==", "AAB=", "AA==="] {
        assert!(matches!(complaint(damaged), ThriftError::Base64(_)), "{damaged}");
    }
    assert_eq!(encode_transport(&[]), Err(ThriftError::EmptyPayload));
    assert_eq!(accept_payload(vec![]), Err(ThriftError::EmptyPayload));
    assert_eq!(accept_payload(vec![7]), Ok(vec![7]));
}

#[test]
fn transport_text_is_compressed_base64() {
    let raw = vec![42_u8; 4096];
    let encoded = encode_transport(&raw).unwrap();
    // The stream is shorter than the message, and begins as such streams do.
    assert!(encoded.len() < raw.len());
    assert!(encoded.starts_with("QlpoO"));
    assert_eq!(decode_transport(&encoded).unwrap(), raw);
    let spaced = encoded.replace('+', " ");
    assert_eq!(normalize(&spaced), normalize(&encoded));
    assert_eq!(decode_transport(&spaced).unwrap(), raw);
}

#[test]
fn transport_text_survives_forms_and_white_space() {
    let raw: Vec<u8> = (0..512_u32).map(|i| (i * i % 251) as u8).collect();
    let encoded = encode_transport(&raw).unwrap();
    assert!(encoded.contains('+') && !encoded.ends_with('+'));
    assert_eq!(decode_transport(&format!(" \t{encoded}\r\n ")).unwrap(), raw);
    assert_eq!(decode_transport(&encoded.replace('+', " ")).unwrap(), raw);
    let both = format!("\n{}\u{3000}", encoded.replace('+', " "));
    assert_eq!(normalize(&both), encoded);
    assert_eq!(decode_transport(&both).unwrap(), raw);
}

#[test]
fn every_response_has_a_schema_valid_default_envelope() {
    let schema = schema();
    for rpc in schema.calls() {
        let raw = success_response(rpc, &schema, 123, None).unwrap_or_else(|error| {
            panic!("{} cannot create a typed response: {error:?}", rpc.name)
        });
        assert!(!read_struct(&raw).unwrap().is_empty());
        let encoded = encode_transport(&raw).unwrap();
        assert_eq!(decode_transport(&encoded).unwrap(), raw);
    }
}

fn request_to(name: &str) -> Vec<u8> {
    write_struct(&vec![
        Field { id: 1, value: text(name) },
        Field {
            id: 2,
            value: Value::Struct(vec![
                Field { id: 1, value: Value::I32(7) },
                Field { id: 2, value: Value::String(b"123".to_vec()) },
            ]),
        },
    ])
    .unwrap()
}

#[test]
fn request_envelope_is_named_from_the_schema() {
    let schema = schema();
    let rpc = schema.call("userLoad").unwrap();
    let raw = request_to("userLoad");
    let request = decode_request(&raw, rpc, &schema).unwrap();
    assert_eq!(request.integer("U_seq"), Some(7));
    assert_eq!(request.string("U_id").as_deref(), Some("123"));
    assert_eq!(request.call, "userLoad");
    assert_eq!(request.raw_fields.len(), 2);
    assert_eq!(request.value("U_seq"), Some(&Value::I32(7)));
    assert_eq!(request.value("U_missing"), None);
    assert_eq!(request.string("U_seq"), None);
    assert_eq!(request.integer("U_id"), None);
}

#[test]
fn lists_of_integers_are_all_or_nothing() {
    let mut fields = NameTable::new();
    fields.put(
        "mixed".to_owned(),
        Value::List { element_type: I32, values: vec![Value::I64(1), text("x")] },
    );
    fields.put(
        "whole".to_owned(),
        Value::List {
            element_type: I32,
            values: vec![Value::Byte(-1), Value::I16(2), Value::I32(3), Value::I64(4)],
        },
    );
    let request = NamedRequest { call: "x".to_owned(), fields, raw_fields: vec![] };
    assert_eq!(request.integers("whole"), Some(vec![-1, 2, 3, 4]));
    assert_eq!(request.integers("mixed"), None);
    assert_eq!(request.integers("absent"), None);
    assert_eq!(request.list("mixed").unwrap().len(), 2);
    assert!(request.list("absent").is_none());
}

#[test]
fn requests_that_are_not_understood_say_why() {
    let schema = schema();
    let rpc = schema.call("userLoad").unwrap();
    let refuse = |raw: &[u8], spec: &RpcSpec| decode_request(raw, spec, &schema).unwrap_err();
    assert!(matches!(
        refuse(&[9], rpc),
        ProtocolEnvelopeError::Thrift(ThriftError::Io(_))
    ));
    assert!(matches!(refuse(&[0], rpc), ProtocolEnvelopeError::MissingCall));
    let unreadable = write_struct(&vec![Field { id: 1, value: Value::String(vec![0xff]) }]).unwrap();
    assert!(matches!(refuse(&unreadable, rpc), ProtocolEnvelopeError::MissingCall));
    assert!(matches!(
        refuse(&request_to("other"), rpc),
        ProtocolEnvelopeError::CallMismatch { expected, actual }
            if expected == "userLoad" && actual == "other"
    ));
    let bare = write_struct(&vec![Field { id: 1, value: text("userLoad") }]).unwrap();
    assert!(matches!(refuse(&bare, rpc), ProtocolEnvelopeError::MissingData));
    let broken = broken();
    let forgotten = broken.call("forgotten").unwrap();
    assert!(matches!(
        decode_request(&request_to("forgotten"), forgotten, &broken),
        Err(ProtocolEnvelopeError::MissingWire(name)) if name == "forgotten"
    ));
    let endless = broken.call("endless").unwrap();
    assert!(matches!(
        decode_request(&request_to("endless"), endless, &broken),
        Err(ProtocolEnvelopeError::MissingType(name)) if name == "user_model::Missing"
    ));
}

#[test]
fn response_fields_are_overridden_by_audited_name() {
    let schema = schema();
    let rpc = schema.call("buyCheck").unwrap();
    let value = response_struct(
        rpc,
        &schema,
        vec![("Result".to_owned(), Value::String(b"ok".to_vec()))],
    )
    .unwrap();
    let Value::Struct(fields) = value else {
        panic!("buyCheck response must be a struct")
    };
    assert_eq!(fields[0].value, Value::String(b"ok".to_vec()));
}

#[test]
fn post_time_uses_the_production_server_time_wrapper() {
    let schema = schema();
    let rpc = schema.call("getPostTime").unwrap();
    assert!(rpc.has_server_time);
    assert_eq!(
        rpc.response_candidates,
        ["post_model::GetPostTimeRetDataInfo"]
    );

    let raw = success_response(rpc, &schema, 123, None).unwrap();
    let fields = read_struct(&raw).unwrap();
    assert_eq!(
        fields.iter().map(|field| field.id).collect::<Vec<_>>(),
        [1, 2, 3, 4, 5, 6]
    );
    assert!(matches!(fields[4].value, Value::Struct(_)));
}

#[test]
fn error_response_omits_data_like_the_production_wire() {
    let schema = schema();
    let rpc = schema.call("userLogin").unwrap();
    let raw = error_response(rpc, 123, 998, "unavailable").unwrap();
    let fields = read_struct(&raw).unwrap();
    assert_eq!(
        fields.iter().map(|field| field.id).collect::<Vec<_>>(),
        [1, 2, 3, 4, 6]
    );
    assert_eq!(
        fields[0].value,
        Value::Struct(vec![
            Field { id: 1, value: Value::I32(998) },
            Field { id: 2, value: text("unavailable") },
        ])
    );
}

#[test]
fn responses_without_a_time_are_numbered_without_it() {
    let schema = schema();
    let rpc = schema.call("buyCheck").unwrap();
    let notice = Value::Struct(vec![Field { id: 1, value: Value::I16(9) }]);
    let raw =
        success_response_with_maintenance(rpc, &schema, i64::MAX, None, notice.clone()).unwrap();
    let fields = read_struct(&raw).unwrap();
    assert_eq!(fields.iter().map(|field| field.id).collect::<Vec<_>>(), [1, 2, 3, 4, 5]);
    assert_eq!(fields[1].value, text("shop"));
    assert_eq!(fields[2].value, text("buyCheck"));
    assert_eq!(
        fields[3].value,
        Value::Struct(vec![Field { id: 1, value: Value::String(vec![]) }])
    );
    assert_eq!(fields[4].value, notice);
}

#[test]
fn late_times_are_cut_to_the_short_number() {
    let schema = schema();
    let rpc = schema.call("getPostTime").unwrap();
    let raw = success_response(rpc, &schema, i64::MAX, Some(Value::Bool(true))).unwrap();
    let fields = read_struct(&raw).unwrap();
    assert_eq!(
        fields[1].value,
        Value::Struct(vec![
            Field { id: 1, value: Value::I32(i32::MAX) },
            Field { id: 2, value: Value::I64(i64::MAX) },
        ])
    );
    assert_eq!(fields[4].value, Value::Bool(true));
}

#[test]
fn default_values_follow_the_types() {
    let schema = schema();
    let value = struct_value(&schema, "user_model", "UserLoadRet", vec![]).unwrap();
    let row = Value::Struct(vec![
        Field { id: 1, value: Value::Bool(false) },
        Field { id: 2, value: Value::Double(Real { bits: 0 }) },
        Field { id: 3, value: Value::Byte(0) },
    ]);
    let post = Value::Struct(vec![
        Field { id: 1, value: Value::I64(0) },
        Field { id: 2, value: Value::I32(0) },
    ]);
    let expected = Value::Struct(vec![
        Field { id: 4, value: Value::I16(0) },
        Field { id: 1, value: Value::List { element_type: STRING, values: vec![] } },
        Field { id: 2, value: Value::MapOf { key_type: I32, value_type: 12, entries: vec![] } },
        Field { id: 3, value: row },
        Field { id: 5, value: post },
        Field { id: 6, value: Value::List { element_type: LIST, values: vec![] } },
    ]);
    assert_eq!(value, expected);
}

#[test]
fn sparse_structs_hold_what_is_given_in_order() {
    let schema = schema();
    let rpc = schema.call("userLogin").unwrap();
    let given = vec![
        ("Level".to_owned(), Value::I16(5)),
        ("Names".to_owned(), Value::Bool(true)),
        ("Level".to_owned(), Value::I16(6)),
    ];
    let value = response_sparse_struct(rpc, &schema, given).unwrap();
    assert_eq!(
        value,
        Value::Struct(vec![
            Field { id: 1, value: Value::Bool(true) },
            Field { id: 4, value: Value::I16(5) },
            Field { id: 4, value: Value::I16(6) },
        ])
    );
}

#[test]
fn structs_that_cannot_be_built_say_why() {
    let schema = schema();
    let broken = broken();
    let unknown = vec![("Nope".to_owned(), Value::Bool(true))];
    assert!(matches!(
        struct_value(&schema, "user_model", "Row", unknown.clone()),
        Err(ProtocolEnvelopeError::UnknownField { wire_type, field })
            if wire_type == "Row" && field == "Nope"
    ));
    assert!(matches!(
        sparse_struct_value(&schema, "user_model", "Row", unknown),
        Err(ProtocolEnvelopeError::UnknownField { .. })
    ));
    assert!(matches!(
        struct_value(&broken, "user_model", "Endless", vec![]),
        Err(ProtocolEnvelopeError::RecursionLimit(name)) if name == "Endless"
    ));
    assert!(matches!(
        struct_value(&schema, "a", "b.c", vec![]),
        Err(ProtocolEnvelopeError::MissingType(name)) if name == "b::c"
    ));
    let odd = ProtocolSchema::new(vec![], vec![type_spec("odd", "bool", vec![])]);
    assert!(matches!(
        struct_value(&odd, "odd", "bool", vec![]),
        Err(ProtocolEnvelopeError::ExpectedStruct(name)) if name == "bool"
    ));
    let forgotten = broken.call("forgotten").unwrap();
    assert!(matches!(
        success_response(forgotten, &broken, 0, None),
        Err(ProtocolEnvelopeError::MissingWire(_))
    ));
    assert!(matches!(
        response_struct(forgotten, &broken, vec![]),
        Err(ProtocolEnvelopeError::MissingWire(_))
    ));
}

#[test]
fn every_wire_candidate_resolves() {
    let schema = schema();
    for call in schema.calls() {
        for name in call.request_candidates.iter().chain(&call.response_candidates) {
            assert!(
                schema.type_spec(name).is_some(),
                "missing {name} for {}",
                call.name
            );
        }
    }
}

#[test]
fn every_typed_name_finds_its_call() {
    let schema = schema();
    let names = schema.rpc_names();
    assert_eq!(names.len(), schema.calls().len());
    for rpc in names {
        let spec = schema.call_typed(rpc.clone());
        assert_eq!(spec.name, rpc.as_str());
        assert_eq!(spec.category, rpc.category());
        assert_eq!(spec.rpc_class(), rpc.class());
        assert_eq!(spec.rpc_name(), rpc);
        assert_eq!(schema.call(&spec.name).unwrap().name, spec.name);
    }
}

#[test]
fn transport_errors_say_what_was_wrong() {
    let said = |text: &str| decode_transport(text).unwrap_err().message();
    assert_eq!(said("AA=A"), "transport base64 is invalid: Invalid symbol 61, offset 2.");
    assert_eq!(said("AAA"), "transport base64 is invalid: Invalid padding");
    assert_eq!(said("AB=="), "transport base64 is invalid: Invalid last symbol 66, offset 1.");
    assert_eq!(said("AAAA"), "transport or thrift I/O failed: bzip2: bz2 header missing");
    assert_eq!(
        read_struct(&[]).unwrap_err().message(),
        "transport or thrift I/O failed: failed to fill whole buffer"
    );
}

#[test]
fn calls_and_types_are_found_and_listed_by_name() {
    let schema = schema();
    let names: Vec<_> = schema.calls().into_iter().map(|call| call.name.clone()).collect();
    assert_eq!(
        names,
        ["buyCheck", "getPostTime", "oldRow", "userLoad", "userLogin"]
    );
    assert_eq!(schema.types().len(), 5);
    assert!(schema.call("nothing").is_none());
    assert!(schema.type_spec("Row").is_none());
    let typed = schema.call_typed(schema.call("buyCheck").unwrap().rpc_name());
    assert_eq!(typed.rpc_class(), RpcClass::TransportOnly);
    assert_eq!(typed.rpc_name().as_str(), "buyCheck");
    assert_eq!(schema.call("userLoad").unwrap().rpc_class(), RpcClass::Active);
    assert_eq!(schema.call("oldRow").unwrap().rpc_class(), RpcClass::DtoOnly);
    assert_eq!(PROTOCOL_VERSION, 1);
}

use contract_events::display::{TokenMetadata, Verbosity};
use contract_events::error::DecodeError;
use contract_events::events::{
    AppEventSchema, AppSchemaLookup, DisplayEvents, EventSchema, Field, FieldSchema,
    RawEventRecord, decode_event,
};
use contract_events::registry::{FieldDef, PrimType, TypeDef, TypeRegistry};
use contract_events::render::render_value;
use contract_events::value::Value;

fn reg_with(defs: Vec<TypeDef>) -> TypeRegistry {
    let mut reg = TypeRegistry::new();
    for td in defs {
        assert!(reg.register(td).is_some());
    }
    reg
}

fn field(name: &str, ty: u32) -> FieldSchema {
    FieldSchema { name: Some(String::from(name)), ty, type_label: None }
}

fn record(pallet: &str, event: &str, payload: Vec<u8>, topics: Vec<Vec<u8>>) -> RawEventRecord {
    RawEventRecord {
        pallet: String::from(pallet),
        event: String::from(event),
        payload,
        topics,
    }
}

fn schema(pallet: &str, event: &str, fields: Vec<FieldSchema>) -> EventSchema {
    EventSchema { pallet: String::from(pallet), event: String::from(event), fields }
}

#[test]
fn trailing_bytes_fail_the_record() {
    let reg = reg_with(vec![TypeDef::Primitive(PrimType::UInt(8))]);
    let rec = record("Balances", "Transfer", vec![1, 2], vec![]);
    let sch = schema("Balances", "Transfer", vec![field("amount", 0)]);
    assert_eq!(
        decode_event(&rec, &sch, &reg, None),
        Err(DecodeError::TrailingBytes)
    );
}

#[test]
fn exact_consumption_succeeds() {
    let reg = reg_with(vec![TypeDef::Primitive(PrimType::UInt(8))]);
    let rec = record("Balances", "Transfer", vec![1], vec![]);
    let sch = schema("Balances", "Transfer", vec![field("amount", 0)]);
    let ev = decode_event(&rec, &sch, &reg, None).unwrap();
    assert_eq!(ev.pallet, "Balances");
    assert_eq!(ev.name, "Transfer");
    assert_eq!(ev.fields.len(), 1);
    assert_eq!(ev.fields[0].name, "amount");
    assert_eq!(ev.fields[0].value, Value::UInt(1));
}

#[test]
fn anonymous_contract_event_data_falls_back_to_bytes() {
    // No topics: no signature is available, so the data field must come
    // back as the raw bytes, never as an error.
    let reg = reg_with(vec![TypeDef::Primitive(PrimType::UInt(8))]);
    let rec = record("Contracts", "ContractEmitted", vec![7, 0xab, 0x01], vec![]);
    let sch = schema(
        "Contracts",
        "ContractEmitted",
        vec![field("contract", 0), field("data", 0)],
    );
    let ev = decode_event(&rec, &sch, &reg, None).unwrap();
    assert_eq!(ev.fields[0].value, Value::UInt(7));
    assert_eq!(ev.fields[1].name, "data");
    assert_eq!(ev.fields[1].value, Value::Bytes(vec![0xab, 0x01]));
    // The raw bytes render as lowercase hex.
    assert_eq!(render_value(&ev.fields[1].value), "0xab01");
}

fn app_lookup(sig: Vec<u8>) -> AppSchemaLookup {
    let registry = reg_with(vec![TypeDef::Primitive(PrimType::UInt(8))]);
    AppSchemaLookup { registry, events: vec![AppEventSchema { signature: sig, ty: 0 }] }
}

#[test]
fn unregistered_signature_falls_back_without_failing_the_event() {
    let reg = reg_with(vec![TypeDef::Primitive(PrimType::UInt(8))]);
    let lookup = app_lookup(vec![0x22; 32]);
    let rec = record(
        "Contracts",
        "ContractEmitted",
        vec![0x2a, 0x2b],
        vec![vec![0x11; 32]],
    );
    let sch = schema("Contracts", "ContractEmitted", vec![field("data", 0)]);
    let ev = decode_event(&rec, &sch, &reg, Some(&lookup)).unwrap();
    assert_eq!(ev.fields[0].value, Value::Bytes(vec![0x2a, 0x2b]));
}

#[test]
fn registered_signature_decodes_the_payload() {
    let reg = reg_with(vec![TypeDef::Primitive(PrimType::UInt(8))]);
    let lookup = app_lookup(vec![0x11; 32]);
    let rec = record(
        "Contracts",
        "ContractEmitted",
        vec![0x2a],
        vec![vec![0x11; 32]],
    );
    let sch = schema("Contracts", "ContractEmitted", vec![field("data", 0)]);
    let ev = decode_event(&rec, &sch, &reg, Some(&lookup)).unwrap();
    assert_eq!(ev.fields[0].value, Value::UInt(42));
}

#[test]
fn mismatched_application_schema_falls_back() {
    // The registered schema reads one byte but two are present: the
    // attempt leaves bytes over, so the whole payload comes back raw.
    let reg = reg_with(vec![TypeDef::Primitive(PrimType::UInt(8))]);
    let lookup = app_lookup(vec![0x11; 32]);
    let rec = record(
        "Contracts",
        "ContractEmitted",
        vec![0x2a, 0x2b],
        vec![vec![0x11; 32]],
    );
    let sch = schema("Contracts", "ContractEmitted", vec![field("data", 0)]);
    let ev = decode_event(&rec, &sch, &reg, Some(&lookup)).unwrap();
    assert_eq!(ev.fields[0].value, Value::Bytes(vec![0x2a, 0x2b]));
}

#[test]
fn contract_instantiated_two_account_fields() {
    // Two 32-byte account ids, modelled as tuples of 32 bytes each: the
    // 64-byte payload must split exactly in two, cursor fully consumed.
    let ids: Vec<u32> = vec![0; 32];
    let reg = reg_with(vec![
        TypeDef::Primitive(PrimType::UInt(8)),
        TypeDef::Tuple(ids),
    ]);
    let mut payload = vec![0x00; 32];
    payload.extend(vec![0x01; 32]);
    let rec = record("Contracts", "ContractInstantiated", payload, vec![]);
    let sch = schema(
        "Contracts",
        "ContractInstantiated",
        vec![field("deployer", 1), field("contract", 1)],
    );
    let ev = decode_event(&rec, &sch, &reg, None).unwrap();
    assert_eq!(ev.fields.len(), 2);
    assert_eq!(ev.fields[0].name, "deployer");
    assert_eq!(ev.fields[1].name, "contract");
    let zeros: Vec<Value> = (0..32).map(|_| Value::UInt(0)).collect();
    let ones: Vec<Value> = (0..32).map(|_| Value::UInt(1)).collect();
    assert_eq!(ev.fields[0].value, Value::Tuple(zeros));
    assert_eq!(ev.fields[1].value, Value::Tuple(ones));
}

fn one_balance_event() -> DisplayEvents {
    let reg = reg_with(vec![TypeDef::Primitive(PrimType::UInt(64))]);
    // 1_000_000_000_000 in little-endian over eight bytes.
    let raw: u64 = 1_000_000_000_000;
    let payload = raw.to_le_bytes().to_vec();
    let rec = record("Balances", "Transfer", payload, vec![]);
    let sch = EventSchema {
        pallet: String::from("Balances"),
        event: String::from("Transfer"),
        fields: vec![FieldSchema {
            name: Some(String::from("amount")),
            ty: 0,
            type_label: Some(String::from("T::Balance")),
        }],
    };
    DisplayEvents::from_events(&vec![(rec, sch)], &reg, None).unwrap()
}

#[test]
fn balance_field_renders_with_token_metadata() {
    let d = one_balance_event();
    // The machine-facing tree keeps the raw numeric value.
    assert_eq!(d.0[0].fields[0].value, Value::UInt(1_000_000_000_000));
    let token = TokenMetadata { symbol: String::from("UNIT"), decimals: 12 };
    let out = d.display_events(&Verbosity::Verbose, &token);
    assert_eq!(
        out,
        "      Events\n       Event Balances -> Transfer\n         amount: 1 UNIT\n"
    );
}

#[test]
fn fractional_balance_keeps_its_low_digits() {
    let reg = reg_with(vec![TypeDef::Primitive(PrimType::UInt(64))]);
    let raw: u64 = 1_500_000_000_000;
    let rec = record("Balances", "Transfer", raw.to_le_bytes().to_vec(), vec![]);
    let sch = EventSchema {
        pallet: String::from("Balances"),
        event: String::from("Transfer"),
        fields: vec![FieldSchema {
            name: Some(String::from("amount")),
            ty: 0,
            type_label: Some(String::from("BalanceOf<T>")),
        }],
    };
    let d = DisplayEvents::from_events(&vec![(rec, sch)], &reg, None).unwrap();
    let token = TokenMetadata { symbol: String::from("UNIT"), decimals: 12 };
    let out = d.display_events(&Verbosity::Verbose, &token);
    assert!(out.contains("amount: 1.500000000000 UNIT"));
}

#[test]
fn quiet_report_lists_no_fields() {
    let d = one_balance_event();
    let token = TokenMetadata { symbol: String::from("UNIT"), decimals: 12 };
    let out = d.display_events(&Verbosity::Default, &token);
    assert_eq!(out, "      Events\n       Event Balances -> Transfer\n");
}

#[test]
fn batch_keeps_input_order_and_fails_whole_on_one_bad_record() {
    let reg = reg_with(vec![TypeDef::Primitive(PrimType::UInt(8))]);
    let ok1 = (
        record("A", "X", vec![1], vec![]),
        schema("A", "X", vec![field("v", 0)]),
    );
    let ok2 = (
        record("B", "Y", vec![2], vec![]),
        schema("B", "Y", vec![field("v", 0)]),
    );
    let d = DisplayEvents::from_events(&vec![ok1, ok2], &reg, None).unwrap();
    assert_eq!(d.0.len(), 2);
    assert_eq!(d.0[0].pallet, "A");
    assert_eq!(d.0[1].pallet, "B");
    let ok1 = (
        record("A", "X", vec![1], vec![]),
        schema("A", "X", vec![field("v", 0)]),
    );
    let bad = (
        record("B", "Y", vec![2, 3], vec![]),
        schema("B", "Y", vec![field("v", 0)]),
    );
    assert_eq!(
        DisplayEvents::from_events(&vec![ok1, bad], &reg, None),
        Err(DecodeError::TrailingBytes)
    );
}

#[test]
fn unnamed_event_fields_take_positional_names() {
    let reg = reg_with(vec![TypeDef::Primitive(PrimType::UInt(8))]);
    let rec = record("A", "X", vec![5, 6, 7], vec![]);
    let sch = schema(
        "A",
        "X",
        vec![
            FieldSchema { name: None, ty: 0, type_label: None },
            field("mid", 0),
            FieldSchema { name: None, ty: 0, type_label: None },
        ],
    );
    let ev = decode_event(&rec, &sch, &reg, None).unwrap();
    assert_eq!(ev.fields[0].name, "0");
    assert_eq!(ev.fields[1].name, "mid");
    assert_eq!(ev.fields[2].name, "1");
}

#[test]
fn field_new_carries_its_parts() {
    let f = Field::new(
        String::from("n"),
        Value::Bool(true),
        Some(String::from("T::Balance")),
    );
    assert_eq!(f.name, "n");
    assert_eq!(f.value, Value::Bool(true));
    assert_eq!(f.type_label, Some(String::from("T::Balance")));
}

#[test]
fn value_rendering_shapes() {
    assert_eq!(render_value(&Value::Unit), "()");
    assert_eq!(render_value(&Value::Bool(true)), "true");
    assert_eq!(render_value(&Value::UInt(0)), "0");
    assert_eq!(
        render_value(&Value::Int(i128::MIN)),
        "-170141183460469231731687303715884105728"
    );
    assert_eq!(render_value(&Value::Char('A')), "A");
    assert_eq!(render_value(&Value::Str(String::from("hi"))), "hi");
    assert_eq!(render_value(&Value::Bytes(vec![0x00, 0xff])), "0x00ff");
    assert_eq!(
        render_value(&Value::List(vec![Value::UInt(1), Value::UInt(2)])),
        "[1, 2]"
    );
    assert_eq!(
        render_value(&Value::Tuple(vec![Value::Bool(false)])),
        "(false)"
    );
    assert_eq!(
        render_value(&Value::Composite(vec![
            (String::from("a"), Value::UInt(1)),
            (String::from("b"), Value::List(vec![Value::Bool(true)])),
        ])),
        "{a: 1, b: [true]}"
    );
    assert_eq!(
        render_value(&Value::Variant(
            String::from("Some"),
            vec![(String::from("0"), Value::UInt(3))]
        )),
        "Some{0: 3}"
    );
}

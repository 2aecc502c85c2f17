//! Events produced from invoking a contract extrinsic: the field walker
//! that decodes a raw event record against its schema, and the
//! application-payload sub-decoder for opaque contract event data.

use vstd::prelude::*;
use crate::cursor::ByteCursor;
use crate::decode::{decode_value, spec_decode};
use crate::error::DecodeError;
use crate::num::dec_str;
use crate::registry::{TypeDef, TypeId, TypeRegistry, registry_wf};
use crate::strconv::{bytes_eq, clone_bytes, str_eq};
use crate::value::{Value, ValueModel, view_value};

verus! {

/// A contract account identifier, as raw bytes.
pub type AccountId = Vec<u8>;

/// A code hash, as raw bytes.
pub type CodeHash = Vec<u8>;

/// A balance amount.
pub type Balance = u128;

/// A custom event emitted by the contract.
pub struct ContractEmitted {
    pub contract: AccountId,
    pub data: Vec<u8>,
}

/// A contract was successfully instantiated.
pub struct ContractInstantiated {
    /// Account id of the deployer.
    pub deployer: AccountId,
    /// Account id where the contract was instantiated to.
    pub contract: AccountId,
}

/// An event triggered by either the `instantiate_with_code` or the
/// `upload_code` call.
pub struct CodeStored {
    /// Hash under which the contract code was stored.
    pub code_hash: CodeHash,
}

/// An event triggered by the `remove_code` call.
pub struct CodeRemoved {
    pub code_hash: CodeHash,
    pub deposit_released: Balance,
    pub remover: AccountId,
}

/// One field of an event's schema: an optional declared name, the type it
/// decodes with, and an optional source-level type label carried through
/// for presentation only.
pub struct FieldSchema {
    pub name: Option<String>,
    pub ty: TypeId,
    pub type_label: Option<String>,
}

/// An event's schema: its pallet and event names and its ordered fields.
pub struct EventSchema {
    pub pallet: String,
    pub event: String,
    pub fields: Vec<FieldSchema>,
}

/// One on-chain event occurrence: the raw payload its fields decode from
/// and its topics, whose first entry (when present) is the event's
/// signature.
pub struct RawEventRecord {
    pub pallet: String,
    pub event: String,
    pub payload: Vec<u8>,
    pub topics: Vec<Vec<u8>>,
}

/// One application event schema: the signature it is registered under and
/// the type its payload decodes with.
pub struct AppEventSchema {
    pub signature: Vec<u8>,
    pub ty: TypeId,
}

/// The application-side schema lookup: its own type registry and the
/// schemas keyed by signature.
pub struct AppSchemaLookup {
    pub registry: TypeRegistry,
    pub events: Vec<AppEventSchema>,
}

/// Field that represents data of an event from invoking a contract
/// extrinsic.
#[derive(Debug, PartialEq, Eq)]
pub struct Field {
    /// name of a field
    pub name: String,
    /// value of a field
    pub value: Value,
    /// The name of a type as defined in the pallet source code
    pub type_label: Option<String>,
}

/// The model of a decoded field.
pub struct FieldModel {
    pub name: Seq<char>,
    pub value: ValueModel,
    pub type_label: Option<Seq<char>>,
}

impl View for Field {
    type V = FieldModel;

    open spec fn view(&self) -> FieldModel {
        FieldModel {
            name: self.name@,
            value: self.value@,
            type_label: match self.type_label {
                Some(t) => Some(t@),
                None => None,
            },
        }
    }
}

impl Field {
    pub fn new(name: String, value: Value, type_label: Option<String>) -> (f: Field)
        ensures
            f.name == name,
            f.value == value,
            f.type_label == type_label,
    {
        Field { name, value, type_label }
    }
}

/// An event produced from invoking a contract extrinsic.
#[derive(Debug, PartialEq, Eq)]
pub struct Event {
    /// name of a pallet
    pub pallet: String,
    /// name of the event
    pub name: String,
    /// data associated with the event
    pub fields: Vec<Field>,
}

/// The model of a decoded event.
pub struct EventModel {
    pub pallet: Seq<char>,
    pub name: Seq<char>,
    pub fields: Seq<FieldModel>,
}

/// The models of a list of fields, in order.
pub open spec fn view_fields(s: Seq<Field>) -> Seq<FieldModel>
    decreases s,
{
    if s.len() == 0 {
        Seq::empty()
    } else {
        seq![s[0]@] + view_fields(s.subrange(1, s.len() as int))
    }
}

pub proof fn lemma_view_fields_len(s: Seq<Field>)
    ensures
        view_fields(s).len() == s.len(),
        forall|i: int| 0 <= i < s.len() ==> #[trigger] view_fields(s)[i] == s[i]@,
    decreases s,
{
    if s.len() > 0 {
        lemma_view_fields_len(s.subrange(1, s.len() as int));
    }
}

pub proof fn lemma_view_fields_push(s: Seq<Field>, f: Field)
    ensures
        view_fields(s.push(f)) =~= view_fields(s).push(f@),
{
    lemma_view_fields_len(s.push(f));
    lemma_view_fields_len(s);
}

impl View for Event {
    type V = EventModel;

    open spec fn view(&self) -> EventModel {
        EventModel { pallet: self.pallet@, name: self.name@, fields: view_fields(self.fields@) }
    }
}

/// Displays events produced from invoking a contract extrinsic.
#[derive(Debug, PartialEq, Eq)]
pub struct DisplayEvents(pub Vec<Event>);

/// The models of a list of events, in order.
pub open spec fn view_events(s: Seq<Event>) -> Seq<EventModel>
    decreases s,
{
    if s.len() == 0 {
        Seq::empty()
    } else {
        seq![s[0]@] + view_events(s.subrange(1, s.len() as int))
    }
}

pub proof fn lemma_view_events_len(s: Seq<Event>)
    ensures
        view_events(s).len() == s.len(),
        forall|i: int| 0 <= i < s.len() ==> #[trigger] view_events(s)[i] == s[i]@,
    decreases s,
{
    if s.len() > 0 {
        lemma_view_events_len(s.subrange(1, s.len() as int));
    }
}

pub proof fn lemma_view_events_push(s: Seq<Event>, e: Event)
    ensures
        view_events(s.push(e)) =~= view_events(s).push(e@),
{
    lemma_view_events_len(s.push(e));
    lemma_view_events_len(s);
}

impl View for DisplayEvents {
    type V = Seq<EventModel>;

    open spec fn view(&self) -> Seq<EventModel> {
        view_events(self.0@)
    }
}

/// The first application schema registered under `sig`, if any.
pub open spec fn spec_find_app_schema(evs: Seq<AppEventSchema>, sig: Seq<u8>) -> Option<
    AppEventSchema,
>
    decreases evs.len(),
{
    if evs.len() == 0 {
        None
    } else if evs[0].signature@ == sig {
        Some(evs[0])
    } else {
        spec_find_app_schema(evs.subrange(1, evs.len() as int), sig)
    }
}

pub proof fn lemma_find_app_schema_prefix(evs: Seq<AppEventSchema>, sig: Seq<u8>, j: int)
    requires
        0 <= j <= evs.len(),
        forall|t: int| 0 <= t < j ==> #[trigger] evs[t].signature@ != sig,
    ensures
        spec_find_app_schema(evs, sig) == spec_find_app_schema(
            evs.subrange(j, evs.len() as int),
            sig,
        ),
    decreases j,
{
    if j > 0 {
        assert(evs[0].signature@ != sig);
        let tail = evs.subrange(1, evs.len() as int);
        assert(forall|t: int| 0 <= t < j - 1 ==> #[trigger] tail[t].signature@ != sig);
        lemma_find_app_schema_prefix(tail, sig, j - 1);
        assert(tail.subrange(j - 1, tail.len() as int) =~= evs.subrange(j, evs.len() as int));
    } else {
        assert(evs.subrange(0, evs.len() as int) =~= evs);
    }
}

/// Looks a signature up in the application schema table.
fn find_app_schema<'a>(evs: &'a Vec<AppEventSchema>, sig: &Vec<u8>) -> (r: Option<
    &'a AppEventSchema,
>)
    ensures
        spec_find_app_schema(evs@, sig@) matches Some(schema) ==> r matches Some(found) && *found
            == schema,
        spec_find_app_schema(evs@, sig@) is None ==> r is None,
{
    let mut j: usize = 0;
    while j < evs.len()
        invariant
            j <= evs@.len(),
            forall|t: int| 0 <= t < j ==> #[trigger] evs@[t].signature@ != sig@,
        decreases evs@.len() - j,
    {
        if bytes_eq(&evs[j].signature, sig) {
            proof {
                lemma_find_app_schema_prefix(evs@, sig@, j as int);
                assert(evs@.subrange(j as int, evs@.len() as int)[0] == evs@[j as int]);
            }
            return Some(&evs[j]);
        }
        j = j + 1;
    }
    proof {
        lemma_find_app_schema_prefix(evs@, sig@, evs@.len() as int);
        assert(evs@.subrange(evs@.len() as int, evs@.len() as int).len() == 0);
    }
    None
}

/// Whether an application lookup's own registry is well formed; holds of
/// every lookup the library's constructors build.
pub open spec fn app_lookup_wf(app: Option<&AppSchemaLookup>) -> bool {
    match app {
        Some(l) => registry_wf(l.registry@),
        None => true,
    }
}

/// What the application-payload sub-decoder yields for the remaining
/// payload `rest`: the decoded tree when the first topic names a schema
/// that decodes `rest` completely, the raw bytes otherwise.  It never
/// fails.
pub open spec fn spec_app_payload(
    topics: Seq<Seq<u8>>,
    rest: Seq<u8>,
    app: Option<&AppSchemaLookup>,
) -> ValueModel {
    if topics.len() == 0 {
        ValueModel::Bytes(rest)
    } else {
        match app {
            None => ValueModel::Bytes(rest),
            Some(lookup) => {
                match spec_find_app_schema(lookup.events@, topics[0]) {
                    None => ValueModel::Bytes(rest),
                    Some(schema) => {
                        match spec_decode(lookup.registry@, schema.ty as int, rest, 0) {
                            Ok(vp) => {
                                if vp.1 == rest.len() {
                                    vp.0
                                } else {
                                    ValueModel::Bytes(rest)
                                }
                            },
                            Err(_) => ValueModel::Bytes(rest),
                        }
                    },
                }
            },
        }
    }
}

/// Decodes an application payload: the remaining bytes of the cursor are
/// consumed whole, and the result is the schema-decoded tree when the
/// first topic identifies one that fits, else the raw bytes.  This path
/// never fails: an unknown signature or a mismatched schema is an
/// expected outcome, not an error.
pub fn decode_application_payload(
    topics: &Vec<Vec<u8>>,
    data: &mut ByteCursor,
    app: Option<&AppSchemaLookup>,
) -> (r: Value)
    requires
        old(data).wf(),
        app_lookup_wf(app),
    ensures
        final(data).wf(),
        final(data).bytes@ == old(data).bytes@,
        final(data).spec_remaining() == 0,
        r@ == spec_app_payload(topics.deep_view(), old(data).remaining_bytes(), app),
{
    let rest = data.take_rest();
    if topics.len() == 0 {
        return Value::Bytes(rest);
    }
    proof {
        assert(topics.deep_view()[0] == topics@[0]@);
    }
    let lookup = match app {
        None => { return Value::Bytes(rest) },
        Some(lookup) => lookup,
    };
    let schema = match find_app_schema(&lookup.events, &topics[0]) {
        None => { return Value::Bytes(rest) },
        Some(schema) => schema,
    };
    let mut sub = ByteCursor::new(rest);
    match decode_value(&mut sub, schema.ty, &lookup.registry) {
        Ok(v) => {
            if sub.is_exhausted() {
                v
            } else {
                Value::Bytes(sub.bytes)
            }
        },
        Err(_) => Value::Bytes(sub.bytes),
    }
}

/// The view of an optional string.
pub open spec fn view_opt_string(o: Option<String>) -> Option<Seq<char>> {
    match o {
        Some(s) => Some(s@),
        None => None,
    }
}

fn clone_opt_string(o: &Option<String>) -> (r: Option<String>)
    ensures
        r == *o,
{
    match o {
        Some(s) => Some(s.clone()),
        None => None,
    }
}

/// Whether a schema field is the distinguished contract event data field.
pub open spec fn is_data_field(f: FieldSchema) -> bool {
    match f.name {
        Some(n) => n@ == "data"@,
        None => false,
    }
}

/// Prepends already-decoded fields to the rest of a field walk.
pub open spec fn prepend_fields(
    fs: Seq<FieldModel>,
    r: Result<(Seq<FieldModel>, int), DecodeError>,
) -> Result<(Seq<FieldModel>, int), DecodeError> {
    match r {
        Ok(rest) => Ok((fs + rest.0, rest.1)),
        Err(e) => Err(e),
    }
}

/// What walking an event's schema fields yields: each field decoded in
/// declared order against the shared cursor, except that for the
/// distinguished contract event the field named "data" goes to the
/// application-payload sub-decoder, which consumes the whole rest of the
/// payload and never fails.  Unnamed fields are named by the running
/// count `ctr`, in decimal.
pub open spec fn spec_walk_fields(
    reg: Seq<TypeDef>,
    fields: Seq<FieldSchema>,
    special: bool,
    topics: Seq<Seq<u8>>,
    app: Option<&AppSchemaLookup>,
    bytes: Seq<u8>,
    pos: int,
    ctr: nat,
) -> Result<(Seq<FieldModel>, int), DecodeError>
    decreases fields.len(),
{
    if fields.len() == 0 {
        Ok((Seq::empty(), pos))
    } else {
        let f = fields[0];
        if special && is_data_field(f) {
            let v = spec_app_payload(topics, bytes.subrange(pos, bytes.len() as int), app);
            let fm = FieldModel {
                name: "data"@,
                value: v,
                type_label: view_opt_string(f.type_label),
            };
            prepend_fields(
                seq![fm],
                spec_walk_fields(
                    reg,
                    fields.subrange(1, fields.len() as int),
                    special,
                    topics,
                    app,
                    bytes,
                    bytes.len() as int,
                    ctr,
                ),
            )
        } else {
            match spec_decode(reg, f.ty as int, bytes, pos) {
                Ok(vp) => {
                    let name: Seq<char> = match f.name {
                        Some(n) => n@,
                        None => dec_str(ctr),
                    };
                    let ctr2: nat = if f.name is Some {
                        ctr
                    } else {
                        ctr + 1
                    };
                    let fm = FieldModel {
                        name: name,
                        value: vp.0,
                        type_label: view_opt_string(f.type_label),
                    };
                    prepend_fields(
                        seq![fm],
                        spec_walk_fields(
                            reg,
                            fields.subrange(1, fields.len() as int),
                            special,
                            topics,
                            app,
                            bytes,
                            vp.1,
                            ctr2,
                        ),
                    )
                },
                Err(e) => Err(e),
            }
        }
    }
}

/// Whether a record belongs to the distinguished contract event whose
/// "data" field carries an opaque application payload.
pub open spec fn spec_is_contract_emitted(record: RawEventRecord) -> bool {
    record.pallet@ == "Contracts"@ && record.event@ == "ContractEmitted"@
}

/// What decoding a whole record against its schema yields: every field in
/// order off one cursor, which must end exactly spent, else the record
/// fails with `TrailingBytes`.
pub open spec fn spec_decode_event(
    record: RawEventRecord,
    schema: EventSchema,
    reg: Seq<TypeDef>,
    app: Option<&AppSchemaLookup>,
) -> Result<EventModel, DecodeError> {
    match spec_walk_fields(
        reg,
        schema.fields@,
        spec_is_contract_emitted(record),
        record.topics.deep_view(),
        app,
        record.payload@,
        0,
        0,
    ) {
        Ok(fp) => {
            if fp.1 == record.payload@.len() {
                Ok(
                    EventModel {
                        pallet: record.pallet@,
                        name: record.event@,
                        fields: fp.0,
                    },
                )
            } else {
                Err(DecodeError::TrailingBytes)
            }
        },
        Err(e) => Err(e),
    }
}

/// Decodes one raw event record against its schema: the field walker.
///
/// Fields decode in declared order off a single cursor over the payload;
/// the distinguished contract event's "data" field goes to
/// [`decode_application_payload`]; unnamed fields take a running decimal
/// counter as their name; and bytes left over after the last field fail
/// the whole record with `TrailingBytes`.
#[verifier::rlimit(100)]
#[verifier::loop_isolation(false)]
pub fn decode_event(
    record: &RawEventRecord,
    schema: &EventSchema,
    registry: &TypeRegistry,
    app: Option<&AppSchemaLookup>,
) -> (r: Result<Event, DecodeError>)
    requires
        registry.wf(),
        app_lookup_wf(app),
    ensures
        spec_decode_event(*record, *schema, registry@, app) matches Ok(em) ==> (r matches Ok(ev)
            && ev@ == em),
        spec_decode_event(*record, *schema, registry@, app) matches Err(e) ==> r == Err::<
            Event,
            DecodeError,
        >(e),
{
    let special = str_eq(record.pallet.as_str(), "Contracts") && str_eq(
        record.event.as_str(),
        "ContractEmitted",
    );
    let ghost full = spec_walk_fields(
        registry@,
        schema.fields@,
        special,
        record.topics.deep_view(),
        app,
        record.payload@,
        0,
        0,
    );
    let mut c = ByteCursor::new(clone_bytes(&record.payload));
    let mut fields: Vec<Field> = Vec::new();
    let mut j: usize = 0;
    let mut ctr: u64 = 0;
    proof {
        assert(schema.fields@.subrange(0, schema.fields@.len() as int) =~= schema.fields@);
        if full is Ok {
            assert(Seq::<FieldModel>::empty() + full->Ok_0.0 =~= full->Ok_0.0);
        }
    }
    while j < schema.fields.len()
        invariant
            c.wf(),
            c.bytes@ == record.payload@,
            j <= schema.fields@.len(),
            ctr <= j,
            full == prepend_fields(
                view_fields(fields@),
                spec_walk_fields(
                    registry@,
                    schema.fields@.subrange(j as int, schema.fields@.len() as int),
                    special,
                    record.topics.deep_view(),
                    app,
                    record.payload@,
                    c.pos as int,
                    ctr as nat,
                ),
            ),
        decreases schema.fields@.len() - j,
    {
        let ghost sub = schema.fields@.subrange(j as int, schema.fields@.len() as int);
        let ghost rest = spec_walk_fields(
            registry@,
            sub,
            special,
            record.topics.deep_view(),
            app,
            record.payload@,
            c.pos as int,
            ctr as nat,
        );
        proof {
            assert(sub[0] == schema.fields@[j as int]);
        }
        let f = &schema.fields[j];
        let is_data = special && match &f.name {
            Some(n) => str_eq(n.as_str(), "data"),
            None => false,
        };
        let field: Field = if is_data {
            let v = decode_application_payload(&record.topics, &mut c, app);
            Field::new(String::from_str("data"), v, clone_opt_string(&f.type_label))
        } else {
            let v = match decode_value(&mut c, f.ty, registry) {
                Ok(v) => v,
                Err(e) => {
                    proof {
                        assert(rest == Err::<(Seq<FieldModel>, int), DecodeError>(e));
                    }
                    return Err(e);
                },
            };
            let name: String = match &f.name {
                Some(n) => n.clone(),
                None => {
                    let s = crate::num::u128_to_dec(ctr as u128);
                    ctr = ctr + 1;
                    s
                },
            };
            Field::new(name, v, clone_opt_string(&f.type_label))
        };
        let ghost pre_fields = fields@;
        let ghost fv = field;
        fields.push(field);
        j = j + 1;
        proof {
            lemma_view_fields_push(pre_fields, fv);
            assert(sub.subrange(1, sub.len() as int) =~= schema.fields@.subrange(
                j as int,
                schema.fields@.len() as int,
            ));
            let rest2 = spec_walk_fields(
                registry@,
                schema.fields@.subrange(j as int, schema.fields@.len() as int),
                special,
                record.topics.deep_view(),
                app,
                record.payload@,
                c.pos as int,
                ctr as nat,
            );
            assert(rest == prepend_fields(seq![fv@], rest2));
            if rest2 is Ok {
                assert(view_fields(pre_fields) + (seq![fv@] + rest2->Ok_0.0) =~= view_fields(
                    fields@,
                ) + rest2->Ok_0.0);
            }
        }
    }
    proof {
        let rest0 = spec_walk_fields(
            registry@,
            schema.fields@.subrange(j as int, schema.fields@.len() as int),
            special,
            record.topics.deep_view(),
            app,
            record.payload@,
            c.pos as int,
            ctr as nat,
        );
        assert(schema.fields@.subrange(schema.fields@.len() as int, schema.fields@.len() as int)
            .len() == 0);
        assert(rest0 == Ok::<(Seq<FieldModel>, int), DecodeError>((Seq::empty(), c.pos as int)));
        assert(view_fields(fields@) + Seq::<FieldModel>::empty() =~= view_fields(fields@));
    }
    if c.is_exhausted() {
        Ok(
            Event {
                pallet: record.pallet.clone(),
                name: record.event.clone(),
                fields,
            },
        )
    } else {
        Err(DecodeError::TrailingBytes)
    }
}

/// Leftover payload bytes are never ignored: whenever the declared fields
/// of a record decode but stop short of the payload's end, the record
/// fails with `TrailingBytes`.
pub proof fn lemma_trailing_bytes(
    record: RawEventRecord,
    schema: EventSchema,
    reg: Seq<TypeDef>,
    app: Option<&AppSchemaLookup>,
)
    requires
        spec_walk_fields(
            reg,
            schema.fields@,
            spec_is_contract_emitted(record),
            record.topics.deep_view(),
            app,
            record.payload@,
            0,
            0,
        ) matches Ok(fp) && fp.1 != record.payload@.len(),
    ensures
        spec_decode_event(record, schema, reg, app) == Err::<EventModel, DecodeError>(
            DecodeError::TrailingBytes,
        ),
{
}

/// Application-payload fallback: with no topic to carry a signature, the
/// sub-decoder always yields the raw payload bytes, never an error, so
/// the containing event cannot fail on this field.
pub proof fn lemma_app_payload_no_signature(
    topics: Seq<Seq<u8>>,
    rest: Seq<u8>,
    app: Option<&AppSchemaLookup>,
)
    requires
        topics.len() == 0,
    ensures
        spec_app_payload(topics, rest, app) == ValueModel::Bytes(rest),
{
}

/// Application-payload fallback: a signature that the lookup does not
/// register yields the raw payload bytes, never an error, so the
/// containing event cannot fail on this field.
pub proof fn lemma_app_payload_unknown_signature(
    topics: Seq<Seq<u8>>,
    rest: Seq<u8>,
    app: Option<&AppSchemaLookup>,
)
    requires
        topics.len() > 0,
        app matches Some(l) ==> spec_find_app_schema(l.events@, topics[0]) is None,
    ensures
        spec_app_payload(topics, rest, app) == ValueModel::Bytes(rest),
{
}

/// Prepends already-decoded events to the rest of a batch decode.
pub open spec fn prepend_events(
    es: Seq<EventModel>,
    r: Result<Seq<EventModel>, DecodeError>,
) -> Result<Seq<EventModel>, DecodeError> {
    match r {
        Ok(rest) => Ok(es + rest),
        Err(e) => Err(e),
    }
}

/// What decoding a batch of records yields: each record decoded against
/// its schema, in input order; the first failing record fails the batch.
pub open spec fn spec_from_events(
    items: Seq<(RawEventRecord, EventSchema)>,
    reg: Seq<TypeDef>,
    app: Option<&AppSchemaLookup>,
) -> Result<Seq<EventModel>, DecodeError>
    decreases items.len(),
{
    if items.len() == 0 {
        Ok(Seq::empty())
    } else {
        match spec_decode_event(items[0].0, items[0].1, reg, app) {
            Ok(em) => prepend_events(
                seq![em],
                spec_from_events(items.subrange(1, items.len() as int), reg, app),
            ),
            Err(e) => Err(e),
        }
    }
}

impl DisplayEvents {
    /// Parses a batch of raw event records, each against its schema, and
    /// returns an object which can be rendered or serialised.
    #[verifier::loop_isolation(false)]
    pub fn from_events(
        items: &Vec<(RawEventRecord, EventSchema)>,
        registry: &TypeRegistry,
        transcoder: Option<&AppSchemaLookup>,
    ) -> (r: Result<DisplayEvents, DecodeError>)
        requires
            registry.wf(),
            app_lookup_wf(transcoder),
        ensures
            spec_from_events(items@, registry@, transcoder) matches Ok(ems) ==> (r matches Ok(d)
                && d@ == ems),
            spec_from_events(items@, registry@, transcoder) matches Err(e) ==> r == Err::<
                DisplayEvents,
                DecodeError,
            >(e),
    {
        let ghost full = spec_from_events(items@, registry@, transcoder);
        let mut events: Vec<Event> = Vec::new();
        let mut j: usize = 0;
        proof {
            assert(items@.subrange(0, items@.len() as int) =~= items@);
            if full is Ok {
                assert(Seq::<EventModel>::empty() + full->Ok_0 =~= full->Ok_0);
            }
        }
        while j < items.len()
            invariant
                j <= items@.len(),
                full == prepend_events(
                    view_events(events@),
                    spec_from_events(
                        items@.subrange(j as int, items@.len() as int),
                        registry@,
                        transcoder,
                    ),
                ),
            decreases items@.len() - j,
        {
            let ghost sub = items@.subrange(j as int, items@.len() as int);
            let ghost rest = spec_from_events(sub, registry@, transcoder);
            proof {
                assert(sub[0] == items@[j as int]);
            }
            let item = &items[j];
            let ev = match decode_event(&item.0, &item.1, registry, transcoder) {
                Ok(ev) => ev,
                Err(e) => {
                    proof {
                        assert(rest == Err::<Seq<EventModel>, DecodeError>(e));
                    }
                    return Err(e);
                },
            };
            let ghost pre_events = events@;
            let ghost evg = ev;
            events.push(ev);
            j = j + 1;
            proof {
                lemma_view_events_push(pre_events, evg);
                assert(sub.subrange(1, sub.len() as int) =~= items@.subrange(
                    j as int,
                    items@.len() as int,
                ));
                let rest2 = spec_from_events(
                    items@.subrange(j as int, items@.len() as int),
                    registry@,
                    transcoder,
                );
                assert(rest == prepend_events(seq![evg@], rest2));
                if rest2 is Ok {
                    assert(view_events(pre_events) + (seq![evg@] + rest2->Ok_0) =~= view_events(
                        events@,
                    ) + rest2->Ok_0);
                }
            }
        }
        proof {
            let rest0 = spec_from_events(
                items@.subrange(j as int, items@.len() as int),
                registry@,
                transcoder,
            );
            assert(items@.subrange(items@.len() as int, items@.len() as int).len() == 0);
            assert(rest0 == Ok::<Seq<EventModel>, DecodeError>(Seq::empty()));
            assert(view_events(events@) + Seq::<EventModel>::empty() =~= view_events(events@));
        }
        Ok(DisplayEvents(events))
    }
}

} // verus!

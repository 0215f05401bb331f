use vstd::prelude::*;
use crate::errors::{ConvertError, ErrorModel};

verus! {

/// The structured fields read from a sidecar, as UTF-8 bytes.
pub struct MetadataRecord {
    pub name: Vec<u8>,
    pub personality: Vec<u8>,
    pub description: Vec<u8>,
    pub first_message: Vec<u8>,
    pub example_dialogs: Vec<u8>,
    pub scenario: Vec<u8>,
}

/// The mathematical image of a `MetadataRecord`.
#[verifier::ext_equal]
pub struct RecordModel {
    pub name: Seq<u8>,
    pub personality: Seq<u8>,
    pub description: Seq<u8>,
    pub first_message: Seq<u8>,
    pub example_dialogs: Seq<u8>,
    pub scenario: Seq<u8>,
}

impl View for MetadataRecord {
    type V = RecordModel;

    open spec fn view(&self) -> RecordModel {
        RecordModel {
            name: self.name@,
            personality: self.personality@,
            description: self.description@,
            first_message: self.first_message@,
            example_dialogs: self.example_dialogs@,
            scenario: self.scenario@,
        }
    }
}

/// The lower-case hexadecimal digit for a value below sixteen.
pub open spec fn hex_digit(n: int) -> u8
    recommends
        0 <= n < 16,
{
    if n < 10 {
        (48 + n) as u8
    } else {
        (87 + n) as u8
    }
}

/// How one byte appears inside a JSON string: quote and backslash get a
/// backslash escape, the named control characters their short escapes, other
/// control bytes a `\u00..` escape, and everything else stands as itself.
pub open spec fn escape_byte(b: u8) -> Seq<u8> {
    if b == 34 {
        seq![92u8, 34u8]
    } else if b == 92 {
        seq![92u8, 92u8]
    } else if b == 8 {
        seq![92u8, 98u8]
    } else if b == 9 {
        seq![92u8, 116u8]
    } else if b == 10 {
        seq![92u8, 110u8]
    } else if b == 12 {
        seq![92u8, 102u8]
    } else if b == 13 {
        seq![92u8, 114u8]
    } else if b < 32 {
        seq![92u8, 117u8, 48u8, 48u8, hex_digit(b as int / 16), hex_digit(b as int % 16)]
    } else {
        seq![b]
    }
}

pub open spec fn escape_bytes(s: Seq<u8>) -> Seq<u8>
    decreases s.len(),
{
    if s.len() == 0 {
        Seq::empty()
    } else {
        escape_byte(s[0]) + escape_bytes(s.skip(1))
    }
}

/// A JSON string literal: the escaped bytes between double quotes.
pub open spec fn quoted(s: Seq<u8>) -> Seq<u8> {
    seq![34u8] + escape_bytes(s) + seq![34u8]
}

/// The ASCII bytes of `"name":`.
pub open spec fn key_name() -> Seq<u8> {
    seq![34u8, 110u8, 97u8, 109u8, 101u8, 34u8, 58u8]
}

/// The ASCII bytes of `,"description":`.
pub open spec fn key_description() -> Seq<u8> {
    seq![44u8, 34u8, 100u8, 101u8, 115u8, 99u8, 114u8, 105u8, 112u8, 116u8, 105u8, 111u8, 110u8, 34u8, 58u8]
}

/// The ASCII bytes of `,"personality":`.
pub open spec fn key_personality() -> Seq<u8> {
    seq![44u8, 34u8, 112u8, 101u8, 114u8, 115u8, 111u8, 110u8, 97u8, 108u8, 105u8, 116u8, 121u8, 34u8, 58u8]
}

/// The ASCII bytes of `,"first_mes":`.
pub open spec fn key_first_mes() -> Seq<u8> {
    seq![44u8, 34u8, 102u8, 105u8, 114u8, 115u8, 116u8, 95u8, 109u8, 101u8, 115u8, 34u8, 58u8]
}

/// The ASCII bytes of `,"mes_example":`.
pub open spec fn key_mes_example() -> Seq<u8> {
    seq![44u8, 34u8, 109u8, 101u8, 115u8, 95u8, 101u8, 120u8, 97u8, 109u8, 112u8, 108u8, 101u8, 34u8, 58u8]
}

/// The ASCII bytes of `,"scenario":`.
pub open spec fn key_scenario() -> Seq<u8> {
    seq![44u8, 34u8, 115u8, 99u8, 101u8, 110u8, 97u8, 114u8, 105u8, 111u8, 34u8, 58u8]
}

/// The compact JSON serialization of a record, with the fixed output
/// remapping: the value read as `personality` is emitted under the key
/// `description` and the value read as `description` under `personality`;
/// `first_message` is emitted as `first_mes` and `example_dialogs` as
/// `mes_example`.
pub open spec fn json_of_record(r: RecordModel) -> Seq<u8> {
    seq![123u8] + key_name() + quoted(r.name) + key_description() + quoted(r.personality)
        + key_personality() + quoted(r.description) + key_first_mes() + quoted(r.first_message)
        + key_mes_example() + quoted(r.example_dialogs) + key_scenario() + quoted(r.scenario)
        + seq![125u8]
}

/// The bytes that open every embeddable payload: the ASCII tag and one NUL.
pub open spec fn payload_prefix() -> Seq<u8> {
    seq![99u8, 104u8, 97u8, 114u8, 97u8, 0u8]
}

/// What the standard-alphabet, padded base64 encoding of the bytes looks
/// like.
pub uninterp spec fn base64_of(data: Seq<u8>) -> Seq<u8>;

/// A byte the standard base64 alphabet can emit: a letter, a digit, `+`,
/// `/`, or the `=` padding. In particular never a NUL and never a newline,
/// so the encoded text is one unwrapped line.
pub open spec fn is_base64_byte(b: u8) -> bool {
    (65 <= b <= 90) || (97 <= b <= 122) || (48 <= b <= 57) || b == 43 || b == 47 || b == 61
}

/// The embeddable payload of a record: the tag, a NUL separator, and the
/// base64 text of the record's compact serialization.
pub open spec fn payload_of(r: RecordModel) -> Seq<u8> {
    payload_prefix() + base64_of(json_of_record(r))
}

/// Relies on base64's STANDARD engine: padded standard-alphabet encoding, a
/// function of the input bytes alone, four output bytes for every three of
/// input, with no line wrapping.
#[verifier::external_body]
fn base64_encode(data: &Vec<u8>) -> (r: Vec<u8>)
    ensures
        r@ == base64_of(data@),
        r@.len() == 4 * ((data@.len() + 2) / 3),
        forall|i: int| 0 <= i < r@.len() ==> is_base64_byte(#[trigger] r@[i]),
{
    base64::Engine::encode(&base64::engine::general_purpose::STANDARD, data).into_bytes()
}

fn push_hex_digit(out: &mut Vec<u8>, n: u8)
    requires
        n < 16,
    ensures
        final(out)@ == old(out)@ + seq![hex_digit(n as int)],
{
    let d = if n < 10 {
        48 + n
    } else {
        87 + n
    };
    out.push(d);
    proof {
        assert(out@ =~= old(out)@ + seq![hex_digit(n as int)]);
    }
}

proof fn lemma_escape_push(s: Seq<u8>, b: u8)
    ensures
        escape_bytes(s.push(b)) == escape_bytes(s) + escape_byte(b),
    decreases s.len(),
{
    if s.len() == 0 {
        assert(s.push(b)[0] == b);
        assert(s.push(b).skip(1) =~= Seq::<u8>::empty());
        assert(escape_bytes(Seq::<u8>::empty()) == Seq::<u8>::empty());
        assert(escape_bytes(s.push(b)) == escape_byte(b) + escape_bytes(s.push(b).skip(1)));
        assert(escape_byte(b) + Seq::<u8>::empty() =~= escape_byte(b));
        assert(Seq::<u8>::empty() + escape_byte(b) =~= escape_byte(b));
    } else {
        assert(s.push(b)[0] == s[0]);
        assert(s.push(b).skip(1) =~= s.skip(1).push(b));
        lemma_escape_push(s.skip(1), b);
        assert(escape_bytes(s.push(b)) == escape_byte(s[0]) + (escape_bytes(s.skip(1))
            + escape_byte(b)));
        assert(escape_byte(s[0]) + (escape_bytes(s.skip(1)) + escape_byte(b)) =~= (escape_byte(s[0])
            + escape_bytes(s.skip(1))) + escape_byte(b));
    }
}

/// Appends the escaped form of every byte of `s`.
fn push_escaped(out: &mut Vec<u8>, s: &Vec<u8>)
    ensures
        final(out)@ == old(out)@ + escape_bytes(s@),
{
    let mut i: usize = 0;
    proof {
        assert(s@.take(0) =~= Seq::<u8>::empty());
        assert(escape_bytes(Seq::<u8>::empty()) == Seq::<u8>::empty());
        assert(out@ + Seq::<u8>::empty() =~= out@);
    }
    while i < s.len()
        invariant
            0 <= i <= s@.len(),
            out@ == old(out)@ + escape_bytes(s@.take(i as int)),
        decreases s@.len() - i,
    {
        let ghost prefix = s@.take(i as int);
        let ghost before = out@;
        let b = s[i];
        if b == 34 {
            out.push(92);
            out.push(34);
        } else if b == 92 {
            out.push(92);
            out.push(92);
        } else if b == 8 {
            out.push(92);
            out.push(98);
        } else if b == 9 {
            out.push(92);
            out.push(116);
        } else if b == 10 {
            out.push(92);
            out.push(110);
        } else if b == 12 {
            out.push(92);
            out.push(102);
        } else if b == 13 {
            out.push(92);
            out.push(114);
        } else if b < 32 {
            out.push(92);
            out.push(117);
            out.push(48);
            out.push(48);
            push_hex_digit(out, b / 16);
            push_hex_digit(out, b % 16);
        } else {
            out.push(b);
        }
        proof {
            assert(out@ =~= before + escape_byte(b));
        }
        i = i + 1;
        proof {
            lemma_escape_push(prefix, b);
            assert(s@.take(i as int) =~= prefix.push(b));
            assert(before + escape_byte(b) =~= old(out)@ + escape_bytes(s@.take(i as int)));
        }
    }
    proof {
        assert(s@.take(s@.len() as int) =~= s@);
    }
}

/// Appends `s` as a JSON string literal: a quote, the escaped bytes, a
/// quote.
fn push_quoted(out: &mut Vec<u8>, s: &Vec<u8>)
    ensures
        final(out)@ == old(out)@ + quoted(s@),
{
    out.push(34);
    push_escaped(out, s);
    out.push(34);
    proof {
        assert(out@ =~= old(out)@ + quoted(s@));
    }
}

fn push_key_name(out: &mut Vec<u8>)
    ensures
        final(out)@ == old(out)@ + key_name(),
{
    out.push(34);
    out.push(110);
    out.push(97);
    out.push(109);
    out.push(101);
    out.push(34);
    out.push(58);
    proof {
        assert(out@ =~= old(out)@ + key_name());
    }
}

fn push_key_description(out: &mut Vec<u8>)
    ensures
        final(out)@ == old(out)@ + key_description(),
{
    out.push(44);
    out.push(34);
    out.push(100);
    out.push(101);
    out.push(115);
    out.push(99);
    out.push(114);
    out.push(105);
    out.push(112);
    out.push(116);
    out.push(105);
    out.push(111);
    out.push(110);
    out.push(34);
    out.push(58);
    proof {
        assert(out@ =~= old(out)@ + key_description());
    }
}

fn push_key_personality(out: &mut Vec<u8>)
    ensures
        final(out)@ == old(out)@ + key_personality(),
{
    out.push(44);
    out.push(34);
    out.push(112);
    out.push(101);
    out.push(114);
    out.push(115);
    out.push(111);
    out.push(110);
    out.push(97);
    out.push(108);
    out.push(105);
    out.push(116);
    out.push(121);
    out.push(34);
    out.push(58);
    proof {
        assert(out@ =~= old(out)@ + key_personality());
    }
}

fn push_key_first_mes(out: &mut Vec<u8>)
    ensures
        final(out)@ == old(out)@ + key_first_mes(),
{
    out.push(44);
    out.push(34);
    out.push(102);
    out.push(105);
    out.push(114);
    out.push(115);
    out.push(116);
    out.push(95);
    out.push(109);
    out.push(101);
    out.push(115);
    out.push(34);
    out.push(58);
    proof {
        assert(out@ =~= old(out)@ + key_first_mes());
    }
}

fn push_key_mes_example(out: &mut Vec<u8>)
    ensures
        final(out)@ == old(out)@ + key_mes_example(),
{
    out.push(44);
    out.push(34);
    out.push(109);
    out.push(101);
    out.push(115);
    out.push(95);
    out.push(101);
    out.push(120);
    out.push(97);
    out.push(109);
    out.push(112);
    out.push(108);
    out.push(101);
    out.push(34);
    out.push(58);
    proof {
        assert(out@ =~= old(out)@ + key_mes_example());
    }
}

fn push_key_scenario(out: &mut Vec<u8>)
    ensures
        final(out)@ == old(out)@ + key_scenario(),
{
    out.push(44);
    out.push(34);
    out.push(115);
    out.push(99);
    out.push(101);
    out.push(110);
    out.push(97);
    out.push(114);
    out.push(105);
    out.push(111);
    out.push(34);
    out.push(58);
    proof {
        assert(out@ =~= old(out)@ + key_scenario());
    }
}

/// Serializes a record compactly, applying the fixed output remapping that
/// `json_of_record` states.
pub fn record_json(r: &MetadataRecord) -> (out: Vec<u8>)
    ensures
        out@ == json_of_record(r@),
{
    let mut out: Vec<u8> = Vec::new();
    out.push(123);
    proof {
        assert(out@ =~= seq![123u8]);
    }
    push_key_name(&mut out);
    push_quoted(&mut out, &r.name);
    push_key_description(&mut out);
    push_quoted(&mut out, &r.personality);
    push_key_personality(&mut out);
    push_quoted(&mut out, &r.description);
    push_key_first_mes(&mut out);
    push_quoted(&mut out, &r.first_message);
    push_key_mes_example(&mut out);
    push_quoted(&mut out, &r.example_dialogs);
    push_key_scenario(&mut out);
    push_quoted(&mut out, &r.scenario);
    let ghost before_close = out@;
    out.push(125);
    proof {
        assert(out@ =~= before_close + seq![125u8]);
    }
    out
}

/// Wraps a record for embedding: the fixed tag, a NUL, and the base64 text
/// of the record's compact serialization — so after the one separator NUL,
/// only unwrapped standard base64 bytes follow.
pub fn payload_for_record(r: &MetadataRecord) -> (out: Vec<u8>)
    ensures
        out@ == payload_of(r@),
        out@.len() >= 6,
        out@.subrange(0, 6) == payload_prefix(),
        forall|i: int| 6 <= i < out@.len() ==> is_base64_byte(#[trigger] out@[i]),
{
    let json = record_json(r);
    let b64 = base64_encode(&json);
    let mut out: Vec<u8> = Vec::new();
    out.push(99);
    out.push(104);
    out.push(97);
    out.push(114);
    out.push(97);
    out.push(0);
    proof {
        assert(out@ =~= payload_prefix());
    }
    crate::binary::append_bytes(&mut out, b64.as_slice());
    proof {
        assert(out@.subrange(0, 6) =~= payload_prefix());
        assert forall|i: int| 6 <= i < out@.len() implies is_base64_byte(#[trigger] out@[i]) by {
            assert(out@[i] == b64@[i - 6]);
        }
    }
    out
}

/// The string value under the key of the text parsed as one JSON document:
/// absent when the text does not parse, the document is no object, the key
/// is missing, or its value is no string.
pub uninterp spec fn json_string_field(text: Seq<u8>, key: Seq<char>) -> Option<Seq<u8>>;

/// Relies on serde_json::from_slice::<Value>, Value::get and Value::as_str:
/// parsing and the field lookup are functions of the text and the key alone;
/// parse failures are returned, never panicked.
#[verifier::external_body]
fn json_string_field_of(text: &Vec<u8>, key: &str) -> (r: Option<Vec<u8>>)
    ensures
        r matches Some(s) ==> json_string_field(text@, key@) == Some(s@),
        r is None <==> json_string_field(text@, key@) is None,
{
    let v: serde_json::Value = match serde_json::from_slice(text.as_slice()) {
        Ok(v) => v,
        Err(_) => return None,
    };
    match v.get(key) {
        Some(field) => field.as_str().map(|s| s.as_bytes().to_vec()),
        None => None,
    }
}

/// Whether the sidecar text carries all six required string fields under the
/// input layout.
pub open spec fn sidecar_fields_present(text: Seq<u8>) -> bool {
    &&& json_string_field(text, "name"@) is Some
    &&& json_string_field(text, "personality"@) is Some
    &&& json_string_field(text, "description"@) is Some
    &&& json_string_field(text, "first_message"@) is Some
    &&& json_string_field(text, "example_dialogs"@) is Some
    &&& json_string_field(text, "scenario"@) is Some
}

/// The record a sidecar carries, field by field, under the input layout.
pub open spec fn sidecar_record_of(text: Seq<u8>) -> RecordModel
    recommends
        sidecar_fields_present(text),
{
    RecordModel {
        name: json_string_field(text, "name"@).unwrap(),
        personality: json_string_field(text, "personality"@).unwrap(),
        description: json_string_field(text, "description"@).unwrap(),
        first_message: json_string_field(text, "first_message"@).unwrap(),
        example_dialogs: json_string_field(text, "example_dialogs"@).unwrap(),
        scenario: json_string_field(text, "scenario"@).unwrap(),
    }
}

/// Reads a sidecar as a record under the input field layout: `name`,
/// `personality`, `description`, `first_message`, `example_dialogs`,
/// `scenario`. It succeeds exactly when all six fields are present as
/// strings, and returns exactly them; a document that does not parse, or
/// any absent or wrong-typed field, is a schema failure.
pub fn parse_sidecar(text: &Vec<u8>) -> (r: Result<MetadataRecord, ConvertError>)
    ensures
        r is Ok <==> sidecar_fields_present(text@),
        r matches Ok(rec) ==> rec@ == sidecar_record_of(text@),
        r matches Err(e) ==> e@ == ErrorModel::Schema,
{
    let name = match json_string_field_of(text, "name") {
        Some(x) => x,
        None => {
            return Err(ConvertError::SchemaError);
        },
    };
    let personality = match json_string_field_of(text, "personality") {
        Some(x) => x,
        None => {
            return Err(ConvertError::SchemaError);
        },
    };
    let description = match json_string_field_of(text, "description") {
        Some(x) => x,
        None => {
            return Err(ConvertError::SchemaError);
        },
    };
    let first_message = match json_string_field_of(text, "first_message") {
        Some(x) => x,
        None => {
            return Err(ConvertError::SchemaError);
        },
    };
    let example_dialogs = match json_string_field_of(text, "example_dialogs") {
        Some(x) => x,
        None => {
            return Err(ConvertError::SchemaError);
        },
    };
    let scenario = match json_string_field_of(text, "scenario") {
        Some(x) => x,
        None => {
            return Err(ConvertError::SchemaError);
        },
    };
    let rec = MetadataRecord {
        name,
        personality,
        description,
        first_message,
        example_dialogs,
        scenario,
    };
    proof {
        assert(rec@ =~= sidecar_record_of(text@));
    }
    Ok(rec)
}

/// Reads a sidecar and wraps its record for embedding. It succeeds exactly
/// when the sidecar carries the six required fields, and then returns
/// exactly that record's payload; every failure is a schema failure.
pub fn serialize_sidecar(text: &Vec<u8>) -> (r: Result<Vec<u8>, ConvertError>)
    ensures
        r is Ok <==> sidecar_fields_present(text@),
        r matches Ok(p) ==> p@ == payload_of(sidecar_record_of(text@)),
        r matches Ok(p) ==> p@.len() >= 6 && p@.subrange(0, 6) == payload_prefix() && (forall|
            i: int,
        | 6 <= i < p@.len() ==> is_base64_byte(#[trigger] p@[i])),
        r matches Err(e) ==> e@ == ErrorModel::Schema,
{
    match parse_sidecar(text) {
        Ok(rec) => Ok(payload_for_record(&rec)),
        Err(e) => Err(e),
    }
}

}


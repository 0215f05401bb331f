use base64::Engine;
use chara_card::errors::ConvertError;
use chara_card::metadata::{parse_sidecar, payload_for_record, record_json, serialize_sidecar,
    MetadataRecord};

fn record(
    name: &str,
    personality: &str,
    description: &str,
    first: &str,
    example: &str,
    scenario: &str,
) -> MetadataRecord {
    MetadataRecord {
        name: name.as_bytes().to_vec(),
        personality: personality.as_bytes().to_vec(),
        description: description.as_bytes().to_vec(),
        first_message: first.as_bytes().to_vec(),
        example_dialogs: example.as_bytes().to_vec(),
        scenario: scenario.as_bytes().to_vec(),
    }
}

#[test]
fn record_json_applies_the_cross_mapping() {
    let json = record_json(&record("N", "P", "D", "F", "E", "S"));
    assert_eq!(
        String::from_utf8(json).unwrap(),
        r#"{"name":"N","description":"P","personality":"D","first_mes":"F","mes_example":"E","scenario":"S"}"#
    );
}

#[test]
fn record_json_escapes_specials() {
    let json = record_json(&record("a\"b", "c\\d", "e\nf", "g\th", "i\x01j", "k"));
    assert_eq!(
        String::from_utf8(json).unwrap(),
        "{\"name\":\"a\\\"b\",\"description\":\"c\\\\d\",\"personality\":\"e\\nf\",\"first_mes\":\"g\\th\",\"mes_example\":\"i\\u0001j\",\"scenario\":\"k\"}"
    );
}

#[test]
fn payload_is_tag_nul_base64() {
    let r = record("N", "P", "D", "F", "E", "S");
    let json = record_json(&r);
    let payload = payload_for_record(&r);
    assert_eq!(&payload[0..6], b"chara\0");
    let expected_b64 = base64::engine::general_purpose::STANDARD.encode(&json);
    assert_eq!(&payload[6..], expected_b64.as_bytes());
}

#[test]
fn parse_sidecar_reads_input_layout() {
    let text = br#"{"name":"N","personality":"P","description":"D","first_message":"F","example_dialogs":"E","scenario":"S","extra":42}"#;
    let r = parse_sidecar(&text.to_vec()).expect("well-formed sidecar parses");
    assert_eq!(r.name, b"N".to_vec());
    assert_eq!(r.personality, b"P".to_vec());
    assert_eq!(r.description, b"D".to_vec());
    assert_eq!(r.first_message, b"F".to_vec());
    assert_eq!(r.example_dialogs, b"E".to_vec());
    assert_eq!(r.scenario, b"S".to_vec());
}

#[test]
fn parse_sidecar_missing_field_is_schema_error() {
    let text = br#"{"name":"N","personality":"P","description":"D","first_message":"F","example_dialogs":"E"}"#;
    assert!(matches!(parse_sidecar(&text.to_vec()), Err(ConvertError::SchemaError)));
}

#[test]
fn parse_sidecar_wrong_type_is_schema_error() {
    let text = br#"{"name":7,"personality":"P","description":"D","first_message":"F","example_dialogs":"E","scenario":"S"}"#;
    assert!(matches!(parse_sidecar(&text.to_vec()), Err(ConvertError::SchemaError)));
}

#[test]
fn parse_sidecar_malformed_json_is_schema_error() {
    assert!(matches!(parse_sidecar(&b"{not json".to_vec()), Err(ConvertError::SchemaError)));
}

#[test]
fn serialized_sidecar_decodes_with_remapped_fields() {
    let text = br#"{"name":"N","personality":"P","description":"D","first_message":"F","example_dialogs":"E","scenario":"S"}"#;
    let payload = serialize_sidecar(&text.to_vec()).expect("serializes");
    assert_eq!(&payload[0..6], b"chara\0");
    let json = base64::engine::general_purpose::STANDARD
        .decode(&payload[6..])
        .expect("payload carries base64");
    let v: serde_json::Value = serde_json::from_slice(&json).unwrap();
    assert_eq!(v.get("description").unwrap().as_str().unwrap(), "P");
    assert_eq!(v.get("personality").unwrap().as_str().unwrap(), "D");
    assert_eq!(v.get("first_mes").unwrap().as_str().unwrap(), "F");
    assert_eq!(v.get("mes_example").unwrap().as_str().unwrap(), "E");
    assert_eq!(v.get("name").unwrap().as_str().unwrap(), "N");
    assert_eq!(v.get("scenario").unwrap().as_str().unwrap(), "S");
}

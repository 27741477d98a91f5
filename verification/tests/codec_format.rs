use bulk_pipeline::codec::{encode_batch, parse_staging};
use bulk_pipeline::errors::PipelineError;
use bulk_pipeline::record::Conditions;

fn rec(
    id: &str,
    created_on: i64,
    location: &str,
    temperature: Option<i64>,
    humidity: Option<i64>,
) -> Conditions {
    Conditions {
        id: id.to_string(),
        created_on,
        location: location.to_string(),
        temperature,
        humidity,
    }
}

#[test]
fn staging_text_exact() {
    let batch = vec![rec("a1", 1700000000, "lab", Some(23500), None)];
    let s = encode_batch(&batch).unwrap();
    assert_eq!(s, "a1,1700000000,lab,23500,\n");
}

#[test]
fn staging_text_two_lines() {
    let batch = vec![
        rec("a1", 0, "north", None, Some(55000)),
        rec("b2", -62, "south", Some(-1500), Some(0)),
    ];
    let s = encode_batch(&batch).unwrap();
    assert_eq!(s, "a1,0,north,,55000\nb2,-62,south,-1500,0\n");
}

#[test]
fn staging_round_trip() {
    let batch = vec![
        rec("a1", 1700000000, "lab", Some(23500), Some(61000)),
        rec("b2", -5, "", None, Some(-12)),
        rec("c3", i64::MAX, "Gdansk centrum", Some(i64::MIN), None),
        rec("d4", 0, "zona 9", None, None),
    ];
    let s = encode_batch(&batch).unwrap();
    let back = parse_staging(&s).unwrap();
    assert_eq!(back, batch);
}

#[test]
fn round_trip_keeps_ids_and_instants() {
    let batch = vec![rec("k-77", 1699999999, "pad", None, None)];
    let s = encode_batch(&batch).unwrap();
    let back = parse_staging(&s).unwrap();
    assert_eq!(back[0].id, "k-77");
    assert_eq!(back[0].created_on, 1699999999);
}

#[test]
fn comma_in_field_rejected() {
    let batch = vec![rec("a1", 1, "north,east", None, None)];
    assert!(matches!(
        encode_batch(&batch),
        Err(PipelineError::SerializationFailed)
    ));
}

#[test]
fn newline_in_id_rejected() {
    let batch = vec![rec("a\n1", 1, "north", None, None)];
    assert!(matches!(
        encode_batch(&batch),
        Err(PipelineError::SerializationFailed)
    ));
}

#[test]
fn non_ascii_field_rejected() {
    let batch = vec![rec("a1", 1, "zoné 9", None, None)];
    assert!(matches!(
        encode_batch(&batch),
        Err(PipelineError::SerializationFailed)
    ));
}

#[test]
fn parse_rejects_unterminated_line() {
    assert!(parse_staging("a1,1,lab,,").is_none());
}

#[test]
fn parse_rejects_missing_fields() {
    assert!(parse_staging("a1,1,lab\n").is_none());
}

#[test]
fn parse_rejects_extra_fields() {
    assert!(parse_staging("a1,1,lab,,,\n").is_none());
}

#[test]
fn parse_rejects_bad_number() {
    assert!(parse_staging("a1,xx,lab,,\n").is_none());
}

#[test]
fn parse_empty_text_is_empty_batch() {
    let back = parse_staging("").unwrap();
    assert!(back.is_empty());
}

#[test]
fn parse_reads_back_values() {
    let back = parse_staging("id9,-5,room,,-12\n").unwrap();
    assert_eq!(back.len(), 1);
    assert_eq!(back[0].id, "id9");
    assert_eq!(back[0].created_on, -5);
    assert_eq!(back[0].location, "room");
    assert_eq!(back[0].temperature, None);
    assert_eq!(back[0].humidity, Some(-12));
}

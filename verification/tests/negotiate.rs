use kvbridge::negotiate::ContentType;
use kvbridge::negotiate::negotiate;
use kvbridge::parse::parse_record;
use kvbridge::protocol::Fault;
use kvbridge::record::Record;
use kvbridge::render::render_json;

fn record_of(fields: &[(&[u8], &[u8])]) -> Record {
    let mut rec = Record::new();
    for (name, value) in fields {
        rec.push_field(name.to_vec(), value.to_vec());
    }
    rec
}

#[test]
fn json_scenario_country() {
    let rec = record_of(&[(b"name", b"United States")]);
    let resp = negotiate(b"application/json", &rec).unwrap();
    assert_eq!(resp.content_type, ContentType::Json);
    assert_eq!(resp.body, b"{\"name\":\"United States\"}".to_vec());
}

#[test]
fn json_round_trip_reproduces_fields() {
    let rec = record_of(&[(b"name", b"United States"), (b"code", b"US")]);
    let resp = negotiate(b"application/json", &rec).unwrap();
    let back = parse_record(&resp.body).unwrap();
    assert_eq!(back.field_count(), 2);
    assert_eq!(back.fields[0].name, b"name".to_vec());
    assert_eq!(back.fields[0].value, b"United States".to_vec());
    assert_eq!(back.fields[1].name, b"code".to_vec());
    assert_eq!(back.fields[1].value, b"US".to_vec());
}

#[test]
fn json_round_trip_with_escapes() {
    let rec = record_of(&[(b"motto", b"say \"hi\" \\ wave")]);
    let bytes = render_json(&rec);
    let back = parse_record(&bytes).unwrap();
    assert_eq!(back.fields[0].value, b"say \"hi\" \\ wave".to_vec());
}

#[test]
fn yaml_output_nonempty_with_tag() {
    let rec = record_of(&[(b"name", b"United States")]);
    let resp = negotiate(b"text/plain, application/yaml", &rec).unwrap();
    assert_eq!(resp.content_type, ContentType::Yaml);
    assert!(!resp.body.is_empty());
    assert_eq!(resp.body, b"name: United States\n".to_vec());
}

#[test]
fn html_output_nonempty_with_tag() {
    let rec = record_of(&[(b"name", b"United States")]);
    let resp = negotiate(b"text/html", &rec).unwrap();
    assert_eq!(resp.content_type, ContentType::Html);
    assert!(!resp.body.is_empty());
    assert_eq!(
        resp.body,
        b"<html><body><p>name: United States</p></body></html>".to_vec()
    );
}

#[test]
fn yaml_wins_over_json_when_both_named() {
    let rec = record_of(&[(b"name", b"United States")]);
    let resp = negotiate(b"application/json, application/yaml", &rec).unwrap();
    assert_eq!(resp.content_type, ContentType::Yaml);
}

#[test]
fn unknown_preference_defaults_to_html() {
    let rec = record_of(&[(b"name", b"United States")]);
    let resp = negotiate(b"application/xml", &rec).unwrap();
    assert_eq!(resp.content_type, ContentType::Html);
    let resp = negotiate(b"", &rec).unwrap();
    assert_eq!(resp.content_type, ContentType::Html);
}

#[test]
fn unprintable_value_is_serialization_fault() {
    let rec = record_of(&[(b"name", b"line\nbreak")]);
    let err = negotiate(b"application/json", &rec).unwrap_err();
    assert_eq!(err, Fault::SerializationFault);
}

#[test]
fn empty_record_renders_in_every_format() {
    let rec = record_of(&[]);
    let json = negotiate(b"application/json", &rec).unwrap();
    assert_eq!(json.body, b"{}".to_vec());
    let yaml = negotiate(b"application/yaml", &rec).unwrap();
    assert_eq!(yaml.body, b"{}\n".to_vec());
    let html = negotiate(b"nothing in particular", &rec).unwrap();
    assert_eq!(html.body, b"<html><body></body></html>".to_vec());
}

#[test]
fn html_escapes_markup() {
    let rec = record_of(&[(b"name", b"<b>&</b>")]);
    let resp = negotiate(b"text/html", &rec).unwrap();
    assert_eq!(
        resp.body,
        b"<html><body><p>name: &lt;b&gt;&amp;&lt;/b&gt;</p></body></html>".to_vec()
    );
}

#[test]
fn content_type_labels() {
    assert_eq!(ContentType::Json.label(), "application/json");
    assert_eq!(ContentType::Yaml.label(), "application/yaml");
    assert_eq!(ContentType::Html.label(), "text/html");
}

#[test]
fn undecodable_bytes_do_not_parse() {
    assert!(parse_record(b"not json").is_none());
    assert!(parse_record(b"").is_none());
    assert!(parse_record(b"{\"name\":\"US\"} trailing").is_none());
}

use flate2::write::GzEncoder;
use flate2::Compression;
use hdr2plot::decode::decode_document;
use hdr2plot::parser::parse;
use std::io::Write;

fn wrap(text: &str) -> String {
    let mut gz = GzEncoder::new(Vec::new(), Compression::default());
    gz.write_all(text.as_bytes()).unwrap();
    let compressed = gz.finish().unwrap();
    base64::encode(compressed)
}

#[test]
fn decode_round_trip() {
    let text = "some histogram text\nwith two lines";
    let wrapped = wrap(text);
    assert_eq!(decode_document(&wrapped).as_deref(), Some(text));
}

#[test]
fn decode_rejects_bad_base64() {
    assert_eq!(decode_document("not base64 at all!!"), None);
}

#[test]
fn decode_rejects_non_gzip_payload() {
    let wrapped = base64::encode(b"plain bytes, no gzip header");
    assert_eq!(decode_document(&wrapped), None);
}

#[test]
fn decode_then_parse() {
    let text = r#"
       Value   Percentile   TotalCount 1/(1-Percentile)

       0.500     0.000000            1         2.22
       9.250     1.000000            7          inf
#[Mean    =        4.881, StdDeviation   =        1.777]
#[Max     =        9.250, Total count    =            7]
#[Buckets =           27, SubBuckets     =         2048]
"#;
    let wrapped = wrap(text);
    let decoded = decode_document(&wrapped).unwrap();
    let parsed = parse(&decoded).unwrap();
    assert_eq!(parsed.len(), 1);
    assert_eq!(parsed.get(0).total_count, 7);
}

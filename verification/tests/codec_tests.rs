use jobcrawl::codec::{decode_lines, decode_vacancy, encode_vacancy};
use jobcrawl::models::{Author, Vacancy};
use jobcrawl::numbers::parse_usize;
use jobcrawl::sink::BatchedSink;
use jobcrawl::text::trim_bytes;

fn sample(type_id: i64, url: &str, title: &str) -> Vacancy {
    Vacancy {
        type_id,
        title: title.as_bytes().to_vec(),
        description: b"A description".to_vec(),
        view_url: url.as_bytes().to_vec(),
        name: b"layboard.com".to_vec(),
        author: Author { name: b"layboard.com".to_vec() },
    }
}

#[test]
fn encode_writes_the_exact_json_line() {
    let v = sample(1, "https://layboard.com/v/1", "Cook");
    let line = encode_vacancy(&v);
    assert_eq!(
        String::from_utf8(line).unwrap(),
        r#"{"type_id":1,"title":"Cook","description":"A description","view_url":"https://layboard.com/v/1","name":"layboard.com","author":{"name":"layboard.com"}}"#
    );
}

#[test]
fn record_round_trip_plain() {
    let v = sample(7, "https://layboard.com/v/7", "Welder");
    let line = encode_vacancy(&v);
    let back = decode_vacancy(&line).expect("canonical line must decode");
    assert_eq!(back.type_id, 7);
    assert_eq!(back.title, v.title);
    assert_eq!(back.description, v.description);
    assert_eq!(back.view_url, v.view_url);
    assert_eq!(back.name, v.name);
    assert_eq!(back.author.name, v.author.name);
}

#[test]
fn record_round_trip_with_escapes() {
    let mut v = sample(-3, "https://layboard.com/v/9", "He said \"hi\"");
    v.description = b"line one\nline two\\end\ttab".to_vec();
    let line = encode_vacancy(&v);
    for &b in line.iter() {
        assert_ne!(b, b'\n', "a record line must hold no raw newline");
    }
    let back = decode_vacancy(&line).expect("canonical line must decode");
    assert_eq!(back.type_id, -3);
    assert_eq!(back.title, v.title);
    assert_eq!(back.description, v.description);
}

#[test]
fn record_round_trip_non_ascii_text() {
    let v = sample(2, "https://layboard.com/v/2", "Кухар");
    let line = encode_vacancy(&v);
    let back = decode_vacancy(&line).expect("canonical line must decode");
    assert_eq!(back.title, "Кухар".as_bytes().to_vec());
}

#[test]
fn decode_refuses_garbage() {
    assert!(decode_vacancy(&b"nonsense".to_vec()).is_none());
    assert!(decode_vacancy(&b"{\"type_id\":}".to_vec()).is_none());
    assert!(decode_vacancy(&Vec::new()).is_none());
}

#[test]
fn decode_refuses_trailing_bytes() {
    let v = sample(1, "https://layboard.com/v/1", "Cook");
    let mut line = encode_vacancy(&v);
    line.push(b'x');
    assert!(decode_vacancy(&line).is_none());
}

#[test]
fn file_round_trip_keeps_every_record() {
    let mut sink = BatchedSink::new();
    sink.submit(sample(1, "https://layboard.com/v/1", "Cook"));
    sink.submit(sample(1, "https://layboard.com/v/2", "Welder \"senior\""));
    sink.submit(sample(1, "https://layboard.com/v/3", "Driver"));
    assert_eq!(sink.len(), 3);
    let body = sink.file_body();
    let back = decode_lines(&body).expect("the written file must read back");
    assert_eq!(back.len(), 3);
    let urls: Vec<Vec<u8>> = back.iter().map(|v| v.view_url.clone()).collect();
    assert_eq!(
        urls,
        vec![
            b"https://layboard.com/v/1".to_vec(),
            b"https://layboard.com/v/2".to_vec(),
            b"https://layboard.com/v/3".to_vec(),
        ]
    );
    assert_eq!(back[1].title, b"Welder \"senior\"".to_vec());
}

#[test]
fn empty_file_reads_back_empty() {
    let sink = BatchedSink::new();
    let body = sink.file_body();
    assert_eq!(body.len(), 0);
    let back = decode_lines(&body).expect("an empty file holds no records");
    assert_eq!(back.len(), 0);
}

#[test]
fn file_without_final_newline_is_refused() {
    let mut sink = BatchedSink::new();
    sink.submit(sample(1, "https://layboard.com/v/1", "Cook"));
    let mut body = sink.file_body();
    body.pop();
    assert!(decode_lines(&body).is_none());
}

#[test]
fn parse_usize_exact() {
    assert_eq!(parse_usize(&b"45".to_vec()), Some(45));
    assert_eq!(parse_usize(&b"0".to_vec()), Some(0));
    assert_eq!(parse_usize(&Vec::new()), None);
    assert_eq!(parse_usize(&b"12a".to_vec()), None);
    assert_eq!(parse_usize(&b"999999999999999999999999999999".to_vec()), None);
}

#[test]
fn trim_strips_ascii_whitespace() {
    assert_eq!(trim_bytes(&b"  spread out \t\n".to_vec()), b"spread out".to_vec());
    assert_eq!(trim_bytes(&b" \t \r\n ".to_vec()), Vec::<u8>::new());
    assert_eq!(trim_bytes(&b"intact".to_vec()), b"intact".to_vec());
}

use std::collections::HashMap;

use serde_json::Value;
use timber::payload::encoded_len;
use timber::api::{
    high_watermark_header, parse_high_watermark, ApiClient, BodyError, Message, MessageMetadata,
    MessageResponse, PartitionInfo, RawMessage, TopicId, TopicInfo,
};

fn json(raw: &str) -> Value {
    serde_json::from_str(raw).unwrap()
}

fn number(value: &Value, field: &str) -> Option<usize> {
    value.get(field).and_then(Value::as_u64).map(|n| n as usize)
}

fn string(value: &Value, field: &str) -> String {
    value.get(field).and_then(Value::as_str).unwrap().to_string()
}

fn metadata(timestamp: i64) -> MessageMetadata {
    MessageMetadata {
        timestamp,
        headers: HashMap::from([("source".to_string(), "k6-test".to_string())]),
    }
}

fn message(partition: usize, offset: usize, payload: &[u8]) -> Message {
    Message {
        partition,
        offset,
        payload: payload.to_vec(),
        metadata: metadata(7),
    }
}

fn raw(partition: Option<usize>, payload: &str) -> RawMessage {
    RawMessage {
        partition,
        offset: 12,
        payload: payload.to_string(),
        metadata: metadata(9),
    }
}

fn client() -> ApiClient {
    ApiClient::new("https://host/api/accounts/123".to_string(), reqwest::Client::new())
}

#[test]
fn test_serde_topic_info() {
    let value = json(
        r#"{"id":"09c70696-de94-495e-b77c-8f3241d0c3b3","name":"test","partition_count":15,"retention_seconds":300,"status":"ACTIVE","created_at":"2025-04-01T21:35:09.310Z","updated_at":"2025-04-02T20:57:25.958Z"}"#,
    );
    let topic_info = TopicInfo {
        id: TopicId(string(&value, "id")),
        name: string(&value, "name"),
        partition_count: number(&value, "partition_count").unwrap(),
        retention_seconds: value.get("retention_seconds").and_then(Value::as_u64).unwrap(),
    };
    assert_eq!(
        topic_info.id,
        TopicId(String::from("09c70696-de94-495e-b77c-8f3241d0c3b3"))
    );
    assert_eq!(topic_info.name, "test");
    assert_eq!(topic_info.partition_count, 15);
    assert_eq!(topic_info.retention_seconds, 300);
}

#[test]
fn test_serde_topic_partition_info() {
    let value = json(
        r#"{"id":1,"high_watermark":1318765,"retention_seconds":300,"percent_full":0.000024576}"#,
    );
    let partition_info = PartitionInfo {
        id: number(&value, "id").unwrap(),
        high_watermark: number(&value, "high_watermark").unwrap(),
    };
    assert_eq!(partition_info.id, 1);
    assert_eq!(partition_info.high_watermark, 1318765);
}

#[test]
fn test_serde_message() {
    let value = json(
        r#"{"offset":1318687,"payload":"c28geW91J3ZlIGZvdW5kIG1lLi4uCg==","metadata":{"timestamp":1744760398,"headers":{"source":"k6-test","contentType":"text/plain","timestamp":"1744760396632"}}}"#,
    );
    let meta = value.get("metadata").unwrap();
    let mut headers = HashMap::new();
    for (key, header) in meta.get("headers").and_then(Value::as_object).unwrap() {
        headers.insert(key.clone(), header.as_str().unwrap().to_string());
    }
    let message = Message::deserialize(RawMessage {
        partition: number(&value, "partition"),
        offset: number(&value, "offset").unwrap(),
        payload: string(&value, "payload"),
        metadata: MessageMetadata {
            timestamp: meta.get("timestamp").and_then(Value::as_i64).unwrap(),
            headers,
        },
    })
    .unwrap();
    assert_eq!(message.offset, 1318687);
    assert_eq!(message.metadata.timestamp, 1744760398);
    assert_eq!(message.payload, b"so you've found me...\n".to_vec());
    assert_eq!(message.partition, 0);
    assert_eq!(message.metadata.headers.len(), 3);
}

#[test]
fn a_named_partition_is_kept() {
    let message = Message::deserialize(raw(Some(4), "aGk=")).unwrap();
    assert_eq!(message.partition, 4);
    assert_eq!(message.offset, 12);
    assert_eq!(message.payload, b"hi".to_vec());
    assert_eq!(message.metadata.timestamp, 9);
}

#[test]
fn a_payload_that_is_not_base64_is_refused() {
    let text = |payload: &str| Message::deserialize(raw(None, payload)).unwrap_err().message;
    assert_eq!(
        text("a?=="),
        "Failed to decode base64: Invalid symbol 63, offset 1."
    );
    assert_eq!(text("aGk"), "Failed to decode base64: Invalid padding");
    assert_eq!(
        text("aGl="),
        "Failed to decode base64: Invalid last symbol 108, offset 2."
    );
    assert!(text("a").starts_with("Failed to decode base64: "));
}

#[test]
fn a_decoded_payload_becomes_the_message() {
    let ok = Message::with_decoded_payload(None, 3, metadata(1), Ok(vec![1, 2]));
    assert_eq!(ok.unwrap().payload, vec![1, 2]);
    let err = Message::with_decoded_payload(Some(1), 3, metadata(1), Err("why".to_string()));
    assert_eq!(err.unwrap_err().message, "Failed to decode base64: why");
}

#[test]
fn a_message_is_written_without_its_partition() {
    let message = message(4, 17, b"so you've found me...\n");
    let written = message.serialize();
    assert_eq!(written.offset, 17);
    assert_eq!(written.payload, "c28geW91J3ZlIGZvdW5kIG1lLi4uCg==");
    assert_eq!(written.metadata.timestamp, 7);
    assert_eq!(message.with_encoded_payload("x".to_string()).payload, "x");
}

#[test]
fn a_written_message_reads_back() {
    let payloads: [&[u8]; 5] = [b"", b"a", b"ab", b"abc", &[0, 255, 13, 10, 200]];
    for payload in payloads {
        let message = message(4, 17, payload);
        let written = message.serialize();
        let read = Message::deserialize(RawMessage {
            partition: Some(2),
            offset: written.offset,
            payload: written.payload.clone(),
            metadata: written.metadata.clone(),
        })
        .unwrap();
        assert_eq!(read.partition, 2);
        assert_eq!(read.offset, 17);
        assert_eq!(read.payload, payload.to_vec());
        assert_eq!(read.metadata.headers, message.metadata.headers);
        assert_eq!(read.serialize().payload, written.payload);
    }
}

#[test]
fn a_read_message_is_written_as_it_came() {
    for payload in ["", "YQ==", "YWI=", "YWJj", "AP8NCsg="] {
        let raw = raw(Some(3), payload);
        let read = Message::deserialize(raw.clone()).unwrap();
        assert_eq!(encoded_len(read.payload.len()), Some(payload.len()));
        let written = read.serialize();
        assert_eq!(written.offset, raw.offset);
        assert_eq!(written.payload, payload);
        assert_eq!(written.metadata.timestamp, raw.metadata.timestamp);
        assert_eq!(written.metadata.headers, raw.metadata.headers);
    }
}

#[test]
fn addresses() {
    let client = client();
    assert_eq!(client.list_topics_url(), "https://host/api/accounts/123/topics");
    assert_eq!(
        client.get_topic_url("test"),
        "https://host/api/accounts/123/topics/test"
    );
    assert_eq!(
        client.get_messages_url("test", 0, 1318687, 1000),
        "https://host/api/accounts/123/topics/test/partitions/0/messages?offset=1318687&maxMessages=1000"
    );
    assert_eq!(
        client.get_messages_url("test", usize::MAX, 10, 9),
        format!(
            "https://host/api/accounts/123/topics/test/partitions/{}/messages?offset={}&maxMessages={}",
            usize::MAX,
            10,
            9
        )
    );
}

#[test]
fn different_requests_have_different_addresses() {
    let client = client();
    let urls = [
        client.get_messages_url("t", 1, 11, 1),
        client.get_messages_url("t", 11, 1, 1),
        client.get_messages_url("t", 1, 1, 11),
        client.get_messages_url("t", 1, 1, 1),
    ];
    for i in 0..urls.len() {
        for j in 0..i {
            assert_ne!(urls[i], urls[j]);
        }
    }
}

#[test]
fn a_cloned_client_has_the_same_endpoint() {
    let client = client();
    assert_eq!(client.clone().list_topics_url(), client.list_topics_url());
}

#[test]
fn high_watermarks() {
    assert_eq!(high_watermark_header(), "X-High-Water-Mark");
    assert_eq!(parse_high_watermark(Some("1318765")), Some(1318765));
    assert_eq!(parse_high_watermark(Some("+7")), Some(7));
    assert_eq!(parse_high_watermark(Some("007")), Some(7));
    assert_eq!(parse_high_watermark(None), None);
    for wrong in ["", "+", "-1", " 1", "1 ", "1_000", "++1", "1+", "\u{661}"] {
        assert_eq!(parse_high_watermark(Some(wrong)), None);
        assert!(wrong.parse::<usize>().is_err());
    }
    let most = format!("{}", usize::MAX);
    assert_eq!(parse_high_watermark(Some(&most)), Some(usize::MAX));
    let more = format!("{}0", usize::MAX);
    assert_eq!(parse_high_watermark(Some(&more)), None);
    assert_eq!(parse_high_watermark(Some("18446744073709551616")), None);
}

fn parse(line: &str) -> Result<Message, String> {
    let value: Value = serde_json::from_str(line).map_err(|e| e.to_string())?;
    Message::deserialize(RawMessage {
        partition: number(&value, "partition"),
        offset: number(&value, "offset").ok_or("no offset".to_string())?,
        payload: string(&value, "payload"),
        metadata: metadata(0),
    })
    .map_err(|e| e.message)
}

#[test]
fn a_body_is_read_line_by_line() {
    let body = "{\"offset\":5,\"payload\":\"YQ==\"}\r\n\n  \u{a0}\n{\"offset\":6,\"payload\":\"Yg==\"}";
    let response = MessageResponse::read(3, 99, body.as_bytes(), parse).unwrap();
    assert_eq!(response.partition, 3);
    assert_eq!(response.high_watermark, 99);
    let offsets: Vec<usize> = response.messages.iter().map(|m| m.offset).collect();
    assert_eq!(offsets, vec![5, 6]);
    assert_eq!(response.messages[0].payload, b"a".to_vec());
    assert_eq!(response.messages[1].payload, b"b".to_vec());
}

#[test]
fn an_empty_body_has_no_messages() {
    let response = MessageResponse::read(0, 0, b"", parse).unwrap();
    assert!(response.messages.is_empty());
    let response = MessageResponse::read(0, 0, b"\n \n\t\r\n", parse).unwrap();
    assert!(response.messages.is_empty());
}

#[test]
fn the_first_line_that_cannot_be_read_decides() {
    let ok = b"{\"offset\":5,\"payload\":\"YQ==\"}\n".to_vec();
    let bad = b"{\"offset\":5,\"payload\":\"Y?==\"}\n".to_vec();
    let missing = b"{\"payload\":\"YQ==\"}\n".to_vec();
    let invalid = vec![0xff, b'\n'];
    let read = |parts: &[&Vec<u8>]| {
        let mut body: Vec<u8> = Vec::new();
        for part in parts {
            body.extend_from_slice(part);
        }
        MessageResponse::read(0, 0, &body, parse)
    };
    assert!(matches!(read(&[&ok, &bad, &missing]), Err(BodyError::Message(e))
        if e == "Failed to decode base64: Invalid symbol 63, offset 1."));
    assert!(matches!(read(&[&ok, &missing, &invalid]), Err(BodyError::Message(e)) if e == "no offset"));
    assert!(matches!(read(&[&ok, &invalid, &bad]), Err(BodyError::InvalidUtf8)));
    assert_eq!(read(&[&ok, &ok]).unwrap().messages.len(), 2);
}

#[test]
fn outcomes_are_collected_in_order() {
    let good: Vec<Result<Message, u8>> = vec![Ok(message(0, 1, b"x")), Ok(message(0, 2, b"y"))];
    let response = MessageResponse::collect(8, 9, good, true).unwrap();
    assert_eq!(response.messages[1].offset, 2);
    let good: Vec<Result<Message, u8>> = vec![Ok(message(0, 1, b"x"))];
    assert!(matches!(
        MessageResponse::collect(8, 9, good, false),
        Err(BodyError::InvalidUtf8)
    ));
    let bad: Vec<Result<Message, u8>> = vec![Ok(message(0, 1, b"x")), Err(3), Err(4)];
    assert!(matches!(
        MessageResponse::collect(8, 9, bad, false),
        Err(BodyError::Message(3))
    ));
}

#[test]
fn the_length_of_a_payload_in_base64() {
    assert_eq!(encoded_len(0), Some(0));
    assert_eq!(encoded_len(1), Some(4));
    assert_eq!(encoded_len(3), Some(4));
    assert_eq!(encoded_len(4), Some(8));
    assert_eq!(encoded_len(22), Some(message(0, 0, &[7; 22]).serialize().payload.len()));
    assert_eq!(encoded_len(isize::MAX as usize), None);
    assert_eq!(encoded_len(usize::MAX), None);
}

#[test]
fn joined_bodies_give_both_responses() {
    let a = "{\"offset\":9,\"payload\":\"YQ==\"}\n{\"offset\":5,\"payload\":\"YQ==\"}";
    let b = "{\"offset\":5,\"payload\":\"YQ==\"}\n";
    let offsets = |body: &str| -> Vec<usize> {
        let response = MessageResponse::read(3, 99, body.as_bytes(), parse).unwrap();
        assert_eq!(response.partition, 3);
        assert_eq!(response.high_watermark, 99);
        response.messages.iter().map(|m| m.offset).collect()
    };
    assert_eq!(offsets(a), vec![9, 5]);
    assert_eq!(offsets(b), vec![5]);
    assert_eq!(offsets(&format!("{}\n{}", a, b)), vec![9, 5, 5]);
    assert_eq!(offsets(&format!("\n{}\n \r\n\n{}  ", a, b)), vec![9, 5, 5]);
}

#[test]
fn a_line_feed_behind_a_carriage_return_changes_no_message() {
    let offsets = |body: &str| -> Vec<usize> {
        let response = MessageResponse::read(3, 99, body.as_bytes(), parse).unwrap();
        response.messages.iter().map(|m| m.offset).collect()
    };
    let a = "{\"offset\":9,\"payload\":\"YQ==\"}\n{\"offset\":5,\"payload\":\"YQ==\"}\r";
    let b = "{\"offset\":6,\"payload\":\"YQ==\"}\r";
    assert_eq!(offsets(a), vec![9, 5]);
    assert_eq!(offsets(&format!("{}\n", a)), vec![9, 5]);
    assert_eq!(offsets(&format!("{}\n{}", a, b)), vec![9, 5, 6]);
    assert_eq!(offsets("\r"), Vec::<usize>::new());
    assert_eq!(offsets("\r\n"), Vec::<usize>::new());
    for broken in ["{\r", "{\r\n"] {
        let res = MessageResponse::read(3, 99, broken.as_bytes(), parse);
        assert!(matches!(res, Err(BodyError::Message(_))));
    }
}

#[test]
fn a_line_feed_takes_a_carriage_return_from_the_last_text() {
    let lines = |line: &str| -> Result<Message, String> { Err(line.to_string()) };
    let seen = |body: &[u8]| match MessageResponse::read(0, 0, body, lines) {
        Err(BodyError::Message(line)) => line,
        _ => panic!(),
    };
    assert_eq!(seen(b"ab\r"), "ab\r");
    assert_eq!(seen(b"ab\r\n"), "ab");
    assert_eq!(seen(b"ab\r\r\n"), "ab\r");
}

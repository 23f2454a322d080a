use std::collections::HashMap;

use timber::api::{ApiClient, Message, MessageMetadata, MessageResponse, TopicId, TopicInfo};
use timber::connection::{Format, RawStringFormat};
use timber::source::{
    Action, Consumer, ControlMessage, Event, Fetch, SourceFinishType, StopMode, TimberFunc,
    BATCH_SIZE, FLUSH_INTERVAL_MILLIS,
};

fn response(partition: usize, offsets: &[usize]) -> MessageResponse {
    MessageResponse {
        partition,
        high_watermark: 100,
        messages: offsets
            .iter()
            .map(|offset| Message {
                partition: 0,
                offset: *offset,
                payload: vec![*offset as u8],
                metadata: MessageMetadata {
                    timestamp: 0,
                    headers: HashMap::new(),
                },
            })
            .collect(),
    }
}

fn fetch(partition: usize, offset: usize) -> Action {
    Action::Fetch(Fetch { partition, offset, batch_size: 1000 })
}

fn func() -> TimberFunc {
    TimberFunc::new(
        "orders".to_string(),
        ApiClient::new("http://host".to_string(), reqwest::Client::new()),
    )
}

#[test]
fn the_operator_knows_its_topic() {
    let func = func();
    assert_eq!(func.name(), "timber-orders");
    assert_eq!(func.topic(), "orders");
    assert_eq!(func.api_client().list_topics_url(), "http://host/topics");
    assert!(matches!(
        func.deserializer_format(),
        Format::RawString(RawStringFormat {})
    ));
    assert_eq!(BATCH_SIZE, 1000);
    assert_eq!(FLUSH_INTERVAL_MILLIS, 50);
}

#[test]
fn every_partition_is_asked_for_first() {
    let info = TopicInfo {
        id: TopicId("id".to_string()),
        name: "orders".to_string(),
        partition_count: 3,
        retention_seconds: 300,
    };
    let (consumer, fetches) = func().start(&info);
    assert_eq!(
        fetches,
        vec![
            Fetch { partition: 0, offset: 0, batch_size: 1000 },
            Fetch { partition: 1, offset: 0, batch_size: 1000 },
            Fetch { partition: 2, offset: 0, batch_size: 1000 },
        ]
    );
    assert_eq!(consumer.offset(2), Some(0));
    assert_eq!(consumer.offset(3), None);
    assert_eq!(consumer.payload(), None);
    assert!(Consumer::start(0).1.is_empty());
}

#[test]
fn a_response_is_handed_over_in_order() {
    for flushes in [[false, false, false], [true, false, true], [true, true, true]] {
        let mut consumer = Consumer::start(2).0;
        let mut action = consumer.step(Event::Response(response(1, &[4, 5, 9])));
        let mut payloads: Vec<Vec<u8>> = Vec::new();
        for should_flush in flushes {
            assert_eq!(action, Action::Deserialize);
            payloads.push(consumer.payload().unwrap().to_vec());
            action = consumer.step(Event::Deserialized { should_flush });
            if should_flush {
                assert_eq!(action, Action::Flush);
                action = consumer.step(Event::Flushed);
            }
        }
        assert_eq!(payloads, vec![vec![4], vec![5], vec![9]]);
        assert_eq!(action, fetch(1, 9));
        assert_eq!(consumer.offset(1), Some(9));
        assert_eq!(consumer.offset(0), Some(0));
    }
}

#[test]
fn an_offset_is_remembered_after_the_flush() {
    let mut consumer = Consumer::start(1).0;
    consumer.step(Event::Response(response(0, &[4])));
    consumer.step(Event::Deserialized { should_flush: true });
    assert_eq!(consumer.offset(0), Some(0));
    consumer.step(Event::Flushed);
    assert_eq!(consumer.offset(0), Some(4));
}

#[test]
fn an_empty_response_asks_again_from_the_same_offset() {
    let mut consumer = Consumer::start(1).0;
    consumer.step(Event::Response(response(0, &[4])));
    assert_eq!(consumer.step(Event::Deserialized { should_flush: false }), fetch(0, 4));
    assert_eq!(consumer.step(Event::Response(response(0, &[]))), fetch(0, 4));
}

#[test]
fn what_cannot_happen_is_not_accepted() {
    let mut consumer = Consumer::start(1).0;
    assert!(consumer.can_accept(&Event::Response(response(0, &[]))));
    assert!(!consumer.can_accept(&Event::Response(response(1, &[]))));
    assert!(consumer.can_accept(&Event::Response(response(1, &[3]))));
    assert!(consumer.can_accept(&Event::FetchFailed));
    assert!(!consumer.can_accept(&Event::Flushed));
    assert!(!consumer.can_accept(&Event::Deserialized { should_flush: false }));
    consumer.step(Event::Response(response(0, &[4])));
    assert!(!consumer.can_accept(&Event::FetchFailed));
    assert!(!consumer.can_accept(&Event::Flushed));
    assert!(!consumer.can_accept(&Event::Tick { should_flush: true }));
    assert!(consumer.can_accept(&Event::Deserialized { should_flush: false }));
    consumer.step(Event::Deserialized { should_flush: true });
    assert!(consumer.can_accept(&Event::Flushed));
    assert!(!consumer.can_accept(&Event::Deserialized { should_flush: true }));
}

#[test]
fn a_failed_request_is_not_repeated() {
    let mut consumer = Consumer::start(1).0;
    assert_eq!(consumer.step(Event::FetchFailed), Action::Wait);
}

#[test]
fn a_tick_flushes_when_the_collector_wants_it() {
    let mut consumer = Consumer::start(1).0;
    assert_eq!(consumer.step(Event::Tick { should_flush: false }), Action::Wait);
    assert_eq!(consumer.step(Event::Tick { should_flush: true }), Action::Flush);
    assert!(!consumer.can_accept(&Event::Tick { should_flush: false }));
    assert_eq!(consumer.step(Event::Flushed), Action::Wait);
    assert!(consumer.can_accept(&Event::Tick { should_flush: false }));
}

#[test]
fn a_source_stops_as_it_is_told() {
    for (mode, finish) in [
        (StopMode::Graceful, SourceFinishType::Graceful),
        (StopMode::Immediate, SourceFinishType::Immediate),
    ] {
        let mut consumer = Consumer::start(1).0;
        assert_eq!(consumer.step(Event::Control(None)), Action::Wait);
        assert_eq!(
            consumer.step(Event::Control(Some(ControlMessage::Other))),
            Action::Wait
        );
        assert_eq!(
            consumer.step(Event::Control(Some(ControlMessage::Stop { mode }))),
            Action::Finish(finish)
        );
        assert!(!consumer.can_accept(&Event::Control(None)));
        assert!(!consumer.can_accept(&Event::FetchFailed));
    }
}

#[test]
fn every_response_leads_to_one_request() {
    let mut consumer = Consumer::start(2).0;
    let mut requests = [0, 0];
    let mut responses = [0, 0];
    for (partition, offsets) in [(0, vec![1, 2]), (1, vec![7]), (0, vec![]), (0, vec![3]), (1, vec![])] {
        responses[partition] += 1;
        let mut action = consumer.step(Event::Response(response(partition, &offsets)));
        while action == Action::Deserialize {
            action = consumer.step(Event::Deserialized { should_flush: false });
        }
        if let Action::Fetch(fetch) = action {
            requests[fetch.partition] += 1;
            assert_eq!(Some(fetch.offset), consumer.offset(fetch.partition));
            assert_eq!(fetch.batch_size, 1000);
        }
        consumer.step(Event::FetchFailed);
        consumer.step(Event::Tick { should_flush: false });
    }
    assert_eq!(requests, responses);
    assert_eq!(consumer.offset(0), Some(3));
    assert_eq!(consumer.offset(1), Some(7));
}

#[test]
fn a_response_of_an_unknown_partition_makes_it_known() {
    let mut consumer = Consumer::start(1).0;
    consumer.step(Event::Response(response(5, &[8])));
    assert_eq!(consumer.step(Event::Deserialized { should_flush: false }), fetch(5, 8));
    assert!(consumer.can_accept(&Event::Response(response(5, &[]))));
}

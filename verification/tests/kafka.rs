use telemetry_bridge::kafka::on_handled;
use telemetry_bridge::kafka::on_item;
use telemetry_bridge::kafka::produce_outcome;
use telemetry_bridge::kafka::read_payload;
use telemetry_bridge::kafka::ConsumeStep;
use telemetry_bridge::kafka::KafkaSettings;
use telemetry_bridge::kafka::StreamItem;
use telemetry_bridge::kafka::QUEUE_TIMEOUT_SECS;
use telemetry_bridge::kafka::RECORD_KEY;

fn settings() -> KafkaSettings {
    KafkaSettings {
        brokers: "kafka-1:9093,kafka-2:9093".to_string(),
        group_id: "ingest".to_string(),
        username: "bridge".to_string(),
        password: "not-for-the-log".to_string(),
    }
}

/// Runs the consume loop over recorded stream items with a handler, as the
/// caller of the library does over the live stream.
fn consume<'a, F>(items: Vec<StreamItem<'a, String>>, mut handler: F) -> Result<(), String>
where
    F: FnMut(&str) -> Result<(), String>,
{
    let mut items = items.into_iter();
    let mut step = ConsumeStep::Await;
    loop {
        step = match step {
            ConsumeStep::Await => on_item(items.next().unwrap_or(StreamItem::Closed)),
            ConsumeStep::Handle(inbound) => on_handled(handler(&inbound.text)),
            ConsumeStep::Stop(result) => return result,
        };
    }
}

#[test]
fn the_consumer_gets_the_session_and_its_own_parameters() {
    let config = settings().consumer_config();
    assert_eq!(config.get("bootstrap.servers"), Some("kafka-1:9093,kafka-2:9093"));
    assert_eq!(config.get("group.id"), Some("ingest"));
    assert_eq!(config.get("enable.partition.eof"), Some("false"));
    assert_eq!(config.get("session.timeout.ms"), Some("6000"));
    assert_eq!(config.get("enable.auto.commit"), Some("true"));
    assert_eq!(config.get("security.protocol"), Some("sasl_ssl"));
    assert_eq!(config.get("sasl.mechanisms"), Some("SCRAM-SHA-256"));
    assert_eq!(config.get("sasl.username"), Some("bridge"));
    assert_eq!(config.get("sasl.password"), Some("not-for-the-log"));
    assert_eq!(config.config_map().len(), 9);
}

#[test]
fn the_producer_gets_the_session_parameters_only() {
    let config = settings().producer_config();
    assert_eq!(config.get("bootstrap.servers"), Some("kafka-1:9093,kafka-2:9093"));
    assert_eq!(config.get("security.protocol"), Some("sasl_ssl"));
    assert_eq!(config.get("sasl.mechanisms"), Some("SCRAM-SHA-256"));
    assert_eq!(config.get("sasl.username"), Some("bridge"));
    assert_eq!(config.get("sasl.password"), Some("not-for-the-log"));
    assert_eq!(config.get("group.id"), None);
    assert_eq!(config.get("enable.auto.commit"), None);
    assert_eq!(config.config_map().len(), 5);
}

#[test]
fn a_payload_of_text_is_read_as_it_is() {
    let inbound = read_payload(Some("Hello NicoNicoNii".as_bytes()));
    assert_eq!(inbound.text, "Hello NicoNicoNii");
    assert!(!inbound.undecodable);
    let inbound = read_payload(Some("μg/m³".as_bytes()));
    assert_eq!(inbound.text, "μg/m³");
    assert!(!inbound.undecodable);
}

#[test]
fn a_record_without_payload_reads_as_empty_text() {
    let inbound = read_payload(None);
    assert_eq!(inbound.text, "");
    assert!(!inbound.undecodable);
    let inbound = read_payload(Some(&[]));
    assert_eq!(inbound.text, "");
    assert!(!inbound.undecodable);
}

#[test]
fn a_payload_that_is_not_utf8_reads_as_empty_text_and_is_flagged() {
    for bytes in [&[0xff_u8][..], &[b'a', 0xc3][..], &[0xed, 0xa0, 0x80][..], &[0xc0, 0xaf][..]] {
        let inbound = read_payload(Some(bytes));
        assert_eq!(inbound.text, "");
        assert!(inbound.undecodable);
    }
}

#[test]
fn a_record_goes_to_the_handler() {
    match on_item::<String>(StreamItem::Record(Some(b"payload"))) {
        ConsumeStep::Handle(inbound) => {
            assert_eq!(inbound.text, "payload");
            assert!(!inbound.undecodable);
        }
        _ => panic!("the record is handled"),
    }
}

#[test]
fn the_end_of_the_stream_ends_the_loop_with_success() {
    match on_item::<String>(StreamItem::Closed) {
        ConsumeStep::Stop(result) => assert_eq!(result, Ok(())),
        _ => panic!("the loop stops"),
    }
}

#[test]
fn an_error_of_the_client_ends_the_loop_with_that_error() {
    match on_item(StreamItem::Failed("broker transport failure".to_string())) {
        ConsumeStep::Stop(result) => assert_eq!(result, Err("broker transport failure".to_string())),
        _ => panic!("the loop stops"),
    }
}

#[test]
fn the_handler_decides_whether_the_loop_goes_on() {
    assert!(matches!(on_handled::<String>(Ok(())), ConsumeStep::Await));
    match on_handled(Err("stop".to_string())) {
        ConsumeStep::Stop(result) => assert_eq!(result, Err("stop".to_string())),
        _ => panic!("the loop stops"),
    }
}

#[test]
fn consuming_hands_every_record_to_the_handler_in_order() {
    let mut consumed = Vec::new();
    let result = consume(
        vec![
            StreamItem::Record(Some(b"Hello NicoNicoNii")),
            StreamItem::Record(None),
            StreamItem::Record(Some(&[0xff])),
            StreamItem::Record(Some(b"last")),
        ],
        |payload| {
            consumed.push(payload.to_owned());
            Ok(())
        },
    );
    assert_eq!(result, Ok(()));
    assert_eq!(consumed, vec!["Hello NicoNicoNii", "", "", "last"]);
}

#[test]
fn a_failing_handler_stops_consuming_at_once() {
    let mut consumed = Vec::new();
    let result = consume(
        vec![
            StreamItem::Record(Some(b"one")),
            StreamItem::Record(Some(b"two")),
            StreamItem::Record(Some(b"three")),
        ],
        |payload| {
            consumed.push(payload.to_owned());
            if payload == "two" {
                Err("no more".to_string())
            } else {
                Ok(())
            }
        },
    );
    assert_eq!(result, Err("no more".to_string()));
    assert_eq!(consumed, vec!["one", "two"]);
}

#[test]
fn a_failing_client_stops_consuming_before_the_handler() {
    let mut consumed = Vec::new();
    let result = consume(
        vec![
            StreamItem::Record(Some(b"one")),
            StreamItem::Failed("partition lost".to_string()),
            StreamItem::Record(Some(b"never")),
        ],
        |payload| {
            consumed.push(payload.to_owned());
            Ok(())
        },
    );
    assert_eq!(result, Err("partition lost".to_string()));
    assert_eq!(consumed, vec!["one"]);
}

#[test]
fn producing_succeeds_when_the_log_acknowledges() {
    let acknowledged: Result<(i32, i64), (String, Vec<u8>)> = Ok((0, 41));
    assert_eq!(produce_outcome(acknowledged), Ok(()));
}

#[test]
fn producing_fails_with_the_transport_error_alone() {
    let refused: Result<(i32, i64), (String, Vec<u8>)> =
        Err(("queue full".to_string(), b"the record".to_vec()));
    assert_eq!(produce_outcome(refused), Err("queue full".to_string()));
}

#[test]
fn records_are_keyed_and_never_wait_for_the_queue() {
    assert_eq!(RECORD_KEY, "sensors");
    assert_eq!(QUEUE_TIMEOUT_SECS, 0);
}

#[test]
fn test_consume() {
    let test_message = "Hello NicoNicoNii";

    let mut consumed_message = None;

    consume(vec![StreamItem::Record(Some(test_message.as_bytes()))], |payload| {
        consumed_message = Some(payload.to_owned());
        Ok(())
    })
    .expect("Failed to consume message");

    assert_eq!(
        consumed_message.map(|s| s.to_owned()),
        Some(test_message.to_owned()),
        "Consumed message does not match produced message"
    );
}

use telemetry_bridge::orchestrator::Directive;
use telemetry_bridge::orchestrator::Orchestrator;
use telemetry_bridge::orchestrator::Phase;
use telemetry_bridge::orchestrator::Report;
use telemetry_bridge::reading::Field;
use telemetry_bridge::reading::ValidationError;

const GOOD: &str = r#"{"sensor":"SPS30","value":"42.0","unit":"μg/m³"}"#;
const NOT_NUMERIC: &str = r#"{"sensor":"SPS30","value":"not-a-number","unit":"μg/m³"}"#;
const NO_UNIT: &str = r#"{"sensor":"SPS30","value":"42.0"}"#;

/// A sink that keeps what it is given and refuses what it is told to refuse.
struct Sink {
    stored: Vec<String>,
    refuse: Vec<String>,
}

impl Sink {
    fn persist(&mut self, payload: String) -> Result<(), String> {
        if self.refuse.contains(&payload) {
            Err(format!("refused: {}", payload))
        } else {
            self.stored.push(payload);
            Ok(())
        }
    }
}

/// Runs messages through the orchestrator as the ingestion loop does, and
/// returns the log.
fn ingest(orchestrator: &Orchestrator, sink: &mut Sink, payloads: &[&str]) -> Vec<String> {
    let mut log = Vec::new();
    for payload in payloads {
        match orchestrator.on_message(payload) {
            Directive::Persist(data) => match orchestrator.on_persisted(sink.persist(data.to_payload())) {
                Report::Stored => log.push("stored".to_string()),
                Report::Dropped(error) => log.push(error),
            },
            Directive::Reject(error) => log.push(format!("{:?}", error)),
            Directive::Ignore => log.push("ignored".to_string()),
        }
    }
    log
}

#[test]
fn the_loop_starts_running() {
    assert_eq!(Orchestrator::new().phase(), Phase::Running);
}

#[test]
fn a_reading_is_persisted() {
    let orchestrator = Orchestrator::new();
    match orchestrator.on_message(GOOD) {
        Directive::Persist(data) => {
            assert_eq!(data.sensor(), "SPS30");
            assert_eq!(data.value().as_str(), "42.0");
            assert_eq!(data.unit(), "μg/m³");
        }
        _ => panic!("the reading is persisted"),
    }
    assert_eq!(orchestrator.phase(), Phase::Running);
}

#[test]
fn bad_messages_are_dropped_and_the_next_good_one_is_processed() {
    let orchestrator = Orchestrator::new();
    let mut sink = Sink { stored: Vec::new(), refuse: Vec::new() };
    let log = ingest(&orchestrator, &mut sink, &[NOT_NUMERIC, NO_UNIT, "garbage", GOOD]);
    assert_eq!(
        log,
        vec![
            format!("{:?}", ValidationError::NotNumeric),
            format!("{:?}", ValidationError::MissingField(Field::Unit)),
            format!("{:?}", ValidationError::Malformed),
            "stored".to_string(),
        ]
    );
    assert_eq!(sink.stored, vec![r#"{"sensor":"SPS30","unit":"μg/m³","value":"42.0"}"#]);
    assert_eq!(orchestrator.phase(), Phase::Running);
}

#[test]
fn a_reading_that_the_sink_refuses_is_dropped_and_the_loop_goes_on() {
    let first = r#"{"sensor":"a","value":"1","unit":"u"}"#;
    let second = r#"{"sensor":"b","value":"2","unit":"u"}"#;
    let orchestrator = Orchestrator::new();
    let mut sink = Sink {
        stored: Vec::new(),
        refuse: vec![r#"{"sensor":"a","unit":"u","value":"1"}"#.to_string()],
    };
    let log = ingest(&orchestrator, &mut sink, &[first, second]);
    assert_eq!(
        log,
        vec![r#"refused: {"sensor":"a","unit":"u","value":"1"}"#.to_string(), "stored".to_string()]
    );
    assert_eq!(sink.stored, vec![r#"{"sensor":"b","unit":"u","value":"2"}"#]);
    assert_eq!(orchestrator.phase(), Phase::Running);
}

#[test]
fn the_sinks_answer_is_reported_as_it_is() {
    let orchestrator = Orchestrator::new();
    assert!(matches!(orchestrator.on_persisted::<String>(Ok(())), Report::Stored));
    match orchestrator.on_persisted(Err(7)) {
        Report::Dropped(error) => assert_eq!(error, 7),
        Report::Stored => panic!("the sink refused"),
    }
    assert_eq!(orchestrator.phase(), Phase::Running);
}

#[test]
fn the_end_of_the_source_stops_the_loop_and_is_its_result() {
    let mut orchestrator = Orchestrator::new();
    assert_eq!(orchestrator.on_source_ended::<String>(Ok(())), Ok(()));
    assert_eq!(orchestrator.phase(), Phase::Stopped);

    let mut orchestrator = Orchestrator::new();
    assert_eq!(
        orchestrator.on_source_ended(Err("transport closed".to_string())),
        Err("transport closed".to_string())
    );
    assert_eq!(orchestrator.phase(), Phase::Stopped);
}

#[test]
fn a_stopped_loop_takes_no_message() {
    let mut orchestrator = Orchestrator::new();
    orchestrator.shutdown();
    assert_eq!(orchestrator.phase(), Phase::Stopped);
    assert!(matches!(orchestrator.on_message(GOOD), Directive::Ignore));
    assert!(matches!(orchestrator.on_message(NO_UNIT), Directive::Ignore));
    assert!(matches!(orchestrator.on_persisted::<String>(Ok(())), Report::Stored));
    assert_eq!(orchestrator.phase(), Phase::Stopped);
    orchestrator.shutdown();
    assert_eq!(orchestrator.phase(), Phase::Stopped);
}

//! The durable-log side of the bridge: how a client of the log is
//! configured, what a delivered record's payload is taken to say, and when
//! the consume loop goes on or stops.
//!
//! The session itself (creating the clients, joining a group, awaiting
//! records and acknowledgements) is the caller's; what is decided about it
//! is decided here.
use rdkafka::config::ClientConfig;
use rdkafka::message::FromBytes;
use vstd::prelude::*;
use vstd::utf8::*;

verus! {

/// `rdkafka::config::ClientConfig`: the parameters from which a client of the
/// log is created. Contracts see its parameters through `config_entries`.
#[verifier::external_type_specification]
#[verifier::external_body]
pub struct ExClientConfig(ClientConfig);

/// The parameters that were set in a client configuration, by key.
pub uninterp spec fn config_entries(config: ClientConfig) -> Map<Seq<char>, Seq<char>>;

/// No parameter at all.
pub open spec fn no_entries() -> Map<Seq<char>, Seq<char>> {
    Map::empty()
}

/// `ClientConfig::new`: a configuration in which no parameter is set.
#[verifier::external_body]
fn empty_config() -> (config: ClientConfig)
    ensures
        config_entries(config) == no_entries(),
{
    ClientConfig::new()
}

/// `ClientConfig::set`: sets the parameter `key` to `value`, in place of any
/// value it had, and leaves every other parameter as it was.
#[verifier::external_body]
fn set_entry(config: &mut ClientConfig, key: &str, value: &str)
    ensures
        config_entries(*final(config)) == config_entries(*old(config)).insert(key@, value@),
{
    config.set(key, value);
}

/// Where the log cluster is and how a client proves who it is.
pub struct KafkaSettings {
    /// The cluster's bootstrap servers: `host:port`, separated by commas.
    pub brokers: String,
    /// The consumer group that the consumer joins.
    pub group_id: String,
    /// The SASL user name.
    pub username: String,
    /// The SASL password.
    pub password: String,
}

impl KafkaSettings {
    /// The parameters that every client of the cluster gets: where to
    /// connect, and SCRAM-SHA-256 over TLS with the settings' credentials.
    pub open spec fn session_entries(self) -> Map<Seq<char>, Seq<char>> {
        no_entries().insert("bootstrap.servers"@, self.brokers@).insert(
            "security.protocol"@,
            "sasl_ssl"@,
        ).insert("sasl.mechanisms"@, "SCRAM-SHA-256"@).insert(
            "sasl.username"@,
            self.username@,
        ).insert("sasl.password"@, self.password@)
    }

    /// The parameters of the consumer: those of the session, the group, a
    /// session timeout of six seconds, offsets committed automatically, and
    /// no event at the end of a partition.
    pub open spec fn consumer_entries(self) -> Map<Seq<char>, Seq<char>> {
        self.session_entries().insert("group.id"@, self.group_id@).insert(
            "enable.partition.eof"@,
            "false"@,
        ).insert("session.timeout.ms"@, "6000"@).insert("enable.auto.commit"@, "true"@)
    }

    /// The parameters of the producer: those of the session.
    pub open spec fn producer_entries(self) -> Map<Seq<char>, Seq<char>> {
        self.session_entries()
    }

    /// A configuration that holds the session's parameters and no other.
    fn session_config(&self) -> (config: ClientConfig)
        ensures
            config_entries(config) == self.session_entries(),
    {
        let mut config = empty_config();
        set_entry(&mut config, "bootstrap.servers", self.brokers.as_str());
        set_entry(&mut config, "security.protocol", "sasl_ssl");
        set_entry(&mut config, "sasl.mechanisms", "SCRAM-SHA-256");
        set_entry(&mut config, "sasl.username", self.username.as_str());
        set_entry(&mut config, "sasl.password", self.password.as_str());
        config
    }

    /// The configuration from which the consumer is created.
    pub fn consumer_config(&self) -> (config: ClientConfig)
        ensures
            config_entries(config) == self.consumer_entries(),
    {
        let mut config = self.session_config();
        set_entry(&mut config, "group.id", self.group_id.as_str());
        set_entry(&mut config, "enable.partition.eof", "false");
        set_entry(&mut config, "session.timeout.ms", "6000");
        set_entry(&mut config, "enable.auto.commit", "true");
        config
    }

    /// The configuration from which the producer is created.
    pub fn producer_config(&self) -> (config: ClientConfig)
        ensures
            config_entries(config) == self.producer_entries(),
    {
        self.session_config()
    }
}

/// `rdkafka::message::FromBytes::from_bytes` for `str`, which is
/// `std::str::from_utf8`: the bytes as text when they are well-formed UTF-8,
/// nothing otherwise.
#[verifier::external_body]
fn text_from_bytes(bytes: &[u8]) -> (text: Option<String>)
    ensures
        text is Some <==> valid_utf8(bytes@),
        text matches Some(t) ==> t@ == decode_utf8(bytes@),
{
    <str as FromBytes>::from_bytes(bytes).ok().map(String::from)
}

/// What a record's payload is taken to say.
pub struct Inbound {
    /// The text handed to the handler.
    pub text: String,
    /// The record had a payload that is not UTF-8; the handler gets the
    /// empty text in its place, and the caller reports it.
    pub undecodable: bool,
}

/// The text that stands for a record's payload: the payload itself when it
/// is UTF-8, the empty text when the record has no payload or one that is
/// not UTF-8.
pub open spec fn payload_text(payload: Option<Seq<u8>>) -> Seq<char> {
    match payload {
        Some(bytes) if valid_utf8(bytes) => decode_utf8(bytes),
        _ => Seq::empty(),
    }
}

/// Whether a record's payload is there and is not UTF-8.
pub open spec fn payload_undecodable(payload: Option<Seq<u8>>) -> bool {
    payload matches Some(bytes) && !valid_utf8(bytes)
}

/// The bytes of a record's payload, if it has one.
pub open spec fn payload_bytes(payload: Option<&[u8]>) -> Option<Seq<u8>> {
    match payload {
        Some(bytes) => Some(bytes@),
        None => None,
    }
}

/// Reads a record's payload as text.
pub fn read_payload(payload: Option<&[u8]>) -> (inbound: Inbound)
    ensures
        inbound.text@ == payload_text(payload_bytes(payload)),
        inbound.undecodable == payload_undecodable(payload_bytes(payload)),
{
    match payload {
        None => Inbound { text: String::new(), undecodable: false },
        Some(bytes) => match text_from_bytes(bytes) {
            Some(text) => Inbound { text, undecodable: false },
            None => Inbound { text: String::new(), undecodable: true },
        },
    }
}

/// What the log client's stream hands over when it is awaited.
pub enum StreamItem<'a, E> {
    /// A record, with its payload if it has one.
    Record(Option<&'a [u8]>),
    /// The client reports an error in place of a record.
    Failed(E),
    /// The stream has ended.
    Closed,
}

/// What the consume loop does next.
pub enum ConsumeStep<E> {
    /// Run the handler on this text, await it, and report its outcome.
    Handle(Inbound),
    /// Await the next item of the stream.
    Await,
    /// Leave the loop and return this.
    Stop(Result<(), E>),
}

/// Decides on an item of the stream: a record goes to the handler, payload
/// read as text; an error of the client or the end of the stream ends the
/// loop, the first with that error and the second with success.
pub fn on_item<'a, E>(item: StreamItem<'a, E>) -> (step: ConsumeStep<E>)
    ensures
        match item {
            StreamItem::Record(payload) => step matches ConsumeStep::Handle(inbound)
                && inbound.text@ == payload_text(payload_bytes(payload))
                && inbound.undecodable == payload_undecodable(payload_bytes(payload)),
            StreamItem::Failed(error) => step == ConsumeStep::<E>::Stop(Err(error)),
            StreamItem::Closed => step == ConsumeStep::<E>::Stop(Ok(())),
        },
{
    match item {
        StreamItem::Record(payload) => ConsumeStep::Handle(read_payload(payload)),
        StreamItem::Failed(error) => ConsumeStep::Stop(Err(error)),
        StreamItem::Closed => ConsumeStep::Stop(Ok(())),
    }
}

/// Decides on the handler's outcome: success lets the loop await the next
/// item; a failure ends the loop at once and is what the loop returns. The
/// handler's failure means "stop consuming", not "skip this record".
pub fn on_handled<E>(outcome: Result<(), E>) -> (step: ConsumeStep<E>)
    ensures
        match outcome {
            Ok(_) => step == ConsumeStep::<E>::Await,
            Err(error) => step == ConsumeStep::<E>::Stop(Err(error)),
        },
{
    match outcome {
        Ok(_) => ConsumeStep::Await,
        Err(error) => ConsumeStep::Stop(Err(error)),
    }
}

/// The key under which every record is produced.
pub const RECORD_KEY: &'static str = "sensors";

/// How long, in seconds, a record may wait for room in the producer's queue:
/// not at all.
pub const QUEUE_TIMEOUT_SECS: u64 = 0;

/// What `produce` returns once the log has answered: success when the record
/// was acknowledged, and otherwise the transport's error, without the record
/// that comes back with it.
pub fn produce_outcome<D, E, R>(answer: Result<D, (E, R)>) -> (outcome: Result<(), E>)
    ensures
        match answer {
            Ok(_) => outcome == Ok::<(), E>(()),
            Err(failure) => outcome == Err::<(), E>(failure.0),
        },
{
    match answer {
        Ok(_) => Ok(()),
        Err((error, _)) => Err(error),
    }
}

} // verus!

//! The verified core of a telemetry ingestion bridge.
//!
//! Readings travel as small JSON payloads from sensors through a broker and
//! a durable log into a store. This library holds what is decided on the
//! way, with contracts that are proved; the sessions, the clock and the
//! waiting belong to its caller.
//!
//! * [`timed`]: the three bounded waits on a feed that can only be polled
//!   (collect for a time, wait for the first message, measure the rate), as
//!   machines that a driver steps; [`pace`] shows what they bring home from a
//!   steady publisher.
//! * [`validator`]: from a payload to a [`reading::SensorData`], or to the
//!   reason why it is none; [`json`] is the JSON library behind it,
//!   [`numeral`] the text form of a value and [`decimal`] its exact number.
//! * [`kafka`]: the configuration of the log's clients and the decisions of
//!   the consume loop.
//! * [`orchestrator`]: the ingestion loop, which no single message stops.
pub mod decimal;
pub mod json;
pub mod kafka;
pub mod numeral;
pub mod orchestrator;
pub mod pace;
pub mod reading;
pub mod timed;
pub mod validator;

//! A telemetry reading, and the ways in which a payload can fail to be one.
use crate::json::encode_object;
use crate::json::json_text;
use crate::numeral::is_numeral;
use crate::numeral::Numeral;
use vstd::prelude::*;
use vstd::string::*;

verus! {

/// The three fields of a reading on the wire.
#[derive(Clone, Copy, Debug, PartialEq, Eq)]
pub enum Field {
    Sensor,
    Value,
    Unit,
}

impl Field {
    /// The key under which the field stands in a payload.
    pub open spec fn key_text(self) -> Seq<char> {
        match self {
            Field::Sensor => "sensor"@,
            Field::Value => "value"@,
            Field::Unit => "unit"@,
        }
    }

    /// The key under which the field stands in a payload.
    pub fn key(self) -> (key: &'static str)
        ensures
            key@ == self.key_text(),
    {
        match self {
            Field::Sensor => "sensor",
            Field::Value => "value",
            Field::Unit => "unit",
        }
    }
}

/// Why a payload is no reading.
#[derive(Clone, Copy, Debug, PartialEq, Eq)]
pub enum ValidationError {
    /// The payload is not a JSON object.
    Malformed,
    /// The object has no member for the field.
    MissingField(Field),
    /// The field's member is not a JSON string.
    NotText(Field),
    /// The value is a string, but not a numeral.
    NotNumeric,
}

impl ValidationError {
    /// The payload's structure is at fault: it is not an object, or a field
    /// is missing or is no string.
    pub open spec fn is_structural(self) -> bool {
        !(self is NotNumeric)
    }

    /// Whether the payload's structure is at fault, as opposed to the
    /// numeral in a well-formed structure.
    pub fn structural(&self) -> (structural: bool)
        ensures
            structural == self.is_structural(),
    {
        match self {
            ValidationError::NotNumeric => false,
            _ => true,
        }
    }
}

/// A reading as contracts see it.
pub struct Reading {
    /// The sensor's name.
    pub sensor: Seq<char>,
    /// The measured value: a numeral.
    pub value: Seq<char>,
    /// The unit of the value.
    pub unit: Seq<char>,
}

impl Reading {
    /// The members of the reading's payload: the three fields, each under
    /// its key.
    pub open spec fn members(self) -> Seq<(Seq<char>, Seq<char>)> {
        seq![
            (Field::Sensor.key_text(), self.sensor),
            (Field::Value.key_text(), self.value),
            (Field::Unit.key_text(), self.unit),
        ]
    }

    /// The reading's payload: the JSON text of an object with the three
    /// fields, the value as a string like the others.
    pub open spec fn payload(self) -> Seq<char> {
        json_text(self.members())
    }
}

/// One validated telemetry reading. It is made once, from a payload or from
/// its three parts, and not changed afterwards.
pub struct SensorData {
    sensor: String,
    value: Numeral,
    unit: String,
}

impl View for SensorData {
    type V = Reading;

    closed spec fn view(&self) -> Reading {
        Reading { sensor: self.sensor@, value: self.value@, unit: self.unit@ }
    }
}

impl SensorData {
    /// The reading of `value` in `unit` by `sensor`.
    pub fn new(sensor: String, value: Numeral, unit: String) -> (data: SensorData)
        ensures
            data@ == (Reading { sensor: sensor@, value: value@, unit: unit@ }),
    {
        SensorData { sensor, value, unit }
    }

    /// The sensor's name.
    pub fn sensor(&self) -> (sensor: &str)
        ensures
            sensor@ == self@.sensor,
    {
        self.sensor.as_str()
    }

    /// The measured value.
    pub fn value(&self) -> (value: &Numeral)
        ensures
            value@ == self@.value,
            is_numeral(value@),
    {
        // That the text is a numeral is what every numeral says of itself.
        let _ = self.value.as_str();
        &self.value
    }

    /// The unit of the value.
    pub fn unit(&self) -> (unit: &str)
        ensures
            unit@ == self@.unit,
    {
        self.unit.as_str()
    }

    /// The reading as a payload, as it goes out on the wire.
    pub fn to_payload(&self) -> (payload: String)
        ensures
            payload@ == self@.payload(),
    {
        let mut members: Vec<(String, String)> = Vec::new();
        members.push((String::from_str(Field::Sensor.key()), self.sensor.clone()));
        members.push((String::from_str(Field::Value.key()), String::from_str(self.value.as_str())));
        members.push((String::from_str(Field::Unit.key()), self.unit.clone()));
        assert(crate::json::pairs(members@) =~= self@.members());
        encode_object(&members)
    }
}

} // verus!

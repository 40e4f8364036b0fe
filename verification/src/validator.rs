//! From a raw payload to a reading, in two stages: first the structure (a
//! JSON object with the three fields as strings), then the value, which has
//! to be a numeral. A failure of the first stage and a failure of the
//! second are different errors.
use crate::json::decode_object;
use crate::json::entries;
use crate::json::json_object;
use crate::json::Entry;
use crate::json::Member;
use crate::numeral::is_numeral;
use crate::numeral::Numeral;
use crate::reading::Field;
use crate::reading::Reading;
use crate::reading::SensorData;
use crate::reading::ValidationError;
use vstd::prelude::*;
use vstd::utf8::*;

verus! {

/// What stands under `key`: nothing where no member has the key, and
/// otherwise the text of the first member that has it, if that member is a
/// string.
pub open spec fn lookup(members: Seq<Entry>, key: Seq<char>) -> Option<Option<Seq<char>>>
    decreases members.len(),
{
    if members.len() == 0 {
        None
    } else if members[0].key == key {
        Some(members[0].text)
    } else {
        lookup(members.drop_first(), key)
    }
}

/// The text of a field, or what is wrong with the field.
pub open spec fn field_text(members: Seq<Entry>, field: Field) -> Result<
    Seq<char>,
    ValidationError,
> {
    match lookup(members, field.key_text()) {
        None => Err(ValidationError::MissingField(field)),
        Some(None) => Err(ValidationError::NotText(field)),
        Some(Some(text)) => Ok(text),
    }
}

/// The reading that an object's members make, or the first thing that is
/// wrong with them: the structure is judged first, field by field in the
/// order sensor, value, unit, and the value's numeral after that.
pub open spec fn validated(members: Seq<Entry>) -> Result<Reading, ValidationError> {
    match field_text(members, Field::Sensor) {
        Err(error) => Err(error),
        Ok(sensor) => match field_text(members, Field::Value) {
            Err(error) => Err(error),
            Ok(value) => match field_text(members, Field::Unit) {
                Err(error) => Err(error),
                Ok(unit) => if is_numeral(value) {
                    Ok(Reading { sensor, value, unit })
                } else {
                    Err(ValidationError::NotNumeric)
                },
            },
        },
    }
}

/// The reading that a payload makes, or why it makes none.
pub open spec fn parsed(payload: Seq<char>) -> Result<Reading, ValidationError> {
    match json_object(payload) {
        None => Err(ValidationError::Malformed),
        Some(members) => validated(members),
    }
}

/// A result of validation as contracts see it.
pub open spec fn outcome(result: Result<SensorData, ValidationError>) -> Result<
    Reading,
    ValidationError,
> {
    match result {
        Ok(data) => Ok(data@),
        Err(error) => Err(error),
    }
}

/// Whether two texts are the same.
fn same_text(left: &str, right: &str) -> (same: bool)
    ensures
        same == (left@ == right@),
{
    let left_bytes = left.as_bytes();
    let right_bytes = right.as_bytes();
    if left_bytes.len() != right_bytes.len() {
        return false;
    }
    let mut at: usize = 0;
    while at < left_bytes.len()
        invariant
            left_bytes@ == encode_utf8(left@),
            right_bytes@ == encode_utf8(right@),
            left_bytes.len() == right_bytes.len(),
            at <= left_bytes.len(),
            forall|i: int| 0 <= i < at ==> left_bytes[i] == right_bytes[i],
        decreases left_bytes.len() - at,
    {
        if left_bytes[at] != right_bytes[at] {
            return false;
        }
        at += 1;
    }
    assert(left_bytes@ =~= right_bytes@);
    proof {
        encode_utf8_decode_utf8(left@);
        encode_utf8_decode_utf8(right@);
    }
    true
}

/// Reads a field off an object's members.
fn read_field(members: &Vec<Member>, field: Field) -> (text: Result<String, ValidationError>)
    ensures
        match text {
            Ok(found) => field_text(entries(members@), field) == Ok::<Seq<char>, ValidationError>(
                found@,
            ),
            Err(error) => field_text(entries(members@), field) == Err::<
                Seq<char>,
                ValidationError,
            >(error),
        },
{
    let key = field.key();
    let ghost all = entries(members@);
    let mut at: usize = 0;
    assert(all.skip(0) =~= all);
    while at < members.len()
        invariant
            at <= members.len(),
            all == entries(members@),
            key@ == field.key_text(),
            lookup(all, key@) == lookup(all.skip(at as int), key@),
        decreases members.len() - at,
    {
        let ghost rest = all.skip(at as int);
        assert(rest[0] == members@[at as int]@);
        assert(rest.drop_first() =~= all.skip(at + 1));
        if same_text(members[at].key.as_str(), key) {
            return match &members[at].text {
                Some(text) => Ok(text.clone()),
                None => Err(ValidationError::NotText(field)),
            };
        }
        at += 1;
    }
    assert(all.skip(at as int).len() == 0);
    Err(ValidationError::MissingField(field))
}

/// Judges the members of a decoded object.
pub fn validate(members: &Vec<Member>) -> (result: Result<SensorData, ValidationError>)
    ensures
        outcome(result) == validated(entries(members@)),
{
    let sensor = match read_field(members, Field::Sensor) {
        Ok(sensor) => sensor,
        Err(error) => {
            return Err(error);
        },
    };
    let value = match read_field(members, Field::Value) {
        Ok(value) => value,
        Err(error) => {
            return Err(error);
        },
    };
    let unit = match read_field(members, Field::Unit) {
        Ok(unit) => unit,
        Err(error) => {
            return Err(error);
        },
    };
    match Numeral::parse(value) {
        Ok(numeral) => Ok(SensorData::new(sensor, numeral, unit)),
        Err(_) => Err(ValidationError::NotNumeric),
    }
}

/// Makes a reading of a raw payload, or says why it is none.
pub fn parse(payload: &str) -> (result: Result<SensorData, ValidationError>)
    ensures
        outcome(result) == parsed(payload@),
{
    match decode_object(payload) {
        Ok(members) => validate(&members),
        Err(_) => Err(ValidationError::Malformed),
    }
}

/// A value that is no numeral and a missing unit are told apart: the first
/// is the one error that is not about the structure, the second names the
/// field that is missing.
pub proof fn lemma_faults_are_told_apart(not_numeric: Seq<Entry>, unit_missing: Seq<Entry>)
    requires
        field_text(not_numeric, Field::Sensor) is Ok,
        field_text(not_numeric, Field::Value) matches Ok(value) && !is_numeral(value),
        field_text(not_numeric, Field::Unit) is Ok,
        field_text(unit_missing, Field::Sensor) is Ok,
        field_text(unit_missing, Field::Value) is Ok,
        lookup(unit_missing, Field::Unit.key_text()) is None,
    ensures
        validated(not_numeric) == Err::<Reading, ValidationError>(ValidationError::NotNumeric),
        validated(unit_missing) == Err::<Reading, ValidationError>(
            ValidationError::MissingField(Field::Unit),
        ),
        validated(not_numeric) != validated(unit_missing),
        !ValidationError::NotNumeric.is_structural(),
        ValidationError::MissingField(Field::Unit).is_structural(),
{
}

/// Validation gives a reading only with a numeral for its value, and gives
/// the error that is not about the structure only when the structure is
/// sound.
pub proof fn lemma_validated_is_sound(members: Seq<Entry>)
    ensures
        validated(members) matches Ok(reading) ==> {
            &&& is_numeral(reading.value)
            &&& field_text(members, Field::Sensor) == Ok::<Seq<char>, ValidationError>(
                reading.sensor,
            )
            &&& field_text(members, Field::Value) == Ok::<Seq<char>, ValidationError>(
                reading.value,
            )
            &&& field_text(members, Field::Unit) == Ok::<Seq<char>, ValidationError>(reading.unit)
        },
        validated(members) matches Err(error) ==> (error.is_structural() <==> {
            ||| field_text(members, Field::Sensor) is Err
            ||| field_text(members, Field::Value) is Err
            ||| field_text(members, Field::Unit) is Err
        }),
        !(validated(members) matches Err(error) && error is Malformed),
{
}

} // verus!

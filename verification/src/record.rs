//! The domain record: one row of transferred data, and its constructors.

use vstd::prelude::*;
use vstd::string::*;

verus! {

/// The mathematical image of one record.
pub struct RecordView {
    pub id: Seq<char>,
    pub created_on: int,
    pub location: Seq<char>,
    pub temperature: Option<int>,
    pub humidity: Option<int>,
}

/// One row of transferred data.
///
/// `created_on` is an instant in whole seconds since the Unix epoch,
/// always normalized to UTC; the two measurements are fixed-point values
/// in thousandths of a unit, with `None` distinct from zero.
#[derive(Debug)]
pub struct Conditions {
    pub id: String,
    pub created_on: i64,
    pub location: String,
    pub temperature: Option<i64>,
    pub humidity: Option<i64>,
}

impl View for Conditions {
    type V = RecordView;

    open spec fn view(&self) -> RecordView {
        RecordView {
            id: self.id@,
            created_on: self.created_on as int,
            location: self.location@,
            temperature: match self.temperature {
                Some(t) => Some(t as int),
                None => None,
            },
            humidity: match self.humidity {
                Some(h) => Some(h as int),
                None => None,
            },
        }
    }
}

impl Clone for Conditions {
    /// A clone carries the same field values.
    fn clone(&self) -> (res: Self)
        ensures
            res@ == self@,
    {
        Conditions {
            id: self.id.clone(),
            created_on: self.created_on,
            location: self.location.clone(),
            temperature: self.temperature,
            humidity: self.humidity,
        }
    }
}

impl PartialEq for Conditions {
    /// Two records are equal when every field agrees.
    fn eq(&self, other: &Self) -> (r: bool) {
        let temperature_eq = match (self.temperature, other.temperature) {
            (None, None) => true,
            (Some(a), Some(b)) => a == b,
            _ => false,
        };
        let humidity_eq = match (self.humidity, other.humidity) {
            (None, None) => true,
            (Some(a), Some(b)) => a == b,
            _ => false,
        };
        self.id == other.id && self.created_on == other.created_on && self.location
            == other.location && temperature_eq && humidity_eq
    }
}

impl vstd::std_specs::cmp::PartialEqSpecImpl for Conditions {
    open spec fn obeys_eq_spec() -> bool {
        true
    }

    open spec fn eq_spec(&self, other: &Self) -> bool {
        self@ == other@
    }
}

/// The request body from which a record is created or updated.
#[derive(Debug)]
pub struct ConditionsRequest {
    pub id: Option<String>,
    pub location: String,
    pub temperature: Option<i64>,
    pub humidity: Option<i64>,
}

/// Relies on `uuid::Uuid::new_v4` and its hyphenated `Display` form:
/// a fresh random identifier of 36 ASCII characters.  The call can only
/// fail on a machine-state fault (the OS random source), not on any
/// input.
#[verifier::external_body]
fn new_record_id() -> (r: String)
    ensures
        r@.len() == 36,
{
    uuid::Uuid::new_v4().to_string()
}

/// Relies on `chrono::Utc::now`: the current instant in whole seconds
/// since the Unix epoch.  Nothing is promised of the value; the call can
/// only fail on a machine-state fault (a system clock before the epoch),
/// not on any input.
#[verifier::external_body]
fn now_utc_seconds() -> (r: i64) {
    chrono::Utc::now().timestamp()
}

impl Conditions {
    /// Builds a new record from a create request: the caller's id is kept,
    /// a missing id is replaced by a fresh 36-character identifier, and
    /// `created_on` is stamped with the current instant.
    pub fn from_create_request(request: ConditionsRequest) -> (r: Conditions)
        ensures
            request.id matches Some(i) ==> r.id@ == i@,
            request.id is None ==> r.id@.len() == 36,
            r.location@ == request.location@,
            r.temperature == request.temperature,
            r.humidity == request.humidity,
    {
        let id = match request.id {
            Some(i) => i,
            None => new_record_id(),
        };
        Conditions {
            id,
            created_on: now_utc_seconds(),
            location: request.location,
            temperature: request.temperature,
            humidity: request.humidity,
        }
    }

    /// Applies an update request to an existing record: the key and the
    /// creation instant stay, the measured fields are replaced.
    pub fn from_update_request(request: ConditionsRequest, existing: Conditions) -> (r: Conditions)
        ensures
            r.id@ == existing.id@,
            r.created_on == existing.created_on,
            r.location@ == request.location@,
            r.temperature == request.temperature,
            r.humidity == request.humidity,
    {
        Conditions {
            id: existing.id,
            created_on: existing.created_on,
            location: request.location,
            temperature: request.temperature,
            humidity: request.humidity,
        }
    }
}

/// Normalizes a reading taken in a fixed-offset zone to UTC: the instant
/// is the local clock seconds minus the zone offset.  `None` when the
/// difference leaves the 64-bit range.
pub fn normalize_to_utc(local_seconds: i64, offset_seconds: i32) -> (r: Option<i64>)
    ensures
        r matches Some(u) ==> u == local_seconds - offset_seconds,
        r is None ==> !(i64::MIN <= local_seconds - offset_seconds <= i64::MAX),
{
    local_seconds.checked_sub(offset_seconds as i64)
}

} // verus!

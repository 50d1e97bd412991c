//! The statistic configuration rows of a threshold: the stored row, the
//! row to insert, and their JSON form.
//!
//! Identifiers are held as plain values: a UUID as its 128-bit value, a
//! creation time as Unix seconds. Confidences are per mille, as
//! everywhere in this crate.

use vstd::prelude::*;

use crate::boundary::StatisticKind;

verus! {

/// Why a statistic row could not be converted.
#[derive(Clone, Copy, PartialEq, Eq, Structural, Debug)]
pub enum ApiError {
    /// A stored window does not fit the JSON field.
    WindowOutOfRange,
}

/// Relies on uuid::Uuid::new_v4 for a fresh random identifier; nothing
/// is promised of its value.
#[verifier::external_body]
fn uuid_new_v4_u128() -> u128 {
    uuid::Uuid::new_v4().as_u128()
}

/// Relies on chrono::Utc::now().timestamp() for the current Unix time
/// in seconds; nothing is promised of its value.
#[verifier::external_body]
pub(crate) fn utc_now_timestamp() -> i64 {
    chrono::Utc::now().timestamp()
}

/// Maps a stored window to the JSON field: absent stays absent, a value
/// is kept only when it fits an unsigned 32-bit count.
pub fn map_u32(x: Option<i64>) -> (r: Result<Option<u32>, ApiError>)
    ensures
        match x {
            Option::None => r == Result::<Option<u32>, ApiError>::Ok(Option::<u32>::None),
            Option::Some(w) => if 0 <= w <= u32::MAX {
                r == Result::<Option<u32>, ApiError>::Ok(Option::Some(w as u32))
            } else {
                r == Result::<Option<u32>, ApiError>::Err(ApiError::WindowOutOfRange)
            },
        },
{
    match x {
        Option::None => Ok(None),
        Option::Some(w) => {
            if w >= 0 && w <= u32::MAX as i64 {
                Ok(Some(w as u32))
            } else {
                Err(ApiError::WindowOutOfRange)
            }
        },
    }
}

/// The JSON form of a statistic row.
#[derive(Clone, Copy, PartialEq, Eq, Structural, Debug)]
pub struct JsonStatistic {
    pub uuid: u128,
    pub threshold: u128,
    pub test: StatisticKind,
    pub min_sample_size: Option<u32>,
    pub max_sample_size: Option<u32>,
    pub window: Option<u32>,
    pub lower_boundary: Option<u32>,
    pub upper_boundary: Option<u32>,
    pub created: i64,
}

/// The JSON form in which a new statistic arrives.
#[derive(Clone, Copy, PartialEq, Eq, Structural, Debug)]
pub struct JsonNewStatistic {
    pub test: StatisticKind,
    pub min_sample_size: Option<u32>,
    pub max_sample_size: Option<u32>,
    pub window: Option<u32>,
    pub lower_boundary: Option<u32>,
    pub upper_boundary: Option<u32>,
}

/// A stored statistic row.
#[derive(Clone, Copy, PartialEq, Eq, Structural, Debug)]
pub struct QueryStatistic {
    pub id: i32,
    pub uuid: u128,
    pub threshold_id: i32,
    pub test: StatisticKind,
    pub min_sample_size: Option<u32>,
    pub max_sample_size: Option<u32>,
    pub window: Option<i64>,
    pub lower_boundary: Option<u32>,
    pub upper_boundary: Option<u32>,
    pub created: i64,
}

impl QueryStatistic {
    /// The JSON form of this row, under the threshold it belongs to;
    /// the caller supplies the threshold's identifier, which it read
    /// from the store.
    pub fn into_json(self, threshold: u128) -> (r: Result<JsonStatistic, ApiError>)
        ensures
            r == self.into_json_spec(threshold),
    {
        self.into_json_for_threshold(threshold)
    }

    /// What the JSON conversion owes: every field carried over, the
    /// window clamped to the JSON field's range or refused.
    pub open spec fn into_json_spec(self, threshold: u128) -> Result<JsonStatistic, ApiError> {
        match self.window {
            Option::Some(w) if !(0 <= w <= u32::MAX) => Result::Err(ApiError::WindowOutOfRange),
            _ => Result::Ok(
                JsonStatistic {
                    uuid: self.uuid,
                    threshold,
                    test: self.test,
                    min_sample_size: self.min_sample_size,
                    max_sample_size: self.max_sample_size,
                    window: match self.window {
                        Option::None => Option::None,
                        Option::Some(w) => Option::Some(w as u32),
                    },
                    lower_boundary: self.lower_boundary,
                    upper_boundary: self.upper_boundary,
                    created: self.created,
                },
            ),
        }
    }

    /// The JSON form of this row for a known threshold identifier.
    pub fn into_json_for_threshold(self, threshold: u128) -> (r: Result<JsonStatistic, ApiError>)
        ensures
            r == self.into_json_spec(threshold),
    {
        let window = match map_u32(self.window) {
            Ok(window) => window,
            Err(e) => {
                return Err(e);
            },
        };
        Ok(
            JsonStatistic {
                uuid: self.uuid,
                threshold,
                test: self.test,
                min_sample_size: self.min_sample_size,
                max_sample_size: self.max_sample_size,
                window,
                lower_boundary: self.lower_boundary,
                upper_boundary: self.upper_boundary,
                created: self.created,
            },
        )
    }
}

/// A statistic row to insert.
#[derive(Clone, Copy, PartialEq, Eq, Structural, Debug)]
pub struct InsertStatistic {
    pub uuid: u128,
    pub threshold_id: i32,
    pub test: StatisticKind,
    pub min_sample_size: Option<u32>,
    pub max_sample_size: Option<u32>,
    pub window: Option<i64>,
    pub lower_boundary: Option<u32>,
    pub upper_boundary: Option<u32>,
    pub created: i64,
}

impl From<QueryStatistic> for InsertStatistic {
    /// A copy of a stored row under a fresh identifier.
    fn from(query_statistic: QueryStatistic) -> (r: Self)
        ensures
            r.threshold_id == query_statistic.threshold_id,
            r.test == query_statistic.test,
            r.min_sample_size == query_statistic.min_sample_size,
            r.max_sample_size == query_statistic.max_sample_size,
            r.window == query_statistic.window,
            r.lower_boundary == query_statistic.lower_boundary,
            r.upper_boundary == query_statistic.upper_boundary,
            r.created == query_statistic.created,
    {
        InsertStatistic {
            uuid: uuid_new_v4_u128(),
            threshold_id: query_statistic.threshold_id,
            test: query_statistic.test,
            min_sample_size: query_statistic.min_sample_size,
            max_sample_size: query_statistic.max_sample_size,
            window: query_statistic.window,
            lower_boundary: query_statistic.lower_boundary,
            upper_boundary: query_statistic.upper_boundary,
            created: query_statistic.created,
        }
    }
}

impl vstd::std_specs::convert::FromSpecImpl<QueryStatistic> for InsertStatistic {
    open spec fn obeys_from_spec() -> bool {
        false
    }

    open spec fn from_spec(query_statistic: QueryStatistic) -> Self {
        InsertStatistic {
            uuid: 0,
            threshold_id: query_statistic.threshold_id,
            test: query_statistic.test,
            min_sample_size: query_statistic.min_sample_size,
            max_sample_size: query_statistic.max_sample_size,
            window: query_statistic.window,
            lower_boundary: query_statistic.lower_boundary,
            upper_boundary: query_statistic.upper_boundary,
            created: query_statistic.created,
        }
    }
}

impl InsertStatistic {
    /// A row to insert, built from an arriving JSON statistic: a fresh
    /// identifier, the configuration carried over, the creation time
    /// stamped now.
    pub fn from_json(threshold_id: i32, json_statistic: JsonNewStatistic) -> (r: Result<
        Self,
        ApiError,
    >)
        ensures
            r matches Result::Ok(s) && s.threshold_id == threshold_id && s.test
                == json_statistic.test && s.min_sample_size == json_statistic.min_sample_size
                && s.max_sample_size == json_statistic.max_sample_size && s.window == match json_statistic.window {
                Option::None => Option::<i64>::None,
                Option::Some(w) => Option::Some(w as i64),
            } && s.lower_boundary == json_statistic.lower_boundary && s.upper_boundary
                == json_statistic.upper_boundary,
    {
        let window: Option<i64> = match json_statistic.window {
            Option::None => None,
            Option::Some(w) => Some(w as i64),
        };
        Ok(
            InsertStatistic {
                uuid: uuid_new_v4_u128(),
                threshold_id,
                test: json_statistic.test,
                min_sample_size: json_statistic.min_sample_size,
                max_sample_size: json_statistic.max_sample_size,
                window,
                lower_boundary: json_statistic.lower_boundary,
                upper_boundary: json_statistic.upper_boundary,
                created: utc_now_timestamp(),
            },
        )
    }
}

} // verus!

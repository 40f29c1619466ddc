//! Domain records kept beside memories.

use vstd::prelude::*;
use crate::text::{concat, owned, str_eq};

verus! {

/// A person's record.
#[derive(Debug, Clone)]
pub struct Individual {
    pub id: String,
    pub first_name: String,
    pub middle_name: Option<String>,
    pub last_name: String,
    pub dob: Option<String>,
    pub phone: Option<String>,
    pub email: Option<String>,
    pub employer: Option<String>,
    pub updated_on: String,
}

/// How an affiliation is qualified.
#[derive(Debug, Clone, Copy, PartialEq, Eq, Structural)]
pub enum AffiliationType {
    Range,
    Value,
    Cohort,
}

/// The stored name of an affiliation type.
pub open spec fn affiliation_name(t: AffiliationType) -> Seq<char> {
    match t {
        AffiliationType::Range => "RANGE"@,
        AffiliationType::Value => "VALUE"@,
        AffiliationType::Cohort => "COHORT"@,
    }
}

impl AffiliationType {
    /// `RANGE`, `VALUE` or `COHORT`.
    pub fn to_string(&self) -> (r: String)
        ensures
            r@ == affiliation_name(*self),
    {
        match self {
            AffiliationType::Range => owned("RANGE"),
            AffiliationType::Value => owned("VALUE"),
            AffiliationType::Cohort => owned("COHORT"),
        }
    }

    /// The type whose stored name is `s`.
    pub fn from_string(s: &str) -> (r: Result<AffiliationType, String>)
        ensures
            r matches Ok(t) ==> affiliation_name(t) == s@,
            r matches Err(e) ==> e@ == "Invalid affiliation type: "@ + s@ && s@ != "RANGE"@
                && s@ != "VALUE"@ && s@ != "COHORT"@,
    {
        if str_eq(s, "RANGE") {
            Ok(AffiliationType::Range)
        } else if str_eq(s, "VALUE") {
            Ok(AffiliationType::Value)
        } else if str_eq(s, "COHORT") {
            Ok(AffiliationType::Cohort)
        } else {
            Err(concat("Invalid affiliation type: ", s))
        }
    }
}

/// A membership of an individual.
#[derive(Debug, Clone)]
pub struct Affiliation {
    pub id: String,
    pub name: String,
    pub affiliation_type: AffiliationType,
    pub value: Option<String>,
    pub range_min: Option<i32>,
    pub range_max: Option<i32>,
    pub cohort: Option<String>,
    pub updated_on: String,
}

/// What a condition tests.
#[derive(Debug, Clone, Copy, PartialEq, Eq, Structural)]
pub enum ConditionType {
    Age,
    Coordinates,
}

/// The stored name of a condition type.
pub open spec fn condition_name(t: ConditionType) -> Seq<char> {
    match t {
        ConditionType::Age => "AGE"@,
        ConditionType::Coordinates => "COORDINATES"@,
    }
}

impl ConditionType {
    /// `AGE` or `COORDINATES`.
    pub fn to_string(&self) -> (r: String)
        ensures
            r@ == condition_name(*self),
    {
        match self {
            ConditionType::Age => owned("AGE"),
            ConditionType::Coordinates => owned("COORDINATES"),
        }
    }

    /// The type whose stored name is `s`.
    pub fn from_string(s: &str) -> (r: Result<ConditionType, String>)
        ensures
            r matches Ok(t) ==> condition_name(t) == s@,
            r matches Err(e) ==> e@ == "Invalid condition type: "@ + s@ && s@ != "AGE"@ && s@
                != "COORDINATES"@,
    {
        if str_eq(s, "AGE") {
            Ok(ConditionType::Age)
        } else if str_eq(s, "COORDINATES") {
            Ok(ConditionType::Coordinates)
        } else {
            Err(concat("Invalid condition type: ", s))
        }
    }
}

/// A named experience.
#[derive(Debug, Clone)]
pub struct Experience {
    pub id: String,
    pub name: String,
    pub updated_on: String,
}

/// A recurring time slot.
#[derive(Debug, Clone)]
pub struct Schedule {
    pub id: String,
    pub from: Option<String>,
    pub to: Option<String>,
    pub days_of_week_min: Option<i32>,
    pub days_of_week_max: Option<i32>,
}

} // verus!

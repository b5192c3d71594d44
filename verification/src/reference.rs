//! Expected substances: where in a trace each one should elute.

use vstd::prelude::*;
use crate::spline::{curve_of, Curve, Spline};

verus! {

/// Where a reference is expected, as far as its row of the table says.
#[derive(Clone, Copy, Debug, PartialEq, Eq)]
pub enum ExpectedLocation {
    /// A retention time only.
    RetentionTime(i64),
    /// A position in glucose units only.
    GlucoseUnit(i64),
    /// A retention time and a position in glucose units.
    Complete(i64, i64),
}

/// A curve's value at `t` as a raw step count.
pub open spec fn curve_value(curve: Curve, t: i64) -> Option<i64> {
    match curve.value_at(t as int) {
        Some(v) => Some(v as i64),
        None => None,
    }
}

/// The coordinate by which a reference is compared with peaks: the
/// retention time while no calibration is active, glucose units once one is.
/// A reference known by its time alone is carried over by the curve.
pub open spec fn located_at(location: ExpectedLocation, curve: Option<Curve>) -> Option<i64> {
    match (location, curve) {
        (ExpectedLocation::RetentionTime(rt), None) => Some(rt),
        (ExpectedLocation::RetentionTime(rt), Some(c)) => curve_value(c, rt),
        (ExpectedLocation::GlucoseUnit(_), None) => None,
        (ExpectedLocation::GlucoseUnit(gu), Some(_)) => Some(gu),
        (ExpectedLocation::Complete(rt, _), None) => Some(rt),
        (ExpectedLocation::Complete(_, gu), Some(_)) => Some(gu),
    }
}

/// The retention time that a row states.
pub open spec fn stated_rt(location: ExpectedLocation) -> Option<i64> {
    match location {
        ExpectedLocation::RetentionTime(rt) => Some(rt),
        ExpectedLocation::GlucoseUnit(_) => None,
        ExpectedLocation::Complete(rt, _) => Some(rt),
    }
}

/// The glucose units of a row: stated, or carried over from its retention
/// time by the curve.
pub open spec fn stated_gu(location: ExpectedLocation, curve: Option<Curve>) -> Option<i64> {
    match (location, curve) {
        (ExpectedLocation::RetentionTime(_), None) => None,
        (ExpectedLocation::RetentionTime(rt), Some(c)) => curve_value(c, rt),
        (ExpectedLocation::GlucoseUnit(gu), _) => Some(gu),
        (ExpectedLocation::Complete(_, gu), _) => Some(gu),
    }
}

/// The location that the cells of one row give: none where the row has
/// neither a retention time nor glucose units.
pub open spec fn row_location(retention_time: Option<i64>, glucose_units: Option<i64>) -> Option<
    ExpectedLocation,
> {
    match (retention_time, glucose_units) {
        (Some(rt), Some(gu)) => Some(ExpectedLocation::Complete(rt, gu)),
        (Some(rt), None) => Some(ExpectedLocation::RetentionTime(rt)),
        (None, Some(gu)) => Some(ExpectedLocation::GlucoseUnit(gu)),
        (None, None) => None,
    }
}

/// An expected substance.
#[derive(Debug, PartialEq, Eq)]
pub struct Reference {
    pub name: Option<String>,
    pub expected_location: ExpectedLocation,
}

impl Reference {
    /// Where the reference is expected.
    pub open spec fn location(&self) -> ExpectedLocation {
        self.expected_location
    }

    /// Makes a reference from one row of a table. A row with neither a
    /// retention time nor glucose units gives none.
    pub fn from_row(name: Option<String>, retention_time: Option<i64>, glucose_units: Option<i64>) -> (r:
        Option<Reference>)
        ensures
            r is Some <==> retention_time is Some || glucose_units is Some,
            r is Some ==> r.unwrap().name == name && Some(r.unwrap().location()) == row_location(
                retention_time,
                glucose_units,
            ),
    {
        let location = match (retention_time, glucose_units) {
            (Some(rt), Some(gu)) => ExpectedLocation::Complete(rt, gu),
            (Some(rt), None) => ExpectedLocation::RetentionTime(rt),
            (None, Some(gu)) => ExpectedLocation::GlucoseUnit(gu),
            (None, None) => {
                return None;
            },
        };
        Some(Reference { name, expected_location: location })
    }

    /// What the row stated.
    pub fn get_location(&self) -> (l: ExpectedLocation)
        ensures
            l == self.location(),
    {
        self.expected_location
    }

    pub fn get_expected_location(&self, spline: Option<&Spline>) -> (r: Option<i64>)
        requires
            spline is Some ==> spline.unwrap().wf(),
        ensures
            r == located_at(self.location(), curve_of(spline)),
    {
        match (self.expected_location, spline) {
            (ExpectedLocation::RetentionTime(rt), None) => Some(rt),
            (ExpectedLocation::RetentionTime(rt), Some(c)) => c.evaluate(rt),
            (ExpectedLocation::GlucoseUnit(_), None) => None,
            (ExpectedLocation::GlucoseUnit(gu), Some(_)) => Some(gu),
            (ExpectedLocation::Complete(rt, _), None) => Some(rt),
            (ExpectedLocation::Complete(_, gu), Some(_)) => Some(gu),
        }
    }

    pub fn get_expected_rt(&self) -> (r: Option<i64>)
        ensures
            r == stated_rt(self.location()),
    {
        match self.expected_location {
            ExpectedLocation::RetentionTime(rt) => Some(rt),
            ExpectedLocation::GlucoseUnit(_) => None,
            ExpectedLocation::Complete(rt, _) => Some(rt),
        }
    }

    pub fn get_expected_gu(&self, spline: Option<&Spline>) -> (r: Option<i64>)
        requires
            spline is Some ==> spline.unwrap().wf(),
        ensures
            r == stated_gu(self.location(), curve_of(spline)),
    {
        match (self.expected_location, spline) {
            (ExpectedLocation::RetentionTime(_), None) => None,
            (ExpectedLocation::RetentionTime(rt), Some(c)) => c.evaluate(rt),
            (ExpectedLocation::GlucoseUnit(gu), _) => Some(gu),
            (ExpectedLocation::Complete(_, gu), _) => Some(gu),
        }
    }
}

impl Clone for Reference {
    fn clone(&self) -> (r: Self)
        ensures
            r == *self,
    {
        let name = match &self.name {
            Some(text) => Some(text.clone()),
            None => None,
        };
        Reference { name, expected_location: self.expected_location }
    }
}

/// Copies a reference table.
pub fn clone_references(table: &Vec<Reference>) -> (copy: Vec<Reference>)
    ensures
        copy@ == table@,
{
    let mut copy: Vec<Reference> = Vec::new();
    let mut k: usize = 0;
    while k < table.len()
        invariant
            k <= table.len(),
            copy@ == table@.take(k as int),
        decreases table.len() - k,
    {
        copy.push(table[k].clone());
        assert(table@.take(k + 1) =~= table@.take(k as int).push(table@[k as int]));
        k += 1;
    }
    assert(table@.take(table.len() as int) =~= table@);
    copy
}

/// Collects the cells of one row of a reference table, in whatever order
/// its columns come.
pub struct ReferenceBuilder {
    pub name: Option<String>,
    pub location: Option<ExpectedLocation>,
}

impl ReferenceBuilder {
    /// A builder that has seen no cell yet.
    pub fn new() -> (b: Self)
        ensures
            b.name is None,
            b.location is None,
    {
        ReferenceBuilder { name: None, location: None }
    }

    /// Takes the cell of the name column.
    pub fn parse_name(&mut self, name: String)
        ensures
            final(self).name == Some(name),
            final(self).location == old(self).location,
    {
        self.name = Some(name);
    }

    /// Takes the cell of the retention-time column. The first retention
    /// time of a row stays.
    pub fn parse_retention_time(&mut self, rt: i64)
        ensures
            final(self).name == old(self).name,
            final(self).location == (match old(self).location {
                None => Some(ExpectedLocation::RetentionTime(rt)),
                Some(ExpectedLocation::GlucoseUnit(gu)) => Some(ExpectedLocation::Complete(rt, gu)),
                Some(other) => Some(other),
            }),
    {
        match self.location {
            None => {
                self.location = Some(ExpectedLocation::RetentionTime(rt));
            },
            Some(ExpectedLocation::GlucoseUnit(gu)) => {
                self.location = Some(ExpectedLocation::Complete(rt, gu));
            },
            Some(_) => {},
        }
    }

    /// Takes the cell of the glucose-unit column. The first glucose units
    /// of a row stay.
    pub fn parse_glucose_units(&mut self, gu: i64)
        ensures
            final(self).name == old(self).name,
            final(self).location == (match old(self).location {
                None => Some(ExpectedLocation::GlucoseUnit(gu)),
                Some(ExpectedLocation::RetentionTime(rt)) => Some(
                    ExpectedLocation::Complete(rt, gu),
                ),
                Some(other) => Some(other),
            }),
    {
        match self.location {
            None => {
                self.location = Some(ExpectedLocation::GlucoseUnit(gu));
            },
            Some(ExpectedLocation::RetentionTime(rt)) => {
                self.location = Some(ExpectedLocation::Complete(rt, gu));
            },
            Some(_) => {},
        }
    }

    /// The reference of the row, or none where the row had neither a
    /// retention time nor glucose units.
    pub fn build(self) -> (r: Option<Reference>)
        ensures
            r is Some <==> self.location is Some,
            r is Some ==> r.unwrap().name == self.name && Some(r.unwrap().location())
                == self.location,
    {
        match self.location {
            None => None,
            Some(location) => Some(Reference { name: self.name, expected_location: location }),
        }
    }
}

} // verus!

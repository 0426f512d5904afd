//! The persistence mapping: the two parameterized SQL statements and the
//! mapping from a result row's columns to the measurement entity.
//!
//! The caller opens a connection per operation, executes one of the two
//! statements and hands the resulting column values back as plain values;
//! every decision about what is sent and what the columns mean is made
//! here.

use vstd::prelude::*;

use crate::measurement::Measurement;

verus! {

/// The statement that stores one measurement.  Its three parameters are
/// the `lpg`, `lng` and `co` readings, in that order; it returns the
/// inserted readings and the server-assigned timestamp rendered as text.
pub fn insert_statement() -> (r: &'static str)
    ensures
        r@ == "INSERT INTO misc_measurements(lpg, lng, co) VALUES($1, $2, $3) RETURNING lng, lpg, co, datetime::TEXT"@,
{
    "INSERT INTO misc_measurements(lpg, lng, co) VALUES($1, $2, $3) RETURNING lng, lpg, co, datetime::TEXT"
}

/// The statement that lists every stored measurement, newest first.  It
/// takes no parameter; the ordering is delegated to the database's
/// `ORDER BY` on the server-assigned timestamp.
pub fn select_statement() -> (r: &'static str)
    ensures
        r@ == "SELECT id, lpg, lng, co, datetime::TEXT AS datetime FROM misc_measurements ORDER BY datetime DESC"@,
{
    "SELECT id, lpg, lng, co, datetime::TEXT AS datetime FROM misc_measurements ORDER BY datetime DESC"
}

/// Map one result row's columns to the measurement entity.  The
/// timestamp is whatever text the database returned for the row: the
/// entity's timestamp is always the server-assigned one.
pub fn measurement_from_row(lpg: i32, lng: i32, co: i32, datetime: Vec<u8>) -> (r: Measurement)
    ensures
        r.lpg == lpg,
        r.lng == lng,
        r.co == co,
        r.date_time@ == datetime@,
{
    Measurement { lpg, lng, co, date_time: datetime }
}

} // verus!

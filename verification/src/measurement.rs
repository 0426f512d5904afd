//! The measurement entity.
//!
//! A stored measurement holds three integer gas readings and the timestamp
//! the database assigned at insert time, kept as the UTF-8 bytes of its
//! textual rendering.  A store request carries only the three readings:
//! the input shape has no timestamp field at all, so a client can never
//! supply one.

use vstd::prelude::*;

verus! {

/// The three readings of a store request.  Deliberately has no timestamp
/// field: the timestamp of a stored row is always assigned by the
/// database, never taken from the client.
pub struct StoreInput {
    pub lpg: i32,
    pub lng: i32,
    pub co: i32,
}

impl StoreInput {
    /// The mathematical value of the input: its three readings.
    pub open spec fn triple(self) -> (int, int, int) {
        (self.lpg as int, self.lng as int, self.co as int)
    }
}

/// One stored measurement as read back from the database: the three
/// readings and the server-assigned timestamp text (UTF-8 bytes).
pub struct Measurement {
    pub lpg: i32,
    pub lng: i32,
    pub co: i32,
    pub date_time: Vec<u8>,
}

/// Mathematical model of a measurement.
pub struct MeasurementView {
    pub lpg: int,
    pub lng: int,
    pub co: int,
    pub date_time: Seq<u8>,
}

impl View for Measurement {
    type V = MeasurementView;

    open spec fn view(&self) -> MeasurementView {
        MeasurementView {
            lpg: self.lpg as int,
            lng: self.lng as int,
            co: self.co as int,
            date_time: self.date_time@,
        }
    }
}

} // verus!

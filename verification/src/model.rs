//! A model of the persistence layer, and the laws the service relies on.
//!
//! The database is the sole owner of the stored rows.  It is modelled as
//! the sequence of rows in insertion order; an insert appends a row whose
//! timestamp the server assigns, and the list statement returns the rows
//! newest first.  Because the server assigns timestamps in insertion
//! order (each new timestamp is at least every earlier one), listing in
//! reverse insertion order is exactly listing by timestamp descending.

use vstd::prelude::*;

use crate::measurement::MeasurementView;

verus! {

/// Byte-wise lexicographic order on timestamp texts.  For the fixed-width
/// ISO-style timestamps the database renders, this coincides with
/// chronological order.
pub open spec fn lex_le(a: Seq<u8>, b: Seq<u8>) -> bool
    decreases a.len(),
{
    if a.len() == 0 {
        true
    } else if b.len() == 0 {
        false
    } else if a[0] < b[0] {
        true
    } else if a[0] > b[0] {
        false
    } else {
        lex_le(a.subrange(1, a.len() as int), b.subrange(1, b.len() as int))
    }
}

/// The row the database stores for a request: the three readings from
/// the request, and a timestamp the server alone assigns.  No
/// client-supplied timestamp appears anywhere in it.
pub open spec fn row_for(input: (int, int, int), server_ts: Seq<u8>) -> MeasurementView {
    MeasurementView { lpg: input.0, lng: input.1, co: input.2, date_time: server_ts }
}

/// An insert appends one row to the stored sequence.
pub open spec fn db_insert(db: Seq<MeasurementView>, row: MeasurementView) -> Seq<
    MeasurementView,
> {
    db.push(row)
}

/// The list statement returns the rows in reverse insertion order:
/// newest first.
pub open spec fn db_list(db: Seq<MeasurementView>) -> Seq<MeasurementView> {
    db.reverse()
}

/// The database's timestamps never decrease along insertion order.
pub open spec fn db_time_ordered(db: Seq<MeasurementView>) -> bool {
    forall|i: int, j: int|
        0 <= i <= j < db.len() ==> lex_le(#[trigger] db[i].date_time, #[trigger] db[j].date_time)
}

/// Storing then listing: after a store of the readings `input`, the
/// listed rows contain a row with exactly those readings and the
/// server's (non-empty) timestamp — and it is the first, newest-first,
/// entry.
pub proof fn lemma_store_then_list(
    db: Seq<MeasurementView>,
    input: (int, int, int),
    server_ts: Seq<u8>,
)
    requires
        server_ts.len() > 0,
    ensures
        db_list(db_insert(db, row_for(input, server_ts))).len() == db.len() + 1,
        db_list(db_insert(db, row_for(input, server_ts)))[0] == row_for(input, server_ts),
        db_list(db_insert(db, row_for(input, server_ts)))[0].lpg == input.0,
        db_list(db_insert(db, row_for(input, server_ts)))[0].lng == input.1,
        db_list(db_insert(db, row_for(input, server_ts)))[0].co == input.2,
        db_list(db_insert(db, row_for(input, server_ts)))[0].date_time.len() > 0,
        db_list(db_insert(db, row_for(input, server_ts))).contains(row_for(input, server_ts)),
{
    let stored = db_insert(db, row_for(input, server_ts));
    assert(stored[stored.len() - 1] == row_for(input, server_ts));
    assert(db_list(stored)[0] == stored[stored.len() - 1]);
}

/// Listing yields the rows by timestamp descending: of any two listed
/// rows, the earlier one in the list has the later (or equal) timestamp.
pub proof fn lemma_list_newest_first(db: Seq<MeasurementView>)
    requires
        db_time_ordered(db),
    ensures
        forall|i: int, j: int|
            0 <= i <= j < db_list(db).len() ==> lex_le(
                #[trigger] db_list(db)[j].date_time,
                #[trigger] db_list(db)[i].date_time,
            ),
{
    assert forall|i: int, j: int| 0 <= i <= j < db_list(db).len() implies lex_le(
        db_list(db)[j].date_time,
        db_list(db)[i].date_time,
    ) by {
        assert(db_list(db)[i] == db[db.len() - 1 - i]);
        assert(db_list(db)[j] == db[db.len() - 1 - j]);
    }
}

/// The stored timestamp is the server's, whatever the client sent: the
/// row built for a request holds the server-assigned timestamp, and the
/// request's readings, and nothing else.
pub proof fn lemma_client_datetime_ignored(
    input: (int, int, int),
    server_ts: Seq<u8>,
    client_ts: Seq<u8>,
)
    ensures
        row_for(input, server_ts).date_time == server_ts,
        client_ts != server_ts ==> row_for(input, server_ts).date_time != client_ts,
{
}

} // verus!

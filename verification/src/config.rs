//! Connection configuration for the measurements database.
//!
//! Each parameter comes from an optional override (the caller reads the
//! environment) with a fixed default, and the resolved parameters are
//! assembled into a libpq-style connection string.  The database name is a
//! fixed constant, not configurable.

use vstd::prelude::*;
use vstd::string::StringExecFns;

verus! {

/// Resolved connection parameters: host, port, user and password, each
/// either the caller-supplied override or its fixed default.
pub struct DbConfig {
    pub host: String,
    pub port: String,
    pub user: String,
    pub pass: String,
}

/// The connection string built from the four parameters, with the fixed
/// database name appended.
pub open spec fn spec_connection_string(
    host: Seq<char>,
    user: Seq<char>,
    port: Seq<char>,
    pass: Seq<char>,
) -> Seq<char> {
    "host="@ + host + " user="@ + user + " port="@ + port + " password="@ + pass
        + " dbname=autoclearskiesdb"@
}

/// Pick a parameter: the override when one is given, the default otherwise.
fn resolve_param(value: Option<String>, default: &str) -> (r: String)
    ensures
        r@ == (match value {
            Option::Some(v) => v@,
            Option::None => default@,
        }),
{
    match value {
        Option::Some(v) => v,
        Option::None => String::from_str(default),
    }
}

/// Resolve the four connection parameters, substituting the fixed default
/// for every parameter that was not supplied.
pub fn resolve_config(
    host: Option<String>,
    port: Option<String>,
    user: Option<String>,
    pass: Option<String>,
) -> (r: DbConfig)
    ensures
        r.host@ == (match host {
            Option::Some(v) => v@,
            Option::None => "0.0.0.0"@,
        }),
        r.port@ == (match port {
            Option::Some(v) => v@,
            Option::None => "1337"@,
        }),
        r.user@ == (match user {
            Option::Some(v) => v@,
            Option::None => "postgres"@,
        }),
        r.pass@ == (match pass {
            Option::Some(v) => v@,
            Option::None => "blab"@,
        }),
{
    DbConfig {
        host: resolve_param(host, "0.0.0.0"),
        port: resolve_param(port, "1337"),
        user: resolve_param(user, "postgres"),
        pass: resolve_param(pass, "blab"),
    }
}

/// Build the connection string for the resolved configuration.
pub fn connection_string(c: &DbConfig) -> (r: String)
    ensures
        r@ == spec_connection_string(c.host@, c.user@, c.port@, c.pass@),
{
    let mut s = String::from_str("host=");
    s.append(c.host.as_str());
    s.append(" user=");
    s.append(c.user.as_str());
    s.append(" port=");
    s.append(c.port.as_str());
    s.append(" password=");
    s.append(c.pass.as_str());
    s.append(" dbname=autoclearskiesdb");
    proof {
        assert(s@ =~= spec_connection_string(c.host@, c.user@, c.port@, c.pass@));
    }
    s
}

} // verus!

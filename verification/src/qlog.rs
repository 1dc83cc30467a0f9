//! The names of the event logs of QUIC connections.

use vstd::prelude::*;
use vstd::string::StringExecFns;

use crate::text::join;

verus! {

/// The title of the log of a client's connection.
pub const QLOG_TITLE: &'static str = "quiche-client qlog";

/// The name of the log file for a role and a connection ID in hexadecimal.
pub fn file_name(role: &str, id: &str) -> (s: String)
    ensures
        s@ == role@ + "-"@ + id@ + ".sqlog"@,
{
    let mut s = join(role, "-");
    s.append(id);
    s.append(".sqlog");
    s
}

/// The description in the log of a connection.
pub fn description(id: &str) -> (s: String)
    ensures
        s@ == QLOG_TITLE@ + " id="@ + id@,
{
    let mut s = join(QLOG_TITLE, " id=");
    s.append(id);
    s
}

/// The message for a log file that cannot be created, given its path in quotes.
pub fn create_error(path: &str, e: &str) -> (s: String)
    ensures
        s@ == "Error creating qlog file attempted path was "@ + path@ + ": "@ + e@,
{
    let mut s = join("Error creating qlog file attempted path was ", path);
    s.append(": ");
    s.append(e);
    s
}

} // verus!

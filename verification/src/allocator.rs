//! Port allocation: a linear scan over the fixed port range.

use vstd::prelude::*;
use crate::launcher::LaunchError;
use crate::table::PortTable;

verus! {

/// The inclusive lower bound of the port range.
pub const PORT_RANGE_START: u16 = 8000;

/// The exclusive upper bound of the port range.
pub const PORT_RANGE_END: u16 = 9000;

/// Returns the lowest port in `[start, PORT_RANGE_END)` that no application
/// currently holds, or `NoFreePorts` when every port in that range is taken.
///
/// The table is only read; recording the returned port is the caller's task,
/// and must happen before any other allocation sees the table.
pub fn find_free_port(start: u16, used_ports: &PortTable) -> (r: Result<u16, LaunchError>)
    requires
        used_ports.wf(),
    ensures
        match r {
            Ok(p) => {
                &&& start <= p < PORT_RANGE_END
                &&& !used_ports@.contains_value(p)
                &&& forall|q: u16| start <= q < p ==> used_ports@.contains_value(q)
            },
            Err(e) => {
                &&& e == LaunchError::NoFreePorts
                &&& forall|q: u16| start <= q < PORT_RANGE_END ==> used_ports@.contains_value(q)
            },
        },
{
    let mut port: u16 = start;
    while port < PORT_RANGE_END
        invariant
            start <= port,
            used_ports.wf(),
            forall|q: u16| start <= q < port ==> used_ports@.contains_value(q),
        decreases PORT_RANGE_END - port,
    {
        if !used_ports.contains_port(port) {
            return Ok(port);
        }
        port = port + 1;
    }
    Err(LaunchError::NoFreePorts)
}

} // verus!

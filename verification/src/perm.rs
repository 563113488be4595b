use vstd::prelude::*;

verus! {

/// Access rights attached to one mapped page: readable, writable, executable,
/// and user-accessible.  A mapping created on behalf of a task always carries
/// the user bit.
#[derive(Clone, Copy, PartialEq, Eq, Structural, Debug)]
pub struct MapPermission {
    pub readable: bool,
    pub writable: bool,
    pub executable: bool,
    pub user: bool,
}

/// The low three bits of `port` request R (bit 0), W (bit 1) and X (bit 2).
/// The request is well formed when at least one of them is set and no bit
/// outside the low three is.
pub open spec fn port_valid(port: usize) -> bool {
    (port & 0x7) != 0 && (port & !0x7) == 0
}

/// Permission encoded by a well-formed `port`: the requested R/W/X bits plus
/// the always-implied user bit.
pub open spec fn spec_perm_of_port(port: usize) -> MapPermission {
    MapPermission {
        readable: (port & 0x1) != 0,
        writable: (port & 0x2) != 0,
        executable: (port & 0x4) != 0,
        user: true,
    }
}

/// Builds the page permission a task-requested `port` stands for.
pub fn perm_of_port(port: usize) -> (p: MapPermission)
    ensures
        p == spec_perm_of_port(port),
{
    MapPermission {
        readable: (port & 0x1) != 0,
        writable: (port & 0x2) != 0,
        executable: (port & 0x4) != 0,
        user: true,
    }
}

} // verus!

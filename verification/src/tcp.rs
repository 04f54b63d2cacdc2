//! Choosing between two TCP connections by their measured round-trip times.
use vstd::prelude::*;

verus! {

/// What the kernel reports of a TCP connection.
#[derive(Clone, Copy, Debug)]
pub struct TcpStats {
    /// Smoothed RTT in microseconds.
    pub rtt_us: u32,
    /// RTT variance in microseconds.
    pub rtt_var_us: u32,
    /// Number of retransmissions.
    pub retransmits: u32,
}

/// Whether requests go over the backup connection: exactly when the primary
/// connection's RTT is larger than the backup's.
pub fn use_backup(primary: &TcpStats, backup: &TcpStats) -> (b: bool)
    ensures
        b == (primary.rtt_us > backup.rtt_us),
{
    primary.rtt_us > backup.rtt_us
}

} // verus!

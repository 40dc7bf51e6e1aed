//! UDP socket binding for the WSJT-X listener: unicast and IPv4 multicast.
//!
//! Linux binds the multicast group address directly so the listener only sees
//! that group's traffic. macOS/BSD reject that and require a wildcard bind.
//! WSJT-X is IPv4-only, so IPv6 multicast is rejected explicitly.
use crate::addr::SocketAddr;
use vstd::prelude::*;

verus! {

/// How to bind the listener's socket.
#[derive(Debug, Clone, Copy, PartialEq, Eq, Structural)]
pub enum BindPlan {
    /// A plain bind. Only one process can hold the port.
    Unicast(SocketAddr),
    /// Share the port with other processes, bind to this address, then join
    /// this IPv4 group on any interface.
    Multicast { group: u32, bind: SocketAddr },
}

/// Decides how to bind for an address; `group_bind` tells whether the platform
/// binds group addresses. The error is the reason why that is not supported.
pub fn bind(addr: SocketAddr, group_bind: bool) -> (plan: Result<BindPlan, &'static str>)
    ensures
        !addr.spec_is_multicast() ==> plan == Ok::<BindPlan, &str>(BindPlan::Unicast(addr)),
        addr.spec_is_multicast() ==> match addr {
            SocketAddr::V4 { ip, port } => plan == Ok::<BindPlan, &str>(
                BindPlan::Multicast {
                    group: ip,
                    bind: SocketAddr::V4 {
                        ip: if group_bind {
                            ip
                        } else {
                            0
                        },
                        port,
                    },
                },
            ),
            SocketAddr::V6 { .. } => plan matches Err(why) && why@
                == "IPv6 multicast is not supported (WSJT-X is IPv4-only)"@,
        },
{
    if !addr.is_multicast() {
        return Ok(BindPlan::Unicast(addr));
    }
    match addr {
        SocketAddr::V4 { ip, port } => {
            let at: u32 = if group_bind {
                ip
            } else {
                0
            };
            Ok(BindPlan::Multicast { group: ip, bind: SocketAddr::V4 { ip: at, port } })
        },
        SocketAddr::V6 { .. } => Err("IPv6 multicast is not supported (WSJT-X is IPv4-only)"),
    }
}

} // verus!

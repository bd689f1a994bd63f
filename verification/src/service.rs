//! The daemon as a service: what it tells systemd, and which clipboard monitor
//! it falls back to.
use vstd::prelude::*;

use crate::capture::SessionType;
use crate::db::opt_ref_view;
use crate::text::string_from;

verus! {

/// A datagram for systemd's notification socket.
#[derive(Debug)]
pub struct Notice {
    /// The socket it goes to (`$NOTIFY_SOCKET`).
    pub socket: String,
    /// The state it reports, such as `READY=1`.
    pub message: String,
}

/// Addresses a state report to systemd: nothing when the daemon does not run
/// under systemd's notification (no `$NOTIFY_SOCKET`), else the message for
/// that socket.
pub fn notify_systemd(notify_socket: Option<&str>, msg: &str) -> (r: Option<Notice>)
    ensures
        (r is None) == (notify_socket is None),
        r matches Some(n) ==> opt_ref_view(notify_socket) == Some(n.socket@) && n.message@ == msg@,
{
    match notify_socket {
        Some(sock) => Some(Notice { socket: string_from(sock), message: string_from(msg) }),
        None => None,
    }
}

/// The report that the daemon is ready: `READY=1`.
pub fn notify_systemd_ready(notify_socket: Option<&str>) -> (r: Option<Notice>)
    ensures
        (r is None) == (notify_socket is None),
        r matches Some(n) ==> opt_ref_view(notify_socket) == Some(n.socket@) && n.message@ == "READY=1"@,
{
    notify_systemd(notify_socket, "READY=1")
}

/// The watchdog keep-alive: `WATCHDOG=1`.
pub fn notify_watchdog(notify_socket: Option<&str>) -> (r: Option<Notice>)
    ensures
        (r is None) == (notify_socket is None),
        r matches Some(n) ==> opt_ref_view(notify_socket) == Some(n.socket@) && n.message@ == "WATCHDOG=1"@,
{
    notify_systemd(notify_socket, "WATCHDOG=1")
}

/// The monitor to try when the one for a session could not start: X11 after
/// Wayland, nothing after X11.
pub fn monitor_fallback(failed: SessionType) -> (r: Option<SessionType>)
    ensures
        r == (match failed {
            SessionType::Wayland => Some(SessionType::X11),
            SessionType::X11 => None::<SessionType>,
        }),
{
    match failed {
        SessionType::Wayland => Some(SessionType::X11),
        SessionType::X11 => None,
    }
}

} // verus!

//! What the live dashboard answers, without the server.

use vstd::prelude::*;

use crate::adapters::text_view;
use crate::text;

verus! {

/// Number of events buffered for each client before the oldest are dropped.
pub const BROADCAST_CAPACITY: usize = 128;

/// What a running session is, for clients that join later.
#[derive(Debug)]
pub struct SessionInfo {
    pub adapter_name: String,
    pub baud: u32,
    pub serial: Option<String>,
    pub firmware: Option<String>,
    pub started_at_utc: String,
}

/// The mathematical value of a [`SessionInfo`].
pub struct SessionInfoView {
    pub adapter_name: Seq<char>,
    pub baud: u32,
    pub serial: Option<Seq<char>>,
    pub firmware: Option<Seq<char>>,
    pub started_at_utc: Seq<char>,
}

impl SessionInfo {
    /// The information over views.
    pub open spec fn view(&self) -> SessionInfoView {
        SessionInfoView {
            adapter_name: self.adapter_name@,
            baud: self.baud,
            serial: text_view(self.serial),
            firmware: text_view(self.firmware),
            started_at_utc: self.started_at_utc@,
        }
    }
}

/// Answers a request to shut down: status and text. Only a request with the header
/// `X-RustyCAN-Shutdown` and the value `1` is granted; `header` is that header's value, where it
/// is there and is text.
pub fn handle_shutdown(header: Option<&str>) -> (r: (u16, &'static str))
    ensures
        r.0 == (if header is Some && header->0@ == "1"@ {
            200u16
        } else {
            403u16
        }),
        r.1@ == (if header is Some && header->0@ == "1"@ {
            "shutting down"@
        } else {
            "forbidden"@
        }),
{
    let granted: bool = match header {
        Some(v) => text::same_text(v, "1"),
        None => false,
    };
    if granted {
        (200, "shutting down")
    } else {
        (403, "forbidden")
    }
}

/// The address of the dashboard, or of a page of it, on this machine.
pub fn local_url(port: u16, page: &str) -> (r: String)
    ensures
        r@ == "http://127.0.0.1:"@ + text::decimal(port as nat) + "/"@ + page@,
{
    let mut s: String = "http://127.0.0.1:".to_owned();
    text::push_decimal(&mut s, port as u64);
    text::push_str(&mut s, "/");
    text::push_str(&mut s, page);
    s
}

} // verus!

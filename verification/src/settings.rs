//! Settings that come from the command line and the configuration file.

use vstd::prelude::*;

verus! {

/// Port of the live dashboard where no other is set.
pub const DEFAULT_HTTP_PORT: u16 = 7878;

/// The unsigned number that a JSON text holds under a key of its outermost object, if any.
pub uninterp spec fn json_unsigned(json: Seq<char>, key: Seq<char>) -> Option<u64>;

/// `serde_json::from_str` into a `Value`, then `Value::get` and `Value::as_u64`: the unsigned
/// number under a key of the outermost object; `None` where the text is no JSON, has no such key
/// or holds something else under it. The result depends on the text and the key alone.
#[verifier::external_body]
fn unsigned_field(json: &str, key: &str) -> (r: Option<u64>)
    ensures
        r == json_unsigned(json@, key@),
{
    match serde_json::from_str::<serde_json::Value>(json) {
        Ok(v) => v.get(key).and_then(|x| x.as_u64()),
        Err(_) => None,
    }
}

/// The port of the dashboard: the one of the command line, else the one of the configuration if
/// it is a port number, else the default.
pub open spec fn effective_port(cli: Option<u16>, configured: Option<u64>) -> u16 {
    match cli {
        Some(p) => p,
        None => match configured {
            Some(n) => if n <= 0xFFFF {
                n as u16
            } else {
                DEFAULT_HTTP_PORT
            },
            None => DEFAULT_HTTP_PORT,
        },
    }
}

/// Chooses the port of the dashboard from the command line and the configured number.
pub fn choose_port(cli: Option<u16>, configured: Option<u64>) -> (r: u16)
    ensures
        r == effective_port(cli, configured),
{
    match cli {
        Some(p) => p,
        None => match configured {
            Some(n) => if n <= 0xFFFF {
                n as u16
            } else {
                DEFAULT_HTTP_PORT
            },
            None => DEFAULT_HTTP_PORT,
        },
    }
}

/// Chooses the port of the dashboard from the command line and the text of the configuration
/// file, if there is one.
pub fn http_port(cli: Option<u16>, config: Option<&str>) -> (r: u16)
    ensures
        r == effective_port(
            cli,
            match config {
                Some(json) => json_unsigned(json@, "http_port"@),
                None => None,
            },
        ),
{
    let configured: Option<u64> = match config {
        Some(json) => unsigned_field(json, "http_port"),
        None => None,
    };
    choose_port(cli, configured)
}

/// What is started.
#[derive(Clone, Copy, Debug, PartialEq, Eq, Structural)]
pub enum StartMode {
    /// A firmware update, then exit.
    FirmwareUpdate,
    /// Decoded events as text lines.
    LogToStdout,
    /// The terminal interface.
    Terminal,
    /// The window.
    Window,
}

/// Decides what is started. A firmware update comes first unless an interface with a
/// configuration is asked for; the terminal interface and the text lines need a configuration.
pub fn start_mode(tui: bool, log_to_stdout: bool, has_config: bool, has_image: bool) -> (r: Result<
    StartMode,
    &'static str,
>)
    ensures
        r is Ok == ((has_image && !tui && !has_config) || has_config || (!tui && !log_to_stdout)),
        r matches Ok(m) ==> m == (if has_image && !tui && !has_config {
            StartMode::FirmwareUpdate
        } else if log_to_stdout {
            StartMode::LogToStdout
        } else if tui {
            StartMode::Terminal
        } else {
            StartMode::Window
        }),
        r matches Err(e) ==> e@ == (if tui {
            "--tui requires --config <FILE>"@
        } else {
            "--log-to-stdout requires --config <FILE>"@
        }),
{
    if has_image && !tui && !has_config {
        Ok(StartMode::FirmwareUpdate)
    } else if tui && !has_config {
        Err("--tui requires --config <FILE>")
    } else if log_to_stdout && !has_config {
        Err("--log-to-stdout requires --config <FILE>")
    } else if log_to_stdout {
        Ok(StartMode::LogToStdout)
    } else if tui {
        Ok(StartMode::Terminal)
    } else {
        Ok(StartMode::Window)
    }
}

} // verus!

//! The options of the download tool and what they ask for.

use vstd::prelude::*;

use crate::adapters::{copy_text, text_view, AdapterKind, AdapterKindView};
use crate::bbd::sdo_client::{SdoClientConfig, SdocType};
use crate::bbd::state_machine::{ActionType, DownloadConfig};
use crate::text;

verus! {

/// The number and the radix of a text that may start with `0x`.
pub open spec fn radix_split(s: Seq<char>) -> (Seq<char>, u32) {
    if s.len() >= 2 && s[0] == '0' && (s[1] == 'x' || s[1] == 'X') {
        (s.skip(2), 16)
    } else {
        (s, 10)
    }
}

/// The number that an option gives, in decimal or in hexadecimal after `0x`; white space around
/// it does not count.
pub open spec fn option_number(s: Seq<char>) -> Option<nat> {
    let (digits, radix) = radix_split(text::trimmed(s));
    text::unsigned_number(digits, radix as nat, 0xFFFF_FFFF)
}

/// The message about an option that gives no number.
pub open spec fn bad_number_text(s: Seq<char>) -> Seq<char> {
    let t = text::trimmed(s);
    let (digits, radix) = radix_split(t);
    (if radix == 16 {
        "invalid hex value "@
    } else {
        "invalid decimal value "@
    }) + text::debug_quoted(t) + ": "@ + text::integer_error_text(digits, radix)
}

/// Parses a number in decimal (`1234`) or in hexadecimal after `0x` (`0x600`).
pub fn parse_u32_auto(s: &str) -> (r: Result<u32, String>)
    ensures
        r is Ok == option_number(s@) is Some,
        r matches Ok(v) ==> Some(v as nat) == option_number(s@),
        r matches Err(e) ==> e@ == bad_number_text(s@),
{
    let t: Vec<char> = text::trim(s);
    let hex: bool = t.len() >= 2 && t[0] == '0' && (t[1] == 'x' || t[1] == 'X');
    let digits: &[char] = if hex {
        vstd::slice::slice_subrange(t.as_slice(), 2, t.len())
    } else {
        t.as_slice()
    };
    assert(digits@ =~= radix_split(t@).0);
    let radix: u32 = if hex {
        16
    } else {
        10
    };
    let number: String = text::string_of(digits);
    match text::u32_from_radix(number.as_str(), radix) {
        Ok(v) => Ok(v),
        Err(e) => {
            let whole: String = text::string_of(t.as_slice());
            let quoted: String = text::debug_text(whole.as_str());
            let mut m: String = if hex {
                "invalid hex value ".to_owned()
            } else {
                "invalid decimal value ".to_owned()
            };
            text::push_str(&mut m, quoted.as_str());
            text::push_str(&mut m, ": ");
            text::push_str(&mut m, e.as_str());
            Err(m)
        },
    }
}

/// The options of the tool that are checked before anything is opened.
#[derive(Debug)]
pub struct Options {
    /// Target node (1 to 127).
    pub node_id: u8,
    /// Application program slot.
    pub program_number: u8,
    /// SDO response timeout in milliseconds.
    pub timeout: u64,
    /// Delay between flash-status reads, in units of 100 microseconds.
    pub delay: u32,
    /// Delay before checking if the application started, in units of 100 microseconds.
    pub delay_check_app: u32,
    /// Delay before checking if the bootloader re-entered, in units of 100 microseconds.
    pub delay_check_bl: u32,
    /// Number of the SDO transfer mode.
    pub sdoc_type: u8,
    /// Maximum retry count for flash-BUSY polling.
    pub repeats: u32,
    /// Maximum retry count for flash-CRC-BUSY polling.
    pub repeats_crc: u32,
    /// COB-ID base of SDO requests.
    pub tx_baseid: String,
    /// COB-ID base of SDO responses.
    pub rx_baseid: String,
    /// Vendor ID to validate (0 = skip check).
    pub vendor_id: String,
    /// Product code to validate (0 = skip check).
    pub product_code: String,
    /// Total number of steps in a sequence.
    pub total_steps: u8,
    /// Current step number in a sequence.
    pub current_step: u8,
    /// Load the bootloader-update application.
    pub blupdate_app: bool,
    /// Update the bootloader itself.
    pub blupdate: bool,
    /// Name of the adapter backend.
    pub adapter: String,
    /// USB serial number of the KCAN dongle.
    pub kcan_serial: Option<String>,
}

/// What the options ask for.
#[derive(Debug)]
pub struct Job {
    pub client: SdoClientConfig,
    pub download: DownloadConfig,
    pub adapter: AdapterKind,
}

impl Options {
    /// The first thing that is wrong with the options, as a message.
    pub open spec fn fault(self) -> Option<Seq<char>> {
        if self.node_id == 0 || self.node_id > 127 {
            Some("node ID must be in range 1\u{2013}127, got "@ + text::decimal(self.node_id as nat))
        } else if option_number(self.tx_baseid@) is None {
            Some("--tx-baseid: "@ + bad_number_text(self.tx_baseid@))
        } else if option_number(self.rx_baseid@) is None {
            Some("--rx-baseid: "@ + bad_number_text(self.rx_baseid@))
        } else if option_number(self.vendor_id@) is None {
            Some("--vendor-id: "@ + bad_number_text(self.vendor_id@))
        } else if option_number(self.product_code@) is None {
            Some("--product-code: "@ + bad_number_text(self.product_code@))
        } else if self.sdoc_type != 0 && self.sdoc_type != 2 && self.sdoc_type != 3 {
            Some(
                "--sdoc-type must be 0 (segmented) or 2 (block), got "@ + text::decimal(
                    self.sdoc_type as nat,
                ),
            )
        } else if text::lowercase(self.adapter@) != "peak"@ && text::lowercase(self.adapter@)
            != "kcan"@ {
            Some(
                "unknown adapter "@ + text::debug_quoted(text::lowercase(self.adapter@))
                    + ". Use 'peak' or 'kcan'."@,
            )
        } else {
            None
        }
    }

    /// The settings of the SDO client. Only 16 bits of a COB-ID base count.
    pub open spec fn client(self) -> SdoClientConfig {
        SdoClientConfig {
            node_id: self.node_id,
            timeout_us: if self.timeout * 1000 <= u64::MAX {
                (self.timeout * 1000) as u64
            } else {
                u64::MAX
            },
            tx_base_id: (option_number(self.tx_baseid@)->0 % 0x1_0000) as u16,
            rx_base_id: (option_number(self.rx_baseid@)->0 % 0x1_0000) as u16,
        }
    }

    /// The action asked for. Loading the bootloader-update application comes first.
    pub open spec fn action(self) -> ActionType {
        if self.blupdate_app {
            ActionType::LoadBlupdateApp
        } else if self.blupdate {
            ActionType::UpdateBootloader
        } else {
            ActionType::UpdateFirmware
        }
    }

    /// Whether a job has what the options ask for.
    pub open spec fn asks_for(self, job: Job) -> bool {
        &&& job.client == self.client()
        &&& job.download.program_number == self.program_number
        &&& job.download.vendor_id as nat == option_number(self.vendor_id@)->0
        &&& job.download.product_code as nat == option_number(self.product_code@)->0
        &&& job.download.max_retries_busy == self.repeats
        &&& job.download.max_retries_crc == self.repeats_crc
        &&& job.download.poll_delay_100us == self.delay
        &&& job.download.delay_check_app_100us == self.delay_check_app
        &&& job.download.delay_check_bl_100us == self.delay_check_bl
        &&& job.download.action == self.action()
        &&& job.download.sdoc_type.number() == self.sdoc_type
        &&& job.download.total_steps == self.total_steps
        &&& job.download.current_step == self.current_step
        &&& job.adapter@ == (if text::lowercase(self.adapter@) == "peak"@ {
            AdapterKindView::Summit
        } else {
            AdapterKindView::KCan { serial: text_view(self.kcan_serial) }
        })
    }

    /// Checks the options and sets up the job. The first fault is reported.
    pub fn job(&self) -> (r: Result<Job, String>)
        ensures
            r is Ok == self.fault() is None,
            r matches Ok(j) ==> self.asks_for(j),
            r matches Err(e) ==> Some(e@) == self.fault(),
    {
        if self.node_id == 0 || self.node_id > 127 {
            let mut m: String = "node ID must be in range 1\u{2013}127, got ".to_owned();
            text::push_decimal(&mut m, self.node_id as u64);
            return Err(m);
        }
        let tx: u32 = match parse_u32_auto(self.tx_baseid.as_str()) {
            Ok(v) => v,
            Err(e) => {
                return Err(text::join2("--tx-baseid: ", e.as_str()));
            },
        };
        let rx: u32 = match parse_u32_auto(self.rx_baseid.as_str()) {
            Ok(v) => v,
            Err(e) => {
                return Err(text::join2("--rx-baseid: ", e.as_str()));
            },
        };
        let vendor_id: u32 = match parse_u32_auto(self.vendor_id.as_str()) {
            Ok(v) => v,
            Err(e) => {
                return Err(text::join2("--vendor-id: ", e.as_str()));
            },
        };
        let product_code: u32 = match parse_u32_auto(self.product_code.as_str()) {
            Ok(v) => v,
            Err(e) => {
                return Err(text::join2("--product-code: ", e.as_str()));
            },
        };
        let sdoc_type: SdocType = match SdocType::from_u8(self.sdoc_type) {
            Some(t) => t,
            None => {
                let mut m: String =
                    "--sdoc-type must be 0 (segmented) or 2 (block), got ".to_owned();
                text::push_decimal(&mut m, self.sdoc_type as u64);
                return Err(m);
            },
        };
        let name: String = text::to_lowercase(self.adapter.as_str());
        let adapter: AdapterKind = if text::same_text(name.as_str(), "peak") {
            AdapterKind::Summit
        } else if text::same_text(name.as_str(), "kcan") {
            AdapterKind::KCan { serial: copy_text(&self.kcan_serial) }
        } else {
            let quoted: String = text::debug_text(name.as_str());
            let mut m: String = "unknown adapter ".to_owned();
            text::push_str(&mut m, quoted.as_str());
            text::push_str(&mut m, ". Use 'peak' or 'kcan'.");
            return Err(m);
        };
        let action: ActionType = if self.blupdate_app {
            ActionType::LoadBlupdateApp
        } else if self.blupdate {
            ActionType::UpdateBootloader
        } else {
            ActionType::UpdateFirmware
        };
        let timeout_us: u64 = if self.timeout <= u64::MAX / 1000 {
            self.timeout * 1000
        } else {
            u64::MAX
        };
        Ok(
            Job {
                client: SdoClientConfig {
                    node_id: self.node_id,
                    timeout_us,
                    tx_base_id: (tx % 0x1_0000) as u16,
                    rx_base_id: (rx % 0x1_0000) as u16,
                },
                download: DownloadConfig {
                    program_number: self.program_number,
                    vendor_id,
                    product_code,
                    max_retries_busy: self.repeats,
                    max_retries_crc: self.repeats_crc,
                    poll_delay_100us: self.delay,
                    delay_check_app_100us: self.delay_check_app,
                    delay_check_bl_100us: self.delay_check_bl,
                    action,
                    sdoc_type,
                    total_steps: self.total_steps,
                    current_step: self.current_step,
                },
                adapter,
            },
        )
    }
}

/// The share of a file that is downloaded, in percent: 0 for an empty file, at most 100.
pub open spec fn percent(bytes_done: nat, total_bytes: nat) -> nat {
    if total_bytes == 0 {
        0
    } else if bytes_done * 100 / total_bytes > 100 {
        100
    } else {
        bytes_done * 100 / total_bytes
    }
}

/// The line about a downloaded block.
pub open spec fn block_text(block_num: nat, bytes_done: nat, total_bytes: nat) -> Seq<char> {
    "[BBD] Block "@ + text::padded(text::decimal(block_num), 4, ' ') + " downloaded  ("@
        + text::decimal(percent(bytes_done, total_bytes)) + " %)  ["@ + text::decimal(bytes_done)
        + " / "@ + text::decimal(total_bytes) + " bytes]"@
}

/// The line about a downloaded block, with the share of the file rounded down.
pub fn block_line(block_num: u32, bytes_done: u64, total_bytes: u64) -> (r: String)
    ensures
        r@ == block_text(block_num as nat, bytes_done as nat, total_bytes as nat),
{
    let share: u64 = if total_bytes == 0 {
        0
    } else {
        let ratio: u128 = bytes_done as u128 * 100 / total_bytes as u128;
        if ratio > 100 {
            100
        } else {
            ratio as u64
        }
    };
    let mut s: String = "[BBD] Block ".to_owned();
    text::push_decimal_padded(&mut s, block_num as u64, 4, ' ');
    text::push_str(&mut s, " downloaded  (");
    text::push_decimal(&mut s, share);
    text::push_str(&mut s, " %)  [");
    text::push_decimal(&mut s, bytes_done);
    text::push_str(&mut s, " / ");
    text::push_decimal(&mut s, total_bytes);
    text::push_str(&mut s, " bytes]");
    s
}

/// A number of 32 bits is accepted in decimal and in hexadecimal after `0x`; a larger one is not.
pub proof fn law_option_notations(n: nat, width: nat)
    ensures
        option_number(text::decimal(n)) == text::within(n, 0xFFFF_FFFF),
        option_number(seq!['0', 'x'] + text::hex_padded(n, width)) == text::within(n, 0xFFFF_FFFF),
{
    let d = text::decimal(n);
    let h = text::hex_padded(n, width);
    let p = seq!['0', 'x'] + h;
    text::lemma_numerals_not_spaced(n, 10, width);
    text::law_decimal_notation(n, 0xFFFF_FFFF);
    text::law_numeral_read_back(n, 10, true);
    text::law_hex_width(n, width);
    if d.len() >= 2 {
        assert(text::digit_value(d[1], 10) is Some);
    }
    assert(p[0] == '0' && p[1] == 'x');
    assert(p.skip(2) =~= h);
    assert(text::digit_value(h[0], 16) is Some);
}

/// The shown share of a file grows with what is downloaded, from 0 percent to 100 at its end.
pub proof fn law_share_grows(a: nat, b: nat, total: nat)
    requires
        a <= b <= total,
        total > 0,
    ensures
        percent(a, total) <= percent(b, total) <= 100,
        percent(0, total) == 0,
        percent(total, total) == 100,
        percent(a, total) * total <= a * 100 < (percent(a, total) + 1) * total,
{
    vstd::arithmetic::div_mod::lemma_div_is_ordered(a as int * 100, b as int * 100, total as int);
    vstd::arithmetic::div_mod::lemma_div_is_ordered(
        b as int * 100,
        total as int * 100,
        total as int,
    );
    vstd::arithmetic::div_mod::lemma_div_multiples_vanish(100, total as int);
    assert(total * 100 == 100 * total);
    vstd::arithmetic::div_mod::lemma_div_of0(total as int);
    vstd::arithmetic::div_mod::lemma_fundamental_div_mod(a as int * 100, total as int);
    vstd::arithmetic::div_mod::lemma_mod_bound(a as int * 100, total as int);
    let q = a as int * 100 / total as int;
    assert(q * total <= a * 100 < (q + 1) * total) by (nonlinear_arith)
        requires
            a * 100 == total * q + (a as int * 100) % (total as int),
            0 <= (a as int * 100) % (total as int) < total,
    ;
}

} // verus!

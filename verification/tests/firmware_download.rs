use rustycan::bbd::options::{block_line, parse_u32_auto, Options};
use rustycan::bbd::sdo_client::{SdoError, SdocType};
use rustycan::bbd::state_machine::{
    classify_flash_status, run_firmware_download, ActionType, DownloadAction, DownloadConfig,
    DownloadError, DownloadEvent, DownloadSummary, FlashStatus, Progress,
};

const BOOTLOADER: u32 = 0x1000_0000;
const APPLICATION: u32 = 0x0002_0192;

fn config() -> DownloadConfig {
    DownloadConfig {
        program_number: 1,
        vendor_id: 0x1234,
        product_code: 0,
        max_retries_busy: 10,
        max_retries_crc: 10,
        poll_delay_100us: 500,
        delay_check_app_100us: 20000,
        delay_check_bl_100us: 20000,
        action: ActionType::UpdateFirmware,
        sdoc_type: SdocType::Segmented,
        total_steps: 0,
        current_step: 0,
    }
}

fn block(num: u32, data: &[u8]) -> Vec<u8> {
    let mut b = Vec::new();
    b.extend_from_slice(&num.to_le_bytes());
    b.extend_from_slice(&0x0800_0000u32.to_le_bytes());
    b.extend_from_slice(&(data.len() as u32).to_le_bytes());
    b.extend_from_slice(data);
    b.extend_from_slice(&0xDEAD_BEEFu32.to_le_bytes());
    b
}

struct Node {
    in_bootloader: bool,
    vendor_id: u32,
    flash_status: u32,
    busy_reads: u32,
    written: Vec<Vec<u8>>,
    control: Vec<u8>,
    blocks_reported: usize,
}

impl Node {
    fn new() -> Self {
        Node {
            in_bootloader: false,
            vendor_id: 0x1234,
            flash_status: 0,
            busy_reads: 0,
            written: Vec::new(),
            control: Vec::new(),
            blocks_reported: 0,
        }
    }

    fn run(&mut self, cfg: DownloadConfig, file: &[u8]) -> Result<DownloadSummary, DownloadError> {
        let (mut machine, mut step) = run_firmware_download(cfg);
        let mut now_us: u64 = 0;
        for _ in 0..10_000 {
            for p in &step.progress {
                if let Progress::BlockDownloaded { .. } = p {
                    self.blocks_reported += 1;
                }
            }
            let event = match step.action {
                DownloadAction::Abort { .. } => DownloadEvent::Done,
                DownloadAction::Sleep { us } => {
                    now_us += us;
                    DownloadEvent::Done
                }
                DownloadAction::ReadU32 { index, subindex } => {
                    let v = match (index, subindex) {
                        (0x1000, _) => {
                            if self.in_bootloader {
                                BOOTLOADER
                            } else {
                                APPLICATION
                            }
                        }
                        (0x1018, 1) => self.vendor_id,
                        (0x1F57, _) => {
                            if self.busy_reads > 0 {
                                self.busy_reads -= 1;
                                1
                            } else {
                                self.flash_status
                            }
                        }
                        _ => 7,
                    };
                    DownloadEvent::Number(Ok(v))
                }
                DownloadAction::ReadString { .. } => DownloadEvent::Text(Ok("1.0".to_string())),
                DownloadAction::WriteU8 { index, value, .. } => {
                    assert_eq!(index, 0x1F51);
                    self.control.push(value);
                    match value {
                        0x80 => self.in_bootloader = true,
                        0x01 => self.in_bootloader = false,
                        _ => {}
                    }
                    DownloadEvent::Written(Ok(()))
                }
                DownloadAction::Download { index, data, .. } => {
                    assert_eq!(index, 0x1F50);
                    self.written.push(data);
                    DownloadEvent::Written(Ok(()))
                }
                DownloadAction::ReadFile => DownloadEvent::File(Ok(file.to_vec())),
                DownloadAction::Finish(r) => return r,
            };
            now_us += 1000;
            step = machine.step(event, now_us);
        }
        panic!("the sequence does not end");
    }
}

#[test]
fn every_block_of_the_file_is_downloaded() {
    let blocks = [block(1, &[0xAA; 16]), block(2, &[0xBB; 300]), block(3, &[1])];
    let file: Vec<u8> = blocks.concat();
    let mut node = Node::new();
    let summary = node.run(config(), &file).unwrap();
    assert_eq!(summary.blocks_written, 3);
    assert_eq!(node.written, blocks.to_vec());
    assert_eq!(node.written.concat(), file);
    assert_eq!(node.blocks_reported, 3);
    assert_eq!(summary.app_version_before.as_deref(), Some("1.0"));
    assert_eq!(summary.app_version_after.as_deref(), Some("1.0"));
    assert!(!node.in_bootloader);
}

#[test]
fn the_program_is_cleared_before_it_is_signed() {
    let mut node = Node::new();
    node.run(config(), &block(1, &[0; 8])).unwrap();
    let clear = node.control.iter().position(|&c| c == 0x03).unwrap();
    let sign = node.control.iter().position(|&c| c == 0x83).unwrap();
    assert!(clear < sign);
    assert_eq!(node.control.last(), Some(&0x01));
}

#[test]
fn another_vendor_is_left_alone() {
    let mut node = Node::new();
    node.vendor_id = 0x9999;
    let r = node.run(config(), &block(1, &[0; 8]));
    let Err(DownloadError::Validation(text)) = r else {
        panic!("expected a validation error");
    };
    assert!(text.ends_with(" mismatch: expected 0x00001234, got 0x00009999"));
    assert!(node.written.is_empty());
}

#[test]
fn flash_errors_end_the_sequence() {
    let mut node = Node::new();
    node.flash_status = 0x0000_000A;
    let r = node.run(config(), &block(1, &[0; 8]));
    let Err(e) = r else {
        panic!("expected a failure");
    };
    assert!(matches!(e, DownloadError::FlashStatus(0x0000_000A)));
    assert!(e.display().contains("WRITE (flash write error)"));
}

#[test]
fn a_busy_flash_is_waited_for() {
    let mut node = Node::new();
    node.busy_reads = 5;
    assert!(node.run(config(), &block(1, &[0; 8])).is_ok());
    let mut node = Node::new();
    // busy for longer than the two minutes that are waited for
    node.busy_reads = 5000;
    let Err(e) = node.run(config(), &block(1, &[0; 8])) else {
        panic!("expected a failure");
    };
    assert!(e.display().contains("flash operation timed out after 120 s"));
}

#[test]
fn a_broken_file_is_reported() {
    let mut file = block(1, &[0; 16]);
    file.truncate(20);
    let r = Node::new().run(config(), &file);
    assert!(matches!(r, Err(DownloadError::File(_))));
}

#[test]
fn a_file_that_ends_in_a_header_is_reported() {
    let mut file = block(1, &[0; 16]);
    file.extend_from_slice(&[2, 0, 0, 0, 0]);
    let mut node = Node::new();
    let r = node.run(config(), &file);
    assert!(matches!(r, Err(DownloadError::File(_))));
    assert!(!node.control.contains(&0x83));
}

#[test]
fn flash_statuses_are_told_apart() {
    assert_eq!(classify_flash_status(0), FlashStatus::Ready);
    assert_eq!(classify_flash_status(1), FlashStatus::Busy);
    assert_eq!(classify_flash_status(0x1000_0000), FlashStatus::Busy);
    assert_eq!(classify_flash_status(6), FlashStatus::CrcBusy);
    assert_eq!(classify_flash_status(2), FlashStatus::Error(2));
    assert_eq!(DownloadError::Sdo(SdoError::Timeout).display(), "SDO error: SDO timeout (no response from node)");
}

// ─── Options ────────────────────────────────────────────────────────────────

fn options() -> Options {
    Options {
        node_id: 5,
        program_number: 1,
        timeout: 500,
        delay: 500,
        delay_check_app: 20000,
        delay_check_bl: 20000,
        sdoc_type: 2,
        repeats: 200_000,
        repeats_crc: 10_000,
        tx_baseid: "0x600".to_string(),
        rx_baseid: " 1408 ".to_string(),
        vendor_id: "0x0".to_string(),
        product_code: "0X1F".to_string(),
        total_steps: 0,
        current_step: 0,
        blupdate_app: false,
        blupdate: true,
        adapter: "KCAN".to_string(),
        kcan_serial: Some("A1".to_string()),
    }
}

#[test]
fn numbers_are_decimal_or_hexadecimal() {
    assert_eq!(parse_u32_auto("1234"), Ok(1234));
    assert_eq!(parse_u32_auto(" 0x600 "), Ok(0x600));
    assert_eq!(parse_u32_auto("0XFFFFFFFF"), Ok(0xFFFF_FFFF));
    assert_eq!(
        parse_u32_auto("0xZZ"),
        Err("invalid hex value \"0xZZ\": invalid digit found in string".to_string())
    );
    assert_eq!(
        parse_u32_auto(""),
        Err("invalid decimal value \"\": cannot parse integer from empty string".to_string())
    );
    assert_eq!(
        parse_u32_auto("4294967296"),
        Err(
            "invalid decimal value \"4294967296\": number too large to fit in target type"
                .to_string()
        )
    );
}

#[test]
fn options_set_up_the_job() {
    let job = options().job().unwrap();
    assert_eq!(job.client.node_id, 5);
    assert_eq!(job.client.timeout_us, 500_000);
    assert_eq!(job.client.tx_base_id, 0x600);
    assert_eq!(job.client.rx_base_id, 1408);
    assert_eq!(job.download.product_code, 0x1F);
    assert_eq!(job.download.action, ActionType::UpdateBootloader);
    assert_eq!(job.download.sdoc_type, SdocType::Block);
    assert!(matches!(
        job.adapter,
        rustycan::adapters::AdapterKind::KCan { serial: Some(ref s) } if s == "A1"
    ));
}

#[test]
fn faults_in_the_options_are_reported() {
    let mut o = options();
    o.node_id = 128;
    assert_eq!(o.job().unwrap_err(), "node ID must be in range 1\u{2013}127, got 128");
    let mut o = options();
    o.sdoc_type = 1;
    assert_eq!(
        o.job().unwrap_err(),
        "--sdoc-type must be 0 (segmented) or 2 (block), got 1"
    );
    let mut o = options();
    o.adapter = "Apex".to_string();
    assert_eq!(
        o.job().unwrap_err(),
        "unknown adapter \"apex\". Use 'peak' or 'kcan'."
    );
    let mut o = options();
    o.vendor_id = "x".to_string();
    assert!(o.job().unwrap_err().starts_with("--vendor-id: invalid decimal value \"x\""));
}

#[test]
fn block_lines_show_the_share() {
    assert_eq!(
        block_line(7, 512, 1024),
        "[BBD] Block    7 downloaded  (50 %)  [512 / 1024 bytes]"
    );
    assert_eq!(
        block_line(1, 3, 0),
        "[BBD] Block    1 downloaded  (0 %)  [3 / 0 bytes]"
    );
    assert!(block_line(1, 300, 100).contains("(100 %)"));
}

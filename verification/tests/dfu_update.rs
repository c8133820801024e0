use ed25519_dalek::{Signer, SigningKey};
use rustycan::bundled_firmware_version;
use rustycan::dfu::{
    after_missing_device, check_info, flash_firmware, goes_ahead, is_app_device, is_dfu_device,
    plan_update, progress_line, verify_image, DfuAction, DfuError, DfuEvent,
};
use rustycan::settings::{choose_port, http_port, start_mode, StartMode};
use sha2::{Digest, Sha512};

fn key() -> SigningKey {
    SigningKey::from_bytes(&[7u8; 32])
}

fn signed(firmware: &[u8]) -> Vec<u8> {
    let mut image = firmware.to_vec();
    let signature = key().sign(Sha512::digest(firmware).as_slice());
    image.extend_from_slice(&signature.to_bytes());
    image
}

fn public_key() -> [u8; 32] {
    key().verifying_key().to_bytes()
}

fn status(status: u8, state: u8) -> DfuEvent {
    DfuEvent::Status(Ok(vec![status, 5, 0, 0, state, 0]))
}

/// Runs an update against a device that answers as expected; gives the downloaded blocks.
fn flash(image: Vec<u8>) -> (Vec<(u16, Vec<u8>)>, Result<(), DfuError>) {
    let (mut update, mut action) = flash_firmware(image, &public_key()).unwrap();
    let mut blocks: Vec<(u16, Vec<u8>)> = Vec::new();
    let mut state = 2u8;
    for _ in 0..10_000 {
        let event = match action {
            DfuAction::GetStatus => {
                let now = state;
                if state == 3 {
                    state = 5;
                } else if state == 6 {
                    state = 7;
                }
                status(0, now)
            }
            DfuAction::Download { block, data } => {
                state = if data.is_empty() { 6 } else { 3 };
                blocks.push((block, data));
                DfuEvent::Sent(Ok(()))
            }
            DfuAction::Sleep { us } => {
                assert_eq!(us, 5000);
                DfuEvent::Slept
            }
            DfuAction::ClearStatus | DfuAction::Abort => DfuEvent::Sent(Ok(())),
            DfuAction::Finish(r) => return (blocks, r),
        };
        action = update.step(event);
    }
    panic!("the update does not end");
}

#[test]
fn a_signed_image_is_accepted() {
    assert!(verify_image(&signed(b"firmware"), &public_key()).is_ok());
}

#[test]
fn a_changed_image_is_refused() {
    let mut image = signed(b"firmware");
    image[0] ^= 1;
    assert!(matches!(
        verify_image(&image, &public_key()),
        Err(DfuError::SignatureInvalid)
    ));
    let other = SigningKey::from_bytes(&[9u8; 32]).verifying_key().to_bytes();
    assert!(flash_firmware(signed(b"firmware"), &other).is_err());
}

#[test]
fn a_short_image_is_refused() {
    let Err(e) = verify_image(&vec![0u8; 64], &public_key()) else {
        panic!("expected a failure");
    };
    assert_eq!(e.display(), "DFU protocol error: signed file too short: 64 bytes");
}

#[test]
fn the_whole_image_is_downloaded_in_blocks() {
    let firmware: Vec<u8> = (0..200).map(|i| i as u8).collect();
    let image = signed(&firmware);
    let (blocks, r) = flash(image.clone());
    assert!(r.is_ok());
    // 264 bytes: four full blocks, one of 8 bytes, and the empty one at the end
    assert_eq!(blocks.len(), 6);
    let joined: Vec<u8> = blocks.iter().flat_map(|b| b.1.clone()).collect();
    assert_eq!(joined, image);
    assert_eq!(blocks[4].1.len(), 8);
    assert_eq!(blocks[5], (5, Vec::new()));
}

#[test]
fn a_failing_device_ends_the_update() {
    let (mut update, _) = flash_firmware(signed(&[1; 100]), &public_key()).unwrap();
    assert_eq!(update.total_blocks(), 3);
    let a = update.step(status(0, 2));
    assert!(matches!(a, DfuAction::Download { block: 0, .. }));
    let a = update.step(DfuEvent::Sent(Ok(())));
    assert!(matches!(a, DfuAction::GetStatus));
    let DfuAction::Finish(Err(e)) = update.step(status(0x0b, 10)) else {
        panic!("expected a failure");
    };
    assert_eq!(
        e.display(),
        "DFU protocol error: dfuERROR status=0x0b state=10 at block 0"
    );
}

#[test]
fn a_device_in_error_is_cleared_first() {
    let (mut update, _) = flash_firmware(signed(&[1; 10]), &public_key()).unwrap();
    assert!(matches!(update.step(status(0, 10)), DfuAction::ClearStatus));
    assert!(matches!(update.step(DfuEvent::Sent(Ok(()))), DfuAction::GetStatus));
    assert!(matches!(update.step(status(0, 2)), DfuAction::Download { .. }));
}

#[test]
fn a_busy_device_is_aborted_first() {
    let (mut update, _) = flash_firmware(signed(&[1; 10]), &public_key()).unwrap();
    assert!(matches!(update.step(status(0, 9)), DfuAction::Abort));
    let a = update.step(DfuEvent::Sent(Err("stall".to_string())));
    assert!(matches!(a, DfuAction::Sleep { us: 50_000 }));
    assert!(matches!(update.step(DfuEvent::Slept), DfuAction::ClearStatus));
    assert!(matches!(update.step(DfuEvent::Sent(Ok(()))), DfuAction::GetStatus));
    let DfuAction::Finish(Err(e)) = update.step(status(0, 4)) else {
        panic!("expected a failure");
    };
    assert_eq!(
        e.display(),
        "DFU protocol error: could not reach dfuIDLE, state=9"
    );
}

#[test]
fn short_replies_are_refused() {
    let (mut update, _) = flash_firmware(signed(&[1; 10]), &public_key()).unwrap();
    let DfuAction::Finish(Err(e)) = update.step(DfuEvent::Status(Ok(vec![0; 5]))) else {
        panic!("expected a failure");
    };
    assert_eq!(e.display(), "DFU protocol error: GETSTATUS short: 5 bytes");
    assert!(check_info(12).is_ok());
    assert_eq!(
        check_info(3).unwrap_err().display(),
        "DFU protocol error: GET_INFO short response: 3 bytes"
    );
}

#[test]
fn devices_are_recognised() {
    assert!(is_dfu_device(0x1209, 0xBEEF, 0xFE, 1, 2));
    assert!(!is_dfu_device(0x1209, 0xBEEF, 0xFF, 1, 2));
    assert!(is_app_device(0x1209, 0xBEEF, 0, Some("A"), None));
    assert!(is_app_device(0x1209, 0xBEEF, 0, Some("A"), Some("A")));
    assert!(!is_app_device(0x1209, 0xBEEF, 0, Some("A"), Some("B")));
    assert!(!is_app_device(0x1209, 0xBEEF, 0xFE, Some("A"), None));
    assert!(after_missing_device(5, 10).is_ok());
    assert!(matches!(
        after_missing_device(10, 10),
        Err(DfuError::DeviceNotFound)
    ));
}

#[test]
fn an_update_is_planned() {
    let p = plan_update(Ok((1, 2, 3)), Some((1, 2, 3)));
    assert!(p.confirm && p.detach);
    assert_eq!(p.message, "Device is already at v1.2.3 \u{2014} firmware is up to date");
    assert!(!goes_ahead(&p, true, "n\n"));
    assert!(goes_ahead(&p, true, " y\n"));
    assert!(goes_ahead(&p, false, ""));
    let p = plan_update(Ok((1, 2, 2)), Some((1, 2, 3)));
    assert!(!p.confirm);
    assert_eq!(p.message, "Updating: v1.2.2 \u{2192} v1.2.3");
    assert!(goes_ahead(&p, true, ""));
    let p = plan_update(Err(DfuError::DeviceNotFound), None);
    assert!(!p.detach);
    let p = plan_update(Err(DfuError::UsbOpen("busy".to_string())), None);
    assert!(p.detach);
    assert_eq!(
        p.message,
        "Could not query device version: USB open error: busy \u{2014} proceeding"
    );
}

#[test]
fn progress_is_shown() {
    assert_eq!(
        progress_line(1, 3),
        "\r[DFU] Downloading [ 33%] block 1/3   "
    );
    assert_eq!(
        progress_line(3, 3),
        "\r[DFU] Downloading [100%] block 3/3   "
    );
}

#[test]
fn versions_are_parsed() {
    assert_eq!(bundled_firmware_version("v0.2.0"), Some((0, 2, 0)));
    assert_eq!(bundled_firmware_version(" v0.2.0-3-gabcdef\n"), Some((0, 2, 0)));
    assert_eq!(bundled_firmware_version("1.2.3"), Some((1, 2, 3)));
    assert_eq!(bundled_firmware_version("v1.2"), None);
    assert_eq!(bundled_firmware_version("v1.2.3.4"), None);
    assert_eq!(bundled_firmware_version("v1.256.0"), None);
    assert_eq!(bundled_firmware_version("unknown"), None);
}

#[test]
fn the_port_is_chosen() {
    assert_eq!(http_port(Some(80), Some("{\"http_port\": 9000}")), 80);
    assert_eq!(http_port(None, Some("{\"http_port\": 9000}")), 9000);
    assert_eq!(http_port(None, Some("{\"http_port\": 70000}")), 7878);
    assert_eq!(http_port(None, Some("{\"http_port\": \"9000\"}")), 7878);
    assert_eq!(http_port(None, Some("no json")), 7878);
    assert_eq!(http_port(None, None), 7878);
    assert_eq!(choose_port(None, Some(65535)), 65535);
}

#[test]
fn the_mode_is_chosen() {
    assert_eq!(start_mode(false, false, false, true), Ok(StartMode::FirmwareUpdate));
    assert_eq!(start_mode(false, false, true, true), Ok(StartMode::Window));
    assert_eq!(start_mode(true, false, true, true), Ok(StartMode::Terminal));
    assert_eq!(start_mode(true, true, true, false), Ok(StartMode::LogToStdout));
    assert_eq!(start_mode(true, false, false, false), Err("--tui requires --config <FILE>"));
    assert_eq!(
        start_mode(false, true, false, false),
        Err("--log-to-stdout requires --config <FILE>")
    );
}

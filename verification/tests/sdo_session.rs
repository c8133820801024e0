use rustycan::adapters::AdapterError;
use rustycan::bbd::sdo_client::{
    after_attempt, after_paced_send, attempt_window_us, remaining_us, Accept, Mux, PacedStep,
    RetryStep, SdoAction, SdoClient, SdoClientConfig, SdoError, SdoInput, SdoOutcome, SdocType,
    WaitStep, SDO_ABORT_PROTOCOL_TIMEOUT,
};
use rustycan::canopen::sdo::calculate_crc16;
use rustycan::frame::{CanFrame, Id};

fn client() -> SdoClient {
    SdoClient::new(SdoClientConfig::default())
}

fn frame(id: u16, data: &[u8]) -> CanFrame {
    CanFrame::new(Id::standard(id).unwrap(), data).unwrap()
}

/// A server that acknowledges everything and keeps what it receives.
struct Server {
    received: Vec<u8>,
    crc: u16,
    blksize: u8,
    last_size: usize,
}

impl Server {
    fn new() -> Self {
        Server {
            received: Vec::new(),
            crc: 0,
            blksize: 3,
            last_size: 0,
        }
    }

    fn answer(&mut self, action: &SdoAction) -> SdoInput {
        match action {
            SdoAction::Initiate { request, .. } => {
                if request[0] == 0xC6 {
                    SdoInput::Response([
                        0xA4, request[1], request[2], request[3], self.blksize, 0, 0, 0,
                    ])
                } else {
                    SdoInput::Response([0x60, request[1], request[2], request[3], 0, 0, 0, 0])
                }
            }
            SdoAction::Exchange { frames, accept, .. } => match accept {
                Accept::SubblockAck => {
                    self.last_size = frames.len();
                    for f in frames {
                        self.received.extend_from_slice(&f[1..8]);
                    }
                    SdoInput::Response([0xA2, frames.len() as u8, self.blksize, 0, 0, 0, 0, 0])
                }
                Accept::BlockEndAck => {
                    let f = &frames[0];
                    let unused = ((f[0] >> 1) & 7) as usize;
                    let keep = self.received.len() - unused;
                    self.received.truncate(keep);
                    self.crc = u16::from_le_bytes([f[1], f[2]]);
                    SdoInput::Response([0xA1, 0, 0, 0, 0, 0, 0, 0])
                }
                _ => {
                    for f in frames {
                        let unused = ((f[0] >> 1) & 7) as usize;
                        self.received.extend_from_slice(&f[1..8 - unused]);
                    }
                    let toggle = frames[0][0] & 0x10;
                    SdoInput::Response([0x20 | toggle, 0, 0, 0, 0, 0, 0, 0])
                }
            },
            SdoAction::Stream { frames } => {
                for f in frames {
                    let unused = ((f[0] >> 1) & 7) as usize;
                    self.received.extend_from_slice(&f[1..8 - unused]);
                }
                SdoInput::NoResponse(SdoError::Timeout)
            }
            _ => panic!("nothing to answer"),
        }
    }
}

fn run(client: &mut SdoClient, first: SdoAction, server: &mut Server) -> Result<SdoOutcome, SdoError> {
    let mut action = first;
    for _ in 0..1000 {
        if let SdoAction::Finish(r) = action {
            return r;
        }
        let input = server.answer(&action);
        action = client.step(input);
    }
    panic!("the operation does not end");
}

#[test]
fn request_frame_goes_to_the_node() {
    let f = client().make_request_frame([1, 2, 3, 4, 5, 6, 7, 8]);
    assert_eq!(f.id().raw(), 0x601);
    assert_eq!(f.data(), &[1, 2, 3, 4, 5, 6, 7, 8]);
}

#[test]
fn expedited_number_is_read() {
    let mut c = client();
    let SdoAction::Initiate { request, .. } = c.read_u32(0x1000, 0) else {
        panic!("expected an initiate");
    };
    assert_eq!(request, [0x40, 0x00, 0x10, 0x00, 0, 0, 0, 0]);
    let a = c.step(SdoInput::Response([0x43, 0x00, 0x10, 0x00, 0x92, 0x01, 0x02, 0x00]));
    assert!(matches!(a, SdoAction::Finish(Ok(SdoOutcome::Value(0x0002_0192)))));
}

#[test]
fn text_is_read_in_segments() {
    let mut c = client();
    let _ = c.read_string(0x100A, 0);
    let a = c.step(SdoInput::Response([0x41, 0x0A, 0x10, 0x00, 9, 0, 0, 0]));
    let SdoAction::Exchange { frames, .. } = a else {
        panic!("expected a segment request");
    };
    assert_eq!(frames[0][0], 0x60);
    let a = c.step(SdoInput::Response([0x00, b'V', b'1', b'.', b'2', b'.', b'3', b'-']));
    let SdoAction::Exchange { frames, .. } = a else {
        panic!("expected a segment request");
    };
    assert_eq!(frames[0][0], 0x70);
    // five unused bytes, last segment
    let a = c.step(SdoInput::Response([0x1B, b'o', b'k', 0, 0, 0, 0, 0]));
    let SdoAction::Finish(Ok(SdoOutcome::Text(s))) = a else {
        panic!("expected the text");
    };
    assert_eq!(s, "V1.2.3-ok");
}

#[test]
fn segmented_download_carries_the_data() {
    let data: Vec<u8> = (0..40).collect();
    let mut c = client();
    let mut server = Server::new();
    let first = c.download(0x1F50, 1, &data, SdocType::Segmented);
    assert!(run(&mut c, first, &mut server).is_ok());
    assert_eq!(server.received, data);
}

#[test]
fn streamed_download_carries_the_data() {
    let data: Vec<u8> = (0..33).collect();
    let mut c = client();
    let mut server = Server::new();
    let first = c.download(0x1F50, 1, &data, SdocType::SegmentedNoWait);
    let _ = run(&mut c, first, &mut server);
    assert_eq!(server.received, data);
}

#[test]
fn block_download_carries_the_data_and_its_crc() {
    for len in [5usize, 7, 20, 21, 22, 100, 256] {
        let data: Vec<u8> = (0..len).map(|i| (i * 7) as u8).collect();
        let mut c = client();
        let mut server = Server::new();
        let first = c.download(0x1F50, 1, &data, SdocType::Block);
        assert!(run(&mut c, first, &mut server).is_ok());
        assert_eq!(server.received, data, "length {len}");
        assert_eq!(server.crc, calculate_crc16(&data));
    }
}

#[test]
fn short_data_is_written_at_once() {
    let mut c = client();
    let a = c.download(0x1F51, 1, &[0x80], SdocType::Block);
    let SdoAction::Exchange { frames, .. } = a else {
        panic!("expected an expedited write");
    };
    assert_eq!(frames[0], [0x2F, 0x51, 0x1F, 0x01, 0x80, 0, 0, 0]);
}

#[test]
fn abort_ends_the_operation() {
    let mut c = client();
    let _ = c.read_u32(0x1000, 0);
    let a = c.step(SdoInput::NoResponse(SdoError::Abort(0x0602_0000)));
    let SdoAction::Finish(Err(e)) = a else {
        panic!("expected a failure");
    };
    assert_eq!(e.display(), "SDO abort 0x06020000");
}

#[test]
fn frames_of_others_are_skipped() {
    let c = client();
    let mux = Mux {
        index: 0x1000,
        subindex: 0,
    };
    let accept = Accept::Upload(mux);
    // another node's response
    let f = frame(0x582, &[0x43, 0x00, 0x10, 0x00, 1, 0, 0, 0]);
    assert!(matches!(c.wait_step(Ok(f), accept, 0, 1000), WaitStep::Again));
    // a response for another object
    let f = frame(0x581, &[0x43, 0x18, 0x10, 0x01, 1, 0, 0, 0]);
    assert!(matches!(c.wait_step(Ok(f), accept, 0, 1000), WaitStep::Again));
    // an abort of another object
    let f = frame(0x581, &[0x80, 0x18, 0x10, 0x01, 0, 0, 0, 0]);
    assert!(matches!(c.wait_step(Ok(f), accept, 0, 1000), WaitStep::Again));
    // the answer
    let f = frame(0x581, &[0x43, 0x00, 0x10, 0x00, 1, 0, 0, 0]);
    assert!(matches!(c.wait_step(Ok(f), accept, 0, 1000), WaitStep::Done(Ok(_))));
    // nothing came in time
    let r = c.wait_step(Err(AdapterError::Timeout), accept, 1000, 1000);
    assert!(matches!(r, WaitStep::Done(Err(SdoError::Timeout))));
}

#[test]
fn unanswered_requests_are_sent_again() {
    assert!(matches!(
        after_attempt(Err(SdoError::Timeout), 10, 20),
        RetryStep::Resend
    ));
    assert!(matches!(
        after_attempt(Err(SdoError::Abort(SDO_ABORT_PROTOCOL_TIMEOUT)), 10, 20),
        RetryStep::Resend
    ));
    assert!(matches!(
        after_attempt(Err(SdoError::Timeout), 20, 20),
        RetryStep::Done(Err(SdoError::Timeout))
    ));
    assert_eq!(remaining_us(10, 30), Some(20));
    assert_eq!(remaining_us(30, 30), None);
    assert_eq!(attempt_window_us(0, 1_000_000), 250_000);
    assert_eq!(attempt_window_us(900_000, 1_000_000), 100_000);
}

#[test]
fn full_queue_is_waited_for() {
    assert!(matches!(
        after_paced_send(Err(AdapterError::TxQueueFull), 0, 10),
        PacedStep::Backoff
    ));
    assert!(matches!(
        after_paced_send(Err(AdapterError::TxQueueFull), 10, 10),
        PacedStep::Failed(SdoError::Adapter(AdapterError::TxQueueFull))
    ));
    assert!(matches!(after_paced_send(Ok(()), 0, 10), PacedStep::Sent));
}

#[test]
fn a_response_base_out_of_range_times_out() {
    let c = SdoClient::new(SdoClientConfig {
        rx_base_id: 0x900,
        ..SdoClientConfig::default()
    });
    let f = frame(0x581, &[0x43, 0x00, 0x10, 0x00, 1, 0, 0, 0]);
    assert!(matches!(c.wait_step(Ok(f), Accept::Any, 0, 10), WaitStep::Again));
    let r = c.wait_step(Err(AdapterError::Timeout), Accept::Any, 10, 10);
    assert!(matches!(r, WaitStep::Done(Err(SdoError::Timeout))));
}

#[test]
fn transfer_types_have_numbers() {
    assert_eq!(SdocType::from_u8(0), Some(SdocType::Segmented));
    assert_eq!(SdocType::from_u8(2), Some(SdocType::Block));
    assert_eq!(SdocType::from_u8(3), Some(SdocType::SegmentedNoWait));
    assert_eq!(SdocType::from_u8(1), None);
}

use std::cell::RefCell;
use std::rc::Rc;

use ectool::controller::EcController;
use ectool::discovery::{find_device, known_devices, DeviceInfo};
use ectool::error::Error;
use ectool::protocol::{decode_text, text_payload, Ec, ValueTarget};
use ectool::transport::{
    build_request, parse_response, read_outcome, write_outcome, AccessHid, ReportDevice,
};

/// What the mock answers to each report.
#[derive(Clone, Copy, PartialEq)]
enum Answer {
    /// Echoes the request with result code 0.
    Echo,
    /// Echoes the request with this result code.
    Code(u8),
    /// Never answers.
    Silent,
    /// Fails every write.
    BrokenWrite,
    /// Answers with a short report.
    Short,
}

struct MockDevice {
    written: Rc<RefCell<Vec<Vec<u8>>>>,
    answer: Answer,
    payload: Vec<u8>,
    last: Vec<u8>,
    /// The position of the one write whose answer carries result code 1.
    fail_at: Option<usize>,
}

impl MockDevice {
    fn new(answer: Answer) -> (Self, Rc<RefCell<Vec<Vec<u8>>>>) {
        let written = Rc::new(RefCell::new(Vec::new()));
        let dev = MockDevice { written: written.clone(), answer, payload: vec![], last: vec![], fail_at: None };
        (dev, written)
    }
}

impl ReportDevice for MockDevice {
    fn write_report(&mut self, report: &Vec<u8>) -> Result<usize, ()> {
        if self.answer == Answer::BrokenWrite {
            return Err(());
        }
        self.written.borrow_mut().push(report.clone());
        self.last = report.clone();
        Ok(report.len())
    }

    fn read_report(&mut self, max_len: usize, _timeout_ms: i32) -> Result<Vec<u8>, ()> {
        let mut resp = self.last[1..].to_vec();
        resp.truncate(max_len);
        match self.answer {
            Answer::Echo => {}
            Answer::Code(c) => resp[1] = c,
            Answer::Silent => return Ok(vec![]),
            Answer::BrokenWrite => return Err(()),
            Answer::Short => return Ok(vec![1, 2, 3]),
        }
        if self.fail_at == Some(self.written.borrow().len() - 1) {
            resp[1] = 1;
        }
        for (i, b) in self.payload.iter().enumerate() {
            resp[2 + i] = *b;
        }
        Ok(resp)
    }
}

fn controller(answer: Answer) -> (EcController<MockDevice>, Rc<RefCell<Vec<Vec<u8>>>>) {
    let (dev, written) = MockDevice::new(answer);
    (EcController::new(dev), written)
}

fn count(written: &Rc<RefCell<Vec<Vec<u8>>>>) -> usize {
    written.borrow().len()
}

#[test]
fn request_report_layout() {
    let r = build_request(14, &vec![7, 1, 2, 3]);
    assert_eq!(r.len(), 33);
    assert_eq!(&r[..7], &[0, 14, 0, 7, 1, 2, 3]);
    assert!(r[7..].iter().all(|&b| b == 0));
}

#[test]
fn response_parsing() {
    let mut full = vec![0u8; 32];
    full[0] = 13;
    full[1] = 0;
    full[2] = 9;
    full[3] = 8;
    match parse_response(&full, 2) {
        Ok(Some((code, data))) => {
            assert_eq!(code, 0);
            assert_eq!(data, vec![9, 8]);
        }
        _ => panic!("full report should parse"),
    }
    assert!(matches!(parse_response(&vec![], 2), Ok(None)));
    assert_eq!(parse_response(&vec![1, 2, 3], 2).unwrap_err(), Error::ProtocolError);
}

#[test]
fn render_twice_writes_nothing_second_time() {
    let (mut ctl, written) = controller(Answer::Echo);
    assert_eq!(ctl.render_framebuffer(), Ok(()));
    assert_eq!(count(&written), 84);
    assert_eq!(ctl.render_framebuffer(), Ok(()));
    assert_eq!(count(&written), 84);
}

#[test]
fn fill_then_render_writes_each_led_once() {
    let (mut ctl, written) = controller(Answer::Echo);
    let mut fb = ctl.framebuffer().clone();
    fb.fill(255, 0, 160);
    ctl.set_framebuffer(fb);
    assert_eq!(ctl.render_framebuffer(), Ok(()));
    assert_eq!(count(&written), ctl.framebuffer().num_leds());
    assert_eq!(ctl.render_framebuffer(), Ok(()));
    assert_eq!(count(&written), 84);
    let reports = written.borrow();
    assert_eq!(&reports[0][..7], &[0, 14, 0, 69, 255, 0, 160]);
    assert!(reports.iter().all(|r| r[1] == 14 && r[4..7] == [255, 0, 160]));
}

#[test]
fn render_writes_only_changed_leds() {
    let (mut ctl, written) = controller(Answer::Echo);
    assert_eq!(ctl.render_framebuffer(), Ok(()));
    let mut fb = ctl.framebuffer().clone();
    fb.set(3, 14, 1, 2, 3);
    fb.set(3, 13, 1, 2, 3);
    ctl.set_framebuffer(fb);
    assert_eq!(ctl.render_framebuffer(), Ok(()));
    assert_eq!(count(&written), 85);
    assert_eq!(&written.borrow()[84][..7], &[0, 14, 0, 25, 1, 2, 3]);
}

#[test]
fn failed_render_keeps_leds_unwritten() {
    let (mut ctl, written) = controller(Answer::Code(1));
    assert_eq!(ctl.render_framebuffer(), Err(Error::ProtocolError));
    assert_eq!(count(&written), 1);
    assert!(ctl.framebuffer().flat_leds().iter().all(|l| l.sync_color.is_none()));
}

#[test]
fn bad_layer_rejected_without_io() {
    let (mut ctl, written) = controller(Answer::Echo);
    assert_eq!(ctl.led_set_mode(5, 1, 0), Err(Error::PreconditionViolation));
    assert_eq!(ctl.led_get_mode(4), Err(Error::PreconditionViolation));
    assert_eq!(count(&written), 0);
    assert_eq!(ctl.led_set_mode(3, 2, 7), Ok(()));
    assert_eq!(&written.borrow()[0][..6], &[0, 16, 0, 3, 2, 7]);
}

#[test]
fn absent_index_rejected_without_io() {
    let (mut ctl, written) = controller(Answer::Echo);
    assert_eq!(ctl.led_get_value(255), Err(Error::PreconditionViolation));
    assert_eq!(ctl.led_set_value(255, 1), Err(Error::PreconditionViolation));
    assert_eq!(ctl.led_get_color(255), Err(Error::PreconditionViolation));
    assert_eq!(ctl.led_set_color(255, 1, 2, 3), Err(Error::PreconditionViolation));
    assert_eq!(ctl.get_led(255).unwrap_err(), Error::PreconditionViolation);
    assert_eq!(count(&written), 0);
}

#[test]
fn no_matching_device_is_not_found() {
    assert_eq!(find_device(&vec![], &known_devices()), Err(Error::DeviceNotFound));
    let others = vec![
        DeviceInfo { vendor_id: 0x3384, product_id: 0x000B, interface_number: 1 },
        DeviceInfo { vendor_id: 0x3384, product_id: 0x0001, interface_number: 0 },
        DeviceInfo { vendor_id: 0x1234, product_id: 0x0001, interface_number: 1 },
    ];
    assert_eq!(find_device(&others, &known_devices()), Err(Error::DeviceNotFound));
}

#[test]
fn first_matching_device_is_chosen() {
    let devices = vec![
        DeviceInfo { vendor_id: 0x3384, product_id: 0x0001, interface_number: 0 },
        DeviceInfo { vendor_id: 0x3384, product_id: 0x000A, interface_number: 1 },
        DeviceInfo { vendor_id: 0x3384, product_id: 0x0001, interface_number: 1 },
    ];
    assert_eq!(find_device(&devices, &known_devices()), Ok(1));
}

#[test]
fn open_sets_every_layer() {
    let (mut ctl, written) = controller(Answer::Echo);
    assert_eq!(ctl.open(), Ok(()));
    let reports = written.borrow();
    assert_eq!(reports.len(), 8);
    for layer in 0..4u8 {
        let mode = &reports[2 * layer as usize];
        let value = &reports[2 * layer as usize + 1];
        assert_eq!(&mode[..6], &[0, 16, 0, layer, 1, 0]);
        assert_eq!(&value[..5], &[0, 12, 0, 0xF0 | layer, 0xFF]);
    }
    drop(reports);
    assert_eq!(ctl.close(), Ok(()));
    assert_eq!(count(&written), 8);
}

#[test]
fn board_text_stops_at_nul() {
    let (mut dev, written) = MockDevice::new(Answer::Echo);
    dev.payload = b"launch_1\0xyz".to_vec();
    let mut ctl = EcController::new(dev);
    assert_eq!(ctl.board(), Ok("launch_1".to_string()));
    assert_eq!(written.borrow()[0][1], 2);
    assert_eq!(written.borrow()[0].len(), 33);
}

#[test]
fn version_text_is_decoded() {
    let (mut dev, written) = MockDevice::new(Answer::Echo);
    dev.payload = b"1.2.3".to_vec();
    let mut ctl = EcController::new(dev);
    assert_eq!(ctl.version(), Ok("1.2.3".to_string()));
    assert_eq!(written.borrow()[0][1], 3);
}

#[test]
fn invalid_text_is_encoding_error() {
    let (mut dev, _written) = MockDevice::new(Answer::Echo);
    dev.payload = vec![0xFF, 0xFE, 0];
    let mut ctl = EcController::new(dev);
    assert_eq!(ctl.board(), Err(Error::EncodingError));
}

#[test]
fn text_helpers() {
    assert_eq!(text_payload(&vec![65, 66, 0, 67]), vec![65, 66]);
    assert_eq!(text_payload(&vec![65, 66]), vec![65, 66]);
    assert_eq!(text_payload(&vec![0, 66]), Vec::<u8>::new());
    assert_eq!(decode_text(&vec![0x68, 0x69, 0]), Ok("hi".to_string()));
    assert_eq!(decode_text(&vec![0xC3]), Err(Error::EncodingError));
}

#[test]
fn silent_device_times_out_after_all_retries() {
    let (mut ctl, written) = controller(Answer::Silent);
    assert_eq!(ctl.led_set_color(1, 2, 3, 4), Err(Error::TransportError));
    assert_eq!(count(&written), 10);
}

#[test]
fn write_failure_is_transport_error() {
    let (mut ctl, _written) = controller(Answer::BrokenWrite);
    assert_eq!(ctl.led_get_color(1), Err(Error::TransportError));
}

#[test]
fn short_answer_is_protocol_error() {
    let (mut ctl, _written) = controller(Answer::Short);
    assert_eq!(ctl.led_get_mode(0), Err(Error::ProtocolError));
}

#[test]
fn nonzero_result_code_is_protocol_error() {
    let (mut ctl, _written) = controller(Answer::Code(3));
    assert_eq!(ctl.led_set_value(7, 1), Err(Error::ProtocolError));
}

#[test]
fn answers_are_decoded() {
    let (mut dev, written) = MockDevice::new(Answer::Echo);
    dev.payload = vec![5, 40, 50, 60];
    let mut ctl = EcController::new(dev);
    assert_eq!(ctl.led_get_color(5), Ok((40, 50, 60)));
    assert_eq!(ctl.led_get_mode(2), Ok((40, 50)));
    assert_eq!(ctl.led_get_value(0xF1), Ok((40, 50)));
    let led = ctl.get_led(5).unwrap();
    assert_eq!((led.index, led.color, led.sync_color), (5, (40, 50, 60), None));
    let reports = written.borrow();
    assert_eq!(&reports[0][..7], &[0, 13, 0, 5, 0, 0, 0]);
    assert_eq!(&reports[1][..6], &[0, 15, 0, 2, 0, 0]);
    assert_eq!(&reports[2][..6], &[0, 11, 0, 0xF1, 0, 0]);
}

#[test]
fn set_led_writes_only_when_out_of_sync() {
    let (mut ctl, written) = controller(Answer::Echo);
    let mut led = ectool::framebuffer::Led::new(7, 1, 2, 3);
    assert_eq!(ctl.set_led(led), Ok(()));
    assert_eq!(count(&written), 1);
    led.sync_color = Some(led.color);
    assert_eq!(ctl.set_led(led), Ok(()));
    assert_eq!(count(&written), 1);
}

#[test]
fn value_targets_round_trip() {
    assert_eq!(ValueTarget::from_byte(0xF2), Some(ValueTarget::Layer(2)));
    assert_eq!(ValueTarget::from_byte(0xF4), Some(ValueTarget::Led(0xF4)));
    assert_eq!(ValueTarget::from_byte(17), Some(ValueTarget::Led(17)));
    assert_eq!(ValueTarget::from_byte(255), None);
    assert_eq!(ValueTarget::Layer(3).to_byte(), 0xF3);
    assert_eq!(ValueTarget::Led(9).to_byte(), 9);
}

#[test]
fn protocol_client_checks_targets() {
    let (dev, written) = MockDevice::new(Answer::Echo);
    let mut ec = Ec::new(AccessHid::new(dev, 3, 50));
    assert_eq!(ec.led_set_value(ValueTarget::Layer(4), 1), Err(Error::PreconditionViolation));
    assert_eq!(ec.led_set_value(ValueTarget::Led(255), 1), Err(Error::PreconditionViolation));
    assert_eq!(count(&written), 0);
    assert_eq!(ec.led_set_value(ValueTarget::Layer(1), 9), Ok(()));
    assert_eq!(&written.borrow()[0][..5], &[0, 12, 0, 0xF1, 9]);
}

#[test]
fn oversized_payload_is_refused() {
    let (dev, written) = MockDevice::new(Answer::Echo);
    let mut access = AccessHid::new(dev, 3, 50);
    assert_eq!(access.data_size(), 30);
    let mut data = vec![0u8; 31];
    assert_eq!(access.command(2, &mut data), Err(Error::PreconditionViolation));
    assert_eq!(count(&written), 0);
    let mut data = vec![0u8; 30];
    assert_eq!(access.command(2, &mut data), Ok(0));
}

#[test]
fn open_attempts_every_command_after_failure() {
    let (mut ctl, written) = controller(Answer::Code(1));
    assert_eq!(ctl.open(), Err(Error::ProtocolError));
    assert_eq!(count(&written), 8);
}

#[test]
fn render_resumes_after_failed_write() {
    let (mut dev, written) = MockDevice::new(Answer::Echo);
    dev.fail_at = Some(2);
    let mut ctl = EcController::new(dev);
    assert_eq!(ctl.render_framebuffer(), Err(Error::ProtocolError));
    assert_eq!(count(&written), 3);
    let leds = ctl.framebuffer().flat_leds();
    assert!(leds[..2].iter().all(|l| l.sync_color == Some((0, 0, 0))));
    assert!(leds[2..].iter().all(|l| l.sync_color.is_none()));
    assert_eq!(ctl.render_framebuffer(), Ok(()));
    assert_eq!(count(&written), 3 + 82);
    assert_eq!(written.borrow()[3][3], leds[2].index);
    assert_eq!(ctl.render_framebuffer(), Ok(()));
    assert_eq!(count(&written), 85);
}

#[test]
fn write_and_read_outcomes() {
    assert_eq!(write_outcome(&Err(())), Err(Error::TransportError));
    assert_eq!(write_outcome(&Ok(32)), Err(Error::ProtocolError));
    assert_eq!(write_outcome(&Ok(33)), Ok(()));
    assert_eq!(read_outcome(Err(()), 3).unwrap_err(), Error::TransportError);
    assert!(matches!(read_outcome(Ok(vec![]), 3), Ok(None)));
    assert_eq!(read_outcome(Ok(vec![1; 5]), 3).unwrap_err(), Error::ProtocolError);
    let mut full = vec![0u8; 32];
    full[1] = 4;
    full[2] = 7;
    match read_outcome(Ok(full), 1) {
        Ok(Some((code, data))) => {
            assert_eq!(code, 4);
            assert_eq!(data, vec![7]);
        }
        _ => panic!("full report should parse"),
    }
}

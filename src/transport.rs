use vstd::prelude::*;

use crate::error::Error;

verus! {

/// Bytes in one outgoing HID report: a zero report id and 32 payload bytes.
pub const REPORT_LEN: usize = 33;

/// Bytes in one complete incoming report (the report id is not returned).
pub const RESPONSE_LEN: usize = 32;

/// Largest command payload that one report carries.
pub const DATA_SIZE: usize = 30;

/// A raw HID device that exchanges fixed-size reports.
///
/// Nothing is assumed of what a device answers: every caller in this crate
/// checks lengths and codes itself.
pub trait ReportDevice {
    /// Writes one report and returns how many bytes the device took.
    fn write_report(&mut self, report: &Vec<u8>) -> Result<usize, ()>;

    /// Reads one report of at most `max_len` bytes, waiting up to
    /// `timeout_ms` milliseconds; an empty report means nothing arrived.
    fn read_report(&mut self, max_len: usize, timeout_ms: i32) -> Result<Vec<u8>, ()>;
}

/// The report that carries command `cmd` with payload `data`: report id 0,
/// the command, a zero result byte, the payload, then zero padding.
pub open spec fn request_report(cmd: u8, data: Seq<u8>) -> Seq<u8> {
    seq![0u8, cmd, 0u8] + data + Seq::new((DATA_SIZE - data.len()) as nat, |i: int| 0u8)
}

/// Builds the request report for `cmd` and `data`.
pub fn build_request(cmd: u8, data: &Vec<u8>) -> (r: Vec<u8>)
    requires
        data@.len() <= DATA_SIZE,
    ensures
        r@ == request_report(cmd, data@),
        r@.len() == REPORT_LEN,
{
    let mut r: Vec<u8> = Vec::new();
    r.push(0);
    r.push(cmd);
    r.push(0);
    let mut i: usize = 0;
    while i < data.len()
        invariant
            i <= data@.len(),
            data@.len() <= DATA_SIZE,
            r@ == seq![0u8, cmd, 0u8] + data@.subrange(0, i as int),
        decreases data@.len() - i,
    {
        r.push(data[i]);
        i += 1;
    }
    assert(data@.subrange(0, data@.len() as int) == data@);
    while r.len() < REPORT_LEN
        invariant
            3 + data@.len() <= r@.len() <= REPORT_LEN,
            data@.len() <= DATA_SIZE,
            r@ == seq![0u8, cmd, 0u8] + data@ + Seq::new(
                (r@.len() - 3 - data@.len()) as nat,
                |j: int| 0u8,
            ),
        decreases REPORT_LEN - r@.len(),
    {
        r.push(0);
        assert(r@ == seq![0u8, cmd, 0u8] + data@ + Seq::new(
            (r@.len() - 3 - data@.len()) as nat,
            |j: int| 0u8,
        ));
    }
    r
}

/// What one response report says: a full report carries the result code at
/// offset 1 and the payload from offset 2; an empty one means no answer yet.
pub fn parse_response(resp: &Vec<u8>, n: usize) -> (r: Result<Option<(u8, Vec<u8>)>, Error>)
    requires
        n <= DATA_SIZE,
    ensures
        match r {
            Ok(Some((code, data))) => resp@.len() == RESPONSE_LEN && code == resp@[1]
                && data@ == resp@.subrange(2, 2 + n),
            Ok(None) => resp@.len() == 0,
            Err(e) => e == Error::ProtocolError && resp@.len() != 0 && resp@.len()
                != RESPONSE_LEN,
        },
{
    if resp.len() == RESPONSE_LEN {
        let mut data: Vec<u8> = Vec::new();
        let mut i: usize = 0;
        while i < n
            invariant
                i <= n,
                n <= DATA_SIZE,
                resp@.len() == RESPONSE_LEN,
                data@ == resp@.subrange(2, 2 + i),
            decreases n - i,
        {
            data.push(resp[2 + i]);
            i += 1;
        }
        Ok(Some((resp[1], data)))
    } else if resp.len() == 0 {
        Ok(None)
    } else {
        Err(Error::ProtocolError)
    }
}

/// What a write of a request report means: a failed write is a transport
/// error, a short one a protocol error.
pub fn write_outcome(written: &Result<usize, ()>) -> (r: Result<(), Error>)
    ensures
        match *written {
            Err(_) => r == Err::<(), Error>(Error::TransportError),
            Ok(count) => if count == REPORT_LEN {
                r is Ok
            } else {
                r == Err::<(), Error>(Error::ProtocolError)
            },
        },
{
    match written {
        Err(_) => Err(Error::TransportError),
        Ok(count) => {
            if *count == REPORT_LEN {
                Ok(())
            } else {
                Err(Error::ProtocolError)
            }
        },
    }
}

/// What a read of a response report means for a command with an `n`-byte
/// payload: a failed read is a transport error; otherwise the report is
/// parsed, `Ok(None)` meaning that no answer arrived in time.
pub fn read_outcome(read: Result<Vec<u8>, ()>, n: usize) -> (r: Result<Option<(u8, Vec<u8>)>, Error>)
    requires
        n <= DATA_SIZE,
    ensures
        match read {
            Err(_) => r matches Err(e) && e == Error::TransportError,
            Ok(resp) => match r {
                Ok(Some((code, data))) => resp@.len() == RESPONSE_LEN && code == resp@[1]
                    && data@ == resp@.subrange(2, 2 + n),
                Ok(None) => resp@.len() == 0,
                Err(e) => e == Error::ProtocolError && resp@.len() != 0 && resp@.len()
                    != RESPONSE_LEN,
            },
        },
{
    match read {
        Err(_) => Err(Error::TransportError),
        Ok(resp) => parse_response(&resp, n),
    }
}

/// `new` is `old` with one more complete response report appended.
pub open spec fn one_more_reply(old: Seq<Seq<u8>>, new: Seq<Seq<u8>>) -> bool {
    new.len() == old.len() + 1 && new.drop_last() == old && new.last().len() == RESPONSE_LEN
}

/// Access to the controller through a HID device, with a read timeout and
/// a bounded number of attempts per command.
pub struct AccessHid<D> {
    device: D,
    retries: u32,
    timeout: i32,
    replies: Ghost<Seq<Seq<u8>>>,
}

impl<D: ReportDevice> AccessHid<D> {
    /// How many times a command is tried before it fails with a timeout.
    pub closed spec fn retries(&self) -> u32 {
        self.retries
    }

    /// The read timeout in milliseconds.
    pub closed spec fn timeout(&self) -> i32 {
        self.timeout
    }

    /// Every complete response report received so far, in order.
    pub closed spec fn replies(&self) -> Seq<Seq<u8>> {
        self.replies@
    }

    pub fn new(device: D, retries: u32, timeout: i32) -> (r: Self)
        ensures
            r.retries() == retries,
            r.timeout() == timeout,
            r.replies() == Seq::<Seq<u8>>::empty(),
    {
        AccessHid { device, retries, timeout, replies: Ghost(Seq::empty()) }
    }

    /// The number of payload bytes one command can carry.
    pub fn data_size(&self) -> (r: usize)
        ensures
            r == DATA_SIZE,
    {
        DATA_SIZE
    }

    /// One write and one read. `Ok(None)` when the read timed out.
    fn command_try(&mut self, cmd: u8, data: &mut Vec<u8>) -> (r: Result<Option<u8>, Error>)
        requires
            old(data)@.len() <= DATA_SIZE,
        ensures
            final(data)@.len() == old(data)@.len(),
            final(self).retries() == old(self).retries(),
            final(self).timeout() == old(self).timeout(),
            match r {
                Ok(Some(code)) => one_more_reply(old(self).replies(), final(self).replies())
                    && code == final(self).replies().last()[1] && final(data)@ == final(self).replies().last().subrange(2, 2 + old(data)@.len() as int),
                _ => final(self).replies() == old(self).replies(),
            },
            r matches Err(e) ==> e == Error::TransportError || e == Error::ProtocolError,
    {
        let report = build_request(cmd, data);
        let written = self.device.write_report(&report);
        write_outcome(&written)?;
        let read = self.device.read_report(RESPONSE_LEN, self.timeout);
        let ghost resp = read;
        match read_outcome(read, data.len()) {
            Ok(Some((code, payload))) => {
                proof {
                    let before = self.replies@;
                    self.replies@ = self.replies@.push(resp->Ok_0@);
                    assert(self.replies@.drop_last() == before);
                }
                *data = payload;
                Ok(Some(code))
            },
            Ok(None) => Ok(None),
            Err(e) => Err(e),
        }
    }

    /// Sends `cmd` with payload `data` and returns the controller's result
    /// code; the payload is replaced by the answer's payload of equal length.
    /// An attempt that gets no answer in time is repeated, up to `retries`
    /// attempts. A payload longer than `DATA_SIZE` is refused before any I/O.
    pub fn command(&mut self, cmd: u8, data: &mut Vec<u8>) -> (r: Result<u8, Error>)
        ensures
            final(data)@.len() == old(data)@.len(),
            final(self).retries() == old(self).retries(),
            final(self).timeout() == old(self).timeout(),
            old(data)@.len() > DATA_SIZE <==> r == Err::<u8, Error>(Error::PreconditionViolation),
            old(data)@.len() > DATA_SIZE ==> *final(self) == *old(self),
            old(data)@.len() <= DATA_SIZE && old(self).retries() == 0 ==> r == Err::<u8, Error>(
                Error::TransportError,
            ),
            match r {
                Ok(code) => one_more_reply(old(self).replies(), final(self).replies()) && code
                    == final(self).replies().last()[1] && final(data)@ == final(self).replies().last().subrange(2, 2 + old(data)@.len() as int),
                Err(e) => (e == Error::TransportError || e == Error::ProtocolError
                    || e == Error::PreconditionViolation) && final(self).replies() == old(self).replies(),
            },
    {
        if data.len() > DATA_SIZE {
            return Err(Error::PreconditionViolation);
        }
        let mut attempt: u32 = 0;
        while attempt < self.retries
            invariant
                attempt <= self.retries(),
                data@.len() == old(data)@.len(),
                data@.len() <= DATA_SIZE,
                self.retries() == old(self).retries(),
                self.timeout() == old(self).timeout(),
                self.replies() == old(self).replies(),
            decreases self.retries() - attempt,
        {
            match self.command_try(cmd, data) {
                Ok(Some(code)) => {
                    return Ok(code);
                },
                Ok(None) => {},
                Err(e) => {
                    return Err(e);
                },
            }
            attempt += 1;
        }
        Err(Error::TransportError)
    }
}

} // verus!

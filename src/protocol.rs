use vstd::prelude::*;

use crate::error::Error;
use crate::transport::{one_more_reply, AccessHid, ReportDevice, DATA_SIZE};
use vstd::utf8::{decode_utf8, valid_utf8};

verus! {

/// Command code: read the board identity.
pub const CMD_BOARD: u8 = 2;
/// Command code: read the firmware version.
pub const CMD_VERSION: u8 = 3;
/// Command code: read an LED or layer brightness.
pub const CMD_LED_GET_VALUE: u8 = 11;
/// Command code: write an LED or layer brightness.
pub const CMD_LED_SET_VALUE: u8 = 12;
/// Command code: read an LED's color.
pub const CMD_LED_GET_COLOR: u8 = 13;
/// Command code: write an LED's color.
pub const CMD_LED_SET_COLOR: u8 = 14;
/// Command code: read a layer's animation mode and speed.
pub const CMD_LED_GET_MODE: u8 = 15;
/// Command code: write a layer's animation mode and speed.
pub const CMD_LED_SET_MODE: u8 = 16;

/// The index that marks a grid position without an LED.
pub const ABSENT: u8 = 255;
/// The number of lighting layers.
pub const NUM_LAYERS: u8 = 4;
/// The high nibble that turns a layer number into a brightness selector.
pub const LAYER_SELECTOR: u8 = 0xF0;

/// What a brightness command addresses: one LED, or a whole lighting layer.
#[derive(Debug, Clone, Copy, PartialEq, Eq, Structural)]
pub enum ValueTarget {
    Led(u8),
    Layer(u8),
}

/// A target that the controller accepts: an LED index other than the absent
/// marker, or a layer below `NUM_LAYERS`.
pub open spec fn valid_target(t: ValueTarget) -> bool {
    match t {
        ValueTarget::Led(i) => i != ABSENT,
        ValueTarget::Layer(l) => l < NUM_LAYERS,
    }
}

/// The byte that stands for `t` on the wire.
pub open spec fn target_byte(t: ValueTarget) -> u8 {
    match t {
        ValueTarget::Led(i) => i,
        ValueTarget::Layer(l) => (LAYER_SELECTOR + l) as u8,
    }
}

/// The target a wire byte stands for: `0xF0` to `0xF3` select a layer, any
/// other byte but the absent marker an LED.
pub open spec fn byte_target(b: u8) -> Option<ValueTarget> {
    if b == ABSENT {
        None
    } else if LAYER_SELECTOR <= b && b < LAYER_SELECTOR + NUM_LAYERS {
        Some(ValueTarget::Layer((b - LAYER_SELECTOR) as u8))
    } else {
        Some(ValueTarget::Led(b))
    }
}

impl ValueTarget {
    /// The wire byte of a valid target.
    pub fn to_byte(&self) -> (r: u8)
        requires
            valid_target(*self),
        ensures
            r == target_byte(*self),
    {
        match *self {
            ValueTarget::Led(i) => i,
            ValueTarget::Layer(l) => LAYER_SELECTOR + l,
        }
    }

    /// Reads a wire byte as a target; `None` for the absent marker.
    pub fn from_byte(b: u8) -> (r: Option<ValueTarget>)
        ensures
            r == byte_target(b),
    {
        if b == ABSENT {
            None
        } else if LAYER_SELECTOR <= b && b < LAYER_SELECTOR + NUM_LAYERS {
            Some(ValueTarget::Layer(b - LAYER_SELECTOR))
        } else {
            Some(ValueTarget::Led(b))
        }
    }
}

/// Every target read from a byte is valid and is written back as that byte.
pub proof fn target_byte_round_trip(b: u8)
    ensures
        byte_target(b) matches Some(t) ==> valid_target(t) && target_byte(t) == b,
        b != ABSENT <==> byte_target(b) is Some,
{
}

/// Relies on `String::from_utf8`: it succeeds exactly on valid UTF-8 and then
/// holds the decoded characters.
#[verifier::external_body]
fn utf8_string(bytes: Vec<u8>) -> (r: Option<String>)
    ensures
        r is Some <==> valid_utf8(bytes@),
        r matches Some(s) ==> s@ == decode_utf8(bytes@),
{
    String::from_utf8(bytes).ok()
}

/// The bytes before the first zero byte, or all of them when none is zero.
pub open spec fn until_nul(b: Seq<u8>) -> Seq<u8>
    decreases b.len(),
{
    if b.len() == 0 {
        b
    } else if b[0] == 0 {
        Seq::empty()
    } else {
        seq![b[0]] + until_nul(b.drop_first())
    }
}

proof fn lemma_until_nul_prefix(b: Seq<u8>, i: int)
    requires
        0 <= i <= b.len(),
        forall|j: int| 0 <= j < i ==> b[j] != 0,
    ensures
        i == b.len() ==> until_nul(b) == b,
        i < b.len() && b[i] == 0 ==> until_nul(b) == b.subrange(0, i),
    decreases i,
{
    if i > 0 {
        lemma_until_nul_prefix(b.drop_first(), i - 1);
        assert(b.drop_first().subrange(0, i - 1) == b.subrange(1, i));
        assert(seq![b[0]] + b.subrange(1, i) == b.subrange(0, i));
        assert(seq![b[0]] + b.drop_first() == b);
    } else {
        assert(b.subrange(0, 0) == Seq::<u8>::empty());
    }
}

/// The text part of an identity or version answer: the bytes up to the
/// first zero byte.
pub fn text_payload(data: &Vec<u8>) -> (r: Vec<u8>)
    ensures
        r@ == until_nul(data@),
{
    let mut i: usize = 0;
    while i < data.len() && data[i] != 0
        invariant
            i <= data@.len(),
            forall|j: int| 0 <= j < i ==> data@[j] != 0,
        decreases data@.len() - i,
    {
        i += 1;
    }
    proof {
        lemma_until_nul_prefix(data@, i as int);
    }
    let mut r: Vec<u8> = Vec::new();
    let mut k: usize = 0;
    while k < i
        invariant
            k <= i <= data@.len(),
            r@ == data@.subrange(0, k as int),
        decreases i - k,
    {
        r.push(data[k]);
        k += 1;
    }
    proof {
        assert(data@.subrange(0, data@.len() as int) == data@);
    }
    r
}

/// Decodes an identity or version answer as text.
pub fn decode_text(data: &Vec<u8>) -> (r: Result<String, Error>)
    ensures
        match r {
            Ok(s) => valid_utf8(until_nul(data@)) && s@ == decode_utf8(until_nul(data@)),
            Err(e) => e == Error::EncodingError && !valid_utf8(until_nul(data@)),
        },
{
    match utf8_string(text_payload(data)) {
        Some(s) => Ok(s),
        None => Err(Error::EncodingError),
    }
}

/// A failure that the transport or the controller's answer caused.
pub open spec fn io_error(e: Error) -> bool {
    e == Error::TransportError || e == Error::ProtocolError
}

/// A reply with result code 0 was added to the replies received.
pub open spec fn answered(old: Seq<Seq<u8>>, new: Seq<Seq<u8>>) -> bool {
    one_more_reply(old, new) && new.last()[1] == 0
}

/// The text that an identity or version reply carries: its payload up to
/// the first zero byte.
pub open spec fn reply_text(reply: Seq<u8>) -> Seq<u8> {
    until_nul(reply.subrange(2, 2 + DATA_SIZE))
}

/// What a text reply decodes to.
pub open spec fn text_result(reply: Seq<u8>, r: Result<String, Error>) -> bool {
    match r {
        Ok(s) => valid_utf8(reply_text(reply)) && s@ == decode_utf8(reply_text(reply)),
        Err(e) => e == Error::EncodingError && !valid_utf8(reply_text(reply)),
    }
}

/// A payload of `n` zero bytes.
pub open spec fn zeros(n: nat) -> Seq<u8> {
    Seq::new(n, |i: int| 0u8)
}

/// The client of the controller's command protocol.
pub struct Ec<D> {
    access: AccessHid<D>,
    sent: Ghost<Seq<(u8, Seq<u8>)>>,
}

impl<D: ReportDevice> Ec<D> {
    /// Every command handed to the transport so far, with its payload, in
    /// order.
    pub closed spec fn sent(&self) -> Seq<(u8, Seq<u8>)> {
        self.sent@
    }

    /// Every complete response report received so far, in order.
    pub closed spec fn replies(&self) -> Seq<Seq<u8>> {
        self.access.replies()
    }

    /// Attempts per command.
    pub closed spec fn retries(&self) -> u32 {
        self.access.retries()
    }

    /// Read timeout per attempt, in milliseconds.
    pub closed spec fn timeout(&self) -> i32 {
        self.access.timeout()
    }

    pub fn new(access: AccessHid<D>) -> (r: Self)
        ensures
            r.sent() == Seq::<(u8, Seq<u8>)>::empty(),
            r.replies() == access.replies(),
            r.retries() == access.retries(),
            r.timeout() == access.timeout(),
    {
        Ec { access, sent: Ghost(Seq::empty()) }
    }

    /// Sends one command; the controller's non-zero result code is a
    /// protocol error.
    fn command(&mut self, cmd: u8, data: &mut Vec<u8>) -> (r: Result<(), Error>)
        requires
            old(data)@.len() <= DATA_SIZE,
        ensures
            final(self).sent() == old(self).sent().push((cmd, old(data)@)),
            final(data)@.len() == old(data)@.len(),
            final(self).retries() == old(self).retries(),
            final(self).timeout() == old(self).timeout(),
            r is Ok ==> answered(old(self).replies(), final(self).replies()) && final(data)@
                == final(self).replies().last().subrange(2, 2 + old(data)@.len() as int),
            r matches Err(e) ==> io_error(e),
    {
        proof {
            self.sent@ = self.sent@.push((cmd, data@));
        }
        match self.access.command(cmd, data) {
            Ok(0) => Ok(()),
            Ok(_) => Err(Error::ProtocolError),
            Err(e) => Err(e),
        }
    }

    fn read_text(&mut self, cmd: u8) -> (r: Result<String, Error>)
        ensures
            final(self).sent() == old(self).sent().push((cmd, zeros(DATA_SIZE as nat))),
            final(self).retries() == old(self).retries(),
            final(self).timeout() == old(self).timeout(),
            r is Ok || r == Err::<String, Error>(Error::EncodingError) ==> answered(
                old(self).replies(),
                final(self).replies(),
            ) && text_result(final(self).replies().last(), r),
            r matches Err(e) ==> io_error(e) || e == Error::EncodingError,
    {
        let size = self.access.data_size();
        let mut data: Vec<u8> = Vec::new();
        while data.len() < size
            invariant
                size == DATA_SIZE,
                data@.len() <= size,
                data@ == zeros(data@.len()),
            decreases size - data@.len(),
        {
            data.push(0);
            assert(data@ == zeros(data@.len()));
        }
        self.command(cmd, &mut data)?;
        proof {
            assert(data@ == self.replies().last().subrange(2, 2 + DATA_SIZE));
        }
        decode_text(&data)
    }

    /// The board identity text.
    pub fn board(&mut self) -> (r: Result<String, Error>)
        ensures
            final(self).sent() == old(self).sent().push((CMD_BOARD, zeros(DATA_SIZE as nat))),
            final(self).retries() == old(self).retries(),
            final(self).timeout() == old(self).timeout(),
            r is Ok || r == Err::<String, Error>(Error::EncodingError) ==> answered(
                old(self).replies(),
                final(self).replies(),
            ) && text_result(final(self).replies().last(), r),
            r matches Err(e) ==> io_error(e) || e == Error::EncodingError,
    {
        self.read_text(CMD_BOARD)
    }

    /// The firmware version text.
    pub fn version(&mut self) -> (r: Result<String, Error>)
        ensures
            final(self).sent() == old(self).sent().push((CMD_VERSION, zeros(DATA_SIZE as nat))),
            final(self).retries() == old(self).retries(),
            final(self).timeout() == old(self).timeout(),
            r is Ok || r == Err::<String, Error>(Error::EncodingError) ==> answered(
                old(self).replies(),
                final(self).replies(),
            ) && text_result(final(self).replies().last(), r),
            r matches Err(e) ==> io_error(e) || e == Error::EncodingError,
    {
        self.read_text(CMD_VERSION)
    }
    /// The brightness of an LED or a layer, and the byte that follows it.
    pub fn led_get_value(&mut self, target: ValueTarget) -> (r: Result<(u8, u8), Error>)
        ensures
            final(self).retries() == old(self).retries(),
            final(self).timeout() == old(self).timeout(),
            !valid_target(target) ==> r == Err::<(u8, u8), Error>(Error::PreconditionViolation)
                && *final(self) == *old(self),
            valid_target(target) ==> final(self).sent() == old(self).sent().push(
                (CMD_LED_GET_VALUE, seq![target_byte(target), 0u8, 0u8]),
            ) && (r matches Err(e) ==> io_error(e)),
            r matches Ok((v, x)) ==> answered(old(self).replies(), final(self).replies()) && v
                == final(self).replies().last()[3] && x == final(self).replies().last()[4],
    {
        if !self.target_ok(target) {
            return Err(Error::PreconditionViolation);
        }
        let mut data: Vec<u8> = vec![target.to_byte(), 0, 0];
        self.command(CMD_LED_GET_VALUE, &mut data)?;
        Ok((data[1], data[2]))
    }

    /// Sets the brightness of an LED or a layer.
    pub fn led_set_value(&mut self, target: ValueTarget, value: u8) -> (r: Result<(), Error>)
        ensures
            final(self).retries() == old(self).retries(),
            final(self).timeout() == old(self).timeout(),
            !valid_target(target) ==> r == Err::<(), Error>(Error::PreconditionViolation)
                && *final(self) == *old(self),
            valid_target(target) ==> final(self).sent() == old(self).sent().push(
                (CMD_LED_SET_VALUE, seq![target_byte(target), value]),
            ) && (r matches Err(e) ==> io_error(e)),
    {
        if !self.target_ok(target) {
            return Err(Error::PreconditionViolation);
        }
        let mut data: Vec<u8> = vec![target.to_byte(), value];
        self.command(CMD_LED_SET_VALUE, &mut data)
    }

    /// The animation mode and speed of a layer.
    pub fn led_get_mode(&mut self, layer: u8) -> (r: Result<(u8, u8), Error>)
        ensures
            final(self).retries() == old(self).retries(),
            final(self).timeout() == old(self).timeout(),
            layer >= NUM_LAYERS ==> r == Err::<(u8, u8), Error>(Error::PreconditionViolation)
                && *final(self) == *old(self),
            layer < NUM_LAYERS ==> final(self).sent() == old(self).sent().push(
                (CMD_LED_GET_MODE, seq![layer, 0u8, 0u8]),
            ) && (r matches Err(e) ==> io_error(e)),
            r matches Ok((mode, speed)) ==> answered(old(self).replies(), final(self).replies())
                && mode == final(self).replies().last()[3] && speed == final(self).replies().last()[4],
    {
        if layer >= NUM_LAYERS {
            return Err(Error::PreconditionViolation);
        }
        let mut data: Vec<u8> = vec![layer, 0, 0];
        self.command(CMD_LED_GET_MODE, &mut data)?;
        Ok((data[1], data[2]))
    }

    /// Sets the animation mode and speed of a layer.
    pub fn led_set_mode(&mut self, layer: u8, mode: u8, speed: u8) -> (r: Result<(), Error>)
        ensures
            final(self).retries() == old(self).retries(),
            final(self).timeout() == old(self).timeout(),
            layer >= NUM_LAYERS ==> r == Err::<(), Error>(Error::PreconditionViolation)
                && *final(self) == *old(self),
            layer < NUM_LAYERS ==> final(self).sent() == old(self).sent().push(
                (CMD_LED_SET_MODE, seq![layer, mode, speed]),
            ) && (r matches Err(e) ==> io_error(e)),
    {
        if layer >= NUM_LAYERS {
            return Err(Error::PreconditionViolation);
        }
        let mut data: Vec<u8> = vec![layer, mode, speed];
        self.command(CMD_LED_SET_MODE, &mut data)
    }

    /// The color of an LED.
    pub fn led_get_color(&mut self, index: u8) -> (r: Result<(u8, u8, u8), Error>)
        ensures
            final(self).retries() == old(self).retries(),
            final(self).timeout() == old(self).timeout(),
            index == ABSENT ==> r == Err::<(u8, u8, u8), Error>(Error::PreconditionViolation)
                && *final(self) == *old(self),
            index != ABSENT ==> final(self).sent() == old(self).sent().push(
                (CMD_LED_GET_COLOR, seq![index, 0u8, 0u8, 0u8]),
            ) && (r matches Err(e) ==> io_error(e)),
            r matches Ok(c) ==> answered(old(self).replies(), final(self).replies()) && c
                == reply_color(final(self).replies().last()),
    {
        if index == ABSENT {
            return Err(Error::PreconditionViolation);
        }
        let mut data: Vec<u8> = vec![index, 0, 0, 0];
        self.command(CMD_LED_GET_COLOR, &mut data)?;
        Ok((data[1], data[2], data[3]))
    }

    /// Sets the color of an LED.
    pub fn led_set_color(&mut self, index: u8, r: u8, g: u8, b: u8) -> (res: Result<(), Error>)
        ensures
            final(self).retries() == old(self).retries(),
            final(self).timeout() == old(self).timeout(),
            index == ABSENT ==> res == Err::<(), Error>(Error::PreconditionViolation)
                && *final(self) == *old(self),
            index != ABSENT ==> final(self).sent() == old(self).sent().push(
                set_color_command(index, (r, g, b)),
            ) && (res matches Err(e) ==> io_error(e)),
    {
        if index == ABSENT {
            return Err(Error::PreconditionViolation);
        }
        let mut data: Vec<u8> = vec![index, r, g, b];
        self.command(CMD_LED_SET_COLOR, &mut data)
    }

    fn target_ok(&self, target: ValueTarget) -> (r: bool)
        ensures
            r == valid_target(target),
    {
        match target {
            ValueTarget::Led(i) => i != ABSENT,
            ValueTarget::Layer(l) => l < NUM_LAYERS,
        }
    }
}

/// The color that a color reply carries.
pub open spec fn reply_color(reply: Seq<u8>) -> (u8, u8, u8) {
    (reply[3], reply[4], reply[5])
}

/// The command that writes color `c` to LED `index`.
pub open spec fn set_color_command(index: u8, c: (u8, u8, u8)) -> (u8, Seq<u8>) {
    (CMD_LED_SET_COLOR, seq![index, c.0, c.1, c.2])
}

} // verus!

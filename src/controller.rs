use vstd::prelude::*;

use crate::error::Error;
use crate::framebuffer::{
    all_synced, failed_at, flat, grid_of, map_view, writes, FrameBuffer, Led,
};
use crate::protocol::{
    answered, io_error, reply_color, set_color_command, target_byte_round_trip, text_result,
    zeros, Ec, ValueTarget, ABSENT, CMD_BOARD, CMD_LED_GET_COLOR, CMD_LED_GET_MODE,
    CMD_LED_GET_VALUE, CMD_LED_SET_MODE, CMD_LED_SET_VALUE, CMD_VERSION, LAYER_SELECTOR,
    NUM_LAYERS,
};
use crate::transport::{AccessHid, ReportDevice, DATA_SIZE};

verus! {

/// Attempts per command before a timeout is reported.
pub const RETRIES: u32 = 10;
/// Read timeout per attempt, in milliseconds.
pub const TIMEOUT_MS: i32 = 100;
/// The animation mode in which the controller shows the colors written to it.
pub const MODE_DIRECT: u8 = 1;
/// The highest brightness.
pub const MAX_BRIGHTNESS: u8 = 0xFF;

/// The address map of the supported layout: six rows of up to fifteen
/// cells, each an LED index or the absent marker.
pub open spec fn launch_map() -> Seq<Seq<u8>> {
    seq![
        seq![69u8, 70, 71, 72, 73, 74, 75, 76, 77, 78, 79, 80, 81, 82, 83],
        seq![68u8, 67, 66, 65, 64, 63, 62, 61, 60, 59, 58, 57, 56, 55, 54],
        seq![39u8, 40, 41, 42, 43, 44, 45, 46, 47, 48, 49, 50, 51, 52, 53],
        seq![38u8, 37, 36, 35, 34, 33, 32, 31, 30, 29, 28, 27, 26, 255, 25],
        seq![12u8, 11, 10, 9, 8, 7, 6, 5, 4, 3, 2, 1, 0, 255, 255],
        seq![13u8, 14, 15, 16, 17, 255, 18, 19, 20, 21, 255, 22, 23, 24, 255],
    ]
}

/// The address map of the supported layout.
pub fn launch_led_map() -> (r: Vec<Vec<u8>>)
    ensures
        map_view(r@) == launch_map(),
{
    let ni: u8 = ABSENT;
    let r = vec![
        vec![69, 70, 71, 72, 73, 74, 75, 76, 77, 78, 79, 80, 81, 82, 83],
        vec![68, 67, 66, 65, 64, 63, 62, 61, 60, 59, 58, 57, 56, 55, 54],
        vec![39, 40, 41, 42, 43, 44, 45, 46, 47, 48, 49, 50, 51, 52, 53],
        vec![38, 37, 36, 35, 34, 33, 32, 31, 30, 29, 28, 27, 26, ni, 25],
        vec![12, 11, 10, 9, 8, 7, 6, 5, 4, 3, 2, 1, 0, ni, ni],
        vec![13, 14, 15, 16, 17, ni, 18, 19, 20, 21, ni, 22, 23, 24, ni],
    ];
    assert(map_view(r@) =~~= launch_map());
    r
}

/// The commands that put one layer in direct mode at full brightness.
pub open spec fn layer_setup(layer: u8) -> Seq<(u8, Seq<u8>)> {
    seq![
        (CMD_LED_SET_MODE, seq![layer, MODE_DIRECT, 0u8]),
        (CMD_LED_SET_VALUE, seq![(LAYER_SELECTOR + layer) as u8, MAX_BRIGHTNESS]),
    ]
}

/// The commands that set up layers `0` to `n - 1`, in order.
pub open spec fn setup_commands(n: nat) -> Seq<(u8, Seq<u8>)>
    decreases n,
{
    if n == 0 {
        Seq::empty()
    } else {
        setup_commands((n - 1) as nat) + layer_setup((n - 1) as u8)
    }
}

/// A session with one keyboard controller and the framebuffer of its layout.
pub struct EcController<D> {
    ec: Ec<D>,
    led_map: Vec<Vec<u8>>,
    framebuffer: FrameBuffer,
}

impl<D: ReportDevice> EcController<D> {
    /// Every command sent in this session, in order.
    pub closed spec fn sent(&self) -> Seq<(u8, Seq<u8>)> {
        self.ec.sent()
    }

    /// Every complete response report received in this session, in order.
    pub closed spec fn replies(&self) -> Seq<Seq<u8>> {
        self.ec.replies()
    }

    /// Attempts per command.
    pub closed spec fn retries(&self) -> u32 {
        self.ec.retries()
    }

    /// Read timeout per attempt, in milliseconds.
    pub closed spec fn timeout(&self) -> i32 {
        self.ec.timeout()
    }

    pub closed spec fn spec_framebuffer(&self) -> FrameBuffer {
        self.framebuffer
    }

    pub closed spec fn spec_led_map(&self) -> Seq<Seq<u8>> {
        map_view(self.led_map@)
    }

    pub closed spec fn wf(&self) -> bool {
        self.framebuffer.wf()
    }

    /// Starts a session on an opened device of a known signature, with the
    /// layout's framebuffer all black and never written.
    pub fn new(device: D) -> (r: Self)
        ensures
            r.wf(),
            r.sent() == Seq::<(u8, Seq<u8>)>::empty(),
            r.replies() == Seq::<Seq<u8>>::empty(),
            r.retries() == RETRIES,
            r.timeout() == TIMEOUT_MS,
            r.spec_led_map() == launch_map(),
            r.spec_framebuffer().grid() == grid_of(launch_map()),
    {
        let access = AccessHid::new(device, RETRIES, TIMEOUT_MS);
        let ec = Ec::new(access);
        let led_map = launch_led_map();
        let framebuffer = FrameBuffer::new(launch_led_map());
        EcController { ec, led_map, framebuffer }
    }

    /// Puts all lighting layers in direct mode at full brightness, so that
    /// the colors written to single LEDs show. Every command is attempted,
    /// also after a failure; the first failure is returned.
    pub fn open(&mut self) -> (r: Result<(), Error>)
        requires
            old(self).wf(),
        ensures
            final(self).wf(),
            final(self).spec_framebuffer() == old(self).spec_framebuffer(),
            final(self).spec_led_map() == old(self).spec_led_map(),
            final(self).retries() == old(self).retries(),
            final(self).timeout() == old(self).timeout(),
            final(self).sent() == old(self).sent() + setup_commands(NUM_LAYERS as nat),
            r matches Err(e) ==> io_error(e),
    {
        let mut result: Result<(), Error> = Ok(());
        let mut layer: u8 = 0;
        while layer < NUM_LAYERS
            invariant
                layer <= NUM_LAYERS,
                old(self).wf(),
                self.framebuffer == old(self).framebuffer,
                self.led_map == old(self).led_map,
                self.ec.retries() == old(self).ec.retries(),
                self.ec.timeout() == old(self).ec.timeout(),
                self.ec.sent() == old(self).ec.sent() + setup_commands(layer as nat),
                result matches Err(e) ==> io_error(e),
            decreases NUM_LAYERS - layer,
        {
            let mode = self.ec.led_set_mode(layer, MODE_DIRECT, 0);
            let value = self.ec.led_set_value(ValueTarget::Layer(layer), MAX_BRIGHTNESS);
            if let Ok(()) = result {
                if let Err(e) = mode {
                    result = Err(e);
                } else if let Err(e) = value {
                    result = Err(e);
                }
            }
            assert(self.ec.sent() == old(self).ec.sent() + setup_commands((layer + 1) as nat));
            layer += 1;
        }
        result
    }

    /// Ends the session. The controller keeps the layer state that `open`
    /// set; nothing is sent.
    pub fn close(&mut self) -> (r: Result<(), Error>)
        ensures
            *final(self) == *old(self),
            r is Ok,
    {
        Ok(())
    }

    /// The board identity text.
    pub fn board(&mut self) -> (r: Result<String, Error>)
        ensures
            final(self).spec_framebuffer() == old(self).spec_framebuffer(),
            final(self).sent() == old(self).sent().push((CMD_BOARD, zeros(DATA_SIZE as nat))),
            final(self).spec_led_map() == old(self).spec_led_map(),
            r is Ok || r == Err::<String, Error>(Error::EncodingError) ==> answered(
                old(self).replies(),
                final(self).replies(),
            ) && text_result(final(self).replies().last(), r),
            r matches Err(e) ==> io_error(e) || e == Error::EncodingError,
    {
        self.ec.board()
    }

    /// The firmware version text.
    pub fn version(&mut self) -> (r: Result<String, Error>)
        ensures
            final(self).spec_framebuffer() == old(self).spec_framebuffer(),
            final(self).sent() == old(self).sent().push((CMD_VERSION, zeros(DATA_SIZE as nat))),
            final(self).spec_led_map() == old(self).spec_led_map(),
            r is Ok || r == Err::<String, Error>(Error::EncodingError) ==> answered(
                old(self).replies(),
                final(self).replies(),
            ) && text_result(final(self).replies().last(), r),
            r matches Err(e) ==> io_error(e) || e == Error::EncodingError,
    {
        self.ec.version()
    }

    /// The brightness at `index`: an LED index, or `0xF0` plus a layer
    /// number for a layer's brightness.
    pub fn led_get_value(&mut self, index: u8) -> (r: Result<(u8, u8), Error>)
        ensures
            index == ABSENT ==> r == Err::<(u8, u8), Error>(Error::PreconditionViolation)
                && *final(self) == *old(self),
            index != ABSENT ==> final(self).sent() == old(self).sent().push(
                (CMD_LED_GET_VALUE, seq![index, 0u8, 0u8]),
            ) && (r matches Err(e) ==> io_error(e)),
            r matches Ok((v, x)) ==> answered(old(self).replies(), final(self).replies()) && v
                == final(self).replies().last()[3] && x == final(self).replies().last()[4],
            final(self).spec_framebuffer() == old(self).spec_framebuffer(),
            final(self).spec_led_map() == old(self).spec_led_map(),
    {
        proof {
            target_byte_round_trip(index);
        }
        match ValueTarget::from_byte(index) {
            Some(target) => self.ec.led_get_value(target),
            None => Err(Error::PreconditionViolation),
        }
    }

    /// Sets the brightness at `index`: an LED index, or `0xF0` plus a layer
    /// number for a layer's brightness.
    pub fn led_set_value(&mut self, index: u8, value: u8) -> (r: Result<(), Error>)
        ensures
            index == ABSENT ==> r == Err::<(), Error>(Error::PreconditionViolation) && *final(self)
                == *old(self),
            index != ABSENT ==> final(self).sent() == old(self).sent().push(
                (CMD_LED_SET_VALUE, seq![index, value]),
            ) && (r matches Err(e) ==> io_error(e)),
            final(self).spec_framebuffer() == old(self).spec_framebuffer(),
            final(self).spec_led_map() == old(self).spec_led_map(),
    {
        proof {
            target_byte_round_trip(index);
        }
        match ValueTarget::from_byte(index) {
            Some(target) => self.ec.led_set_value(target, value),
            None => Err(Error::PreconditionViolation),
        }
    }

    /// The animation mode and speed of a layer.
    pub fn led_get_mode(&mut self, layer: u8) -> (r: Result<(u8, u8), Error>)
        ensures
            layer >= NUM_LAYERS ==> r == Err::<(u8, u8), Error>(Error::PreconditionViolation)
                && *final(self) == *old(self),
            layer < NUM_LAYERS ==> final(self).sent() == old(self).sent().push(
                (CMD_LED_GET_MODE, seq![layer, 0u8, 0u8]),
            ) && (r matches Err(e) ==> io_error(e)),
            r matches Ok((mode, speed)) ==> answered(old(self).replies(), final(self).replies())
                && mode == final(self).replies().last()[3] && speed == final(self).replies().last()[4],
            final(self).spec_framebuffer() == old(self).spec_framebuffer(),
            final(self).spec_led_map() == old(self).spec_led_map(),
    {
        self.ec.led_get_mode(layer)
    }

    /// Sets the animation mode and speed of a layer.
    pub fn led_set_mode(&mut self, layer: u8, mode: u8, speed: u8) -> (r: Result<(), Error>)
        ensures
            layer >= NUM_LAYERS ==> r == Err::<(), Error>(Error::PreconditionViolation)
                && *final(self) == *old(self),
            layer < NUM_LAYERS ==> final(self).sent() == old(self).sent().push(
                (CMD_LED_SET_MODE, seq![layer, mode, speed]),
            ) && (r matches Err(e) ==> io_error(e)),
            final(self).spec_framebuffer() == old(self).spec_framebuffer(),
            final(self).spec_led_map() == old(self).spec_led_map(),
    {
        self.ec.led_set_mode(layer, mode, speed)
    }

    /// The color of an LED.
    pub fn led_get_color(&mut self, index: u8) -> (r: Result<(u8, u8, u8), Error>)
        ensures
            index == ABSENT ==> r == Err::<(u8, u8, u8), Error>(Error::PreconditionViolation)
                && *final(self) == *old(self),
            index != ABSENT ==> final(self).sent() == old(self).sent().push(
                (CMD_LED_GET_COLOR, seq![index, 0u8, 0u8, 0u8]),
            ) && (r matches Err(e) ==> io_error(e)),
            r matches Ok(c) ==> answered(old(self).replies(), final(self).replies()) && c
                == reply_color(final(self).replies().last()),
            final(self).spec_framebuffer() == old(self).spec_framebuffer(),
            final(self).spec_led_map() == old(self).spec_led_map(),
    {
        self.ec.led_get_color(index)
    }

    /// Sets the color of an LED.
    pub fn led_set_color(&mut self, index: u8, r: u8, g: u8, b: u8) -> (res: Result<(), Error>)
        ensures
            index == ABSENT ==> res == Err::<(), Error>(Error::PreconditionViolation)
                && *final(self) == *old(self),
            index != ABSENT ==> final(self).sent() == old(self).sent().push(
                set_color_command(index, (r, g, b)),
            ) && (res matches Err(e) ==> io_error(e)),
            final(self).spec_framebuffer() == old(self).spec_framebuffer(),
            final(self).spec_led_map() == old(self).spec_led_map(),
    {
        self.ec.led_set_color(index, r, g, b)
    }

    /// Reads an LED's color from the controller into a new, never written,
    /// LED record.
    pub fn get_led(&mut self, index: u8) -> (r: Result<Led, Error>)
        ensures
            index == ABSENT ==> (r matches Err(e) && e == Error::PreconditionViolation)
                && *final(self) == *old(self),
            index != ABSENT ==> final(self).sent() == old(self).sent().push(
                (CMD_LED_GET_COLOR, seq![index, 0u8, 0u8, 0u8]),
            ) && (r matches Err(e) ==> io_error(e)),
            r matches Ok(led) ==> answered(old(self).replies(), final(self).replies())
                && led.index == index && led.color == reply_color(final(self).replies().last())
                && led.sync_color is None,
            final(self).spec_framebuffer() == old(self).spec_framebuffer(),
            final(self).spec_led_map() == old(self).spec_led_map(),
    {
        let (r, g, b) = self.ec.led_get_color(index)?;
        Ok(Led::new(index, r, g, b))
    }

    /// Writes an LED record's color to the controller unless the record
    /// says that it is already there.
    pub fn set_led(&mut self, led: Led) -> (r: Result<(), Error>)
        ensures
            led.sync_color == Some(led.color) ==> r is Ok && *final(self) == *old(self),
            led.sync_color != Some(led.color) && led.index == ABSENT ==> r == Err::<(), Error>(
                Error::PreconditionViolation,
            ) && *final(self) == *old(self),
            led.sync_color != Some(led.color) && led.index != ABSENT ==> final(self).sent()
                == old(self).sent().push(set_color_command(led.index, led.color)) && (
            r matches Err(e) ==> io_error(e)),
            final(self).spec_framebuffer() == old(self).spec_framebuffer(),
            final(self).spec_led_map() == old(self).spec_led_map(),
    {
        let mut led = led;
        led.sync(&mut self.ec)
    }

    /// Writes to the controller the colors of the framebuffer's LEDs that
    /// changed since they were last written.
    pub fn render_framebuffer(&mut self) -> (r: Result<(), Error>)
        requires
            old(self).wf(),
        ensures
            final(self).wf(),
            final(self).spec_led_map() == old(self).spec_led_map(),
            final(self).spec_framebuffer().spec_num_leds() == old(self).spec_framebuffer().spec_num_leds(),
            writes(flat(old(self).spec_framebuffer().grid())).len() == 0 ==> r is Ok && final(self).spec_framebuffer().grid() == old(self).spec_framebuffer().grid() && final(self).sent()
                == old(self).sent(),
            match r {
                Ok(_) => final(self).spec_framebuffer().grid() == all_synced(
                    old(self).spec_framebuffer().grid(),
                ) && final(self).sent() == old(self).sent() + writes(
                    flat(old(self).spec_framebuffer().grid()),
                ),
                Err(e) => io_error(e) && exists|fi: int, fj: int|
                    #[trigger] failed_at(
                        old(self).spec_framebuffer().grid(),
                        fi,
                        fj,
                        final(self).spec_framebuffer().grid(),
                        old(self).sent(),
                        final(self).sent(),
                    ),
            },
    {
        let r = self.framebuffer.render(&mut self.ec);
        proof {
            if r is Err {
                let g0 = old(self).framebuffer.grid();
                let (fi, fj) = choose|fi: int, fj: int|
                    #[trigger] failed_at(
                        g0,
                        fi,
                        fj,
                        self.framebuffer.grid(),
                        old(self).ec.sent(),
                        self.ec.sent(),
                    );
                assert(failed_at(g0, fi, fj, self.framebuffer.grid(), old(self).sent(), self.sent()));
            }
        }
        r
    }

    /// The framebuffer of this session's layout.
    pub fn framebuffer(&self) -> (r: &FrameBuffer)
        ensures
            *r == self.spec_framebuffer(),
    {
        &self.framebuffer
    }

    /// Replaces the framebuffer, for instance with an edited copy of it.
    pub fn set_framebuffer(&mut self, framebuffer: FrameBuffer)
        requires
            framebuffer.wf(),
        ensures
            final(self).wf(),
            final(self).spec_framebuffer() == framebuffer,
            final(self).sent() == old(self).sent(),
            final(self).spec_led_map() == old(self).spec_led_map(),
    {
        self.framebuffer = framebuffer;
    }

    /// The address map of this session's layout.
    pub fn led_map(&self) -> (r: &Vec<Vec<u8>>)
        ensures
            map_view(r@) == self.spec_led_map(),
    {
        &self.led_map
    }
}

} // verus!

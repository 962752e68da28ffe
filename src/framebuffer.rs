use vstd::prelude::*;

use crate::error::Error;
use crate::protocol::{io_error, set_color_command, Ec, ABSENT};
use crate::transport::ReportDevice;

verus! {

/// One addressable LED: its index, its current color, and the color last
/// written to the hardware (`None` until the first successful write).
#[derive(Debug, Clone, Copy)]
pub struct Led {
    pub index: u8,
    pub color: (u8, u8, u8),
    pub sync_color: Option<(u8, u8, u8)>,
}

/// The channels of a color packed as `0xRRGGBB`.
pub open spec fn channels_of(hex: u32) -> (u8, u8, u8) {
    (((hex >> 16u32) & 0xFFu32) as u8, ((hex >> 8u32) & 0xFFu32) as u8, (hex & 0xFFu32) as u8)
}

/// The packed `0xRRGGBB` form of a color.
pub open spec fn packed(r: u8, g: u8, b: u8) -> u32 {
    ((r as u32) << 16u32) | ((g as u32) << 8u32) | (b as u32)
}

/// Unpacking a packed color gives back its channels, so a color set by its
/// channels and the same color set by its packed value are equal.
pub proof fn packed_channels_round_trip(r: u8, g: u8, b: u8)
    ensures
        channels_of(packed(r, g, b)) == (r, g, b),
{
    let (r32, g32, b32) = (r as u32, g as u32, b as u32);
    assert(((((r32 << 16u32) | (g32 << 8u32) | b32) >> 16u32) & 0xFFu32) == r32
        && ((((r32 << 16u32) | (g32 << 8u32) | b32) >> 8u32) & 0xFFu32) == g32
        && (((r32 << 16u32) | (g32 << 8u32) | b32) & 0xFFu32) == b32) by (bit_vector)
        requires
            r32 < 256,
            g32 < 256,
            b32 < 256,
    ;
}

/// An LED whose hardware color is known to equal its current color.
pub open spec fn in_sync(led: Led) -> bool {
    led.sync_color == Some(led.color)
}

/// `led` with its current color replaced by `c`.
pub open spec fn with_color(led: Led, c: (u8, u8, u8)) -> Led {
    Led { index: led.index, color: c, sync_color: led.sync_color }
}

/// `led` marked as written.
pub open spec fn synced(led: Led) -> Led {
    Led { index: led.index, color: led.color, sync_color: Some(led.color) }
}

impl Led {
    /// An LED with color `(r, g, b)` that was never written.
    pub fn new(index: u8, r: u8, g: u8, b: u8) -> (led: Self)
        ensures
            led == (Led { index, color: (r, g, b), sync_color: None }),
    {
        Led { index, color: (r, g, b), sync_color: None }
    }

    /// An LED with the given color that was never written.
    pub fn from_rgb(index: u8, color: (u8, u8, u8)) -> (led: Self)
        ensures
            led == (Led { index, color, sync_color: None }),
    {
        Led { index, color, sync_color: None }
    }

    /// An LED with a color packed as `0xRRGGBB` that was never written.
    pub fn from_hex(index: u8, hex: u32) -> (led: Self)
        ensures
            led == (Led { index, color: channels_of(hex), sync_color: None }),
    {
        Led { index, color: unpack(hex), sync_color: None }
    }

    /// Sets the current color from its channels.
    pub fn set_color_rgb(&mut self, r: u8, g: u8, b: u8)
        ensures
            *final(self) == with_color(*old(self), (r, g, b)),
    {
        self.color = (r, g, b);
    }

    /// Sets the current color from its packed `0xRRGGBB` value.
    pub fn set_color_hex(&mut self, hex: u32)
        ensures
            *final(self) == with_color(*old(self), channels_of(hex)),
    {
        self.color = unpack(hex);
    }

    /// Writes the current color to the controller unless it is already
    /// there; on success the LED is marked as written.
    pub fn sync<D: ReportDevice>(&mut self, ec: &mut Ec<D>) -> (r: Result<(), Error>)
        ensures
            in_sync(*old(self)) ==> r is Ok && *final(self) == *old(self) && *final(ec)
                == *old(ec),
            !in_sync(*old(self)) && old(self).index == ABSENT ==> r == Err::<(), Error>(
                Error::PreconditionViolation,
            ) && *final(self) == *old(self) && *final(ec) == *old(ec),
            !in_sync(*old(self)) && old(self).index != ABSENT ==> final(ec).sent() == old(ec).sent().push(set_color_command(old(self).index, old(self).color)),
            !in_sync(*old(self)) && old(self).index != ABSENT ==> match r {
                Ok(_) => *final(self) == synced(*old(self)),
                Err(e) => io_error(e) && *final(self) == *old(self),
            },
    {
        if !self.is_synced() {
            let (r, g, b) = self.color;
            ec.led_set_color(self.index, r, g, b)?;
            self.sync_color = Some(self.color);
        }
        Ok(())
    }

    fn is_synced(&self) -> (r: bool)
        ensures
            r == in_sync(*self),
    {
        match self.sync_color {
            Some(c) => c.0 == self.color.0 && c.1 == self.color.1 && c.2 == self.color.2,
            None => false,
        }
    }
}

fn unpack(hex: u32) -> (c: (u8, u8, u8))
    ensures
        c == channels_of(hex),
{
    (((hex >> 16) & 0xFF) as u8, ((hex >> 8) & 0xFF) as u8, (hex & 0xFF) as u8)
}

/// The LED index at a cell of an address map: `None` outside the grid or
/// where the map holds the absent marker.
pub open spec fn map_cell(m: Seq<Seq<u8>>, row: int, col: int) -> Option<u8> {
    if 0 <= row < m.len() && 0 <= col < m[row].len() && m[row][col] != ABSENT {
        Some(m[row][col])
    } else {
        None
    }
}

/// A new LED: black and never written.
pub open spec fn fresh_led(index: u8) -> Led {
    Led { index, color: (0, 0, 0), sync_color: None }
}

/// One framebuffer row built from one address map row.
pub open spec fn grid_row(r: Seq<u8>) -> Seq<Option<Led>> {
    Seq::new(r.len(), |j: int| if r[j] == ABSENT { None } else { Some(fresh_led(r[j])) })
}

/// The framebuffer grid built from an address map.
pub open spec fn grid_of(m: Seq<Seq<u8>>) -> Seq<Seq<Option<Led>>> {
    Seq::new(m.len(), |i: int| grid_row(m[i]))
}

/// The view of an address map.
pub open spec fn map_view(m: Seq<Vec<u8>>) -> Seq<Seq<u8>> {
    Seq::new(m.len(), |i: int| m[i]@)
}

/// The cell at `row`, `col`: `None` outside the grid or where no LED is.
pub open spec fn cell(g: Seq<Seq<Option<Led>>>, row: int, col: int) -> Option<Led> {
    if 0 <= row < g.len() && 0 <= col < g[row].len() {
        g[row][col]
    } else {
        None
    }
}

/// The LEDs of one row, left to right, skipping cells without an LED.
pub open spec fn row_leds(r: Seq<Option<Led>>) -> Seq<Led>
    decreases r.len(),
{
    if r.len() == 0 {
        Seq::empty()
    } else {
        row_leds(r.drop_last()) + match r.last() {
            Some(l) => seq![l],
            None => Seq::empty(),
        }
    }
}

/// The LEDs of a grid in row-major order.
pub open spec fn flat(g: Seq<Seq<Option<Led>>>) -> Seq<Led>
    decreases g.len(),
{
    if g.len() == 0 {
        Seq::empty()
    } else {
        flat(g.drop_last()) + row_leds(g.last())
    }
}

/// The color writes that syncing `s` in order issues: one for each LED
/// whose current color differs from the color last written.
pub open spec fn writes(s: Seq<Led>) -> Seq<(u8, Seq<u8>)>
    decreases s.len(),
{
    if s.len() == 0 {
        Seq::empty()
    } else {
        writes(s.drop_last()) + if in_sync(s.last()) {
            Seq::empty()
        } else {
            seq![set_color_command(s.last().index, s.last().color)]
        }
    }
}

/// The widest row's length.
pub open spec fn max_width(g: Seq<Seq<Option<Led>>>) -> nat
    decreases g.len(),
{
    if g.len() == 0 {
        0
    } else {
        let w = max_width(g.drop_last());
        if g.last().len() > w {
            g.last().len()
        } else {
            w
        }
    }
}

/// Applies `f` to every LED of a grid.
pub open spec fn map_leds(g: Seq<Seq<Option<Led>>>, f: spec_fn(Led) -> Led) -> Seq<
    Seq<Option<Led>>,
> {
    Seq::new(
        g.len(),
        |i: int|
            Seq::new(
                g[i].len(),
                |j: int|
                    match g[i][j] {
                        Some(l) => Some(f(l)),
                        None => None,
                    },
            ),
    )
}

/// Every LED of `g` with color `c`.
pub open spec fn recolor(g: Seq<Seq<Option<Led>>>, c: (u8, u8, u8)) -> Seq<Seq<Option<Led>>> {
    map_leds(g, |l: Led| with_color(l, c))
}

/// Every LED of `g` marked as written.
pub open spec fn all_synced(g: Seq<Seq<Option<Led>>>) -> Seq<Seq<Option<Led>>> {
    map_leds(g, |l: Led| synced(l))
}

/// Two grids with the same rows, each of the same length, with LEDs at the
/// same cells.
pub open spec fn same_shape(g1: Seq<Seq<Option<Led>>>, g2: Seq<Seq<Option<Led>>>) -> bool {
    g1.len() == g2.len() && forall|i: int|
        0 <= i < g1.len() ==> #[trigger] g1[i].len() == g2[i].len() && forall|j: int|
            0 <= j < g1[i].len() ==> (#[trigger] g1[i][j] is Some) == (g2[i][j] is Some)
}

/// `new` is `old` with some LEDs marked as written, the others untouched.
spec fn partly_synced(old: Seq<Seq<Option<Led>>>, new: Seq<Seq<Option<Led>>>) -> bool {
    same_shape(old, new) && forall|i: int, j: int|
        0 <= i < old.len() && 0 <= j < old[i].len() ==> (#[trigger] new[i][j] == old[i][j]
            || (old[i][j] matches Some(l) && new[i][j] == Some(synced(l))))
}

/// Whether cell `(i, j)` comes before cell `(fi, fj)` in row-major order.
pub open spec fn before_cell(i: int, j: int, fi: int, fj: int) -> bool {
    i < fi || (i == fi && j < fj)
}

/// `g` with the LEDs before cell `(fi, fj)` marked as written and all others
/// as they were.
pub open spec fn synced_before(g: Seq<Seq<Option<Led>>>, fi: int, fj: int) -> Seq<
    Seq<Option<Led>>,
> {
    Seq::new(
        g.len(),
        |i: int|
            Seq::new(
                g[i].len(),
                |j: int|
                    if before_cell(i, j, fi, fj) {
                        match g[i][j] {
                            Some(l) => Some(synced(l)),
                            None => None,
                        }
                    } else {
                        g[i][j]
                    },
            ),
    )
}

/// The LEDs before cell `(fi, fj)` in row-major order.
pub open spec fn leds_before(g: Seq<Seq<Option<Led>>>, fi: int, fj: int) -> Seq<Led> {
    flat(g.take(fi)) + row_leds(g[fi].take(fj))
}

/// A render of `g` whose write to the LED at `(fi, fj)` failed: the LED
/// there needed a write, the writes owed before it and that write were sent,
/// and the LEDs before it are marked written while the others, that one
/// included, keep their state.
pub open spec fn failed_at(
    g: Seq<Seq<Option<Led>>>,
    fi: int,
    fj: int,
    g1: Seq<Seq<Option<Led>>>,
    sent_before: Seq<(u8, Seq<u8>)>,
    sent_after: Seq<(u8, Seq<u8>)>,
) -> bool {
    &&& 0 <= fi < g.len()
    &&& 0 <= fj < g[fi].len()
    &&& g[fi][fj] is Some
    &&& !in_sync(g[fi][fj]->Some_0)
    &&& g1 == synced_before(g, fi, fj)
    &&& sent_after == sent_before + writes(leds_before(g, fi, fj).push(g[fi][fj]->Some_0))
}

proof fn lemma_writes_concat(a: Seq<Led>, b: Seq<Led>)
    ensures
        writes(a + b) == writes(a) + writes(b),
    decreases b.len(),
{
    if b.len() == 0 {
        assert(a + b == a);
        assert(writes(a) + writes(b) == writes(a));
    } else {
        let d = b.drop_last();
        lemma_writes_concat(a, d);
        assert((a + b).drop_last() == a + d);
        assert((a + b).last() == b.last());
        let t = if in_sync(b.last()) {
            Seq::<(u8, Seq<u8>)>::empty()
        } else {
            seq![set_color_command(b.last().index, b.last().color)]
        };
        assert(writes(a) + writes(d) + t == writes(a) + (writes(d) + t));
    }
}

proof fn lemma_row_concat(a: Seq<Option<Led>>, b: Seq<Option<Led>>)
    ensures
        row_leds(a + b) == row_leds(a) + row_leds(b),
    decreases b.len(),
{
    if b.len() == 0 {
        assert(a + b == a);
        assert(row_leds(a) + row_leds(b) == row_leds(a));
    } else {
        let d = b.drop_last();
        lemma_row_concat(a, d);
        assert((a + b).drop_last() == a + d);
        assert((a + b).last() == b.last());
        let t: Seq<Led> = match b.last() {
            Some(l) => seq![l],
            None => Seq::empty(),
        };
        assert(row_leds(a) + row_leds(d) + t == row_leds(a) + (row_leds(d) + t));
    }
}

proof fn lemma_flat_concat(a: Seq<Seq<Option<Led>>>, b: Seq<Seq<Option<Led>>>)
    ensures
        flat(a + b) == flat(a) + flat(b),
    decreases b.len(),
{
    if b.len() == 0 {
        assert(a + b == a);
        assert(flat(a) + flat(b) == flat(a));
    } else {
        let d = b.drop_last();
        lemma_flat_concat(a, d);
        assert((a + b).drop_last() == a + d);
        assert((a + b).last() == b.last());
        assert(flat(a) + flat(d) + row_leds(b.last()) == flat(a) + (flat(d) + row_leds(
            b.last(),
        )));
    }
}

/// An LED that needs a write makes the writes of the whole grid non-empty.
proof fn lemma_pending_cell(g: Seq<Seq<Option<Led>>>, i: int, j: int)
    requires
        0 <= i < g.len(),
        0 <= j < g[i].len(),
        g[i][j] is Some,
        !in_sync(g[i][j]->Some_0),
    ensures
        writes(flat(g)).len() > 0,
{
    let l = g[i][j]->Some_0;
    let r = g[i];
    assert(g == g.take(i + 1) + g.skip(i + 1));
    lemma_flat_concat(g.take(i + 1), g.skip(i + 1));
    lemma_flat_step(g, i);
    assert(r == r.take(j + 1) + r.skip(j + 1));
    lemma_row_concat(r.take(j + 1), r.skip(j + 1));
    lemma_row_step(r, j);
    let p = leds_before(g, i, j);
    let rest = row_leds(r.skip(j + 1)) + flat(g.skip(i + 1));
    assert(flat(g) == p.push(l) + rest);
    lemma_writes_concat(p.push(l), rest);
    lemma_writes_step(p, l);
}

proof fn lemma_row_shape(r1: Seq<Option<Led>>, r2: Seq<Option<Led>>)
    requires
        r1.len() == r2.len(),
        forall|j: int| 0 <= j < r1.len() ==> (#[trigger] r1[j] is Some) == (r2[j] is Some),
    ensures
        row_leds(r1).len() == row_leds(r2).len(),
    decreases r1.len(),
{
    if r1.len() > 0 {
        lemma_row_shape(r1.drop_last(), r2.drop_last());
        assert(r1.last() is Some == r2.last() is Some);
    }
}

proof fn lemma_shape(g1: Seq<Seq<Option<Led>>>, g2: Seq<Seq<Option<Led>>>)
    requires
        same_shape(g1, g2),
    ensures
        flat(g1).len() == flat(g2).len(),
        max_width(g1) == max_width(g2),
    decreases g1.len(),
{
    if g1.len() > 0 {
        let n = g1.len() - 1;
        assert(g1[n].len() == g2[n].len());
        lemma_row_shape(g1.last(), g2.last());
        assert(same_shape(g1.drop_last(), g2.drop_last())) by {
            assert forall|i: int| 0 <= i < n implies #[trigger] g1.drop_last()[i].len()
                == g2.drop_last()[i].len() && forall|j: int|
                0 <= j < g1.drop_last()[i].len() ==> (#[trigger] g1.drop_last()[i][j] is Some)
                    == (g2.drop_last()[i][j] is Some) by {
                assert(g1[i].len() == g2[i].len());
                assert(g1.drop_last()[i] == g1[i]);
                assert(g2.drop_last()[i] == g2[i]);
            }
        }
        lemma_shape(g1.drop_last(), g2.drop_last());
    }
}

proof fn lemma_map_row(r: Seq<Option<Led>>, f: spec_fn(Led) -> Led)
    ensures
        row_leds(
            Seq::new(
                r.len(),
                |j: int|
                    match r[j] {
                        Some(l) => Some(f(l)),
                        None => None,
                    },
            ),
        ) == row_leds(r).map_values(f),
    decreases r.len(),
{
    let mr = Seq::new(
        r.len(),
        |j: int|
            match r[j] {
                Some(l) => Some(f(l)),
                None => None,
            },
    );
    if r.len() > 0 {
        let d = r.drop_last();
        lemma_map_row(d, f);
        let md = Seq::new(
            d.len(),
            |j: int|
                match d[j] {
                    Some(l) => Some(f(l)),
                    None => None,
                },
        );
        assert(mr.drop_last() == md);
        let tail: Seq<Led> = match r.last() {
            Some(l) => seq![l],
            None => Seq::empty(),
        };
        assert((row_leds(d) + tail).map_values(f) == row_leds(d).map_values(f)
            + tail.map_values(f));
    } else {
        assert(row_leds(r).map_values(f) == Seq::<Led>::empty());
    }
}

proof fn lemma_map_flat(g: Seq<Seq<Option<Led>>>, f: spec_fn(Led) -> Led)
    ensures
        flat(map_leds(g, f)) == flat(g).map_values(f),
    decreases g.len(),
{
    if g.len() > 0 {
        let d = g.drop_last();
        lemma_map_flat(d, f);
        lemma_map_row(g.last(), f);
        assert(map_leds(g, f).drop_last() == map_leds(d, f));
        assert((flat(d) + row_leds(g.last())).map_values(f) == flat(d).map_values(f)
            + row_leds(g.last()).map_values(f));
    } else {
        assert(flat(g).map_values(f) == Seq::<Led>::empty());
    }
}

proof fn lemma_writes_none(s: Seq<Led>)
    requires
        forall|k: int| 0 <= k < s.len() ==> in_sync(#[trigger] s[k]),
    ensures
        writes(s) == Seq::<(u8, Seq<u8>)>::empty(),
    decreases s.len(),
{
    if s.len() > 0 {
        lemma_writes_none(s.drop_last());
        assert(in_sync(s[s.len() - 1]));
    }
}

proof fn lemma_writes_all(s: Seq<Led>)
    requires
        forall|k: int| 0 <= k < s.len() ==> !in_sync(#[trigger] s[k]),
    ensures
        writes(s).len() == s.len(),
    decreases s.len(),
{
    if s.len() > 0 {
        lemma_writes_all(s.drop_last());
        assert(!in_sync(s[s.len() - 1]));
    }
}

/// For every cell of the address map that holds an LED index, the new
/// framebuffer has an LED with that index there; every other cell is empty.
pub proof fn grid_matches_map(m: Seq<Seq<u8>>, row: int, col: int)
    ensures
        map_cell(m, row, col) matches Some(i) ==> cell(grid_of(m), row, col) matches Some(l)
            && l.index == i,
        map_cell(m, row, col) is None ==> cell(grid_of(m), row, col) is None,
{
}

/// Once every LED has been written, a render writes nothing.
pub proof fn render_after_render_writes_nothing(g: Seq<Seq<Option<Led>>>)
    ensures
        writes(flat(all_synced(g))) == Seq::<(u8, Seq<u8>)>::empty(),
{
    lemma_map_flat(g, |l: Led| synced(l));
    let s = flat(all_synced(g));
    assert forall|k: int| 0 <= k < s.len() implies in_sync(#[trigger] s[k]) by {}
    lemma_writes_none(s);
}

/// After a fill with a color that no LED was last written with (as in a new
/// framebuffer), a render writes every LED once, and a second render writes
/// nothing.
pub proof fn fill_then_render_writes_each_once(g: Seq<Seq<Option<Led>>>, c: (u8, u8, u8))
    requires
        forall|k: int| 0 <= k < flat(g).len() ==> (#[trigger] flat(g)[k]).sync_color != Some(c),
    ensures
        writes(flat(recolor(g, c))).len() == flat(g).len(),
        writes(flat(all_synced(recolor(g, c)))) == Seq::<(u8, Seq<u8>)>::empty(),
{
    lemma_map_flat(g, |l: Led| with_color(l, c));
    let s = flat(recolor(g, c));
    assert forall|k: int| 0 <= k < s.len() implies !in_sync(#[trigger] s[k]) by {
        assert(s[k] == with_color(flat(g)[k], c));
    }
    lemma_writes_all(s);
    render_after_render_writes_nothing(recolor(g, c));
}

/// A grid of LEDs built from an address map, kept in sync with the
/// controller by writing only the LEDs whose color changed.
#[derive(Debug, Clone)]
pub struct FrameBuffer {
    leds: Vec<Vec<Option<Led>>>,
    width: u8,
    height: u8,
    num_leds: usize,
}

/// The view of a grid of rows.
pub open spec fn rows_view(v: Seq<Vec<Option<Led>>>) -> Seq<Seq<Option<Led>>> {
    Seq::new(v.len(), |i: int| v[i]@)
}

impl FrameBuffer {
    /// The grid: one row per address map row, `None` where no LED is.
    pub closed spec fn grid(&self) -> Seq<Seq<Option<Led>>> {
        rows_view(self.leds@)
    }

    pub closed spec fn spec_width(&self) -> u8 {
        self.width
    }

    pub closed spec fn spec_height(&self) -> u8 {
        self.height
    }

    pub closed spec fn spec_num_leds(&self) -> usize {
        self.num_leds
    }

    /// The counters describe the grid, and no LED has the absent index.
    pub closed spec fn wf(&self) -> bool {
        &&& self.height == self.grid().len()
        &&& self.width == max_width(self.grid())
        &&& self.num_leds == flat(self.grid()).len()
        &&& forall|i: int, j: int|
            0 <= i < self.grid().len() && 0 <= j < self.grid()[i].len() ==> (
            #[trigger] self.grid()[i][j] matches Some(l) ==> l.index != ABSENT)
    }

    /// Builds the framebuffer of an address map: one black, never written
    /// LED for each cell that does not hold the absent marker.
    pub fn new(led_map: Vec<Vec<u8>>) -> (fb: Self)
        requires
            led_map@.len() <= 255,
            forall|i: int| 0 <= i < led_map@.len() ==> (#[trigger] led_map@[i])@.len() <= 255,
        ensures
            fb.wf(),
            fb.grid() == grid_of(map_view(led_map@)),
            fb.spec_height() == led_map@.len(),
            fb.spec_width() == max_width(fb.grid()),
            fb.spec_num_leds() == flat(fb.grid()).len(),
    {
        let ghost m = map_view(led_map@);
        let mut leds: Vec<Vec<Option<Led>>> = Vec::new();
        let mut width: u8 = 0;
        let mut num_leds: usize = 0;
        let mut i: usize = 0;
        while i < led_map.len()
            invariant
                m == map_view(led_map@),
                i <= led_map@.len() <= 255,
                forall|k: int| 0 <= k < led_map@.len() ==> (#[trigger] led_map@[k])@.len() <= 255,
                rows_view(leds@) == grid_of(m.take(i as int)),
                width == max_width(rows_view(leds@)),
                num_leds == flat(rows_view(leds@)).len(),
                num_leds <= 255 * i,
            decreases led_map@.len() - i,
        {
            let src = &led_map[i];
            let ghost mrow = src@;
            assert(mrow.len() <= 255);
            let mut row: Vec<Option<Led>> = Vec::new();
            let mut count: usize = 0;
            let mut j: usize = 0;
            while j < src.len()
                invariant
                    mrow == src@,
                    j <= mrow.len() <= 255,
                    row@ == grid_row(mrow.take(j as int)),
                    count == row_leds(row@).len(),
                    count <= j,
                decreases mrow.len() - j,
            {
                let ghost before = row@;
                let idx = src[j];
                if idx == ABSENT {
                    row.push(None);
                } else {
                    row.push(Some(Led { index: idx, color: (0, 0, 0), sync_color: None }));
                    count += 1;
                }
                assert(row@.drop_last() == before);
                assert(row@ == grid_row(mrow.take(j + 1)));
                j += 1;
            }
            assert(mrow.take(mrow.len() as int) == mrow);
            let ghost before = rows_view(leds@);
            let row_len = row.len();
            leds.push(row);
            assert(rows_view(leds@).drop_last() == before);
            assert(m[i as int] == mrow);
            assert(rows_view(leds@)[i as int] == grid_row(mrow));
            assert forall|k: int| 0 <= k < i + 1 implies #[trigger] rows_view(leds@)[k]
                == grid_of(m.take(i + 1))[k] by {
                if k < i {
                    assert(rows_view(leds@)[k] == before[k]);
                    assert(before[k] == grid_of(m.take(i as int))[k]);
                }
            }
            assert(rows_view(leds@) =~= grid_of(m.take(i + 1)));
            if row_len > width as usize {
                width = row_len as u8;
            }
            num_leds = num_leds + count;
            i += 1;
        }
        assert(m.take(m.len() as int) == m);
        let fb = FrameBuffer { leds, width, height: i as u8, num_leds };
        assert(fb.grid() == grid_of(m));
        fb
    }


    /// The widest row's number of cells.
    pub fn width(&self) -> (r: u8)
        ensures
            r == self.spec_width(),
    {
        self.width
    }

    /// The number of rows.
    pub fn height(&self) -> (r: u8)
        ensures
            r == self.spec_height(),
    {
        self.height
    }

    /// The number of LEDs.
    pub fn num_leds(&self) -> (r: usize)
        ensures
            r == self.spec_num_leds(),
    {
        self.num_leds
    }

    /// The LED at `row`, `col`; `None` outside the grid or where no LED is.
    pub fn get(&self, row: usize, col: usize) -> (r: Option<Led>)
        ensures
            r == cell(self.grid(), row as int, col as int),
    {
        if row < self.leds.len() && col < self.leds[row].len() {
            self.leds[row][col]
        } else {
            None
        }
    }

    /// Sets the color of the LED at `row`, `col`, to be written on the next
    /// render; does nothing outside the grid or where no LED is.
    pub fn set(&mut self, row: usize, col: usize, r: u8, g: u8, b: u8)
        requires
            old(self).wf(),
        ensures
            final(self).wf(),
            final(self).grid() == match cell(old(self).grid(), row as int, col as int) {
                Some(l) => old(self).grid().update(
                    row as int,
                    old(self).grid()[row as int].update(col as int, Some(with_color(l, (r, g, b)))),
                ),
                None => old(self).grid(),
            },
            final(self).spec_width() == old(self).spec_width(),
            final(self).spec_height() == old(self).spec_height(),
            final(self).spec_num_leds() == old(self).spec_num_leds(),
    {
        if row < self.leds.len() && col < self.leds[row].len() {
            if let Some(led) = self.leds[row][col] {
                self.leds[row][col] = Some(
                    Led { index: led.index, color: (r, g, b), sync_color: led.sync_color },
                );
                assert(self.grid() =~= old(self).grid().update(
                    row as int,
                    old(self).grid()[row as int].update(col as int, Some(with_color(led, (r, g, b)))),
                ));
                proof {
                    lemma_shape(old(self).grid(), self.grid());
                }
            }
        }
    }

    /// Sets every LED to color `(r, g, b)`, to be written on the next render.
    pub fn fill(&mut self, r: u8, g: u8, b: u8)
        requires
            old(self).wf(),
        ensures
            final(self).wf(),
            final(self).grid() == recolor(old(self).grid(), (r, g, b)),
            final(self).spec_width() == old(self).spec_width(),
            final(self).spec_height() == old(self).spec_height(),
            final(self).spec_num_leds() == old(self).spec_num_leds(),
    {
        let ghost g0 = old(self).grid();
        let ghost c = (r, g, b);
        let mut i: usize = 0;
        while i < self.leds.len()
            invariant
                g0 == old(self).grid(),
                c == (r, g, b),
                i <= self.grid().len(),
                self.width == old(self).width,
                self.height == old(self).height,
                self.num_leds == old(self).num_leds,
                self.grid().len() == g0.len(),
                forall|k: int|
                    0 <= k < g0.len() ==> (#[trigger] self.grid()[k]) == if k < i {
                        recolor(g0, c)[k]
                    } else {
                        g0[k]
                    },
            decreases g0.len() - i,
        {
            let mut j: usize = 0;
            let ghost row0 = g0[i as int];
            while j < self.leds[i].len()
                invariant
                    g0 == old(self).grid(),
                    c == (r, g, b),
                    i < self.grid().len(),
                    row0 == g0[i as int],
                    j <= row0.len(),
                    self.width == old(self).width,
                    self.height == old(self).height,
                    self.num_leds == old(self).num_leds,
                    self.grid().len() == g0.len(),
                    self.grid()[i as int].len() == row0.len(),
                    forall|k: int|
                        0 <= k < g0.len() && k != i ==> (#[trigger] self.grid()[k]) == if k < i {
                            recolor(g0, c)[k]
                        } else {
                            g0[k]
                        },
                    forall|l: int|
                        0 <= l < row0.len() ==> (#[trigger] self.grid()[i as int][l]) == if l < j {
                            recolor(g0, c)[i as int][l]
                        } else {
                            row0[l]
                        },
                decreases row0.len() - j,
            {
                let ghost before = self.grid();
                if let Some(led) = self.leds[i][j] {
                    self.leds[i][j] = Some(
                        Led { index: led.index, color: (r, g, b), sync_color: led.sync_color },
                    );
                }
                assert forall|k: int| 0 <= k < g0.len() && k != i implies #[trigger] self.grid()[k]
                    == before[k] by {}
                j += 1;
            }
            assert(self.grid()[i as int] =~= recolor(g0, c)[i as int]);
            i += 1;
        }
        assert(self.grid() =~= recolor(g0, c));
        proof {
            lemma_shape(g0, self.grid());
        }
    }

    /// Sets every LED to black, to be written on the next render.
    pub fn clear(&mut self)
        requires
            old(self).wf(),
        ensures
            final(self).wf(),
            final(self).grid() == recolor(old(self).grid(), (0u8, 0u8, 0u8)),
            final(self).spec_width() == old(self).spec_width(),
            final(self).spec_height() == old(self).spec_height(),
            final(self).spec_num_leds() == old(self).spec_num_leds(),
    {
        self.fill(0, 0, 0)
    }


    /// The LEDs in row-major order, skipping cells without an LED.
    pub fn flat_leds(&self) -> (r: Vec<Led>)
        ensures
            r@ == flat(self.grid()),
    {
        let ghost g = self.grid();
        let mut out: Vec<Led> = Vec::new();
        let mut i: usize = 0;
        while i < self.leds.len()
            invariant
                g == self.grid(),
                i <= g.len(),
                out@ == flat(g.take(i as int)),
            decreases g.len() - i,
        {
            let mut j: usize = 0;
            while j < self.leds[i].len()
                invariant
                    g == self.grid(),
                    i < g.len(),
                    j <= g[i as int].len(),
                    out@ == flat(g.take(i as int)) + row_leds(g[i as int].take(j as int)),
                decreases g[i as int].len() - j,
            {
                proof {
                    lemma_row_step(g[i as int], j as int);
                }
                if let Some(led) = self.leds[i][j] {
                    out.push(led);
                }
                j += 1;
            }
            proof {
                lemma_flat_step(g, i as int);
            }
            i += 1;
        }
        assert(g.take(g.len() as int) == g);
        out
    }

    /// Writes to the controller, in row-major order, the color of every LED
    /// whose color differs from the one last written, and marks it written.
    /// On a failure the LEDs written so far stay marked and the others keep
    /// their state, so that the next render writes exactly those.
    pub fn render<D: ReportDevice>(&mut self, ec: &mut Ec<D>) -> (r: Result<(), Error>)
        requires
            old(self).wf(),
        ensures
            final(self).wf(),
            final(self).spec_width() == old(self).spec_width(),
            final(self).spec_height() == old(self).spec_height(),
            final(self).spec_num_leds() == old(self).spec_num_leds(),
            writes(flat(old(self).grid())).len() == 0 ==> r is Ok && final(self).grid() == old(self).grid() && final(ec).sent() == old(ec).sent(),
            match r {
                Ok(_) => final(self).grid() == all_synced(old(self).grid()) && final(ec).sent()
                    == old(ec).sent() + writes(flat(old(self).grid())),
                Err(e) => io_error(e) && exists|fi: int, fj: int|
                    #[trigger] failed_at(
                        old(self).grid(),
                        fi,
                        fj,
                        final(self).grid(),
                        old(ec).sent(),
                        final(ec).sent(),
                    ),
            },
    {
        let ghost g0 = old(self).grid();
        let ghost s0 = old(ec).sent();
        let mut i: usize = 0;
        while i < self.leds.len()
            invariant
                old(self).wf(),
                g0 == old(self).grid(),
                s0 == old(ec).sent(),
                i <= g0.len(),
                self.width == old(self).width,
                self.height == old(self).height,
                self.num_leds == old(self).num_leds,
                self.grid().len() == g0.len(),
                forall|k: int|
                    0 <= k < g0.len() ==> (#[trigger] self.grid()[k]) == if k < i {
                        all_synced(g0)[k]
                    } else {
                        g0[k]
                    },
                ec.sent() == s0 + writes(flat(g0.take(i as int))),
            decreases g0.len() - i,
        {
            let mut j: usize = 0;
            let ghost row0 = g0[i as int];
            while j < self.leds[i].len()
                invariant
                    old(self).wf(),
                    g0 == old(self).grid(),
                    s0 == old(ec).sent(),
                    i < g0.len(),
                    row0 == g0[i as int],
                    j <= row0.len(),
                    self.width == old(self).width,
                    self.height == old(self).height,
                    self.num_leds == old(self).num_leds,
                    self.grid().len() == g0.len(),
                    self.grid()[i as int].len() == row0.len(),
                    forall|k: int|
                        0 <= k < g0.len() && k != i ==> (#[trigger] self.grid()[k]) == if k < i {
                            all_synced(g0)[k]
                        } else {
                            g0[k]
                        },
                    forall|l: int|
                        0 <= l < row0.len() ==> (#[trigger] self.grid()[i as int][l]) == if l < j {
                            all_synced(g0)[i as int][l]
                        } else {
                            row0[l]
                        },
                    ec.sent() == s0 + writes(flat(g0.take(i as int)) + row_leds(row0.take(j as int))),
                decreases row0.len() - j,
            {
                let ghost before = self.grid();
                let ghost done = flat(g0.take(i as int)) + row_leds(row0.take(j as int));
                proof {
                    lemma_row_step(row0, j as int);
                }
                if let Some(led) = self.leds[i][j] {
                    let mut led = led;
                    assert(g0[i as int][j as int] == Some(led));
                    let res = led.sync(ec);
                    self.leds[i][j] = Some(led);
                    assert forall|k: int| 0 <= k < g0.len() && k != i implies #[trigger] self.grid()[k]
                        == before[k] by {}
                    match res {
                        Ok(_) => {
                            proof {
                                lemma_writes_step(done, g0[i as int][j as int]->Some_0);
                                assert(done.push(g0[i as int][j as int]->Some_0) == flat(g0.take(i as int))
                                    + row_leds(row0.take(j + 1)));
                            }
                        },
                        Err(e) => {
                            proof {
                                let (fi, fj) = (i as int, j as int);
                                self.lemma_partly_synced(g0, fi, fj);
                                let l = g0[fi][fj]->Some_0;
                                lemma_writes_step(done, l);
                                assert(ec.sent() =~= s0 + writes(done.push(l)));
                                assert forall|a: int| 0 <= a < g0.len() implies #[trigger] self.grid()[a]
                                    == synced_before(g0, fi, fj)[a] by {
                                    if a != fi {
                                        assert(self.grid()[a] == if a < fi {
                                            all_synced(g0)[a]
                                        } else {
                                            g0[a]
                                        });
                                    }
                                    assert(self.grid()[a] =~= synced_before(g0, fi, fj)[a]);
                                }
                                assert(self.grid() =~= synced_before(g0, fi, fj));
                                assert(failed_at(g0, fi, fj, self.grid(), s0, ec.sent()));
                                lemma_pending_cell(g0, fi, fj);
                            }
                            return Err(e);
                        },
                    }
                } else {
                    assert(done == flat(g0.take(i as int)) + row_leds(row0.take(j + 1)));
                }
                j += 1;
            }
            assert(self.grid()[i as int] =~= all_synced(g0)[i as int]);
            proof {
                assert(row0.take(row0.len() as int) == row0);
                lemma_flat_step(g0, i as int);
            }
            i += 1;
        }
        assert(self.grid() =~= all_synced(g0));
        assert(g0.take(g0.len() as int) == g0);
        proof {
            lemma_shape(g0, self.grid());
            if writes(flat(g0)).len() == 0 {
                assert forall|a: int| 0 <= a < g0.len() implies #[trigger] all_synced(g0)[a]
                    == g0[a] by {
                    assert forall|b: int| 0 <= b < g0[a].len() implies #[trigger] all_synced(
                        g0,
                    )[a][b] == g0[a][b] by {
                        if g0[a][b] is Some && !in_sync(g0[a][b]->Some_0) {
                            lemma_pending_cell(g0, a, b);
                        }
                    }
                    assert(all_synced(g0)[a] =~= g0[a]);
                }
                assert(all_synced(g0) =~= g0);
                assert(s0 + writes(flat(g0)) =~= s0);
            }
        }
        Ok(())
    }

    proof fn lemma_partly_synced(&self, g0: Seq<Seq<Option<Led>>>, i: int, j: int)
        requires
            0 <= i < g0.len(),
            0 <= j < g0[i].len(),
            self.grid().len() == g0.len(),
            self.grid()[i].len() == g0[i].len(),
            forall|k: int|
                0 <= k < g0.len() && k != i ==> (#[trigger] self.grid()[k]) == if k < i {
                    all_synced(g0)[k]
                } else {
                    g0[k]
                },
            forall|l: int|
                0 <= l < g0[i].len() ==> (#[trigger] self.grid()[i][l]) == if l < j {
                    all_synced(g0)[i][l]
                } else {
                    g0[i][l]
                },
            self.height == g0.len(),
            self.width == max_width(g0),
            self.num_leds == flat(g0).len(),
            forall|a: int, b: int|
                0 <= a < g0.len() && 0 <= b < g0[a].len() ==> (#[trigger] g0[a][b] matches Some(
                    l,
                ) ==> l.index != ABSENT),
        ensures
            partly_synced(g0, self.grid()),
            self.wf(),
    {
        let g = self.grid();
        assert forall|a: int, b: int| 0 <= a < g0.len() && 0 <= b < g0[a].len() implies (
        #[trigger] g[a][b] == g0[a][b] || (g0[a][b] matches Some(l) && g[a][b] == Some(
            synced(l),
        ))) by {
            if a != i {
                assert(g[a] == if a < i {
                    all_synced(g0)[a]
                } else {
                    g0[a]
                });
            }
        }
        assert(same_shape(g0, g)) by {
            assert forall|a: int| 0 <= a < g0.len() implies #[trigger] g0[a].len() == g[a].len()
                && forall|b: int|
                0 <= b < g0[a].len() ==> (#[trigger] g0[a][b] is Some) == (g[a][b] is Some) by {
                if a != i {
                    assert(g[a] == if a < i {
                        all_synced(g0)[a]
                    } else {
                        g0[a]
                    });
                }
                assert forall|b: int| 0 <= b < g0[a].len() implies (#[trigger] g0[a][b] is Some)
                    == (g[a][b] is Some) by {
                    assert(g[a][b] == g0[a][b] || (g0[a][b] matches Some(l) && g[a][b] == Some(
                        synced(l),
                    )));
                }
            }
        }
        lemma_shape(g0, g);
        assert forall|a: int, b: int| 0 <= a < g.len() && 0 <= b < g[a].len() implies (
        #[trigger] g[a][b] matches Some(l) ==> l.index != ABSENT) by {
            assert(g[a][b] == g0[a][b] || (g0[a][b] matches Some(l) && g[a][b] == Some(
                synced(l),
            )));
        }
    }
}

proof fn lemma_row_step(r: Seq<Option<Led>>, j: int)
    requires
        0 <= j < r.len(),
    ensures
        row_leds(r.take(j + 1)) == row_leds(r.take(j)) + match r[j] {
            Some(l) => seq![l],
            None => Seq::<Led>::empty(),
        },
{
    assert(r.take(j + 1).drop_last() == r.take(j));
}

proof fn lemma_flat_step(g: Seq<Seq<Option<Led>>>, i: int)
    requires
        0 <= i < g.len(),
    ensures
        flat(g.take(i + 1)) == flat(g.take(i)) + row_leds(g[i]),
        g[i].take(g[i].len() as int) == g[i],
{
    assert(g.take(i + 1).drop_last() == g.take(i));
    assert(g[i].take(g[i].len() as int) == g[i]);
}

proof fn lemma_writes_step(s: Seq<Led>, x: Led)
    ensures
        writes(s.push(x)) == writes(s) + if in_sync(x) {
            Seq::<(u8, Seq<u8>)>::empty()
        } else {
            seq![set_color_command(x.index, x.color)]
        },
{
    assert(s.push(x).drop_last() == s);
}

} // verus!

use vstd::prelude::*;

use crate::grid::Rgb;
use crate::maze::SplitSource;

verus! {

/// Relies on rand's `Rng::gen_range` on the thread-local generator: it returns
/// a value in `[lo, hi)`, and panics unless `lo < hi`.
#[verifier::external_body]
fn random_in(lo: u32, hi: u32) -> (r: u32)
    requires
        lo < hi,
    ensures
        lo <= r < hi,
{
    rand::Rng::gen_range(&mut rand::thread_rng(), lo, hi)
}

/// Relies on rand's `random::<u8>`: a byte drawn from the thread-local
/// generator, of which nothing is known.
#[verifier::external_body]
fn random_byte() -> u8 {
    rand::random::<u8>()
}

/// A colour whose channels are drawn independently and uniformly.
fn random_color() -> Rgb {
    Rgb { r: random_byte(), g: random_byte(), b: random_byte() }
}

/// Random choices from the thread-local generator.
pub struct ThreadRandom;

impl SplitSource for ThreadRandom {
    fn pick(&mut self, lo: u32, hi: u32) -> (r: u32) {
        random_in(lo, hi)
    }

    fn color(&mut self) -> Rgb {
        random_color()
    }
}

/// Deterministic choices: the given values, taken in turn and repeated from the
/// start when they run out (zeros when there are none).
pub struct CyclingSource {
    values: Vec<u32>,
    next: usize,
}

impl CyclingSource {
    pub closed spec fn values(&self) -> Seq<u32> {
        self.values@
    }

    pub closed spec fn position(&self) -> nat {
        self.next as nat
    }

    pub fn new(values: Vec<u32>) -> (s: CyclingSource)
        ensures
            s.values() == values@,
            s.position() == 0,
    {
        CyclingSource { values, next: 0 }
    }

    /// The value at the current position, after which the position moves on.
    pub fn draw(&mut self) -> (v: u32)
        requires
            old(self).position() < old(self).values().len() || old(self).values().len() == 0,
        ensures
            final(self).values() == old(self).values(),
            final(self).position() < final(self).values().len() || final(self).values().len() == 0,
            old(self).values().len() == 0 ==> v == 0,
            old(self).values().len() > 0 ==> v == old(self).values()[old(self).position() as int],
            old(self).values().len() > 0 ==> final(self).position() == if old(self).position() + 1
                == old(self).values().len() {
                0
            } else {
                old(self).position() + 1
            },
    {
        if self.values.len() == 0 {
            0
        } else {
            let v = self.values[self.next];
            self.next = if self.next + 1 == self.values.len() {
                0
            } else {
                self.next + 1
            };
            v
        }
    }
}

impl SplitSource for CyclingSource {
    /// `lo` plus the drawn value modulo the width of the range.
    fn pick(&mut self, lo: u32, hi: u32) -> (r: u32) {
        let v = self.draw_any();
        lo + v % (hi - lo)
    }

    /// The low three bytes of the drawn value, as red, green and blue.
    fn color(&mut self) -> Rgb {
        let v = self.draw_any();
        Rgb { r: (v % 256) as u8, g: ((v / 256) % 256) as u8, b: ((v / 65536) % 256) as u8 }
    }
}

impl CyclingSource {
    /// Like `draw`, from a position that may lie past the values.
    fn draw_any(&mut self) -> u32 {
        if self.next >= self.values.len() {
            self.next = 0;
        }
        self.draw()
    }
}

} // verus!

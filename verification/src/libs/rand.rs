//! A linear congruential generator.
use vstd::prelude::*;

verus! {

/// The generator: multiplier `a`, increment `c`, and the last value.
pub struct Random {
    pub a: i64,
    pub c: i64,
    pub previous: i64,
}

impl Random {
    /// The generator with the multiplier and increment of Java's, seeded
    /// with zero.
    pub fn new() -> (r: Random)
        ensures
            r.a == 25214903917 && r.c == 11 && r.previous == 0,
    {
        Random { a: 25214903917, c: 11, previous: 0 }
    }

    /// Seeds the generator.
    pub fn rseed(&mut self, seed: i64)
        ensures
            final(self).previous == seed,
            final(self).a == old(self).a && final(self).c == old(self).c,
    {
        self.previous = seed;
    }

    /// The next value, `a * previous + c`, which becomes the last value.
    pub fn rand(&mut self) -> (r: i64)
        requires
            i64::MIN <= old(self).a * old(self).previous + old(self).c <= i64::MAX,
            i64::MIN <= old(self).a * old(self).previous <= i64::MAX,
        ensures
            r == old(self).a * old(self).previous + old(self).c,
            final(self).previous == r,
            final(self).a == old(self).a && final(self).c == old(self).c,
    {
        let r = self.a * self.previous + self.c;
        self.previous = r;
        r
    }
}

} // verus!

use crate::fixed::{sdiv1000, SAMPLE_LIMIT};
use vstd::arithmetic::div_mod::{
    lemma_div_is_ordered, lemma_div_pos_is_pos, lemma_fundamental_div_mod,
    lemma_fundamental_div_mod_converse_mod, lemma_mod_division_less_than_divisor,
    lemma_small_mod,
};
use vstd::prelude::*;

verus! {

/// Upper bound on the number of samples a delay line can hold.
pub const MAX_CAPACITY: usize = 0x1000_0000;

/// A fixed-capacity circular buffer of samples with a write cursor. Writing
/// stores one sample and advances the cursor; reading interpolates between
/// the two stored samples nearest a fractional delay position. Slots that
/// were never written read as silence.
pub struct DelayLine {
    buf: Vec<i64>,
    cursor: usize,
}

/// `(a % n)` for `-n <= a < n`, spelled without the modulo.
proof fn lemma_mod_in_range(a: int, n: int)
    requires
        n > 0,
        -n <= a < n,
    ensures
        a % n == if a >= 0 {
            a
        } else {
            a + n
        },
{
    if a >= 0 {
        lemma_small_mod(a as nat, n as nat);
    } else {
        lemma_fundamental_div_mod_converse_mod(a, n, -1, a + n);
    }
}

/// The value a fractional read yields from line contents `c` at position
/// `pos` in milli-samples: the position is clamped into the stored range and
/// the two nearest samples are combined by linear interpolation. At a whole
/// number of samples the stored sample comes back exactly.
pub open spec fn read_spec(c: Seq<int>, pos: int) -> int {
    let top = (c.len() - 1) * 1000;
    let p = if pos < 0 {
        0
    } else if pos > top {
        top
    } else {
        pos
    };
    let i = p / 1000;
    let f = p % 1000;
    if f == 0 {
        c[i]
    } else {
        sdiv1000(c[i] * (1000 - f) + c[i + 1] * f)
    }
}

/// Interpolated reads stay within any magnitude bound that holds of every
/// stored sample.
pub proof fn lemma_read_bound(c: Seq<int>, pos: int, b: int)
    requires
        c.len() >= 1,
        0 <= b,
        forall|k: int| 0 <= k < c.len() ==> -b <= #[trigger] c[k] <= b,
    ensures
        -b <= read_spec(c, pos) <= b,
{
    let top = (c.len() - 1) * 1000;
    let p = if pos < 0 {
        0int
    } else if pos > top {
        top
    } else {
        pos
    };
    let i = p / 1000;
    let f = p % 1000;
    lemma_fundamental_div_mod(p, 1000);
    lemma_mod_division_less_than_divisor(p, 1000);
    lemma_div_pos_is_pos(p, 1000);
    lemma_div_is_ordered(p, top, 1000);
    assert(((c.len() - 1) * 1000) / 1000 == c.len() - 1) by {
        vstd::arithmetic::div_mod::lemma_div_multiples_vanish(c.len() - 1, 1000);
    }
    if f == 0 {
        assert(-b <= c[i] <= b);
    } else {
        assert(i < c.len() - 1) by {
            if i == c.len() - 1 {
                assert(p == 1000 * i + f);
            }
        }
        assert(-(1000 * b) <= c[i] * (1000 - f) + c[i + 1] * f <= 1000 * b)
            by (nonlinear_arith)
            requires
                -b <= c[i] <= b,
                -b <= c[i + 1] <= b,
                0 < f < 1000,
                0 <= b,
        ;
        crate::fixed::lemma_sdiv1000_bound(c[i] * (1000 - f) + c[i + 1] * f, b);
    }
}

impl DelayLine {
    /// Number of samples the line can hold.
    pub closed spec fn capacity(&self) -> int {
        self.buf.len() as int
    }

    /// The buffer slot that holds the sample written `k` writes ago.
    pub closed spec fn slot_of(&self, k: int) -> int {
        (self.cursor - 1 - k) % (self.buf.len() as int)
    }

    /// The stored samples ordered by age: `contents()[k]` is the sample
    /// written `k` writes ago (zero if that slot was never written).
    pub closed spec fn contents(&self) -> Seq<int> {
        Seq::new(self.buf.len() as nat, |k: int| self.buf[self.slot_of(k)] as int)
    }

    /// Well-formedness: the cursor is inside the buffer and every stored
    /// sample is within the fixed-point range.
    pub closed spec fn wf(&self) -> bool {
        &&& 1 <= self.buf.len() <= MAX_CAPACITY
        &&& self.cursor < self.buf.len()
        &&& forall|i: int|
            0 <= i < self.buf.len() ==> -SAMPLE_LIMIT <= #[trigger] self.buf[i] <= SAMPLE_LIMIT
    }

    /// What well-formedness gives of the visible model: the contents cover
    /// the whole capacity and stay within the sample range.
    pub proof fn lemma_inv(&self)
        requires
            self.wf(),
        ensures
            self.contents().len() == self.capacity(),
            1 <= self.capacity() <= MAX_CAPACITY as int,
            forall|k: int|
                0 <= k < self.capacity() ==> -SAMPLE_LIMIT <= #[trigger] self.contents()[k]
                    <= SAMPLE_LIMIT,
    {
        assert forall|k: int| 0 <= k < self.capacity() implies -SAMPLE_LIMIT
            <= #[trigger] self.contents()[k] <= SAMPLE_LIMIT by {
            lemma_mod_division_less_than_divisor(self.cursor - 1 - k, self.buf.len() as int);
        }
    }

    /// A line of the given capacity whose every slot reads as silence.
    pub fn new(capacity: usize) -> (line: Self)
        requires
            1 <= capacity <= MAX_CAPACITY,
        ensures
            line.wf(),
            line.capacity() == capacity,
            forall|k: int| 0 <= k < capacity ==> #[trigger] line.contents()[k] == 0,
    {
        let mut buf: Vec<i64> = Vec::new();
        let mut i: usize = 0;
        while i < capacity
            invariant
                i <= capacity,
                buf.len() == i,
                forall|j: int| 0 <= j < i ==> #[trigger] buf[j] == 0i64,
            decreases capacity - i,
        {
            buf.push(0);
            i = i + 1;
        }
        let line = DelayLine { buf, cursor: 0 };
        proof {
            assert forall|k: int| 0 <= k < capacity implies #[trigger] line.contents()[k]
                == 0 by {
                lemma_mod_division_less_than_divisor(-1 - k, capacity as int);
            }
        }
        line
    }

    /// Zero-fills every slot and rewinds the cursor, as reinitialization
    /// after a configuration change demands.
    pub fn reset(&mut self)
        requires
            old(self).wf(),
        ensures
            final(self).wf(),
            final(self).capacity() == old(self).capacity(),
            forall|k: int| 0 <= k < old(self).capacity() ==> #[trigger] final(self).contents()[k] == 0,
    {
        let len = self.buf.len();
        let mut i: usize = 0;
        while i < len
            invariant
                i <= len,
                self.buf.len() == len,
                old(self).wf(),
                len == old(self).buf.len(),
                forall|j: int| 0 <= j < i ==> #[trigger] self.buf[j] == 0i64,
                forall|j: int|
                    0 <= j < len ==> -SAMPLE_LIMIT <= #[trigger] self.buf[j] <= SAMPLE_LIMIT,
                self.cursor == old(self).cursor,
            decreases len - i,
        {
            self.buf[i] = 0;
            i = i + 1;
        }
        self.cursor = 0;
        proof {
            assert forall|k: int| 0 <= k < old(self).capacity() implies #[trigger] self
                .contents()[k] == 0 by {
                lemma_mod_division_less_than_divisor(-1 - k, len as int);
            }
        }
    }

    /// Stores one sample at the cursor and advances the cursor circularly:
    /// the new sample becomes the youngest entry and every other entry ages
    /// by one write, the oldest falling off.
    pub fn write(&mut self, s: i64)
        requires
            old(self).wf(),
            -SAMPLE_LIMIT <= s <= SAMPLE_LIMIT,
        ensures
            final(self).wf(),
            final(self).capacity() == old(self).capacity(),
            final(self).contents()[0] == s as int,
            forall|k: int|
                1 <= k < old(self).capacity() ==> #[trigger] final(self).contents()[k] == old(
                    self,
                ).contents()[k - 1],
    {
        let len = self.buf.len();
        let c = self.cursor;
        self.buf[c] = s;
        self.cursor = if c + 1 == len {
            0
        } else {
            c + 1
        };
        proof {
            let n = len as int;
            let ci = c as int;
            assert(self.slot_of(0) == ci) by {
                if ci + 1 == n {
                    lemma_mod_in_range(-1, n);
                } else {
                    lemma_mod_in_range(ci, n);
                }
            }
            assert forall|k: int| 1 <= k < n implies #[trigger] self.contents()[k] == old(
                self,
            ).contents()[k - 1] by {
                if ci + 1 == n {
                    lemma_mod_in_range(-1 - k, n);
                }
                lemma_mod_in_range(ci - k, n);
                assert(old(self).slot_of(k - 1) == self.slot_of(k));
                assert(self.slot_of(k) != ci);
            }
        }
    }

    /// The sample written `k` writes ago.
    fn get_past(&self, k: usize) -> (r: i64)
        requires
            self.wf(),
            k < self.capacity(),
        ensures
            r as int == self.contents()[k as int],
            -SAMPLE_LIMIT <= r <= SAMPLE_LIMIT,
    {
        let n = self.buf.len();
        let t = self.cursor + n - 1 - k;
        let j = if t >= n {
            t - n
        } else {
            t
        };
        proof {
            lemma_mod_in_range(self.cursor - 1 - k, n as int);
        }
        self.buf[j]
    }

    /// Fractional read at `pos` milli-samples behind the youngest entry,
    /// clamped into the stored range; linear interpolation between the two
    /// nearest entries, exact at whole sample positions.
    pub fn read(&self, pos: u64) -> (r: i64)
        requires
            self.wf(),
        ensures
            r as int == read_spec(self.contents(), pos as int),
            -SAMPLE_LIMIT <= r <= SAMPLE_LIMIT,
    {
        proof {
            self.lemma_inv();
            lemma_read_bound(self.contents(), pos as int, SAMPLE_LIMIT as int);
        }
        let len = self.buf.len();
        let top: u64 = ((len - 1) as u64) * 1000;
        let p: u64 = if pos > top {
            top
        } else {
            pos
        };
        let i: u64 = p / 1000;
        let f: u64 = p % 1000;
        proof {
            lemma_fundamental_div_mod(p as int, 1000);
            lemma_mod_division_less_than_divisor(p as int, 1000);
            lemma_div_pos_is_pos(p as int, 1000);
            lemma_div_is_ordered(p as int, top as int, 1000);
            assert((top as int) / 1000 == len - 1) by {
                vstd::arithmetic::div_mod::lemma_div_multiples_vanish(len - 1, 1000);
            }
        }
        let a = self.get_past(i as usize);
        if f == 0 {
            a
        } else {
            proof {
                assert(i < len - 1) by {
                    if i as int == len - 1 {
                        assert(p as int == 1000 * (i as int) + f);
                    }
                }
            }
            let b = self.get_past((i as usize) + 1);
            proof {
                assert(-(1000 * SAMPLE_LIMIT as int) <= (a as int) * (1000 - f as int) <= 1000
                    * SAMPLE_LIMIT as int) by (nonlinear_arith)
                    requires
                        -SAMPLE_LIMIT <= a <= SAMPLE_LIMIT,
                        0 < f < 1000,
                ;
                assert(-(1000 * SAMPLE_LIMIT as int) <= (b as int) * (f as int) <= 1000
                    * SAMPLE_LIMIT as int) by (nonlinear_arith)
                    requires
                        -SAMPLE_LIMIT <= b <= SAMPLE_LIMIT,
                        0 < f < 1000,
                ;
            }
            let num: i64 = a * (1000 - (f as i64)) + b * (f as i64);
            num / 1000
        }
    }
}

} // verus!

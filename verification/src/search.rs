use vstd::prelude::*;
use crate::primitive::{get_u16, get_u24, get_u32, u16_at, u24_at, u32_at};

verus! {

/// One field of an array of fixed-size records inside a byte window: record
/// `i` starts at `base + i * stride`, and the field lies `field` bytes into
/// it and is an unsigned big-endian number of `width` bytes.
#[derive(Debug, Clone, Copy)]
pub struct Column {
    pub base: usize,
    pub stride: usize,
    pub field: usize,
    pub width: usize,
    pub count: usize,
}

impl Column {
    /// The column with these five values. The bytes that its records span are
    /// stated as a product of the arguments, which is plain arithmetic for a
    /// caller that passes a fixed stride.
    pub fn new(base: usize, stride: usize, field: usize, width: usize, count: usize) -> (c: Column)
        ensures
            c == (Column { base, stride, field, width, count }),
            c.count * c.stride == count * stride,
    {
        Column { base, stride, field, width, count }
    }

    /// Whether all records lie inside `data` and the field inside a record.
    pub open spec fn fits(self, data: Seq<u8>) -> bool {
        &&& 2 <= self.width <= 4
        &&& self.field + self.width <= self.stride
        &&& self.base + self.count * self.stride <= data.len()
    }

    /// Where the field of record `i` starts.
    pub open spec fn pos(self, i: int) -> int {
        self.base + i * self.stride + self.field
    }

    /// The field of record `i`.
    pub open spec fn key(self, data: Seq<u8>, i: int) -> int {
        if self.width == 2 {
            u16_at(data, self.pos(i))
        } else if self.width == 3 {
            u24_at(data, self.pos(i))
        } else {
            u32_at(data, self.pos(i))
        }
    }

    /// Whether the field never decreases from one record to the next.
    pub open spec fn sorted(self, data: Seq<u8>) -> bool {
        forall|i: int, j: int|
            0 <= i <= j < self.count ==> self.key(data, i) <= self.key(data, j)
    }

    /// Whether `i` parts the records: the field is below `target` before
    /// record `i` and at least `target` from record `i` on.
    pub open spec fn parts_at(self, data: Seq<u8>, target: int, i: int) -> bool {
        &&& 0 <= i <= self.count
        &&& forall|j: int| 0 <= j < i ==> self.key(data, j) < target
        &&& forall|j: int| i <= j < self.count ==> self.key(data, j) >= target
    }

    /// The first record whose field is at least `target`, or `count` where
    /// there is none. It is meant for a sorted column.
    pub open spec fn lower_bound_of(self, data: Seq<u8>, target: int) -> int {
        choose|i: int| self.parts_at(data, target, i)
    }

    /// Every record of a fitting column lies inside the data.
    pub proof fn lemma_record_inside(self, data: Seq<u8>, i: int)
        requires
            self.fits(data),
            0 <= i < self.count,
        ensures
            0 <= i * self.stride,
            i * self.stride + self.stride <= self.count * self.stride,
            self.pos(i) + self.width <= data.len(),
    {
        let s = self.stride as int;
        let c = self.count as int;
        assert(0 <= i * s && i * s + s <= c * s) by (nonlinear_arith)
            requires
                0 <= i < c,
                0 <= s,
        ;
    }

    /// At most one index parts the records for a target.
    pub proof fn lemma_parts_once(self, data: Seq<u8>, target: int, i: int)
        requires
            self.parts_at(data, target, i),
        ensures
            self.lower_bound_of(data, target) == i,
    {
        let k = self.lower_bound_of(data, target);
        assert(self.parts_at(data, target, k));
        if k < i {
            assert(self.key(data, k) < target);
        }
        if i < k {
            assert(self.key(data, i) < target);
        }
    }

    /// Among the first `k` records of a sorted column some index parts them.
    pub proof fn lemma_prefix_parts(self, data: Seq<u8>, target: int, k: int) -> (i: int)
        requires
            self.sorted(data),
            0 <= k <= self.count,
        ensures
            0 <= i <= k,
            forall|j: int| 0 <= j < i ==> self.key(data, j) < target,
            forall|j: int| i <= j < k ==> self.key(data, j) >= target,
        decreases k,
    {
        if k == 0 {
            0
        } else {
            let before = self.lemma_prefix_parts(data, target, k - 1);
            if self.key(data, k - 1) >= target {
                before
            } else {
                assert forall|j: int| 0 <= j < k implies self.key(data, j) < target by {
                    assert(self.key(data, j) <= self.key(data, k - 1));
                }
                k
            }
        }
    }

    /// In a sorted column the lower bound parts the records: every record
    /// before it is below the target, and every record from it on is not.
    pub proof fn lemma_lower_bound_parts(self, data: Seq<u8>, target: int)
        requires
            self.sorted(data),
        ensures
            self.parts_at(data, target, self.lower_bound_of(data, target)),
    {
        let i = self.lemma_prefix_parts(data, target, self.count as int);
        assert(self.parts_at(data, target, i));
    }

    /// In a sorted column the record at the lower bound carries the target
    /// exactly where some record does.
    pub proof fn lemma_found_iff_present(self, data: Seq<u8>, target: int)
        requires
            self.sorted(data),
        ensures
            (self.lower_bound_of(data, target) < self.count && self.key(
                data,
                self.lower_bound_of(data, target),
            ) == target) <==> (exists|j: int| 0 <= j < self.count && self.key(data, j) == target),
    {
        let i = self.lower_bound_of(data, target);
        self.lemma_lower_bound_parts(data, target);
        if exists|j: int| 0 <= j < self.count && self.key(data, j) == target {
            let j = choose|j: int| 0 <= j < self.count && self.key(data, j) == target;
            if j < i {
                assert(self.key(data, j) < target);
            }
            assert(self.key(data, i) <= self.key(data, j));
            assert(self.key(data, i) >= target);
        }
    }

    /// Reads the field of record `i`.
    pub fn read(&self, data: &[u8], i: usize) -> (v: u32)
        requires
            self.fits(data@),
            i < self.count,
        ensures
            v as int == self.key(data@, i as int),
    {
        proof {
            self.lemma_record_inside(data@, i as int);
        }
        let len: usize = data.len();
        assert(self.base + i * self.stride + self.stride <= len);
        let p: usize = self.base + i * self.stride + self.field;
        if self.width == 2 {
            get_u16(data, p) as u32
        } else if self.width == 3 {
            get_u24(data, p)
        } else {
            get_u32(data, p)
        }
    }

    /// Tells whether the column is sorted, by comparing each record with the
    /// one before it.
    pub fn is_sorted(&self, data: &[u8]) -> (b: bool)
        requires
            self.fits(data@),
        ensures
            b == self.sorted(data@),
    {
        if self.count == 0 {
            return true;
        }
        let mut prev: u32 = self.read(data, 0);
        let mut i: usize = 1;
        while i < self.count
            invariant
                self.fits(data@),
                1 <= i <= self.count,
                prev as int == self.key(data@, i - 1),
                forall|a: int, b: int| 0 <= a <= b < i ==> self.key(data@, a) <= self.key(data@, b),
            decreases self.count - i,
        {
            let cur: u32 = self.read(data, i);
            if cur < prev {
                assert(!(self.key(data@, i - 1) <= self.key(data@, i as int)));
                return false;
            }
            assert forall|a: int, b: int| 0 <= a <= b < i + 1 implies self.key(data@, a)
                <= self.key(data@, b) by {
                if b == i && a < i {
                    assert(self.key(data@, a) <= self.key(data@, i - 1));
                }
            }
            prev = cur;
            i = i + 1;
        }
        true
    }

    /// Finds, by halving, the first record of a sorted column whose field is
    /// at least `target`.
    pub fn lower_bound(&self, data: &[u8], target: u32) -> (i: usize)
        requires
            self.fits(data@),
            self.sorted(data@),
        ensures
            self.parts_at(data@, target as int, i as int),
            i as int == self.lower_bound_of(data@, target as int),
    {
        let mut lo: usize = 0;
        let mut hi: usize = self.count;
        while lo < hi
            invariant
                self.fits(data@),
                self.sorted(data@),
                0 <= lo <= hi <= self.count,
                forall|j: int| 0 <= j < lo ==> self.key(data@, j) < target,
                forall|j: int| hi <= j < self.count ==> self.key(data@, j) >= target,
            decreases hi - lo,
        {
            let mid: usize = lo + (hi - lo) / 2;
            let k: u32 = self.read(data, mid);
            if k < target {
                assert forall|j: int| 0 <= j < mid + 1 implies self.key(data@, j) < target by {
                    assert(self.key(data@, j) <= self.key(data@, mid as int));
                }
                lo = mid + 1;
            } else {
                assert forall|j: int| mid <= j < self.count implies self.key(data@, j)
                    >= target by {
                    assert(self.key(data@, mid as int) <= self.key(data@, j));
                }
                hi = mid;
            }
        }
        proof {
            self.lemma_parts_once(data@, target as int, lo as int);
        }
        lo
    }
}

} // verus!

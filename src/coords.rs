use vstd::prelude::*;

verus! {

/// The coordinate at a row-major offset in an image `width` pixels wide.
pub open spec fn coord_at(width: nat, pos: nat) -> (u16, u16) {
    ((pos % width) as u16, (pos / width) as u16)
}

/// The row-major offset of `(x, y)` in an image `width` pixels wide.
pub open spec fn offset_of(x: nat, y: nat, width: nat) -> nat {
    y * width + x
}

/// Every coordinate of a `width` by `height` image in row-major order.
pub open spec fn coordinate_seq(width: nat, height: nat) -> Seq<(u16, u16)> {
    Seq::new(width * height, |i: int| coord_at(width, i as nat))
}

/// The abstract state of a coordinate sequence: the image's dimensions and
/// the row-major offset of the next coordinate.
pub struct IndexView {
    pub width: nat,
    pub height: nat,
    pub position: nat,
}

impl IndexView {
    /// How many coordinates the image has.
    pub open spec fn total(self) -> nat {
        self.width * self.height
    }

    /// How many coordinates are left.
    pub open spec fn remaining(self) -> nat {
        if self.position < self.total() {
            (self.total() - self.position) as nat
        } else {
            0
        }
    }

    /// The state `k` coordinates further on, stopping at the end.
    pub open spec fn advanced(self, k: nat) -> IndexView {
        IndexView {
            position: if self.position + k < self.total() {
                self.position + k
            } else {
                self.total()
            },
            ..self
        }
    }

    /// What reading the next coordinate yields.
    pub open spec fn next_item(self) -> Option<(u16, u16)> {
        if self.position < self.total() {
            Some(coord_at(self.width, self.position))
        } else {
            None
        }
    }

    /// What skipping `n` coordinates and reading one yields.
    pub open spec fn nth_item(self, n: nat) -> Option<(u16, u16)> {
        if n < self.remaining() {
            Some(coord_at(self.width, self.position + n))
        } else {
            None
        }
    }

    /// The state after reading `k` coordinates one at a time.
    pub open spec fn after_reads(self, k: nat) -> IndexView
        decreases k,
    {
        if k == 0 {
            self
        } else {
            self.advanced(1).after_reads((k - 1) as nat)
        }
    }
}

/// The coordinates `(x, y)` of an image, in row-major order from the top
/// left corner.
#[derive(Clone, Copy, Debug)]
pub struct ImageIndex {
    width: u16,
    height: u16,
    x: u16,
    y: u16,
}

impl View for ImageIndex {
    type V = IndexView;

    closed spec fn view(&self) -> IndexView {
        IndexView {
            width: self.width as nat,
            height: self.height as nat,
            position: (self.y * self.width + self.x) as nat,
        }
    }
}

impl ImageIndex {
    /// `x` stays within the row, and only the end state has `y == height`.
    #[verifier::type_invariant]
    spec fn inv(&self) -> bool {
        &&& (self.width > 0 ==> self.x < self.width)
        &&& (self.width == 0 ==> self.x == 0)
        &&& self.y <= self.height
        &&& (self.y == self.height ==> self.x == 0)
    }

    /// A fresh sequence over a `width` by `height` image.
    pub fn new(width: u16, height: u16) -> (r: ImageIndex)
        ensures
            r@ == (IndexView { width: width as nat, height: height as nat, position: 0 }),
    {
        ImageIndex { width, height, x: 0, y: 0 }
    }

    /// Reads the next coordinate, or `None` at the end.
    pub fn next(&mut self) -> (r: Option<(u16, u16)>)
        ensures
            r == old(self)@.next_item(),
            final(self)@ == old(self)@.advanced(1),
    {
        proof {
            use_type_invariant(&*self);
            lemma_position_bound(self.width, self.height, self.x, self.y);
        }
        if self.x < self.width && self.y < self.height {
            let result = Some((self.x, self.y));
            let ghost (w, x, y) = (self.width as int, self.x as int, self.y as int);
            assert((y * w + x) % w == x && (y * w + x) / w == y) by (nonlinear_arith)
                requires
                    0 <= x < w,
                    0 <= y,
            ;
            if self.x + 1 == self.width {
                assert(y * w + x + 1 == (y + 1) * w) by (nonlinear_arith)
                    requires
                        x + 1 == w,
                ;
                assert((y + 1) * w <= self.height * w) by (nonlinear_arith)
                    requires
                        y < self.height,
                        0 <= w,
                ;
                self.x = 0;
                self.y = self.y + 1;
            } else {
                self.x = self.x + 1;
            }
            result
        } else {
            proof {
                if self.width > 0 {
                    assert(self.y == self.height);
                }
                assert(self@.position == self@.total()) by (nonlinear_arith)
                    requires
                        self@.position == self.y * self.width + self.x,
                        self.width == 0 ==> self.x == 0,
                        self.width > 0 ==> self.y == self.height && self.x == 0,
                        self@.total() == self.width * self.height,
                ;
            }
            None
        }
    }

    /// The number of coordinates left, as both bounds.
    pub fn size_hint(&self) -> (r: (usize, Option<usize>))
        ensures
            r == (self@.remaining() as usize, Some(self@.remaining() as usize)),
    {
        proof {
            use_type_invariant(self);
            lemma_position_bound(self.width, self.height, self.x, self.y);
            crate::format::lemma_dims_fit(self.width, self.height);
        }
        let total = self.width as usize * self.height as usize;
        let done = self.y as usize * self.width as usize + self.x as usize;
        let rem = total - done;
        (rem, Some(rem))
    }

    /// Skips `n` coordinates and reads the next one; at or past the end it
    /// yields `None` and leaves the sequence at its end.
    pub fn nth(&mut self, n: usize) -> (r: Option<(u16, u16)>)
        ensures
            r == old(self)@.nth_item(n as nat),
            final(self)@ == old(self)@.advanced(n as nat + 1),
    {
        proof {
            use_type_invariant(&*self);
            lemma_position_bound(self.width, self.height, self.x, self.y);
            crate::format::lemma_dims_fit(self.width, self.height);
        }
        let total = self.width as usize * self.height as usize;
        let done = self.y as usize * self.width as usize + self.x as usize;
        if n >= total - done {
            self.x = 0;
            self.y = self.height;
            assert(self.height * self.width == self.width * self.height) by (nonlinear_arith);
            return None;
        }
        let linear = done + n;
        let w = self.width as usize;
        let ghost h = self.height as int;
        assert(linear / w < h && linear % w < w && (linear / w) * w + linear % w == linear)
            by (nonlinear_arith)
            requires
                linear < w * h,
                w > 0,
        ;
        let cx = (linear % w) as u16;
        let cy = (linear / w) as u16;
        if cx + 1 == self.width {
            assert(cy * w + cx + 1 == (cy + 1) * w) by (nonlinear_arith)
                requires
                    cx + 1 == w,
            ;
            assert((cy + 1) * w <= h * w) by (nonlinear_arith)
                requires
                    cy < h,
            ;
            self.x = 0;
            self.y = cy + 1;
        } else {
            self.x = cx + 1;
            self.y = cy;
        }
        Some((cx, cy))
    }

    /// Reads every coordinate left, in order.
    pub fn to_vec(self) -> (r: Vec<(u16, u16)>)
        ensures
            self@.position <= self@.total(),
            r@ == coordinate_seq(self@.width, self@.height).subrange(
                self@.position as int,
                self@.total() as int,
            ),
    {
        proof {
            use_type_invariant(&self);
            lemma_position_bound(self.width, self.height, self.x, self.y);
            crate::format::lemma_dims_fit(self.width, self.height);
        }
        let ghost start = self@;
        let mut it = self;
        let mut r: Vec<(u16, u16)> = Vec::new();
        let rem = it.size_hint().0;
        let mut k: usize = 0;
        while k < rem
            invariant
                k <= rem,
                rem == start.remaining(),
                start.position <= start.total(),
                it@ == start.advanced(k as nat),
                r@ =~= coordinate_seq(start.width, start.height).subrange(
                    start.position as int,
                    start.position + k,
                ),
            decreases rem - k,
        {
            let c = it.next();
            match c {
                Some(c) => {
                    r.push(c);
                },
                None => {},
            }
            k = k + 1;
        }
        r
    }
}

/// Reading `k >= 1` coordinates one at a time lands where advancing by `k`
/// does.
proof fn lemma_after_reads(v: IndexView, k: nat)
    requires
        k >= 1,
    ensures
        v.after_reads(k) == v.advanced(k),
    decreases k,
{
    if k > 1 {
        lemma_after_reads(v.advanced(1), (k - 1) as nat);
        assert(v.advanced(1).advanced((k - 1) as nat) == v.advanced(k));
    } else {
        assert(v.advanced(1).after_reads(0) == v.advanced(1));
    }
}

/// Skipping `n` coordinates and reading one yields what reading `n + 1`
/// coordinates one at a time yields last, and leaves the same state (so the
/// same count of coordinates left).
pub proof fn lemma_skip_then_read(v: IndexView, n: nat)
    ensures
        v.nth_item(n) == v.after_reads(n).next_item(),
        v.advanced(n + 1) == v.after_reads(n + 1),
        v.advanced(n + 1).remaining() == v.after_reads(n + 1).remaining(),
{
    lemma_after_reads(v, n + 1);
    if n >= 1 {
        lemma_after_reads(v, n);
    }
}

/// The coordinate sequence of a `width` by `height` image has `width *
/// height` entries; entry `i` is the in-range pair whose row-major offset is
/// `i`, so every pair in range comes exactly once, row by row.
pub proof fn lemma_coordinates_complete(width: u16, height: u16)
    ensures
        ({
            let s = coordinate_seq(width as nat, height as nat);
            &&& s.len() == width * height
            &&& forall|i: int|
                0 <= i < s.len() ==> {
                    &&& (#[trigger] s[i]).0 < width
                    &&& s[i].1 < height
                    &&& s[i].1 * width + s[i].0 == i
                }
            &&& forall|x: u16, y: u16|
                x < width && y < height ==> #[trigger] s[offset_of(x as nat, y as nat, width as nat) as int] == (x, y)
            &&& forall|i: int, j: int| 0 <= i < j < s.len() ==> #[trigger] s[i] != #[trigger] s[j]
        }),
{
    let s = coordinate_seq(width as nat, height as nat);
    let (w, h) = (width as int, height as int);
    assert forall|i: int| 0 <= i < s.len() implies {
        &&& (#[trigger] s[i]).0 < width
        &&& s[i].1 < height
        &&& s[i].1 * width + s[i].0 == i
    } by {
        assert(w > 0) by (nonlinear_arith)
            requires
                0 <= i < w * h,
                w >= 0,
        ;
        assert(i % w < w && i / w < h && (i / w) * w + i % w == i) by (nonlinear_arith)
            requires
                0 <= i < w * h,
                w > 0,
        ;
    }
    assert forall|x: u16, y: u16| x < width && y < height implies #[trigger] s[offset_of(
        x as nat,
        y as nat,
        width as nat,
    ) as int] == (x, y) by {
        let i = y * w + x;
        assert(0 <= i < w * h && i % w == x && i / w == y) by (nonlinear_arith)
            requires
                i == y * w + x,
                0 <= x < w,
                0 <= y < h,
        ;
    }
}


/// In a state that meets the invariant the position never passes the end.
proof fn lemma_position_bound(w: u16, h: u16, x: u16, y: u16)
    requires
        w > 0 ==> x < w,
        w == 0 ==> x == 0,
        y <= h,
        y == h ==> x == 0,
    ensures
        y * w + x <= w * h,
        y < h && w > 0 ==> y * w + x < w * h,
{
    if y < h {
        assert(y * w + x < w * h || (w == 0 && y * w + x == 0)) by (nonlinear_arith)
            requires
                y < h,
                w == 0 ==> x == 0,
                w > 0 ==> x < w,
        ;
    } else {
        assert(y * w == w * h) by (nonlinear_arith)
            requires
                y == h,
        ;
    }
}

} // verus!

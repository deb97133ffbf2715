use vstd::prelude::*;

use crate::size::FoldedSize;

verus! {

impl FoldedSize {
    /// Start of the second half `z_1` of the decomposed `z` in the layout.
    pub open spec fn z1_offset(&self) -> int {
        self.nu * self.size.witness_len
    }

    /// Length of each half `z_0`, `z_1` of the decomposed `z`.
    pub open spec fn zi_len(&self) -> int {
        (self.size_z / 2) as int
    }

    /// Start of the decomposed `t`: after the `2 * nu` witness vectors given to `z`.
    pub open spec fn t_offset(&self) -> int {
        2 * self.nu * self.size.witness_len
    }

    /// Start of the decomposed `g`, right after `t`.
    pub open spec fn g_offset(&self) -> int {
        self.t_offset() + self.size_t
    }

    /// Start of the decomposed `h`, right after `g`.
    pub open spec fn h_offset(&self) -> int {
        self.g_offset() + self.size_g
    }

    /// Number of ring elements of the whole layout: `2 * nu + mu` witness vectors.
    pub open spec fn layout_len(&self) -> int {
        (2 * self.nu + self.mu) * self.size.witness_len
    }

    /// The five regions `z_0`, `z_1`, `t`, `g`, `h` fit in the layout, and the
    /// layout's length is a machine size.
    pub open spec fn fits_layout(&self) -> bool {
        &&& self.zi_len() <= self.z1_offset()
        &&& self.h_offset() + self.size_h <= self.layout_len()
        &&& self.layout_len() <= usize::MAX
    }
}

/// `s` with `v` written over it from position `start` on.
pub open spec fn splice<T>(s: Seq<T>, start: int, v: Seq<T>) -> Seq<T> {
    s.subrange(0, start) + v + s.subrange(start + v.len(), s.len() as int)
}

/// The consecutive chunks of length `w` of `s`; a remainder shorter than `w` is dropped.
pub open spec fn chunks_exact<T>(s: Seq<T>, w: int) -> Seq<Seq<T>> {
    Seq::new(((s.len() as int) / w) as nat, |i: int| s.subrange(i * w, (i + 1) * w))
}

/// The region of a layout written by a setter: `z_0`, `z_1`, `t`, `g` or `h`
/// start in this order, do not overlap, and end inside the layout.
pub proof fn lemma_layout_regions(fs: FoldedSize)
    requires
        fs.fits_layout(),
    ensures
        0 <= fs.zi_len(),
        fs.zi_len() <= fs.z1_offset(),
        fs.z1_offset() + fs.zi_len() <= fs.t_offset(),
        fs.t_offset() + fs.size_t == fs.g_offset(),
        fs.g_offset() + fs.size_g == fs.h_offset(),
        fs.h_offset() + fs.size_h <= fs.layout_len(),
{
    assert(fs.t_offset() == 2 * fs.z1_offset()) by (nonlinear_arith)
        requires
            fs.t_offset() == 2 * fs.nu * fs.size.witness_len,
            fs.z1_offset() == fs.nu * fs.size.witness_len,
    ;
}

/// Writing one region leaves every region that does not overlap it as it was.
pub proof fn lemma_splice_keeps_other_region<T>(s: Seq<T>, start: int, v: Seq<T>, lo: int, hi: int)
    requires
        0 <= start,
        start + v.len() <= s.len(),
        0 <= lo <= hi <= s.len(),
        hi <= start || start + v.len() <= lo,
    ensures
        splice(s, start, v).len() == s.len(),
        splice(s, start, v).subrange(lo, hi) == s.subrange(lo, hi),
        splice(s, start, v).subrange(start, start + v.len()) == v,
{
    assert(splice(s, start, v).subrange(lo, hi) =~= s.subrange(lo, hi));
    assert(splice(s, start, v).subrange(start, start + v.len()) =~= v);
}

/// Cutting a sequence whose length is a multiple of `w` into chunks of length `w`
/// and concatenating them gives the sequence back.
pub proof fn lemma_chunks_exact_flatten<T>(s: Seq<T>, w: int)
    requires
        w > 0,
        (s.len() as int) % w == 0,
    ensures
        chunks_exact(s, w).flatten() == s,
    decreases s.len(),
{
    let n = (s.len() as int) / w;
    assert(s.len() == n * w) by (nonlinear_arith)
        requires
            (s.len() as int) % w == 0,
            n == (s.len() as int) / w,
            w > 0,
    ;
    if s.len() == 0 {
        assert(n == 0) by (nonlinear_arith)
            requires
                s.len() == n * w,
                w > 0,
                s.len() == 0,
        ;
        assert(chunks_exact(s, w) =~= Seq::<Seq<T>>::empty());
    } else {
        assert(n >= 1) by (nonlinear_arith)
            requires
                s.len() == n * w,
                w > 0,
                s.len() > 0,
        ;
        assert(w <= s.len()) by (nonlinear_arith)
            requires
                s.len() == n * w,
                n >= 1,
                w > 0,
        ;
        let rest = s.subrange(w, s.len() as int);
        assert(rest.len() < s.len());
        assert(rest.len() == (n - 1) * w) by (nonlinear_arith)
            requires
                rest.len() == s.len() - w,
                s.len() == n * w,
        ;
        assert((rest.len() as int) % w == 0 && (rest.len() as int) / w == n - 1) by {
            vstd::arithmetic::div_mod::lemma_mod_multiples_basic(n - 1, w);
            vstd::arithmetic::div_mod::lemma_div_multiples_vanish(n - 1, w);
            assert((n - 1) * w == w * (n - 1)) by (nonlinear_arith);
        }
        lemma_chunks_exact_flatten(rest, w);
        let c = chunks_exact(s, w);
        let cr = chunks_exact(rest, w);
        assert forall|i: int| 0 <= i < cr.len() implies c.drop_first()[i] == cr[i] by {
            assert((i + 1) * w == i * w + w) by (nonlinear_arith);
            assert((i + 2) * w == (i + 1) * w + w) by (nonlinear_arith);
            assert(0 <= i * w) by (nonlinear_arith)
                requires
                    0 <= i,
                    w > 0,
            ;
            assert((i + 2) * w <= n * w) by (nonlinear_arith)
                requires
                    i + 2 <= n,
                    w > 0,
            ;
            assert(c.drop_first()[i] =~= cr[i]);
        }
        assert(c.drop_first() =~= cr);
        assert(c.first() =~= s.subrange(0, w));
        assert(s =~= s.subrange(0, w) + rest);
    }
}

/// The witness of the next round laid out as one vector of ring elements, which is
/// later cut into witness vectors of length `folded_size.size.witness_len`.
pub struct Layouter<T> {
    pub folded_size: FoldedSize,
    pub vec: Vec<T>,
}

fn z1_offset(fs: FoldedSize) -> (r: usize)
    requires
        fs.z1_offset() <= usize::MAX,
    ensures
        r == fs.z1_offset(),
{
    fs.nu * fs.size.witness_len
}

fn zi_len(fs: FoldedSize) -> (r: usize)
    ensures
        r == fs.zi_len(),
{
    fs.size_z / 2
}

fn t_offset(fs: FoldedSize) -> (r: usize)
    requires
        fs.t_offset() <= usize::MAX,
    ensures
        r == fs.t_offset(),
{
    proof {
        assert(fs.nu * fs.size.witness_len <= 2 * fs.nu * fs.size.witness_len) by (nonlinear_arith);
        assert(2 * fs.nu * fs.size.witness_len == 2 * (fs.nu * fs.size.witness_len)) by (nonlinear_arith);
    }
    2 * (fs.nu * fs.size.witness_len)
}

fn g_offset(fs: FoldedSize) -> (r: usize)
    requires
        fs.g_offset() <= usize::MAX,
    ensures
        r == fs.g_offset(),
{
    t_offset(fs) + fs.size_t
}

fn h_offset(fs: FoldedSize) -> (r: usize)
    requires
        fs.h_offset() <= usize::MAX,
    ensures
        r == fs.h_offset(),
{
    g_offset(fs) + fs.size_g
}

/// Writes `v` into `vec` from position `start` on.
fn write_region<T: Copy>(vec: &mut Vec<T>, start: usize, v: &[T])
    requires
        start + v@.len() <= old(vec)@.len(),
    ensures
        final(vec)@ == splice(old(vec)@, start as int, v@),
{
    let n = v.len();
    let mut i: usize = 0;
    while i < n
        invariant
            n == v@.len(),
            i <= n,
            start + n <= vec.len(),
            vec@.len() == old(vec)@.len(),
            forall|j: int| 0 <= j < start ==> vec@[j] == old(vec)@[j],
            forall|j: int| 0 <= j < i ==> vec@[start + j] == v@[j],
            forall|j: int| start + i <= j < vec@.len() ==> vec@[j] == old(vec)@[j],
        decreases n - i,
    {
        vec[start + i] = v[i];
        i = i + 1;
    }
    assert(vec@ =~= splice(old(vec)@, start as int, v@));
}

impl<T: Copy> Layouter<T> {
    /// The vector holds exactly the `2 * nu + mu` witness vectors of the folded size.
    pub open spec fn wf(&self) -> bool {
        self.vec@.len() == self.folded_size.layout_len()
    }

    /// An all-zero layout for `folded_size`; `zero` is the ring's zero element.
    pub fn new(folded_size: FoldedSize, zero: T) -> (r: Self)
        requires
            folded_size.layout_len() <= usize::MAX,
        ensures
            r.wf(),
            r.folded_size == folded_size,
            forall|i: int| 0 <= i < r.vec@.len() ==> r.vec@[i] == zero,
            r.vec@ == zeros(folded_size.layout_len(), zero),
    {
        proof {
            assert(2 * folded_size.nu <= (2 * folded_size.nu + folded_size.mu));
            assert(folded_size.nu * 2 + folded_size.mu <= usize::MAX || folded_size.size.witness_len == 0) by (nonlinear_arith)
                requires
                    (2 * folded_size.nu + folded_size.mu) * folded_size.size.witness_len <= usize::MAX,
            ;
        }
        let len: usize = if folded_size.size.witness_len == 0 {
            0
        } else {
            (2 * folded_size.nu + folded_size.mu) * folded_size.size.witness_len
        };
        proof {
            if folded_size.size.witness_len == 0 {
                assert(folded_size.layout_len() == 0) by (nonlinear_arith)
                    requires
                        folded_size.size.witness_len == 0,
                        folded_size.layout_len() == (2 * folded_size.nu + folded_size.mu) * folded_size.size.witness_len,
                ;
            }
        }
        let mut vec: Vec<T> = Vec::with_capacity(len);
        let mut i: usize = 0;
        while i < len
            invariant
                i <= len,
                vec@.len() == i,
                forall|j: int| 0 <= j < i ==> vec@[j] == zero,
            decreases len - i,
        {
            vec.push(zero);
            i = i + 1;
        }
        assert(vec@ =~= zeros(folded_size.layout_len(), zero));
        Layouter { folded_size, vec }
    }

    /// Writes the first half `z_0` of the decomposed `z` at the start of the layout.
    pub fn set_z0(&mut self, v: &[T])
        requires
            v@.len() == old(self).folded_size.zi_len(),
            old(self).folded_size.zi_len() <= old(self).vec@.len(),
        ensures
            final(self).folded_size == old(self).folded_size,
            final(self).vec@ == splice(old(self).vec@, 0, v@),
    {
        let len = zi_len(self.folded_size);
        write_region(&mut self.vec, 0, v);
    }

    /// Writes the second half `z_1` of the decomposed `z` from `nu * witness_len` on.
    pub fn set_z1(&mut self, v: &[T])
        requires
            v@.len() == old(self).folded_size.zi_len(),
            old(self).folded_size.z1_offset() + old(self).folded_size.zi_len() <= old(self).vec@.len(),
        ensures
            final(self).folded_size == old(self).folded_size,
            final(self).vec@ == splice(old(self).vec@, old(self).folded_size.z1_offset(), v@),
    {
        proof {
            assert(self.vec@.len() == self.vec.len());
        }
        let start = z1_offset(self.folded_size);
        write_region(&mut self.vec, start, v);
    }

    /// Writes the decomposed `t` after the `2 * nu` witness vectors of `z`.
    pub fn set_t(&mut self, v: &[T])
        requires
            v@.len() == old(self).folded_size.size_t,
            old(self).folded_size.t_offset() + old(self).folded_size.size_t <= old(self).vec@.len(),
        ensures
            final(self).folded_size == old(self).folded_size,
            final(self).vec@ == splice(old(self).vec@, old(self).folded_size.t_offset(), v@),
    {
        proof {
            assert(self.vec@.len() == self.vec.len());
        }
        let start = t_offset(self.folded_size);
        write_region(&mut self.vec, start, v);
    }

    /// Writes the decomposed `g` right after `t`.
    pub fn set_g(&mut self, v: &[T])
        requires
            v@.len() == old(self).folded_size.size_g,
            old(self).folded_size.g_offset() + old(self).folded_size.size_g <= old(self).vec@.len(),
        ensures
            final(self).folded_size == old(self).folded_size,
            final(self).vec@ == splice(old(self).vec@, old(self).folded_size.g_offset(), v@),
    {
        proof {
            assert(self.vec@.len() == self.vec.len());
        }
        let start = g_offset(self.folded_size);
        write_region(&mut self.vec, start, v);
    }

    /// Writes the decomposed `h` right after `g`.
    pub fn set_h(&mut self, v: &[T])
        requires
            v@.len() == old(self).folded_size.size_h,
            old(self).folded_size.h_offset() + old(self).folded_size.size_h <= old(self).vec@.len(),
        ensures
            final(self).folded_size == old(self).folded_size,
            final(self).vec@ == splice(old(self).vec@, old(self).folded_size.h_offset(), v@),
    {
        proof {
            assert(self.vec@.len() == self.vec.len());
        }
        let start = h_offset(self.folded_size);
        write_region(&mut self.vec, start, v);
    }

    /// Cuts the layout into consecutive witness vectors of length `witness_len`.
    pub fn split(&self) -> (r: Vec<Vec<T>>)
        requires
            self.folded_size.size.witness_len > 0,
        ensures
            r@.map_values(|c: Vec<T>| c@) == chunks_exact(self.vec@, self.folded_size.size.witness_len as int),
    {
        let w = self.folded_size.size.witness_len;
        let n = self.vec.len() / w;
        let ghost s = self.vec@;
        let mut out: Vec<Vec<T>> = Vec::with_capacity(n);
        let mut i: usize = 0;
        while i < n
            invariant
                s == self.vec@,
                s.len() == self.vec.len(),
                w == self.folded_size.size.witness_len,
                w > 0,
                n == (s.len() as int) / (w as int),
                i <= n,
                out@.len() == i,
                forall|j: int| 0 <= j < i ==> #[trigger] out@[j]@ == s.subrange(j * w, (j + 1) * w),
            decreases n - i,
        {
            proof {
                assert((i + 1) * w <= n * w) by (nonlinear_arith)
                    requires
                        i + 1 <= n,
                        w > 0,
                ;
                assert(n * w <= s.len()) by (nonlinear_arith)
                    requires
                        n == (s.len() as int) / (w as int),
                        w > 0,
                ;
                assert((i + 1) * w == i * w + w) by (nonlinear_arith);
            }
            let start = i * w;
            let mut chunk: Vec<T> = Vec::with_capacity(w);
            let mut j: usize = 0;
            while j < w
                invariant
                    s == self.vec@,
                    s.len() == self.vec.len(),
                    start == i * w,
                    start + w <= s.len(),
                    j <= w,
                    chunk@.len() == j,
                    forall|m: int| 0 <= m < j ==> chunk@[m] == s[start + m],
                decreases w - j,
            {
                chunk.push(self.vec[start + j]);
                j = j + 1;
            }
            assert(chunk@ =~= s.subrange(i * w, (i + 1) * w));
            out.push(chunk);
            i = i + 1;
        }
        assert(out@.map_values(|c: Vec<T>| c@) =~= chunks_exact(s, w as int));
        out
    }
}

/// A well-formed layout of a folded size that fits is cut into exactly
/// `2 * nu + mu` witness vectors, whose concatenation is the layout.
pub proof fn lemma_split_layout<T: Copy>(l: Layouter<T>)
    requires
        l.wf(),
        l.folded_size.size.witness_len > 0,
    ensures
        chunks_exact(l.vec@, l.folded_size.size.witness_len as int).len()
            == 2 * l.folded_size.nu + l.folded_size.mu,
        chunks_exact(l.vec@, l.folded_size.size.witness_len as int).flatten() == l.vec@,
{
    let w = l.folded_size.size.witness_len as int;
    let m = 2 * l.folded_size.nu + l.folded_size.mu;
    assert(l.vec@.len() == m * w);
    vstd::arithmetic::div_mod::lemma_mod_multiples_basic(m, w);
    vstd::arithmetic::div_mod::lemma_div_multiples_vanish(m, w);
    assert(m * w == w * m) by (nonlinear_arith);
    lemma_chunks_exact_flatten(l.vec@, w);
}

/// Writing `z_0`, `z_1`, `t`, `g`, `h` in turn into a layout of a folded size that
/// fits gives back each part from its region: no write disturbs another part, and
/// the layout keeps its length.
pub proof fn lemma_layout_reads_back<T>(
    fs: FoldedSize,
    v0: Seq<T>,
    z0: Seq<T>,
    z1: Seq<T>,
    t: Seq<T>,
    g: Seq<T>,
    h: Seq<T>,
)
    requires
        fs.fits_layout(),
        v0.len() == fs.layout_len(),
        z0.len() == fs.zi_len(),
        z1.len() == fs.zi_len(),
        t.len() == fs.size_t,
        g.len() == fs.size_g,
        h.len() == fs.size_h,
    ensures
        ({
            let v = splice(
                splice(splice(splice(splice(v0, 0, z0), fs.z1_offset(), z1), fs.t_offset(), t), fs.g_offset(), g),
                fs.h_offset(),
                h,
            );
            &&& v.len() == v0.len()
            &&& v.subrange(0, fs.zi_len()) == z0
            &&& v.subrange(fs.z1_offset(), fs.z1_offset() + fs.zi_len()) == z1
            &&& v.subrange(fs.t_offset(), fs.g_offset()) == t
            &&& v.subrange(fs.g_offset(), fs.h_offset()) == g
            &&& v.subrange(fs.h_offset(), fs.h_offset() + fs.size_h) == h
        }),
{
    lemma_layout_regions(fs);
    let zi = fs.zi_len();
    let (o1, ot, og, oh) = (fs.z1_offset(), fs.t_offset(), fs.g_offset(), fs.h_offset());
    let end = oh + fs.size_h;
    let v1 = splice(v0, 0, z0);
    lemma_splice_keeps_other_region(v0, 0, z0, 0, 0);
    let v2 = splice(v1, o1, z1);
    lemma_splice_keeps_other_region(v1, o1, z1, 0, zi);
    let v3 = splice(v2, ot, t);
    lemma_splice_keeps_other_region(v2, ot, t, 0, zi);
    lemma_splice_keeps_other_region(v2, ot, t, o1, o1 + zi);
    let v4 = splice(v3, og, g);
    lemma_splice_keeps_other_region(v3, og, g, 0, zi);
    lemma_splice_keeps_other_region(v3, og, g, o1, o1 + zi);
    lemma_splice_keeps_other_region(v3, og, g, ot, og);
    let v5 = splice(v4, oh, h);
    lemma_splice_keeps_other_region(v4, oh, h, 0, zi);
    lemma_splice_keeps_other_region(v4, oh, h, o1, o1 + zi);
    lemma_splice_keeps_other_region(v4, oh, h, ot, og);
    lemma_splice_keeps_other_region(v4, oh, h, og, oh);
}

/// The region that position `i` of the layout lies in: `0` to `4` for `z_0`, `z_1`,
/// `t`, `g`, `h`, and `5` for the zero padding around them.
pub open spec fn region_of(fs: FoldedSize, i: int) -> int {
    if 0 <= i < fs.zi_len() {
        0
    } else if fs.z1_offset() <= i < fs.z1_offset() + fs.zi_len() {
        1
    } else if fs.t_offset() <= i < fs.g_offset() {
        2
    } else if fs.g_offset() <= i < fs.h_offset() {
        3
    } else if fs.h_offset() <= i < fs.h_offset() + fs.size_h {
        4
    } else {
        5
    }
}

/// Where region `p` (`0` to `4`: `z_0`, `z_1`, `t`, `g`, `h`) starts.
pub open spec fn region_start(fs: FoldedSize, p: int) -> int {
    if p == 0 {
        0
    } else if p == 1 {
        fs.z1_offset()
    } else if p == 2 {
        fs.t_offset()
    } else if p == 3 {
        fs.g_offset()
    } else {
        fs.h_offset()
    }
}

/// The length of region `p` (`0` to `4`: `z_0`, `z_1`, `t`, `g`, `h`).
pub open spec fn region_len(fs: FoldedSize, p: int) -> int {
    if p <= 1 {
        fs.zi_len()
    } else if p == 2 {
        fs.size_t as int
    } else if p == 3 {
        fs.size_g as int
    } else {
        fs.size_h as int
    }
}

/// `s` after the setters of the regions listed in `order` have written `parts[p]`
/// into region `p`, one after the other: what `set_z0`, `set_z1`, `set_t`, `set_g`
/// and `set_h` do, by their contracts, when called in that order.
pub open spec fn write_parts<T>(s: Seq<T>, fs: FoldedSize, parts: Seq<Seq<T>>, order: Seq<int>) -> Seq<T>
    decreases order.len(),
{
    if order.len() == 0 {
        s
    } else {
        splice(
            write_parts(s, fs, parts, order.drop_last()),
            region_start(fs, order.last()),
            parts[order.last()],
        )
    }
}

/// `n` copies of `zero`.
pub open spec fn zeros<T>(n: int, zero: T) -> Seq<T> {
    Seq::new(n as nat, |i: int| zero)
}

/// The filled layout: `z_0`, zeros up to `z_1`, `z_1`, zeros up to `t`, then `t`,
/// `g`, `h` and zeros to the end.
pub open spec fn filled_layout<T>(fs: FoldedSize, parts: Seq<Seq<T>>, zero: T) -> Seq<T> {
    parts[0] + zeros(fs.z1_offset() - fs.zi_len(), zero) + parts[1] + zeros(
        fs.t_offset() - fs.z1_offset() - fs.zi_len(),
        zero,
    ) + parts[2] + parts[3] + parts[4] + zeros(fs.layout_len() - fs.h_offset() - fs.size_h, zero)
}

/// Position `i` lies in region `p` exactly when `region_of` says so; each region
/// lies inside the layout.
proof fn lemma_region_of(fs: FoldedSize, p: int, i: int)
    requires
        fs.fits_layout(),
        0 <= p < 5,
    ensures
        0 <= region_start(fs, p),
        0 <= region_len(fs, p),
        region_start(fs, p) + region_len(fs, p) <= fs.layout_len(),
        (region_start(fs, p) <= i < region_start(fs, p) + region_len(fs, p)) <==> region_of(fs, i) == p,
{
    lemma_layout_regions(fs);
}

/// What each position holds after the writes listed in `order`, starting from zeros:
/// the part of its region if that region was written, else `zero`.
proof fn lemma_write_parts_cells<T>(fs: FoldedSize, parts: Seq<Seq<T>>, zero: T, order: Seq<int>)
    requires
        fs.fits_layout(),
        parts.len() == 5,
        forall|p: int| 0 <= p < 5 ==> #[trigger] parts[p].len() == region_len(fs, p),
        forall|m: int| 0 <= m < order.len() ==> 0 <= #[trigger] order[m] < 5,
    ensures
        ({
            let w = write_parts(zeros(fs.layout_len(), zero), fs, parts, order);
            &&& w.len() == fs.layout_len()
            &&& forall|i: int|
                0 <= i < fs.layout_len() ==> #[trigger] w[i] == (if region_of(fs, i) < 5 && order.contains(
                    region_of(fs, i),
                ) {
                    parts[region_of(fs, i)][i - region_start(fs, region_of(fs, i))]
                } else {
                    zero
                })
        }),
    decreases order.len(),
{
    lemma_layout_regions(fs);
    let w = write_parts(zeros(fs.layout_len(), zero), fs, parts, order);
    if order.len() > 0 {
        let prefix = order.drop_last();
        let q = order.last();
        assert(0 <= q < 5) by {
            assert(order[order.len() - 1] == q);
        }
        lemma_write_parts_cells(fs, parts, zero, prefix);
        let prev = write_parts(zeros(fs.layout_len(), zero), fs, parts, prefix);
        lemma_region_of(fs, q, 0);
        let st = region_start(fs, q);
        assert(w == splice(prev, st, parts[q]));
        assert forall|i: int| 0 <= i < fs.layout_len() implies #[trigger] w[i] == (if region_of(fs, i) < 5
            && order.contains(region_of(fs, i)) {
            parts[region_of(fs, i)][i - region_start(fs, region_of(fs, i))]
        } else {
            zero
        }) by {
            lemma_region_of(fs, q, i);
            let r = region_of(fs, i);
            if st <= i < st + region_len(fs, q) {
                assert(w[i] == parts[q][i - st]);
                assert(order[order.len() - 1] == q);
            } else {
                assert(w[i] == prev[i]);
                assert(r != q);
                if order.contains(r) {
                    let m = choose|m: int| 0 <= m < order.len() && order[m] == r;
                    assert(m < order.len() - 1);
                    assert(prefix[m] == r);
                }
                if prefix.contains(r) {
                    let m = choose|m: int| 0 <= m < prefix.len() && prefix[m] == r;
                    assert(order[m] == r);
                }
            }
        }
    }
}

/// Calling the five setters `set_z0`, `set_z1`, `set_t`, `set_g`, `set_h` on a new
/// layout, each at least once and in any order (`order` lists the regions written,
/// `0` to `4`, in call order), gives the same layout: `z_0`, zeros, `z_1`, zeros,
/// `t`, `g`, `h`, zeros. The five regions are disjoint and inside the layout, and
/// the padding stays zero.
pub proof fn lemma_layout_any_order<T>(fs: FoldedSize, parts: Seq<Seq<T>>, zero: T, order: Seq<int>)
    requires
        fs.fits_layout(),
        parts.len() == 5,
        forall|p: int| 0 <= p < 5 ==> #[trigger] parts[p].len() == region_len(fs, p),
        forall|m: int| 0 <= m < order.len() ==> 0 <= #[trigger] order[m] < 5,
        forall|p: int| 0 <= p < 5 ==> #[trigger] order.contains(p),
    ensures
        write_parts(zeros(fs.layout_len(), zero), fs, parts, order) == filled_layout(fs, parts, zero),
{
    lemma_layout_regions(fs);
    lemma_write_parts_cells(fs, parts, zero, order);
    let w = write_parts(zeros(fs.layout_len(), zero), fs, parts, order);
    let f = filled_layout(fs, parts, zero);
    let (zi, o1, ot, og, oh) = (fs.zi_len(), fs.z1_offset(), fs.t_offset(), fs.g_offset(), fs.h_offset());
    assert(parts[0].len() == zi && parts[1].len() == zi);
    assert(parts[2].len() == fs.size_t && parts[3].len() == fs.size_g && parts[4].len() == fs.size_h);
    assert(f.len() == fs.layout_len());
    assert forall|i: int| 0 <= i < fs.layout_len() implies w[i] == f[i] by {
        let r = region_of(fs, i);
        if r < 5 {
            assert(order.contains(r));
        }
        if i < o1 + zi {
            if i >= zi && i < o1 {
                assert(r == 5);
            }
        } else if i < ot {
            assert(r == 5);
        } else if i >= oh + fs.size_h {
            assert(r == 5);
        }
    }
    assert(w =~= f);
}

} // verus!

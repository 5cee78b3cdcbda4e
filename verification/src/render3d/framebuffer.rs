//! Braille-resolution color framebuffer: a row-major grid of optional
//! colors. Writes outside the grid are ignored, so clipped or resized
//! geometry can never fault.

use vstd::prelude::*;
use ratatui::style::Color;

verus! {

/// The terminal color type, carried through as an opaque value.
#[verifier::external_type_specification]
#[verifier::external_body]
pub struct ExColor(Color);

/// Abstract framebuffer: its size and its pixels, row-major.
pub struct FbView {
    pub w: nat,
    pub h: nat,
    pub px: Seq<Option<Color>>,
}

/// The pixel at `(x, y)`; `None` when unlit or outside the grid.
pub open spec fn fb_at(v: FbView, x: int, y: int) -> Option<Color> {
    if 0 <= x < v.w && 0 <= y < v.h {
        v.px[y * v.w + x]
    } else {
        None
    }
}

/// Whether every pixel is unlit.
pub open spec fn all_unlit(px: Seq<Option<Color>>) -> bool {
    forall|i: int| 0 <= i < px.len() ==> #[trigger] px[i] is None
}

/// The framebuffer after lighting `(x, y)` with `c`; unchanged when the
/// coordinate is outside the grid.
pub open spec fn fb_set(v: FbView, x: int, y: int, c: Color) -> FbView {
    if 0 <= x < v.w && 0 <= y < v.h {
        FbView { w: v.w, h: v.h, px: v.px.update(y * v.w + x, Some(c)) }
    } else {
        v
    }
}

/// The lit pixels of a row-major pixel run of width `w`, as
/// `(x, y, color)` in index order.
pub open spec fn lit_list(px: Seq<Option<Color>>, w: nat) -> Seq<(usize, usize, Color)>
    decreases px.len(),
{
    if px.len() == 0 {
        Seq::empty()
    } else {
        let rest = lit_list(px.drop_last(), w);
        let i = px.len() - 1;
        match px.last() {
            Some(c) => rest.push(((i % (w as int)) as usize, (i / (w as int)) as usize, c)),
            None => rest,
        }
    }
}

/// A color framebuffer at braille sub-pixel resolution.
pub struct Framebuffer {
    w: usize,
    h: usize,
    color: Vec<Option<Color>>,
}

impl View for Framebuffer {
    type V = FbView;

    closed spec fn view(&self) -> FbView {
        FbView { w: self.w as nat, h: self.h as nat, px: self.color@ }
    }
}

proof fn lemma_index_in_grid(x: int, y: int, w: int, h: int)
    requires
        0 <= x < w,
        0 <= y < h,
    ensures
        0 <= y * w + x < w * h,
{
    assert(y * w + x < w * h) by (nonlinear_arith)
        requires
            0 <= x < w,
            0 <= y < h,
    ;
    assert(0 <= y * w) by (nonlinear_arith)
        requires
            0 <= y,
            0 <= w,
    ;
}

proof fn lemma_index_injective(x1: int, y1: int, x2: int, y2: int, w: int)
    requires
        0 <= x1 < w,
        0 <= x2 < w,
        0 <= y1,
        0 <= y2,
        y1 * w + x1 == y2 * w + x2,
    ensures
        x1 == x2,
        y1 == y2,
{
    if y1 < y2 {
        assert(y1 * w + w <= y2 * w) by (nonlinear_arith)
            requires
                y1 < y2,
                0 <= w,
        ;
    } else if y2 < y1 {
        assert(y2 * w + w <= y1 * w) by (nonlinear_arith)
            requires
                y2 < y1,
                0 <= w,
        ;
    }
}

impl Framebuffer {
    /// Well-formedness: one pixel per cell of the `w` x `h` grid.
    pub closed spec fn wf(&self) -> bool {
        self.color@.len() == self.w * self.h
    }

    /// A `w` x `h` framebuffer with every pixel unlit.
    pub fn new(w: usize, h: usize) -> (fb: Self)
        requires
            w * h <= usize::MAX,
        ensures
            fb@.w == w,
            fb@.h == h,
            fb@.px.len() == w * h,
            fb.wf(),
            all_unlit(fb@.px),
    {
        let n = w * h;
        let mut color: Vec<Option<Color>> = Vec::new();
        let mut i: usize = 0;
        while i < n
            invariant
                i <= n,
                color@.len() == i,
                all_unlit(color@),
            decreases n - i,
        {
            color.push(None);
            i = i + 1;
        }
        Framebuffer { w, h, color }
    }

    /// The grid size of a well-formed framebuffer matches its pixel count.
    pub proof fn lemma_wf_sized(&self)
        requires
            self.wf(),
        ensures
            self@.px.len() == self@.w * self@.h,
    {
    }

    /// Sub-pixel width.
    pub fn width(&self) -> (w: usize)
        ensures
            w == self@.w,
    {
        self.w
    }

    /// Sub-pixel height.
    pub fn height(&self) -> (h: usize)
        ensures
            h == self@.h,
    {
        self.h
    }

    /// Reset every pixel to unlit, keeping the size.
    pub fn clear(&mut self)
        requires
            old(self).wf(),
        ensures
            final(self).wf(),
            final(self)@.w == old(self)@.w,
            final(self)@.h == old(self)@.h,
            final(self)@.px.len() == old(self)@.px.len(),
            all_unlit(final(self)@.px),
    {
        let n = self.color.len();
        let mut i: usize = 0;
        while i < n
            invariant
                n == self.color@.len(),
                n == self.w * self.h,
                self.w == old(self).w,
                self.h == old(self).h,
                i <= n,
                forall|j: int| 0 <= j < i ==> #[trigger] self.color@[j] is None,
            decreases n - i,
        {
            self.color.set(i, None);
            i = i + 1;
        }
    }

    fn index(&self, x: usize, y: usize) -> (r: Option<usize>)
        requires
            self.wf(),
        ensures
            r matches Some(i) ==> x < self@.w && y < self@.h && i == y * self@.w + x && i < self@.px.len(),
            r is None ==> !(x < self@.w && y < self@.h),
    {
        let n = self.color.len();
        if x < self.w && y < self.h {
            proof {
                assert(n == self.w * self.h);
                lemma_index_in_grid(x as int, y as int, self.w as int, self.h as int);
            }
            Some(y * self.w + x)
        } else {
            None
        }
    }

    /// Light the pixel at `(x, y)` with `color`; coordinates outside the
    /// grid are ignored.
    pub fn set(&mut self, x: usize, y: usize, color: Color)
        requires
            old(self).wf(),
        ensures
            final(self).wf(),
            final(self)@ == fb_set(old(self)@, x as int, y as int, color),
    {
        match self.index(x, y) {
            Some(i) => {
                self.color.set(i, Some(color));
            },
            None => {},
        }
    }

    /// The color at `(x, y)`; `None` when unlit or outside the grid.
    pub fn get(&self, x: usize, y: usize) -> (c: Option<Color>)
        requires
            self.wf(),
        ensures
            c == fb_at(self@, x as int, y as int),
    {
        match self.index(x, y) {
            Some(i) => self.color[i],
            None => None,
        }
    }

    /// Every lit pixel as `(x, y, color)`, in row-major order.
    pub fn lit_pixels(&self) -> (r: Vec<(usize, usize, Color)>)
        requires
            self.wf(),
        ensures
            r@ == lit_list(self@.px, self@.w),
    {
        let n = self.color.len();
        let w = self.w;
        let mut out: Vec<(usize, usize, Color)> = Vec::new();
        let mut i: usize = 0;
        while i < n
            invariant
                n == self.color@.len(),
                n == self.w * self.h,
                w == self.w,
                i <= n,
                out@ == lit_list(self.color@.take(i as int), w as nat),
            decreases n - i,
        {
            proof {
                assert(self.color@.take(i as int + 1).drop_last() =~= self.color@.take(i as int));
                assert(w > 0) by (nonlinear_arith)
                    requires
                        i < n,
                        n == w * self.h,
                ;
                assert(i / w <= i) by (nonlinear_arith)
                    requires
                        w > 0,
                ;
            }
            match self.color[i] {
                Some(c) => {
                    out.push((i % w, i / w, c));
                },
                None => {},
            }
            i = i + 1;
        }
        proof {
            assert(self.color@.take(n as int) =~= self.color@);
        }
        out
    }
}

/// What a write does: reading back the pixel just written gives its
/// color, and every other pixel reads as before; a write outside the grid
/// changes nothing.
pub proof fn lemma_set_then_get(v: FbView, x: int, y: int, c: Color, x2: int, y2: int)
    requires
        v.px.len() == v.w * v.h,
    ensures
        (0 <= x < v.w && 0 <= y < v.h) ==> fb_at(fb_set(v, x, y, c), x, y) == Some(c),
        (x2 != x || y2 != y) ==> fb_at(fb_set(v, x, y, c), x2, y2) == fb_at(v, x2, y2),
        !(0 <= x < v.w && 0 <= y < v.h) ==> fb_set(v, x, y, c) == v,
{
    if 0 <= x < v.w && 0 <= y < v.h {
        lemma_index_in_grid(x, y, v.w as int, v.h as int);
        if 0 <= x2 < v.w && 0 <= y2 < v.h && (x2 != x || y2 != y) {
            lemma_index_in_grid(x2, y2, v.w as int, v.h as int);
            if y2 * v.w + x2 == y * v.w + x {
                lemma_index_injective(x2, y2, x, y, v.w as int);
            }
        }
    }
}

/// After a clear every coordinate reads as unlit.
pub proof fn lemma_cleared_reads_unlit(v: FbView, x: int, y: int)
    requires
        v.px.len() == v.w * v.h,
        all_unlit(v.px),
    ensures
        fb_at(v, x, y) is None,
{
    if 0 <= x < v.w && 0 <= y < v.h {
        lemma_index_in_grid(x, y, v.w as int, v.h as int);
    }
}

} // verus!

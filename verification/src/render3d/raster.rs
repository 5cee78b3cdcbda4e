//! The supersample resolve of the braille renderer: a framebuffer drawn
//! `SS` times finer on each axis is folded back to braille resolution, each
//! dot lit by majority coverage with the most frequent color of its block.

use vstd::prelude::*;
use ratatui::style::Color;
use crate::render3d::framebuffer::{fb_at, fb_set, lemma_set_then_get, Framebuffer, FbView};

verus! {

/// Supersample factor per braille dot, per axis.
pub const SS: usize = 3;

/// Calls ratatui's `PartialEq` for `Color` (derived, so it compares the
/// variant and its fields); claims it agrees with equality of the values.
#[verifier::external_body]
fn same_color(a: &Color, b: &Color) -> (r: bool)
    ensures
        r == (*a == *b),
{
    a == b
}

/// The `SS * SS` sub-samples of dot `(x, y)`, row by row.
pub open spec fn block(hi: FbView, x: int, y: int) -> Seq<Option<Color>> {
    Seq::new((SS * SS) as nat, |k: int| fb_at(hi, x * SS + k % (SS as int), y * SS + k / (SS as int)))
}

/// Number of lit sub-samples.
pub open spec fn covered(s: Seq<Option<Color>>) -> nat
    decreases s.len(),
{
    if s.len() == 0 {
        0
    } else {
        covered(s.drop_last()) + if s.last() is Some { 1nat } else { 0nat }
    }
}

/// Index of the first entry of `t` for color `c`, or -1.
pub open spec fn tally_index(t: Seq<(Color, u32)>, c: Color) -> int
    decreases t.len(),
{
    if t.len() == 0 {
        -1
    } else if t[0].0 == c {
        0
    } else {
        let r = tally_index(t.drop_first(), c);
        if r < 0 { -1 } else { r + 1 }
    }
}

/// Count one more sub-sample of color `c`.
pub open spec fn tally_add(t: Seq<(Color, u32)>, c: Color) -> Seq<(Color, u32)> {
    let i = tally_index(t, c);
    if i < 0 {
        t.push((c, 1u32))
    } else {
        t.update(i, (c, (t[i].1 + 1) as u32))
    }
}

/// Colors of the lit sub-samples with their counts, in order of first
/// appearance.
pub open spec fn tally(s: Seq<Option<Color>>) -> Seq<(Color, u32)>
    decreases s.len(),
{
    if s.len() == 0 {
        Seq::empty()
    } else {
        let t = tally(s.drop_last());
        match s.last() {
            Some(c) => tally_add(t, c),
            None => t,
        }
    }
}

/// Index of the most frequent color of a non-empty tally; of several
/// equally frequent, the last.
pub open spec fn mode_index(t: Seq<(Color, u32)>) -> int
    decreases t.len(),
{
    if t.len() <= 1 {
        0
    } else {
        let b = mode_index(t.drop_last());
        if t.last().1 >= t[b].1 { t.len() - 1 } else { b }
    }
}

/// The resolved dot: lit when at least half its sub-samples are, with the
/// most frequent of their colors.
pub open spec fn resolved_dot(hi: FbView, x: int, y: int) -> Option<Color> {
    let s = block(hi, x, y);
    if 2 * covered(s) >= SS * SS {
        let t = tally(s);
        Some(t[mode_index(t)].0)
    } else {
        None
    }
}

proof fn lemma_tally_index_scan(t: Seq<(Color, u32)>, c: Color, j: int)
    requires
        0 <= j <= t.len(),
        forall|k: int| 0 <= k < j ==> (#[trigger] t[k]).0 != c,
    ensures
        j < t.len() && t[j].0 == c ==> tally_index(t, c) == j,
        j == t.len() ==> tally_index(t, c) == -1,
    decreases j,
{
    if j > 0 {
        let u = t.drop_first();
        assert forall|k: int| 0 <= k < j - 1 implies (#[trigger] u[k]).0 != c by {
            assert(u[k] == t[k + 1]);
        }
        lemma_tally_index_scan(u, c, j - 1);
        if j < t.len() {
            assert(u[j - 1] == t[j]);
        }
    } else if t.len() > 0 {
    }
}

proof fn lemma_tally_index_range(t: Seq<(Color, u32)>, c: Color)
    ensures
        -1 <= tally_index(t, c) < t.len(),
        tally_index(t, c) >= 0 ==> t[tally_index(t, c)].0 == c,
    decreases t.len(),
{
    if t.len() > 0 && t[0].0 != c {
        lemma_tally_index_range(t.drop_first(), c);
        let r = tally_index(t.drop_first(), c);
        if r >= 0 {
            assert(t.drop_first()[r] == t[r + 1]);
        }
    }
}

/// Counts stay at most the number of sub-samples seen, and a tally of a
/// run with lit samples is non-empty.
proof fn lemma_tally_bounds(s: Seq<Option<Color>>)
    ensures
        forall|i: int| 0 <= i < tally(s).len() ==> (#[trigger] tally(s)[i]).1 <= s.len(),
        tally(s).len() <= s.len(),
        covered(s) > 0 ==> tally(s).len() > 0,
    decreases s.len(),
{
    if s.len() > 0 {
        let p = s.drop_last();
        lemma_tally_bounds(p);
        let t = tally(p);
        match s.last() {
            Some(c) => {
                lemma_tally_index_range(t, c);
                let i = tally_index(t, c);
                if i >= 0 {
                    assert forall|k: int| 0 <= k < tally(s).len() implies (#[trigger] tally(s)[k]).1 <= s.len() by {
                        if k != i {
                            assert(tally(s)[k] == t[k]);
                        }
                    }
                } else {
                    assert forall|k: int| 0 <= k < tally(s).len() implies (#[trigger] tally(s)[k]).1 <= s.len() by {
                        if k < t.len() {
                            assert(tally(s)[k] == t[k]);
                        }
                    }
                }
            },
            None => {},
        }
    }
}

proof fn lemma_covered_bound(s: Seq<Option<Color>>)
    ensures
        covered(s) <= s.len(),
    decreases s.len(),
{
    if s.len() > 0 {
        lemma_covered_bound(s.drop_last());
    }
}

proof fn lemma_mode_index_range(t: Seq<(Color, u32)>)
    requires
        t.len() > 0,
    ensures
        0 <= mode_index(t) < t.len(),
    decreases t.len(),
{
    if t.len() > 1 {
        lemma_mode_index_range(t.drop_last());
    }
}

/// Resolve one dot of `hi` at `(x, y)`.
fn resolve_dot(hi: &Framebuffer, x: usize, y: usize) -> (r: Option<Color>)
    requires
        hi.wf(),
        x * SS + SS <= usize::MAX,
        y * SS + SS <= usize::MAX,
    ensures
        r == resolved_dot(hi@, x as int, y as int),
{
    let ghost s = block(hi@, x as int, y as int);
    let mut t: Vec<(Color, u32)> = Vec::new();
    let mut cov: u32 = 0;
    let mut k: usize = 0;
    while k < SS * SS
        invariant
            s == block(hi@, x as int, y as int),
            hi.wf(),
            x * SS + SS <= usize::MAX,
            y * SS + SS <= usize::MAX,
            k <= SS * SS,
            t@ == tally(s.take(k as int)),
            cov == covered(s.take(k as int)),
        decreases SS * SS - k,
    {
        let sx = k % SS;
        let sy = k / SS;
        proof {
            assert(s.take(k as int + 1).drop_last() =~= s.take(k as int));
            assert(s.take(k as int + 1).last() == s[k as int]);
            lemma_tally_bounds(s.take(k as int));
            lemma_covered_bound(s.take(k as int));
        }
        let sample = hi.get(x * SS + sx, y * SS + sy);
        proof {
            assert(sx as int == (k as int) % (SS as int));
            assert(sy as int == (k as int) / (SS as int));
            assert(sample == s[k as int]);
        }
        match sample {
            Some(c) => {
                cov = cov + 1;
                let ghost before = t@;
                let mut j: usize = 0;
                while j < t.len() && !same_color(&t[j].0, &c)
                    invariant
                        before == t@,
                        j <= t@.len(),
                        forall|q: int| 0 <= q < j ==> (#[trigger] t@[q]).0 != c,
                    decreases t@.len() - j,
                {
                    j = j + 1;
                }
                proof {
                    lemma_tally_index_scan(before, c, j as int);
                }
                if j < t.len() {
                    let n = t[j].1;
                    proof {
                        assert(n <= k);
                        assert(tally_index(before, c) == j);
                    }
                    t.set(j, (c, n + 1));
                    proof {
                        assert(t@ =~= tally_add(before, c));
                    }
                } else {
                    t.push((c, 1));
                    proof {
                        assert(t@ =~= tally_add(before, c));
                    }
                }
            },
            None => {},
        }
        k = k + 1;
    }
    proof {
        assert(s.take((SS * SS) as int) =~= s);
        lemma_covered_bound(s);
    }
    if 2 * cov >= (SS * SS) as u32 {
        proof {
            lemma_tally_bounds(s);
        }
        let mut best: usize = 0;
        let mut i: usize = 1;
        while i < t.len()
            invariant
                t@ == tally(s),
                t@.len() > 0,
                1 <= i <= t@.len(),
                best == mode_index(t@.take(i as int)),
                best < i,
            decreases t@.len() - i,
        {
            proof {
                assert(t@.take(i as int + 1).drop_last() =~= t@.take(i as int));
                assert(t@.take(i as int + 1).last() == t@[i as int]);
                assert(t@.take(i as int)[best as int] == t@[best as int]);
            }
            if t[i].1 >= t[best].1 {
                best = i;
            }
            i = i + 1;
        }
        proof {
            assert(t@.take(t@.len() as int) =~= t@);
        }
        Some(t[best].0)
    } else {
        None
    }
}

/// Fold a framebuffer drawn `SS` times finer per axis back to a `w` x `h`
/// one: each dot is lit when at least half of its `SS` x `SS` block is,
/// with the block's most frequent color (the last of equally frequent
/// ones, in order of first appearance).
pub fn resolve_supersampled(hi: &Framebuffer, w: usize, h: usize) -> (fb: Framebuffer)
    requires
        hi.wf(),
        w * h <= usize::MAX,
        w * SS <= usize::MAX,
        h * SS <= usize::MAX,
    ensures
        fb.wf(),
        fb@.w == w,
        fb@.h == h,
        forall|x: int, y: int| 0 <= x < w && 0 <= y < h ==> #[trigger] fb_at(fb@, x, y) == resolved_dot(hi@, x, y),
{
    let mut fb = Framebuffer::new(w, h);
    proof {
        fb.lemma_wf_sized();
        assert forall|a: int, b: int| 0 <= a < w && 0 <= b < h implies #[trigger] fb_at(fb@, a, b) is None by {
            crate::render3d::framebuffer::lemma_cleared_reads_unlit(fb@, a, b);
        }
    }
    let mut y: usize = 0;
    while y < h
        invariant
            hi.wf(),
            fb.wf(),
            fb@.w == w,
            fb@.h == h,
            w * SS <= usize::MAX,
            h * SS <= usize::MAX,
            y <= h,
            forall|a: int, b: int| 0 <= a < w && 0 <= b < y ==> #[trigger] fb_at(fb@, a, b) == resolved_dot(hi@, a, b),
            forall|a: int, b: int| 0 <= a < w && y <= b < h ==> #[trigger] fb_at(fb@, a, b) is None,
        decreases h - y,
    {
        let mut x: usize = 0;
        while x < w
            invariant
                hi.wf(),
                fb.wf(),
                fb@.w == w,
                fb@.h == h,
                w * SS <= usize::MAX,
                h * SS <= usize::MAX,
                y < h,
                x <= w,
                forall|a: int, b: int| 0 <= a < w && 0 <= b < y ==> #[trigger] fb_at(fb@, a, b) == resolved_dot(hi@, a, b),
                forall|a: int| 0 <= a < x ==> #[trigger] fb_at(fb@, a, y as int) == resolved_dot(hi@, a, y as int),
                forall|a: int, b: int| 0 <= a < w && y <= b < h && !(b == y && a < x) ==> #[trigger] fb_at(fb@, a, b) is None,
            decreases w - x,
        {
            proof {
                assert(x * SS + SS <= w * SS) by (nonlinear_arith)
                    requires
                        x < w,
                ;
                assert(y * SS + SS <= h * SS) by (nonlinear_arith)
                    requires
                        y < h,
                ;
            }
            let r = resolve_dot(hi, x, y);
            let ghost before = fb@;
            proof {
                fb.lemma_wf_sized();
            }
            match r {
                Some(c) => {
                    fb.set(x, y, c);
                    proof {
                        assert forall|a: int, b: int| (a != x || b != y) implies #[trigger] fb_at(fb@, a, b) == fb_at(before, a, b) by {
                            lemma_set_then_get(before, x as int, y as int, c, a, b);
                        }
                        lemma_set_then_get(before, x as int, y as int, c, x as int, y as int);
                    }
                },
                None => {},
            }
            x = x + 1;
        }
        y = y + 1;
    }
    fb
}

proof fn lemma_uniform_tally(s: Seq<Option<Color>>, c: Color)
    requires
        s.len() > 0,
        s.len() < 0x1_0000_0000,
        forall|k: int| 0 <= k < s.len() ==> #[trigger] s[k] == Some(c),
    ensures
        tally(s) == seq![(c, s.len() as u32)],
        covered(s) == s.len(),
    decreases s.len(),
{
    let p = s.drop_last();
    assert(s.last() == Some(c));
    if p.len() > 0 {
        assert forall|k: int| 0 <= k < p.len() implies #[trigger] p[k] == Some(c) by {
            assert(p[k] == s[k]);
        }
        lemma_uniform_tally(p, c);
        assert(tally_index(tally(p), c) == 0);
        assert(tally(s) =~= seq![(c, s.len() as u32)]);
    } else {
        assert(tally(p) =~= Seq::<(Color, u32)>::empty());
        assert(covered(p) == 0);
        assert(tally_index(tally(p), c) == -1);
        assert(tally(s) =~= seq![(c, 1u32)]);
    }
}

proof fn lemma_no_lit(s: Seq<Option<Color>>)
    requires
        forall|k: int| 0 <= k < s.len() ==> #[trigger] s[k] is None,
    ensures
        covered(s) == 0,
    decreases s.len(),
{
    if s.len() > 0 {
        lemma_no_lit(s.drop_last());
    }
}

/// The resolve keeps solid areas and invents nothing: a block lit
/// throughout in one color resolves to that color, and a block with no
/// lit sub-sample stays unlit.
pub proof fn lemma_resolve_keeps_solid_and_empty(hi: FbView, x: int, y: int, c: Color)
    ensures
        (forall|k: int| 0 <= k < SS * SS ==> #[trigger] block(hi, x, y)[k] == Some(c)) ==> resolved_dot(hi, x, y) == Some(c),
        (forall|k: int| 0 <= k < SS * SS ==> #[trigger] block(hi, x, y)[k] is None) ==> resolved_dot(hi, x, y) is None,
{
    let s = block(hi, x, y);
    if forall|k: int| 0 <= k < SS * SS ==> #[trigger] block(hi, x, y)[k] == Some(c) {
        lemma_uniform_tally(s, c);
    }
    if forall|k: int| 0 <= k < SS * SS ==> #[trigger] block(hi, x, y)[k] is None {
        lemma_no_lit(s);
    }
}

} // verus!

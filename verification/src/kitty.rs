//! The kitty graphics backend's decisions and wire format: which of four
//! paths a frame takes, the terminal-geometry stability gate, and the
//! byte stream that transmits an RGBA frame (zlib + base64, chunked) or
//! deletes the displayed images.

use vstd::prelude::*;
use vstd::string::*;
use vstd::utf8::*;
use crate::text::{is_digit, lemma_dec_chars_digits, dec_chars, push_dec, push_utf8, dec_string, first_chars, last_chars, join, join_strings, views, repeat, push_repeat};
use crate::docker::domain::{DetailSnapshot, HealthSummary, MountSummary, PortSummary, proto_name};
use crate::theme::Status;

verus! {

// ---------------------------------------------------------------------------
// Per-frame render decision
// ---------------------------------------------------------------------------

/// The four mutually exclusive paths a kitty frame can take.
#[derive(Debug, Clone, Copy, PartialEq, Eq, Structural)]
pub enum KittyRenderDecision {
    /// Render the live world (it has entities).
    LiveWorld,
    /// Render the cached last non-empty world (transient empty).
    CachedWorld,
    /// Show the empty-state banner (stable empty).
    Banner,
    /// Clear and paint the status bar only (cold start, nothing cached).
    ChromeOnly,
}

/// Whether the empty-state banner is allowed: never inside the startup
/// grace; after it, when no container was ever seen or the world has
/// stayed empty for the whole debounce window.
pub open spec fn banner_allowed(
    non_empty_seen_once: bool,
    empty_streak: u32,
    frames_since_start: u32,
    debounce: u32,
    grace: u32,
) -> bool {
    frames_since_start >= grace && (!non_empty_seen_once || empty_streak >= debounce)
}

/// The path a frame takes for the given state.
pub open spec fn spec_render_decision(
    world_empty_now: bool,
    non_empty_seen_once: bool,
    empty_streak: u32,
    frames_since_start: u32,
    has_cached_world: bool,
    debounce: u32,
    grace: u32,
) -> KittyRenderDecision {
    if !world_empty_now {
        KittyRenderDecision::LiveWorld
    } else if banner_allowed(non_empty_seen_once, empty_streak, frames_since_start, debounce, grace) {
        KittyRenderDecision::Banner
    } else if has_cached_world {
        KittyRenderDecision::CachedWorld
    } else {
        KittyRenderDecision::ChromeOnly
    }
}

/// Choose the path for one frame: a non-empty live world always renders;
/// an empty one shows the banner when allowed, else the cached world when
/// there is one, else only the chrome.
pub fn compute_kitty_render_decision(
    world_empty_now: bool,
    non_empty_seen_once: bool,
    empty_streak_frames: u32,
    frames_since_start: u32,
    has_cached_world: bool,
    debounce_frames: u32,
    grace_frames: u32,
) -> (d: KittyRenderDecision)
    ensures
        d == spec_render_decision(
            world_empty_now,
            non_empty_seen_once,
            empty_streak_frames,
            frames_since_start,
            has_cached_world,
            debounce_frames,
            grace_frames,
        ),
{
    if !world_empty_now {
        return KittyRenderDecision::LiveWorld;
    }
    let in_startup_grace = frames_since_start < grace_frames;
    let show_banner = !in_startup_grace && (!non_empty_seen_once || empty_streak_frames >= debounce_frames);
    if show_banner {
        return KittyRenderDecision::Banner;
    }
    if has_cached_world {
        return KittyRenderDecision::CachedWorld;
    }
    KittyRenderDecision::ChromeOnly
}

/// Inside the startup grace the banner is never chosen, and with nothing
/// cached an empty world shows only the chrome; a non-empty world always
/// renders live.
pub proof fn lemma_no_banner_during_grace(
    world_empty_now: bool,
    non_empty_seen_once: bool,
    empty_streak: u32,
    frames_since_start: u32,
    has_cached_world: bool,
    debounce: u32,
    grace: u32,
)
    ensures
        frames_since_start < grace ==> spec_render_decision(
            world_empty_now, non_empty_seen_once, empty_streak, frames_since_start,
            has_cached_world, debounce, grace) != KittyRenderDecision::Banner,
        frames_since_start < grace && world_empty_now && !has_cached_world ==> spec_render_decision(
            world_empty_now, non_empty_seen_once, empty_streak, frames_since_start,
            has_cached_world, debounce, grace) == KittyRenderDecision::ChromeOnly,
        !world_empty_now ==> spec_render_decision(
            world_empty_now, non_empty_seen_once, empty_streak, frames_since_start,
            has_cached_world, debounce, grace) == KittyRenderDecision::LiveWorld,
{
}

// ---------------------------------------------------------------------------
// Terminal geometry stability gate
// ---------------------------------------------------------------------------

/// `(cols, rows, image_px_w, image_px_h)` of the kitty image area.
pub type KittyGeometry = (u16, u16, usize, usize);

/// Consecutive frames a new geometry must be reported before it is adopted.
pub const KITTY_GEOMETRY_STABILITY_FRAMES: u32 = 3;

/// Geometry used when the terminal never reported a valid one.
pub const KITTY_FALLBACK_GEOMETRY: KittyGeometry = (90, 30, 720, 560);

/// State of the geometry stability gate.
#[derive(Debug, Clone, Copy, Default)]
pub struct KittyGeometryGate {
    stable: Option<KittyGeometry>,
    candidate: Option<KittyGeometry>,
    candidate_streak: u32,
}

/// Abstract state of a [`KittyGeometryGate`].
pub struct GateView {
    /// The adopted geometry, if any.
    pub stable: Option<KittyGeometry>,
    /// A geometry that differs from `stable` and is being watched.
    pub candidate: Option<KittyGeometry>,
    /// How many consecutive polls reported `candidate`.
    pub streak: u32,
}

impl View for KittyGeometryGate {
    type V = GateView;

    closed spec fn view(&self) -> GateView {
        GateView { stable: self.stable, candidate: self.candidate, streak: self.candidate_streak }
    }
}

/// Well-formedness of the stability state: the streak stays below the
/// stability threshold, a streak is counted exactly when a candidate is
/// watched, and a candidate only exists beside a stable geometry.
pub open spec fn gate_wf(g: GateView) -> bool {
    &&& g.streak < KITTY_GEOMETRY_STABILITY_FRAMES
    &&& (g.candidate is None <==> g.streak == 0)
    &&& (g.candidate is Some ==> g.stable is Some)
}

/// One poll of the stability state: the next state and the geometry the
/// frame uses.
pub open spec fn gate_step(g: GateView, current: Option<KittyGeometry>) -> (GateView, KittyGeometry) {
    match current {
        None => (g, match g.stable { Some(s) => s, None => KITTY_FALLBACK_GEOMETRY }),
        Some(cur) => match g.stable {
            None => (GateView { stable: Some(cur), candidate: None, streak: 0 }, cur),
            Some(s) => if cur == s {
                (GateView { stable: Some(s), candidate: None, streak: 0 }, s)
            } else {
                let streak: int = if g.candidate == Some(cur) { g.streak + 1 } else { 1 };
                if streak >= KITTY_GEOMETRY_STABILITY_FRAMES {
                    (GateView { stable: Some(cur), candidate: None, streak: 0 }, cur)
                } else {
                    (GateView { stable: Some(s), candidate: Some(cur), streak: streak as u32 }, s)
                }
            },
        },
    }
}

fn geom_eq(a: KittyGeometry, b: KittyGeometry) -> (r: bool)
    ensures
        r == (a == b),
{
    a.0 == b.0 && a.1 == b.1 && a.2 == b.2 && a.3 == b.3
}

impl KittyGeometryGate {
    /// A gate that has adopted nothing yet.
    pub fn new() -> (g: Self)
        ensures
            g@.stable is None,
            g@.candidate is None,
            g@.streak == 0,
    {
        KittyGeometryGate { stable: None, candidate: None, candidate_streak: 0 }
    }

    /// The currently adopted geometry (`None` before the first valid poll).
    pub fn stable(&self) -> (s: Option<KittyGeometry>)
        ensures
            s == self@.stable,
    {
        self.stable
    }
}

/// Resolve the geometry one frame uses from this frame's poll (`None` when
/// the terminal reported nothing valid). The first valid poll is adopted at
/// once; afterwards a different geometry is adopted only once it has been
/// reported on [`KITTY_GEOMETRY_STABILITY_FRAMES`] consecutive polls; an
/// invalid poll holds the adopted geometry (or the fallback before any).
pub fn resolve_kitty_geometry(gate: &mut KittyGeometryGate, current: Option<KittyGeometry>) -> (g: KittyGeometry)
    requires
        gate_wf(old(gate)@),
    ensures
        (final(gate)@, g) == gate_step(old(gate)@, current),
        gate_wf(final(gate)@),
{
    match current {
        Some(cur) => {
            match gate.stable {
                None => {
                    gate.stable = Some(cur);
                    gate.candidate = None;
                    gate.candidate_streak = 0;
                    cur
                },
                Some(stable) => {
                    if geom_eq(cur, stable) {
                        gate.candidate = None;
                        gate.candidate_streak = 0;
                        stable
                    } else {
                        let same_candidate = match gate.candidate {
                            Some(c) => geom_eq(c, cur),
                            None => false,
                        };
                        if same_candidate {
                            gate.candidate_streak = gate.candidate_streak + 1;
                        } else {
                            gate.candidate = Some(cur);
                            gate.candidate_streak = 1;
                        }
                        if gate.candidate_streak >= KITTY_GEOMETRY_STABILITY_FRAMES {
                            gate.stable = Some(cur);
                            gate.candidate = None;
                            gate.candidate_streak = 0;
                            cur
                        } else {
                            stable
                        }
                    }
                },
            }
        },
        None => {
            match gate.stable {
                Some(s) => s,
                None => KITTY_FALLBACK_GEOMETRY,
            }
        },
    }
}

/// Flutter suppression: from a settled gate (an adopted geometry and no
/// candidate in flight), the next two frames use the adopted geometry
/// whatever the terminal reports.
pub proof fn lemma_gate_holds_through_flutter(g: GateView, p1: Option<KittyGeometry>, p2: Option<KittyGeometry>)
    requires
        gate_wf(g),
        g.stable is Some,
        g.streak == 0,
    ensures
        gate_step(g, p1).1 == g.stable->0,
        gate_step(gate_step(g, p1).0, p2).1 == g.stable->0,
{
}

/// An invalid poll changes nothing and yields the stable geometry; the
/// fallback is yielded only while nothing is stable, and is never adopted;
/// polls that repeat the stable geometry keep it and clear any candidate.
pub proof fn lemma_gate_holds_on_invalid_and_steady(g: GateView)
    requires
        gate_wf(g),
    ensures
        gate_step(g, None).0 == g,
        gate_step(g, None).1 == (match g.stable {
            Some(s) => s,
            None => KITTY_FALLBACK_GEOMETRY,
        }),
        g.stable matches Some(s) ==> gate_step(g, Some(s)).1 == s && gate_step(g, Some(s)).0.stable == Some(s)
            && gate_step(g, Some(s)).0.candidate is None,
        gate_wf(gate_step(g, None).0),
{
}

/// A genuine resize is adopted on its third consecutive report.
pub proof fn lemma_gate_adopts_on_third_report(g: GateView, new: KittyGeometry)
    requires
        gate_wf(g),
        g.stable is Some,
        g.stable->0 != new,
        g.candidate != Some(new),
    ensures
        ({
            let (g1, r1) = gate_step(g, Some(new));
            let (g2, r2) = gate_step(g1, Some(new));
            let (g3, r3) = gate_step(g2, Some(new));
            &&& r1 == g.stable->0
            &&& r2 == g.stable->0
            &&& r3 == new
            &&& g3.stable == Some(new)
        }),
{
}

/// Pixel size `(w, h)` of the image area for a terminal geometry: the
/// window's pixel width capped at 1400, and its pixel height less one cell
/// row (reserved for the status bar), kept within `1 ..= 1080`.
pub open spec fn image_area(g: KittyGeometry) -> (usize, usize) {
    let per_row: int = (g.3 as int) / (g.1 as int);
    let cell_h: int = if per_row >= 1 { per_row } else { 1 };
    let w: int = if g.2 < 1400 { g.2 as int } else { 1400 };
    let below: int = if g.3 >= cell_h { g.3 - cell_h } else { 0 };
    let h: int = if below < 1 { 1 } else if below > 1080 { 1080 } else { below };
    (w as usize, h as usize)
}

/// The image area of a frame for the terminal geometry `g`, whose row
/// count must be non-zero (a poll reporting zero rows is treated as no
/// report, and the fallback geometry has 30 rows).
pub fn kitty_image_size(g: KittyGeometry) -> (r: (usize, usize))
    requires
        g.1 > 0,
    ensures
        r == image_area(g),
        1 <= r.1 <= 1080,
        r.0 <= 1400,
{
    let (_cols, rows, px_w, px_h) = g;
    let per_row = px_h / (rows as usize);
    let cell_h = if per_row >= 1 { per_row } else { 1 };
    let w = if px_w < 1400 { px_w } else { 1400 };
    let below = px_h.saturating_sub(cell_h);
    let h = if below < 1 { 1 } else if below > 1080 { 1080 } else { below };
    (w, h)
}

/// What the terminal is sent for one frame.
#[derive(Debug, Clone, Copy, PartialEq, Eq, Structural)]
pub enum FramePlan {
    /// Transmit the scene image (atomically replacing the previous one).
    Scene,
    /// Clear the screen and draw the empty banner, deleting the images
    /// first when the previous frame showed one.
    Banner { delete_images: bool },
    /// Clear the screen only, deleting the images first when the previous
    /// frame showed one.
    ChromeOnly { delete_images: bool },
}

/// The plan for a frame with render decision `d`, given whether the last
/// frame left the screen without an image; also the new value of that
/// flag.
pub open spec fn spec_plan_frame(d: KittyRenderDecision, last_was_empty: bool) -> (FramePlan, bool) {
    match d {
        KittyRenderDecision::LiveWorld | KittyRenderDecision::CachedWorld => (FramePlan::Scene, false),
        KittyRenderDecision::Banner => (FramePlan::Banner { delete_images: !last_was_empty }, true),
        KittyRenderDecision::ChromeOnly => (FramePlan::ChromeOnly { delete_images: !last_was_empty }, true),
    }
}

/// Plan one frame: scene frames transmit the image under the persistent
/// id with no delete; banner and chrome-only frames delete the images only
/// on the transition away from a scene frame.
pub fn plan_frame(d: KittyRenderDecision, last_was_empty: &mut bool) -> (p: FramePlan)
    ensures
        (p, *final(last_was_empty)) == spec_plan_frame(d, *old(last_was_empty)),
{
    match d {
        KittyRenderDecision::LiveWorld | KittyRenderDecision::CachedWorld => {
            *last_was_empty = false;
            FramePlan::Scene
        },
        KittyRenderDecision::Banner => {
            let p = FramePlan::Banner { delete_images: !*last_was_empty };
            *last_was_empty = true;
            p
        },
        KittyRenderDecision::ChromeOnly => {
            let p = FramePlan::ChromeOnly { delete_images: !*last_was_empty };
            *last_was_empty = true;
            p
        },
    }
}

/// Whether a plan deletes the displayed images.
pub open spec fn deletes_images(p: FramePlan) -> bool {
    match p {
        FramePlan::Scene => false,
        FramePlan::Banner { delete_images } => delete_images,
        FramePlan::ChromeOnly { delete_images } => delete_images,
    }
}

/// No delete between image frames: a scene frame never deletes, and two
/// empty-screen frames in a row delete at most once (on the first, and
/// only when an image was showing).
pub proof fn lemma_deletes_only_on_leaving_scene(d1: KittyRenderDecision, d2: KittyRenderDecision, e: bool)
    ensures
        ({
            let (p1, e1) = spec_plan_frame(d1, e);
            let (p2, e2) = spec_plan_frame(d2, e1);
            &&& (p1 == FramePlan::Scene ==> !deletes_images(p1))
            &&& (deletes_images(p2) ==> p1 == FramePlan::Scene)
            &&& (deletes_images(p1) ==> !e)
        }),
{
}

// ---------------------------------------------------------------------------
// Wire format
// ---------------------------------------------------------------------------

/// The standard base64 alphabet.
pub open spec fn b64_alphabet() -> Seq<char> {
    "ABCDEFGHIJKLMNOPQRSTUVWXYZabcdefghijklmnopqrstuvwxyz0123456789+/"@
}

/// Base64 of one group of one to three bytes (padded with `=`).
pub open spec fn b64_group(c: Seq<u8>) -> Seq<char> {
    let b0 = c[0] as int;
    let b1 = if c.len() > 1 { c[1] as int } else { 0 };
    let b2 = if c.len() > 2 { c[2] as int } else { 0 };
    let n = b0 * 65536 + b1 * 256 + b2;
    seq![
        b64_alphabet()[n / 262144 % 64],
        b64_alphabet()[n / 4096 % 64],
        if c.len() > 1 { b64_alphabet()[n / 64 % 64] } else { '=' },
        if c.len() > 2 { b64_alphabet()[n % 64] } else { '=' },
    ]
}

/// Standard padded base64 of `d`.
pub open spec fn b64_spec(d: Seq<u8>) -> Seq<char>
    decreases d.len(),
{
    if d.len() == 0 {
        Seq::empty()
    } else if d.len() <= 3 {
        b64_group(d)
    } else {
        b64_group(d.take(3)) + b64_spec(d.skip(3))
    }
}

fn push_b64_char(out: &mut String, idx: u32)
    requires
        idx < 64,
    ensures
        final(out)@ == old(out)@.push(b64_alphabet()[idx as int]),
{
    let t = "ABCDEFGHIJKLMNOPQRSTUVWXYZabcdefghijklmnopqrstuvwxyz0123456789+/";
    proof {
        reveal_strlit("ABCDEFGHIJKLMNOPQRSTUVWXYZabcdefghijklmnopqrstuvwxyz0123456789+/");
    }
    let i = idx as usize;
    let one = t.substring_char(i, i + 1);
    out.append(one);
    proof {
        assert(one@ =~= seq![b64_alphabet()[idx as int]]);
        assert(final(out)@ =~= old(out)@.push(b64_alphabet()[idx as int]));
    }
}

fn push_pad(out: &mut String)
    ensures
        final(out)@ == old(out)@.push('='),
{
    proof {
        reveal_strlit("=");
    }
    out.append("=");
    proof {
        assert(final(out)@ =~= old(out)@.push('='));
    }
}

/// Standard padded base64 encoding of `data`.
pub fn base64(data: &[u8]) -> (s: String)
    ensures
        s@ == b64_spec(data@),
{
    let mut out = String::new();
    let n = data.len();
    let mut i: usize = 0;
    proof {
        assert(data@.skip(0) =~= data@);
        assert(out@ + b64_spec(data@) =~= b64_spec(data@));
    }
    while i < n
        invariant
            n == data@.len(),
            i <= n,
            b64_spec(data@) == out@ + b64_spec(data@.skip(i as int)),
        decreases n - i,
    {
        let rest = n - i;
        let take: usize = if rest < 3 { rest } else { 3 };
        let b0 = data[i] as u32;
        let b1: u32 = if take > 1 { data[i + 1] as u32 } else { 0 };
        let b2: u32 = if take > 2 { data[i + 2] as u32 } else { 0 };
        let v: u32 = b0 * 65536 + b1 * 256 + b2;
        let ghost before = out@;
        let ghost grp = data@.skip(i as int).take(take as int);
        proof {
            assert(grp[0] == data@[i as int]);
            if take > 1 { assert(grp[1] == data@[i + 1]); }
            if take > 2 { assert(grp[2] == data@[i + 2]); }
        }
        push_b64_char(&mut out, v / 262144 % 64);
        push_b64_char(&mut out, v / 4096 % 64);
        if take > 1 {
            push_b64_char(&mut out, v / 64 % 64);
        } else {
            push_pad(&mut out);
        }
        if take > 2 {
            push_b64_char(&mut out, v % 64);
        } else {
            push_pad(&mut out);
        }
        proof {
            assert(out@ =~= before + b64_group(grp));
            let s = data@.skip(i as int);
            if s.len() <= 3 {
                assert(grp =~= s);
                assert(data@.skip(i + take) =~= Seq::<u8>::empty());
            } else {
                assert(s.skip(3) =~= data@.skip(i + take));
            }
        }
        i = i + take;
    }
    proof {
        assert(data@.skip(n as int) =~= Seq::<u8>::empty());
        assert(out@ + Seq::<char>::empty() =~= out@);
    }
    out
}

/// What `miniz_oxide::deflate::compress_to_vec_zlib` returns for `data`
/// at compression `level`.
pub uninterp spec fn zlib_compressed(data: Seq<u8>, level: u8) -> Seq<u8>;

/// Calls `miniz_oxide::deflate::compress_to_vec_zlib`; the contract only
/// names its output as a function of the input bytes and the level.
#[verifier::external_body]
fn compress_zlib(data: &[u8], level: u8) -> (out: Vec<u8>)
    ensures
        out@ == zlib_compressed(data@, level),
{
    miniz_oxide::deflate::compress_to_vec_zlib(data, level)
}

/// Supersample factor per output pixel, per axis, of the kitty renderer.
pub const KITTY_SS: usize = 2;

/// Mean (rounded down) of four channel values.
pub open spec fn mean4(a: u8, b: u8, c: u8, d: u8) -> u8 {
    ((a as int + b as int + c as int + d as int) / 4) as u8
}

/// The RGBA bytes of output pixel `(x, y)` of a `w`-wide frame whose
/// supersampled colors (`2w` wide, row-major) are `color`: each channel
/// the mean of the pixel's 2 x 2 block, alpha opaque.
pub open spec fn downsampled_pixel(color: Seq<(u8, u8, u8)>, w: int, x: int, y: int) -> Seq<u8> {
    let sw = w * 2;
    let c00 = color[(y * 2) * sw + x * 2];
    let c10 = color[(y * 2) * sw + x * 2 + 1];
    let c01 = color[(y * 2 + 1) * sw + x * 2];
    let c11 = color[(y * 2 + 1) * sw + x * 2 + 1];
    seq![
        mean4(c00.0, c10.0, c01.0, c11.0),
        mean4(c00.1, c10.1, c01.1, c11.1),
        mean4(c00.2, c10.2, c01.2, c11.2),
        255u8,
    ]
}

/// The RGBA bytes of the first `n` output pixels, row-major.
pub open spec fn downsampled_upto(color: Seq<(u8, u8, u8)>, w: int, n: int) -> Seq<u8>
    decreases n,
{
    if n <= 0 || w <= 0 {
        Seq::empty()
    } else {
        downsampled_upto(color, w, n - 1) + downsampled_pixel(color, w, (n - 1) % w, (n - 1) / w)
    }
}

/// Box-downsample a `2w` x `2h` supersampled color buffer into `w` x `h`
/// RGBA bytes: each output pixel's channels are the means (rounded down)
/// of its 2 x 2 block, with full alpha.
pub fn box_downsample(color: &Vec<(u8, u8, u8)>, w: usize, h: usize) -> (out: Vec<u8>)
    requires
        color@.len() == (w * 2) * (h * 2),
        w * 2 <= usize::MAX,
        w * h * 4 <= usize::MAX,
    ensures
        out@ == downsampled_upto(color@, w as int, (w * h) as int),
        out@.len() == w * h * 4,
{
    let mut out: Vec<u8> = Vec::new();
    let len = color.len();
    let sw = w * 2;
    proof {
        assert((w * 2) * (h * 2) == 4 * (w * h)) by (nonlinear_arith);
    }
    let mut y: usize = 0;
    while y < h
        invariant
            color@.len() == (w * 2) * (h * 2),
            len == color@.len(),
            (w * 2) * (h * 2) == 4 * (w * h),
            w * h * 4 <= usize::MAX,
            sw == w * 2,
            y <= h,
            out@ == downsampled_upto(color@, w as int, (y * w) as int),
            out@.len() == y * w * 4,
        decreases h - y,
    {
        let mut x: usize = 0;
        while x < w
            invariant
                color@.len() == (w * 2) * (h * 2),
                len == color@.len(),
                (w * 2) * (h * 2) == 4 * (w * h),
                w * h * 4 <= usize::MAX,
                sw == w * 2,
                y < h,
                x <= w,
                out@ == downsampled_upto(color@, w as int, (y * w + x) as int),
                out@.len() == (y * w + x) * 4,
            decreases w - x,
        {
            proof {
                assert((y * 2 + 1) * sw + x * 2 + 1 < color@.len()) by (nonlinear_arith)
                    requires
                        x < w,
                        y < h,
                        sw == w * 2,
                        color@.len() == (w * 2) * (h * 2),
                ;
                assert((y * w + x + 1) * 4 <= w * h * 4) by (nonlinear_arith)
                    requires
                        x < w,
                        y < h,
                ;
                assert(0 <= (y * 2) * sw <= (y * 2) * sw + x * 2) by (nonlinear_arith)
                    requires
                        sw == w * 2,
                ;
                assert(y * 2 <= (y * 2) * sw) by (nonlinear_arith)
                    requires
                        sw >= 1,
                ;
                assert((y * 2) * sw + x * 2 < (y * 2 + 1) * sw + x * 2 + 1) by (nonlinear_arith)
                    requires
                        sw == w * 2,
                ;
            }
            let c00 = color[(y * 2) * sw + x * 2];
            let c10 = color[(y * 2) * sw + x * 2 + 1];
            let c01 = color[(y * 2 + 1) * sw + x * 2];
            let c11 = color[(y * 2 + 1) * sw + x * 2 + 1];
            let r = (c00.0 as u32 + c10.0 as u32 + c01.0 as u32 + c11.0 as u32) / 4;
            let g = (c00.1 as u32 + c10.1 as u32 + c01.1 as u32 + c11.1 as u32) / 4;
            let b = (c00.2 as u32 + c10.2 as u32 + c01.2 as u32 + c11.2 as u32) / 4;
            let ghost before = out@;
            out.push(r as u8);
            out.push(g as u8);
            out.push(b as u8);
            out.push(255u8);
            proof {
                let k = (y * w + x) as int;
                vstd::arithmetic::div_mod::lemma_fundamental_div_mod_converse(k, w as int, y as int, x as int);
                assert(out@ =~= before + downsampled_pixel(color@, w as int, x as int, y as int));
                assert(downsampled_upto(color@, w as int, k + 1) == downsampled_upto(color@, w as int, k)
                    + downsampled_pixel(color@, w as int, k % (w as int), k / (w as int)));
            }
            x = x + 1;
        }
        proof {
            assert(y * w + w == (y + 1) * w) by (nonlinear_arith);
        }
        y = y + 1;
    }
    proof {
        assert(h * w == w * h) by (nonlinear_arith);
    }
    out
}

/// Image id every frame is transmitted under, so a new frame atomically
/// replaces the previous one.
pub const KITTY_IMAGE_ID: u32 = 1;

/// zlib level used for frame payloads.
pub const KITTY_ZLIB_LEVEL: u8 = 3;

/// Largest payload slice carried by one escape sequence.
pub const KITTY_CHUNK: usize = 4096;

/// Control header of the first chunk of a frame: 32-bit RGBA of `w` x `h`,
/// transmit-and-display, direct, zlib, quiet, below the text (`z=-1`),
/// under [`KITTY_IMAGE_ID`], with `more` telling whether chunks follow.
pub open spec fn first_header(w: nat, h: nat, more: nat) -> Seq<char> {
    "\x1b_Gf=32,s="@ + dec_chars(w) + ",v="@ + dec_chars(h)
        + ",a=T,t=d,o=z,q=2,z=-1,i="@ + dec_chars(KITTY_IMAGE_ID as nat) + ",m="@ + dec_chars(more) + ";"@
}

/// Control header of every later chunk.
pub open spec fn next_header(more: nat) -> Seq<char> {
    "\x1b_Gm="@ + dec_chars(more) + ";"@
}

/// The escape sequences carrying `p`, at most [`KITTY_CHUNK`] bytes each.
pub open spec fn kitty_chunks(p: Seq<u8>, w: nat, h: nat, first: bool) -> Seq<u8>
    decreases p.len(),
{
    if p.len() == 0 {
        Seq::empty()
    } else {
        let n: int = if p.len() < KITTY_CHUNK { p.len() as int } else { KITTY_CHUNK as int };
        let rest = p.skip(n);
        let more: nat = if rest.len() > 0 { 1 } else { 0 };
        let header = if first { first_header(w, h, more) } else { next_header(more) };
        encode_utf8(header) + p.take(n) + encode_utf8("\x1b\\"@) + kitty_chunks(rest, w, h, false)
    }
}

/// The full byte stream that transmits and displays the `w` x `h` RGBA
/// frame `rgba`.
pub open spec fn kitty_frame_bytes(rgba: Seq<u8>, w: nat, h: nat) -> Seq<u8> {
    kitty_chunks(encode_utf8(b64_spec(zlib_compressed(rgba, KITTY_ZLIB_LEVEL))), w, h, true)
}

fn header_string(first: bool, w: usize, h: usize, more: u64) -> (s: String)
    ensures
        s@ == (if first { first_header(w as nat, h as nat, more as nat) } else { next_header(more as nat) }),
{
    if first {
        let mut s = String::from_str("\x1b_Gf=32,s=");
        push_dec(&mut s, w as u64);
        s.append(",v=");
        push_dec(&mut s, h as u64);
        s.append(",a=T,t=d,o=z,q=2,z=-1,i=");
        push_dec(&mut s, KITTY_IMAGE_ID as u64);
        s.append(",m=");
        push_dec(&mut s, more);
        s.append(";");
        proof {
            assert(s@ =~= first_header(w as nat, h as nat, more as nat));
        }
        s
    } else {
        let mut s = String::from_str("\x1b_Gm=");
        push_dec(&mut s, more);
        s.append(";");
        proof {
            assert(s@ =~= next_header(more as nat));
        }
        s
    }
}

/// Append to `out` the escape sequences that transmit the `w` x `h` RGBA
/// frame `rgba` and display it at the cursor: zlib-compressed, base64,
/// in chunks of at most [`KITTY_CHUNK`] bytes, under the persistent image
/// id (no delete action is ever emitted here).
pub fn emit_kitty(out: &mut Vec<u8>, rgba: &[u8], w: usize, h: usize)
    ensures
        final(out)@ == old(out)@ + kitty_frame_bytes(rgba@, w as nat, h as nat),
{
    let compressed = compress_zlib(rgba, KITTY_ZLIB_LEVEL);
    emit_kitty_compressed(out, compressed.as_slice(), w, h);
}

/// Append to `out` the escape sequences that transmit an already
/// zlib-compressed `w` x `h` RGBA frame: its base64 text in chunks of at
/// most [`KITTY_CHUNK`] bytes, the first carrying the frame's format, size
/// and image id, each but the last flagged as followed by more.
pub fn emit_kitty_compressed(out: &mut Vec<u8>, compressed: &[u8], w: usize, h: usize)
    ensures
        final(out)@ == old(out)@ + kitty_chunks(encode_utf8(b64_spec(compressed@)), w as nat, h as nat, true),
{
    let payload = base64(compressed);
    let bytes = payload.as_str().as_bytes();
    let ghost p = bytes@;
    let n = bytes.len();
    let mut pos: usize = 0;
    proof {
        assert(p.skip(0) =~= p);
        assert(old(out)@ + kitty_chunks(p, w as nat, h as nat, true) =~= out@ + kitty_chunks(p.skip(0), w as nat, h as nat, true));
    }
    while pos < n
        invariant
            p == bytes@,
            n == p.len(),
            pos <= n,
            old(out)@ + kitty_chunks(p, w as nat, h as nat, true)
                == out@ + kitty_chunks(p.skip(pos as int), w as nat, h as nat, pos == 0),
        decreases n - pos,
    {
        let rest = n - pos;
        let len: usize = if rest < KITTY_CHUNK { rest } else { KITTY_CHUNK };
        let end = pos + len;
        let more: u64 = if end < n { 1 } else { 0 };
        let ghost before = out@;
        let header = header_string(pos == 0, w, h, more);
        push_utf8(out, header.as_str());
        let mut k: usize = pos;
        while k < end
            invariant
                p == bytes@,
                pos <= k <= end,
                end <= p.len(),
                out@ == before + encode_utf8(header@) + p.subrange(pos as int, k as int),
            decreases end - k,
        {
            out.push(bytes[k]);
            proof {
                assert(p.subrange(pos as int, k + 1) =~= p.subrange(pos as int, k as int).push(p[k as int]));
            }
            k = k + 1;
        }
        push_utf8(out, "\x1b\\");
        proof {
            let s = p.skip(pos as int);
            assert(s.take(len as int) =~= p.subrange(pos as int, end as int));
            assert(s.skip(len as int) =~= p.skip(end as int));
            assert(out@ =~= before + (encode_utf8(header@) + s.take(len as int) + encode_utf8("\x1b\\"@)));
        }
        pos = end;
    }
    proof {
        assert(p.skip(n as int).len() == 0);
        assert(out@ + kitty_chunks(p.skip(n as int), w as nat, h as nat, pos == 0) =~= out@);
    }
}

/// The escape sequence that deletes every displayed image.
pub open spec fn delete_all_bytes() -> Seq<u8> {
    encode_utf8("\x1b_Ga=d,q=2\x1b\\"@)
}

/// Append the escape sequence that deletes every displayed image.
pub fn delete_all(out: &mut Vec<u8>)
    ensures
        final(out)@ == old(out)@ + delete_all_bytes(),
{
    push_utf8(out, "\x1b_Ga=d,q=2\x1b\\");
}

// ---------------------------------------------------------------------------
// The frame stream never carries the delete action
// ---------------------------------------------------------------------------

/// Whether `s` has no three consecutive items `x, y, z`.
pub open spec fn no_triple<T>(s: Seq<T>, x: T, y: T, z: T) -> bool {
    forall|i: int| 0 <= i && i + 2 < s.len() ==> !(#[trigger] s[i] == x && s[i + 1] == y && s[i + 2] == z)
}

proof fn lemma_no_triple_concat<T>(a: Seq<T>, b: Seq<T>, x: T, y: T, z: T)
    requires
        no_triple(a, x, y, z),
        no_triple(b, x, y, z),
        a.len() == 0 || b.len() == 0 || (b[0] != y && b[0] != z) || (a.last() != x && a.last() != y),
    ensures
        no_triple(a + b, x, y, z),
{
    let c = a + b;
    assert forall|i: int| 0 <= i && i + 2 < c.len() implies !(#[trigger] c[i] == x && c[i + 1] == y && c[i + 2] == z) by {
        if i + 2 < a.len() {
            assert(c[i] == a[i] && c[i + 1] == a[i + 1] && c[i + 2] == a[i + 2]);
        } else if i >= a.len() {
            assert(c[i] == b[i - a.len()] && c[i + 1] == b[i + 1 - a.len()] && c[i + 2] == b[i + 2 - a.len()]);
        } else if i + 1 == a.len() {
            assert(c[i] == a.last() && c[i + 1] == b[0]);
        } else {
            assert(c[i + 1] == a.last() && c[i + 2] == b[0]);
        }
    }
}


proof fn lemma_no_triple_skip<T>(s: Seq<T>, n: int, x: T, y: T, z: T)
    requires
        no_triple(s, x, y, z),
        0 <= n <= s.len(),
    ensures
        no_triple(s.skip(n), x, y, z),
        no_triple(s.take(n), x, y, z),
{
    let t = s.skip(n);
    assert forall|i: int| 0 <= i && i + 2 < t.len() implies !(#[trigger] t[i] == x && t[i + 1] == y && t[i + 2] == z) by {
        assert(t[i] == s[i + n] && t[i + 1] == s[i + 1 + n] && t[i + 2] == s[i + 2 + n]);
    }
    let u = s.take(n);
    assert forall|i: int| 0 <= i && i + 2 < u.len() implies !(#[trigger] u[i] == x && u[i + 1] == y && u[i + 2] == z) by {
        assert(u[i] == s[i] && u[i + 1] == s[i + 1] && u[i + 2] == s[i + 2]);
    }
}

/// An ASCII text without `a=d` encodes to bytes without `a=d`, byte for
/// character.
proof fn lemma_ascii_bytes(c: Seq<char>)
    requires
        is_ascii_chars(c),
    ensures
        encode_utf8(c).len() == c.len(),
        forall|i: int| 0 <= i < c.len() ==> (#[trigger] encode_utf8(c)[i]) as int == c[i] as int,
        no_triple(c, 'a', '=', 'd') ==> no_triple(encode_utf8(c), 97u8, 61u8, 100u8),
{
    is_ascii_chars_encode_utf8(c);
    is_ascii_chars_nat_bound(c);
    let b = encode_utf8(c);
    assert forall|i: int| 0 <= i < c.len() implies (#[trigger] b[i]) as int == c[i] as int by {
        assert(c[i] as u8 == b[i]);
        assert((c[i] as nat) < 128);
    }
    if no_triple(c, 'a', '=', 'd') {
        assert forall|i: int| 0 <= i && i + 2 < b.len() implies !(#[trigger] b[i] == 97u8 && b[i + 1] == 61u8 && b[i + 2] == 100u8) by {
            assert(b[i] as int == c[i] as int);
            assert(b[i + 1] as int == c[i + 1] as int);
            assert(b[i + 2] as int == c[i + 2] as int);
            if b[i] == 97u8 && b[i + 1] == 61u8 && b[i + 2] == 100u8 {
                assert(c[i] == 'a' && c[i + 1] == '=' && c[i + 2] == 'd');
            }
        }
    }
}

proof fn lemma_digits_text(n: nat)
    ensures
        is_ascii_chars(dec_chars(n)),
        no_triple(dec_chars(n), 'a', '=', 'd'),
        dec_chars(n).len() >= 1,
        is_digit(dec_chars(n)[0]),
        is_digit(dec_chars(n).last()),
{
    lemma_dec_chars_digits(n);
    let d = dec_chars(n);
    assert(is_digit(d[0]));
    assert(is_digit(d[d.len() - 1]));
    assert forall|i: int| 0 <= i < d.len() implies '\0' <= #[trigger] d[i] <= '\u{7f}' by {
        assert(is_digit(d[i]));
    }
    assert forall|i: int| 0 <= i && i + 2 < d.len() implies !(#[trigger] d[i] == 'a' && d[i + 1] == '=' && d[i + 2] == 'd') by {
        assert(is_digit(d[i]));
    }
}

/// Facts about a literal piece of a header.
pub open spec fn plain_text(c: Seq<char>) -> bool {
    is_ascii_chars(c) && no_triple(c, 'a', '=', 'd') && c.len() >= 1
}

proof fn lemma_header_literals()
    ensures
        plain_text("\x1b_Gf=32,s="@),
        plain_text(",v="@),
        plain_text(",a=T,t=d,o=z,q=2,z=-1,i="@),
        plain_text(",m="@),
        plain_text(";"@),
        plain_text("\x1b_Gm="@),
        plain_text("\x1b\\"@),
        "\x1b_Gf=32,s="@[0] == '\x1b',
        "\x1b_Gm="@[0] == '\x1b',
        "\x1b\\"@[0] == '\x1b',
        "\x1b_Gf=32,s="@.last() == '=',
        ",v="@[0] == ',' && ",v="@.last() == '=',
        ",a=T,t=d,o=z,q=2,z=-1,i="@[0] == ',' && ",a=T,t=d,o=z,q=2,z=-1,i="@.last() == '=',
        ",m="@[0] == ',' && ",m="@.last() == '=',
        ";"@[0] == ';' && ";"@.last() == ';',
        "\x1b_Gm="@.last() == '=',
{
    reveal_strlit("\x1b_Gf=32,s=");
    reveal_strlit(",v=");
    reveal_strlit(",a=T,t=d,o=z,q=2,z=-1,i=");
    reveal_strlit(",m=");
    reveal_strlit(";");
    reveal_strlit("\x1b_Gm=");
    reveal_strlit("\x1b\\");
    let l3 = ",a=T,t=d,o=z,q=2,z=-1,i="@;
    assert forall|i: int| 0 <= i && i + 2 < l3.len() implies !(#[trigger] l3[i] == 'a' && l3[i + 1] == '=' && l3[i + 2] == 'd') by {
        if l3[i] == 'a' {
            assert(i == 1);
        }
    }
    let l1 = "\x1b_Gf=32,s="@;
    assert forall|i: int| 0 <= i && i + 2 < l1.len() implies !(#[trigger] l1[i] == 'a' && l1[i + 1] == '=' && l1[i + 2] == 'd') by {}
    assert forall|i: int| 0 <= i < l1.len() implies '\0' <= #[trigger] l1[i] <= '\u{7f}' by {}
    assert forall|i: int| 0 <= i < l3.len() implies '\0' <= #[trigger] l3[i] <= '\u{7f}' by {}
    let l6 = "\x1b_Gm="@;
    assert forall|i: int| 0 <= i && i + 2 < l6.len() implies !(#[trigger] l6[i] == 'a' && l6[i + 1] == '=' && l6[i + 2] == 'd') by {}
    assert forall|i: int| 0 <= i < l6.len() implies '\0' <= #[trigger] l6[i] <= '\u{7f}' by {}
    let l2 = ",v="@;
    assert forall|i: int| 0 <= i < l2.len() implies '\0' <= #[trigger] l2[i] <= '\u{7f}' by {}
    let l4 = ",m="@;
    assert forall|i: int| 0 <= i < l4.len() implies '\0' <= #[trigger] l4[i] <= '\u{7f}' by {}
    let l5 = ";"@;
    assert forall|i: int| 0 <= i < l5.len() implies '\0' <= #[trigger] l5[i] <= '\u{7f}' by {}
    let l7 = "\x1b\\"@;
    assert forall|i: int| 0 <= i < l7.len() implies '\0' <= #[trigger] l7[i] <= '\u{7f}' by {}
}


proof fn lemma_plain_concat(a: Seq<char>, b: Seq<char>)
    requires
        plain_text(a),
        plain_text(b),
        (b[0] != '=' && b[0] != 'd') || (a.last() != 'a' && a.last() != '='),
    ensures
        plain_text(a + b),
        (a + b)[0] == a[0],
        (a + b).last() == b.last(),
{
    lemma_no_triple_concat(a, b, 'a', '=', 'd');
    is_ascii_chars_concat(a + b, a, b);
}

proof fn lemma_digits_plain(n: nat)
    ensures
        plain_text(dec_chars(n)),
        dec_chars(n)[0] != '=' && dec_chars(n)[0] != 'd',
        dec_chars(n).last() != 'a' && dec_chars(n).last() != '=',
{
    lemma_digits_text(n);
}

/// Every chunk header is plain ASCII without `a=d`, opens with ESC and
/// closes with `;`.
proof fn lemma_headers_plain(w: nat, h: nat, more: nat)
    ensures
        plain_text(first_header(w, h, more)),
        first_header(w, h, more)[0] == '\x1b',
        first_header(w, h, more).last() == ';',
        plain_text(next_header(more)),
        next_header(more)[0] == '\x1b',
        next_header(more).last() == ';',
{
    lemma_header_literals();
    lemma_digits_plain(w);
    lemma_digits_plain(h);
    lemma_digits_plain(KITTY_IMAGE_ID as nat);
    lemma_digits_plain(more);
    let a1 = "\x1b_Gf=32,s="@ + dec_chars(w);
    lemma_plain_concat("\x1b_Gf=32,s="@, dec_chars(w));
    let a2 = a1 + ",v="@;
    lemma_plain_concat(a1, ",v="@);
    let a3 = a2 + dec_chars(h);
    lemma_plain_concat(a2, dec_chars(h));
    let a4 = a3 + ",a=T,t=d,o=z,q=2,z=-1,i="@;
    lemma_plain_concat(a3, ",a=T,t=d,o=z,q=2,z=-1,i="@);
    let a5 = a4 + dec_chars(KITTY_IMAGE_ID as nat);
    lemma_plain_concat(a4, dec_chars(KITTY_IMAGE_ID as nat));
    let a6 = a5 + ",m="@;
    lemma_plain_concat(a5, ",m="@);
    let a7 = a6 + dec_chars(more);
    lemma_plain_concat(a6, dec_chars(more));
    lemma_plain_concat(a7, ";"@);
    assert(first_header(w, h, more) == a7 + ";"@);
    let b1 = "\x1b_Gm="@ + dec_chars(more);
    lemma_plain_concat("\x1b_Gm="@, dec_chars(more));
    lemma_plain_concat(b1, ";"@);
    assert(next_header(more) == b1 + ";"@);
}


/// Whether every `=` of `c` is followed by another `=` or ends `c`.
pub open spec fn padding_at_end(c: Seq<char>) -> bool {
    forall|i: int| 0 <= i && i + 1 < c.len() && #[trigger] c[i] == '=' ==> c[i + 1] == '='
}

proof fn lemma_alphabet()
    ensures
        forall|k: int| 0 <= k < 64 ==> #[trigger] b64_alphabet()[k] != '=' && '\0' <= b64_alphabet()[k] <= '\u{7f}',
{
    reveal_strlit("ABCDEFGHIJKLMNOPQRSTUVWXYZabcdefghijklmnopqrstuvwxyz0123456789+/");
    let a = b64_alphabet();
    assert forall|k: int| 0 <= k < 64 implies #[trigger] a[k] != '=' && '\0' <= a[k] <= '\u{7f}' by {}
}

proof fn lemma_b64_group(c: Seq<u8>)
    requires
        1 <= c.len() <= 3,
    ensures
        b64_group(c).len() == 4,
        is_ascii_chars(b64_group(c)),
        padding_at_end(b64_group(c)),
        c.len() == 3 ==> forall|i: int| 0 <= i < 4 ==> #[trigger] b64_group(c)[i] != '=',
{
    lemma_alphabet();
    let g = b64_group(c);
    let b0 = c[0] as int;
    let b1 = if c.len() > 1 { c[1] as int } else { 0 };
    let b2 = if c.len() > 2 { c[2] as int } else { 0 };
    let n = b0 * 65536 + b1 * 256 + b2;
    assert(0 <= n / 262144 % 64 < 64);
    assert(0 <= n / 4096 % 64 < 64);
    assert(0 <= n / 64 % 64 < 64);
    assert(0 <= n % 64 < 64);
    assert(g[0] != '=' && g[1] != '=');
    assert forall|i: int| 0 <= i < g.len() implies '\0' <= #[trigger] g[i] <= '\u{7f}' by {}
}

/// Padded base64 is ASCII, and its padding comes only at the end.
proof fn lemma_b64_padding(d: Seq<u8>)
    ensures
        is_ascii_chars(b64_spec(d)),
        padding_at_end(b64_spec(d)),
    decreases d.len(),
{
    if d.len() == 0 {
    } else if d.len() <= 3 {
        lemma_b64_group(d);
    } else {
        let g = b64_group(d.take(3));
        let r = b64_spec(d.skip(3));
        lemma_b64_group(d.take(3));
        lemma_b64_padding(d.skip(3));
        is_ascii_chars_concat(g + r, g, r);
        let c = g + r;
        assert forall|i: int| 0 <= i && i + 1 < c.len() && #[trigger] c[i] == '=' implies c[i + 1] == '=' by {
            if i < 4 {
                assert(c[i] == g[i]);
            } else {
                assert(c[i] == r[i - 4] && c[i + 1] == r[i + 1 - 4]);
            }
        }
    }
}

/// The base64 payload carries no `a=d`: after an `=` only `=` follows.
proof fn lemma_payload_plain(d: Seq<u8>)
    ensures
        no_triple(encode_utf8(b64_spec(d)), 97u8, 61u8, 100u8),
{
    lemma_b64_padding(d);
    let c = b64_spec(d);
    assert forall|i: int| 0 <= i && i + 2 < c.len() implies !(#[trigger] c[i] == 'a' && c[i + 1] == '=' && c[i + 2] == 'd') by {
        if c[i + 1] == '=' {
            assert(c[i + 2] == '=');
        }
    }
    lemma_ascii_bytes(c);
}


proof fn lemma_chunks_plain(p: Seq<u8>, w: nat, h: nat, first: bool)
    requires
        no_triple(p, 97u8, 61u8, 100u8),
    ensures
        no_triple(kitty_chunks(p, w, h, first), 97u8, 61u8, 100u8),
        kitty_chunks(p, w, h, first).len() == 0 || kitty_chunks(p, w, h, first)[0] == 27u8,
    decreases p.len(),
{
    if p.len() > 0 {
        let n: int = if p.len() < KITTY_CHUNK { p.len() as int } else { KITTY_CHUNK as int };
        let rest = p.skip(n);
        let more: nat = if rest.len() > 0 { 1 } else { 0 };
        let header = if first { first_header(w, h, more) } else { next_header(more) };
        lemma_headers_plain(w, h, more);
        lemma_header_literals();
        lemma_ascii_bytes(header);
        lemma_ascii_bytes("\x1b\\"@);
        lemma_no_triple_skip(p, n, 97u8, 61u8, 100u8);
        lemma_chunks_plain(rest, w, h, false);
        let hb = encode_utf8(header);
        let tb = encode_utf8("\x1b\\"@);
        assert(hb.last() == hb[hb.len() - 1]);
        assert(hb[hb.len() - 1] as int == header[header.len() - 1] as int);
        assert(hb.last() == 59u8);
        assert(tb[0] == 27u8);
        assert(hb[0] == 27u8);
        let body = p.take(n);
        lemma_no_triple_concat(hb, body, 97u8, 61u8, 100u8);
        lemma_no_triple_concat(hb + body, tb, 97u8, 61u8, 100u8);
        lemma_no_triple_concat(hb + body + tb, kitty_chunks(rest, w, h, false), 97u8, 61u8, 100u8);
        assert((hb + body + tb + kitty_chunks(rest, w, h, false))[0] == hb[0]);
    }
}

/// A transmitted frame never carries the delete action: the bytes
/// `emit_kitty` appends for any frame contain no `a=d`, so the previous
/// frame's image is only ever replaced, never deleted first.
pub proof fn lemma_frame_has_no_delete(rgba: Seq<u8>, w: nat, h: nat)
    ensures
        no_triple(kitty_frame_bytes(rgba, w, h), 97u8, 61u8, 100u8),
{
    let z = zlib_compressed(rgba, KITTY_ZLIB_LEVEL);
    lemma_payload_plain(z);
    lemma_chunks_plain(encode_utf8(b64_spec(z)), w, h, true);
}

/// The delete sequence does carry the delete action.
pub proof fn lemma_delete_all_deletes()
    ensures
        !no_triple(delete_all_bytes(), 97u8, 61u8, 100u8),
        delete_all_bytes()[0] == 27u8,
{
    reveal_strlit("\x1b_Ga=d,q=2\x1b\\");
    let c = "\x1b_Ga=d,q=2\x1b\\"@;
    assert forall|i: int| 0 <= i < c.len() implies '\0' <= #[trigger] c[i] <= '\u{7f}' by {}
    lemma_ascii_bytes(c);
    let b = delete_all_bytes();
    assert(b[3] as int == c[3] as int);
    assert(b[4] as int == c[4] as int);
    assert(b[5] as int == c[5] as int);
    assert(b[0] as int == c[0] as int);
    assert(b[3] == 97u8 && b[4] == 61u8 && b[5] == 100u8);
}

} // verus!

verus! {

// ---------------------------------------------------------------------------
// Detail popup text
// ---------------------------------------------------------------------------

/// `s` with line breaks turned into spaces.
pub open spec fn flatten_lines(s: Seq<char>) -> Seq<char> {
    s.map_values(|c: char| if c == '\n' || c == '\r' { ' ' } else { c })
}

/// Health line of the detail popup.
pub open spec fn health_text(h: HealthSummary) -> Seq<char> {
    match h {
        HealthSummary::Absent => "none"@,
        HealthSummary::Starting => "starting"@,
        HealthSummary::Healthy => "healthy"@,
        HealthSummary::Unhealthy { failing_streak, last_output } => if last_output@.len() == 0 {
            "unhealthy (streak="@ + dec_chars(failing_streak as nat) + ")"@
        } else {
            "unhealthy (streak="@ + dec_chars(failing_streak as nat) + "): "@
                + first_chars(flatten_lines(last_output@), 40)
        },
    }
}

/// Summary of a container's health: its state, and for an unhealthy one
/// the failing streak and the first 40 characters of the last check's
/// output on one line.
pub fn kitty_health_str(h: &HealthSummary) -> (s: String)
    ensures
        s@ == health_text(*h),
{
    match h {
        HealthSummary::Absent => String::from_str("none"),
        HealthSummary::Starting => String::from_str("starting"),
        HealthSummary::Healthy => String::from_str("healthy"),
        HealthSummary::Unhealthy { failing_streak, last_output } => {
            let mut s = String::from_str("unhealthy (streak=");
            push_dec(&mut s, *failing_streak);
            let out = last_output.as_str();
            let n = out.unicode_len();
            if n == 0 {
                s.append(")");
                return s;
            }
            s.append("): ");
            let ghost head = s@;
            let take: usize = if n < 40 { n } else { 40 };
            let mut i: usize = 0;
            while i < take
                invariant
                    n == out@.len(),
                    take <= n,
                    i <= take,
                    s@ == head + flatten_lines(out@).take(i as int),
                decreases take - i,
            {
                let c = out.get_char(i);
                if c == '\n' || c == '\r' {
                    s.append(" ");
                    proof { reveal_strlit(" "); }
                } else {
                    let one = out.substring_char(i, i + 1);
                    s.append(one);
                    proof { assert(one@ =~= seq![c]); }
                }
                proof {
                    assert(flatten_lines(out@).take(i as int + 1) =~= flatten_lines(out@).take(i as int).push(flatten_lines(out@)[i as int]));
                    assert(s@ =~= head + flatten_lines(out@).take(i as int + 1));
                }
                i = i + 1;
            }
            proof {
                if n <= 40 {
                    assert(flatten_lines(out@).take(n as int) =~= flatten_lines(out@));
                }
            }
            s
        },
    }
}

/// Text of one port: `private/proto -> public`, or `private/proto` when
/// unpublished.
pub open spec fn port_text(p: PortSummary) -> Seq<char> {
    match p.public {
        Some(q) => dec_chars(p.private as nat) + "/"@ + proto_name(p.proto) + " -> "@ + dec_chars(q as nat),
        None => dec_chars(p.private as nat) + "/"@ + proto_name(p.proto),
    }
}

/// The parts of a port list: the first three ports, then `…N more` when
/// there are more.
pub open spec fn port_parts(ports: Seq<PortSummary>) -> Seq<Seq<char>> {
    let shown = if ports.len() <= 3 { ports } else { ports.take(3) };
    let parts = shown.map_values(|p: PortSummary| port_text(p));
    if ports.len() > 3 {
        parts.push("…"@ + dec_chars((ports.len() - 3) as nat) + " more"@)
    } else {
        parts
    }
}

/// Port list line of the detail popup.
pub open spec fn ports_text(ports: Seq<PortSummary>) -> Seq<char> {
    if ports.len() == 0 {
        "(none)"@
    } else {
        join(port_parts(ports), ", "@)
    }
}

proof fn lemma_ascii_cat(a: Seq<char>, b: Seq<char>)
    requires
        is_ascii_chars(a),
        is_ascii_chars(b),
    ensures
        is_ascii_chars(a + b),
{
    is_ascii_chars_concat(a + b, a, b);
}

proof fn lemma_port_text_ascii(p: PortSummary)
    ensures
        is_ascii_chars(port_text(p)),
{
    reveal_strlit("/");
    reveal_strlit(" -> ");
    reveal_strlit("tcp");
    reveal_strlit("udp");
    reveal_strlit("sctp");
    lemma_digits_text(p.private as nat);
    let head = dec_chars(p.private as nat) + "/"@;
    lemma_ascii_cat(dec_chars(p.private as nat), "/"@);
    lemma_ascii_cat(head, proto_name(p.proto));
    match p.public {
        Some(q) => {
            lemma_digits_text(q as nat);
            lemma_ascii_cat(head + proto_name(p.proto), " -> "@);
            lemma_ascii_cat(head + proto_name(p.proto) + " -> "@, dec_chars(q as nat));
        },
        None => {},
    }
}

proof fn lemma_join_ascii(parts: Seq<Seq<char>>, sep: Seq<char>)
    requires
        is_ascii_chars(sep),
        forall|i: int| 0 <= i < parts.len() ==> is_ascii_chars(#[trigger] parts[i]),
    ensures
        is_ascii_chars(join(parts, sep)),
    decreases parts.len(),
{
    if parts.len() == 0 {
        assert(join(parts, sep) =~= Seq::<char>::empty());
    } else if parts.len() > 1 {
        let q = parts.drop_last();
        assert forall|i: int| 0 <= i < q.len() implies is_ascii_chars(#[trigger] q[i]) by {
            assert(q[i] == parts[i]);
        }
        lemma_join_ascii(q, sep);
        assert(is_ascii_chars(parts[parts.len() - 1]));
        lemma_ascii_cat(join(q, sep), sep);
        lemma_ascii_cat(join(q, sep) + sep, parts.last());
    } else {
        assert(is_ascii_chars(parts[0]));
    }
}

/// The ports line of the popup: `(none)` without ports; with one to three
/// ports, every port's text joined by `, ` and nothing else (so no `…`
/// appears); with more, the first three ports' texts followed by
/// `, …N more` where N is the number left out.
pub proof fn lemma_ports_line(ports: Seq<PortSummary>)
    ensures
        ports.len() == 0 ==> ports_text(ports) == "(none)"@,
        1 <= ports.len() <= 3 ==> ports_text(ports) == join(
            ports.map_values(|p: PortSummary| port_text(p)),
            ", "@,
        ),
        1 <= ports.len() <= 3 ==> is_ascii_chars(ports_text(ports)),
        ports.len() > 3 ==> ports_text(ports) == join(
            ports.take(3).map_values(|p: PortSummary| port_text(p)),
            ", "@,
        ) + ", "@ + "…"@ + dec_chars((ports.len() - 3) as nat) + " more"@,
        ports.len() > 3 ==> !is_ascii_chars(ports_text(ports)),
{
    reveal_strlit(", ");
    reveal_strlit("…");
    let texts = ports.map_values(|p: PortSummary| port_text(p));
    if 1 <= ports.len() <= 3 {
        assert(port_parts(ports) =~= texts);
        assert forall|i: int| 0 <= i < texts.len() implies is_ascii_chars(#[trigger] texts[i]) by {
            lemma_port_text_ascii(ports[i]);
        }
        lemma_join_ascii(texts, ", "@);
    } else if ports.len() > 3 {
        let first = ports.take(3).map_values(|p: PortSummary| port_text(p));
        let more = "…"@ + dec_chars((ports.len() - 3) as nat) + " more"@;
        let parts = port_parts(ports);
        assert(parts.drop_last() =~= first);
        assert(parts.last() == more);
        assert(join(parts, ", "@) == join(first, ", "@) + ", "@ + more);
        assert(join(first, ", "@) + ", "@ + more =~= join(first, ", "@) + ", "@ + "…"@ + dec_chars(
            (ports.len() - 3) as nat,
        ) + " more"@);
        let t = ports_text(ports);
        let k: int = join(first, ", "@).len() as int + 2;
        assert(t[k] == '…');
        assert(!('\0' <= t[k] <= '\u{7f}'));
    }
}

fn port_string(p: &PortSummary) -> (s: String)
    ensures
        s@ == port_text(*p),
{
    let mut s = dec_string(p.private as u64);
    s.append("/");
    s.append(p.proto.as_str());
    match p.public {
        Some(q) => {
            s.append(" -> ");
            push_dec(&mut s, q as u64);
        },
        None => {},
    }
    s
}

/// Comma-joined summary of up to three ports, with a count of the rest.
pub fn kitty_format_ports(ports: &[PortSummary]) -> (s: String)
    ensures
        s@ == ports_text(ports@),
{
    let n = ports.len();
    if n == 0 {
        return String::from_str("(none)");
    }
    let shown: usize = if n <= 3 { n } else { 3 };
    let mut parts: Vec<String> = Vec::new();
    let mut i: usize = 0;
    let ghost sh = if ports@.len() <= 3 { ports@ } else { ports@.take(3) };
    proof {
        assert(sh.len() == shown);
    }
    while i < shown
        invariant
            n == ports@.len(),
            shown <= n,
            sh.len() == shown,
            sh == (if ports@.len() <= 3 { ports@ } else { ports@.take(3) }),
            i <= shown,
            views(parts@) =~= sh.take(i as int).map_values(|p: PortSummary| port_text(p)),
        decreases shown - i,
    {
        let t = port_string(&ports[i]);
        let ghost before = parts@;
        parts.push(t);
        proof {
            assert(sh[i as int] == ports@[i as int]);
            assert(views(before).len() == i);
            assert(before.len() == i);
            assert(parts@ =~= before.push(t));
            assert(parts@[i as int] == t);
            assert forall|k: int| 0 <= k < i + 1 implies #[trigger] views(parts@)[k]
                == sh.take(i as int + 1).map_values(|p: PortSummary| port_text(p))[k] by {
                if k < i {
                    assert(views(before)[k] == sh.take(i as int).map_values(|p: PortSummary| port_text(p))[k]);
                } else {
                    assert(views(parts@)[k] == t@);
                    assert(t@ == port_text(ports@[i as int]));
                    assert(sh.take(i as int + 1)[k] == sh[i as int]);
                }
            }
            assert(views(parts@) =~= sh.take(i as int + 1).map_values(|p: PortSummary| port_text(p)));
        }
        i = i + 1;
    }
    proof {
        assert(sh.take(shown as int) =~= sh);
    }
    if n > 3 {
        let mut more = String::from_str("…");
        push_dec(&mut more, (n - 3) as u64);
        more.append(" more");
        parts.push(more);
        proof {
            assert(views(parts@) =~= port_parts(ports@));
        }
    }
    join_strings(&parts, ", ")
}

/// Mount line of the detail popup: `source:destination` (`(anon)` for an
/// empty source), shortened to its first and last 28 characters around an
/// ellipsis when longer than 60 characters.
pub open spec fn mount_text(m: MountSummary) -> Seq<char> {
    let src = if m.source@.len() == 0 { "(anon)"@ } else { m.source@ };
    let body = src + ":"@ + m.destination@;
    if body.len() > 60 {
        first_chars(body, 28) + "…"@ + last_chars(body, 28)
    } else {
        body
    }
}

/// One mount, shortened to fit the popup.
pub fn kitty_format_mount(m: &MountSummary) -> (s: String)
    ensures
        s@ == mount_text(*m),
{
    let mut body = if m.source.as_str().unicode_len() == 0 {
        String::from_str("(anon)")
    } else {
        String::from_str(m.source.as_str())
    };
    body.append(":");
    body.append(m.destination.as_str());
    let len = body.as_str().unicode_len();
    if len > 60 {
        let mut out = String::from_str(body.as_str().substring_char(0, 28));
        out.append("…");
        out.append(body.as_str().substring_char(len - 28, len));
        proof {
            assert(body@.subrange(0, 28) =~= first_chars(body@, 28));
            assert(body@.subrange(len - 28, len as int) =~= last_chars(body@, 28));
        }
        out
    } else {
        body
    }
}

/// A mount's text never exceeds 60 characters: a longer `source:destination`
/// keeps its first and last 28 characters around a `…`; a shorter one is
/// shown whole, with `(anon)` for an empty source.
pub proof fn lemma_mount_text_fits(m: MountSummary)
    ensures
        mount_text(m).len() <= 60,
        ({
            let src = if m.source@.len() == 0 { "(anon)"@ } else { m.source@ };
            let body = src + ":"@ + m.destination@;
            &&& body.len() <= 60 ==> mount_text(m) == body
            &&& body.len() > 60 ==> mount_text(m).len() == 57 && mount_text(m).take(28) == body.take(28)
                && mount_text(m)[28] == '…' && mount_text(m).skip(29) == body.skip(body.len() - 28)
        }),
{
    reveal_strlit("…");
    let src = if m.source@.len() == 0 { "(anon)"@ } else { m.source@ };
    let body = src + ":"@ + m.destination@;
    if body.len() > 60 {
        let t = mount_text(m);
        assert(t.take(28) =~= body.take(28));
        assert(t.skip(29) =~= body.skip(body.len() - 28));
    }
}

/// The mount lines of the popup: one line per mount when there are at
/// most three; otherwise the first three mounts' lines and a last line
/// `  …N more` where N is the number left out.
pub proof fn lemma_mount_lines_shape(ms: Seq<MountSummary>)
    ensures
        ms.len() <= 3 ==> mount_lines(ms).len() == ms.len(),
        ms.len() > 3 ==> mount_lines(ms).len() == 4,
        forall|i: int| 0 <= i < ms.len() && i < 3 ==> #[trigger] mount_lines(ms)[i] == mount_line(ms[i]),
        ms.len() > 3 ==> mount_lines(ms)[3] == "  …"@ + dec_chars((ms.len() - 3) as nat) + " more"@,
{
}

// ---------------------------------------------------------------------------
// Popup frame
// ---------------------------------------------------------------------------

/// The popup rectangle `(col0, row0, w, h)` in 0-based cells for a
/// `cols` x `rows` terminal and a target size: at least 20 x 8 cells, at
/// most the terminal's width and its height less the status row (never
/// below one cell), centered.
pub open spec fn popup_rect(cols: nat, rows: nat, target_w: nat, target_h: nat) -> (nat, nat, nat, nat) {
    let max_w: nat = if cols >= 1 { cols } else { 1 };
    let max_h: nat = if rows >= 2 { (rows - 1) as nat } else { 1 };
    let w0: nat = if target_w >= 20 { target_w } else { 20 };
    let h0: nat = if target_h >= 8 { target_h } else { 8 };
    let w: nat = if w0 <= max_w { w0 } else { max_w };
    let h: nat = if h0 <= max_h { h0 } else { max_h };
    let col0: nat = if cols >= w { ((cols - w) / 2) as nat } else { 0 };
    let row0: nat = if rows >= h { ((rows - h) / 2) as nat } else { 0 };
    (col0, row0, w, h)
}

/// Place the detail popup: clamp the target size to the legible minimum
/// and to the terminal, and center it.
pub fn clamp_popup_rect(cols: usize, rows: usize, target_w: usize, target_h: usize) -> (r: (usize, usize, usize, usize))
    ensures
        (r.0 as nat, r.1 as nat, r.2 as nat, r.3 as nat) == popup_rect(cols as nat, rows as nat, target_w as nat, target_h as nat),
{
    let max_w = if cols >= 1 { cols } else { 1 };
    let max_h = if rows >= 2 { rows - 1 } else { 1 };
    let w0 = if target_w >= 20 { target_w } else { 20 };
    let h0 = if target_h >= 8 { target_h } else { 8 };
    let w = if w0 <= max_w { w0 } else { max_w };
    let h = if h0 <= max_h { h0 } else { max_h };
    let col0 = cols.saturating_sub(w) / 2;
    let row0 = rows.saturating_sub(h) / 2;
    (col0, row0, w, h)
}

/// The popup always fits: inside the terminal's width, and above the
/// status row.
pub proof fn lemma_popup_fits(cols: nat, rows: nat, target_w: nat, target_h: nat)
    ensures
        ({
            let (col0, row0, w, h) = popup_rect(cols, rows, target_w, target_h);
            &&& w >= 1 && h >= 1
            &&& cols >= 1 ==> col0 + w <= cols
            &&& rows >= 2 ==> row0 + h <= rows && h <= rows - 1
            &&& cols >= 20 && target_w <= cols ==> w == (if target_w >= 20 { target_w } else { 20 })
        }),
{
}

/// Cursor move to the 1-based `row`, `col`.
pub open spec fn cursor_to(row: nat, col: nat) -> Seq<char> {
    "\x1b["@ + dec_chars(row) + ";"@ + dec_chars(col) + "H"@
}

/// The interior rows `1 ..= r` of a popup frame.
pub open spec fn popup_middle(col0: nat, row0: nat, w: nat, r: nat) -> Seq<char>
    decreases r,
{
    if r == 0 {
        Seq::empty()
    } else {
        popup_middle(col0, row0, w, (r - 1) as nat) + cursor_to(row0 + 1 + r, col0 + 1)
            + "\u{2502}"@ + repeat(" "@, (w - 2) as nat) + "\u{2502}"@
    }
}

/// Text that draws a `w` x `h` light box-drawing frame with a blank
/// interior at the 0-based cell `(col0, row0)`; nothing when either side
/// is shorter than three cells.
pub open spec fn popup_text(col0: nat, row0: nat, w: nat, h: nat) -> Seq<char> {
    if w < 3 || h < 3 {
        Seq::empty()
    } else {
        cursor_to(row0 + 1, col0 + 1) + "\u{250C}"@ + repeat("\u{2500}"@, (w - 2) as nat) + "\u{2510}"@
            + popup_middle(col0, row0, w, (h - 2) as nat)
            + cursor_to(row0 + h, col0 + 1) + "\u{2514}"@ + repeat("\u{2500}"@, (w - 2) as nat) + "\u{2518}"@
    }
}

fn push_cursor_to(s: &mut String, row: usize, col: usize)
    ensures
        final(s)@ == old(s)@ + cursor_to(row as nat, col as nat),
{
    s.append("\x1b[");
    push_dec(s, row as u64);
    s.append(";");
    push_dec(s, col as u64);
    s.append("H");
    proof {
        assert(final(s)@ =~= old(s)@ + cursor_to(row as nat, col as nat));
    }
}

/// Append the bytes that draw a `w` x `h` box-drawing frame with a blank
/// interior at the 0-based cell `(col0, row0)`.
pub fn draw_popup_box(out: &mut Vec<u8>, col0: usize, row0: usize, w: usize, h: usize)
    requires
        col0 + 1 <= usize::MAX,
        row0 + h <= usize::MAX,
    ensures
        final(out)@ == old(out)@ + encode_utf8(popup_text(col0 as nat, row0 as nat, w as nat, h as nat)),
{
    if w < 3 || h < 3 {
        proof {
            assert(old(out)@ + encode_utf8(Seq::<char>::empty()) =~= old(out)@);
        }
        return;
    }
    let mut s = String::new();
    push_cursor_to(&mut s, row0 + 1, col0 + 1);
    s.append("\u{250C}");
    push_repeat(&mut s, "\u{2500}", w - 2);
    s.append("\u{2510}");
    let ghost top = s@;
    let mut r: usize = 1;
    while r < h - 1
        invariant
            3 <= h,
            1 <= r <= h - 1,
            w >= 3,
            col0 + 1 <= usize::MAX,
            row0 + h <= usize::MAX,
            s@ == top + popup_middle(col0 as nat, row0 as nat, w as nat, (r - 1) as nat),
        decreases h - 1 - r,
    {
        push_cursor_to(&mut s, row0 + 1 + r, col0 + 1);
        s.append("\u{2502}");
        push_repeat(&mut s, " ", w - 2);
        s.append("\u{2502}");
        proof {
            assert(s@ =~= top + popup_middle(col0 as nat, row0 as nat, w as nat, r as nat));
        }
        r = r + 1;
    }
    push_cursor_to(&mut s, row0 + h, col0 + 1);
    s.append("\u{2514}");
    push_repeat(&mut s, "\u{2500}", w - 2);
    s.append("\u{2518}");
    proof {
        assert(s@ =~= popup_text(col0 as nat, row0 as nat, w as nat, h as nat));
    }
    push_utf8(out, s.as_str());
}


// ---------------------------------------------------------------------------
// Detail popup body
// ---------------------------------------------------------------------------

/// Name of a status as the popup prints it.
pub open spec fn status_text(s: Status) -> Seq<char> {
    match s {
        Status::Running => "Running"@,
        Status::Paused => "Paused"@,
        Status::Stopped => "Stopped"@,
        Status::Restarting => "Restarting"@,
        Status::Crashed => "Crashed"@,
    }
}

/// The popup's status line names the container's own status: line 1 is
/// `Status:     ` followed by the status's name; each status prints as
/// its variant's name, and no two statuses print alike.
pub proof fn lemma_status_line_names_status(snap: DetailSnapshot, blkio_r: Seq<char>, blkio_w: Seq<char>)
    ensures
        detail_lines(snap, blkio_r, blkio_w)[1] == "Status:     "@ + status_text(snap.status),
        status_text(Status::Running) == "Running"@,
        status_text(Status::Paused) == "Paused"@,
        status_text(Status::Stopped) == "Stopped"@,
        status_text(Status::Restarting) == "Restarting"@,
        status_text(Status::Crashed) == "Crashed"@,
        forall|a: Status, b: Status| a != b ==> #[trigger] status_text(a) != #[trigger] status_text(b),
{
    reveal_strlit("Running");
    reveal_strlit("Paused");
    reveal_strlit("Stopped");
    reveal_strlit("Restarting");
    reveal_strlit("Crashed");
    assert forall|a: Status, b: Status| a != b implies #[trigger] status_text(a) != #[trigger] status_text(b) by {
        let x = status_text(a);
        let y = status_text(b);
        if x.len() == y.len() {
            assert(x[0] != y[0]);
        }
    }
}

fn status_str(s: Status) -> (r: &'static str)
    ensures
        r@ == status_text(s),
{
    match s {
        Status::Running => "Running",
        Status::Paused => "Paused",
        Status::Stopped => "Stopped",
        Status::Restarting => "Restarting",
        Status::Crashed => "Crashed",
    }
}

/// One mount line of the popup: indented, with its access mode.
pub open spec fn mount_line(m: MountSummary) -> Seq<char> {
    "  "@ + mount_text(m) + " ("@ + (if m.rw { "rw"@ } else { "ro"@ }) + ")"@
}

/// The mount lines: the first three mounts, then `…N more` when there
/// are more.
pub open spec fn mount_lines(ms: Seq<MountSummary>) -> Seq<Seq<char>> {
    let shown = if ms.len() <= 3 { ms } else { ms.take(3) };
    let lines = shown.map_values(|m: MountSummary| mount_line(m));
    if ms.len() > 3 {
        lines.push("  …"@ + dec_chars((ms.len() - 3) as nat) + " more"@)
    } else {
        lines
    }
}

/// The lines of the detail popup for `snap`, given the block-I/O read and
/// write totals already formatted: title, status, health, image, start
/// time, restarts, network, ports, mounts, block I/O, a blank line and the
/// key help.
pub open spec fn detail_lines(snap: DetailSnapshot, blkio_r: Seq<char>, blkio_w: Seq<char>) -> Seq<Seq<char>> {
    seq![
        " "@ + snap.name@ + " "@,
        "Status:     "@ + status_text(snap.status),
        "Health:     "@ + health_text(snap.health),
        "Image:      "@ + snap.image_human@,
        "Started:    "@ + snap.started_at_iso@,
        "Restarts:   "@ + dec_chars(snap.restart_count as nat) + " ("@ + snap.restart_policy@ + ")"@,
        "Network:    "@ + snap.network_mode@,
        "Ports ("@ + dec_chars(snap.ports@.len()) + "):"@,
        "  "@ + ports_text(snap.ports@),
        "Mounts ("@ + dec_chars(snap.mounts@.len()) + "):"@,
    ] + mount_lines(snap.mounts@) + seq![
        "Block I/O:  R "@ + blkio_r + " / W "@ + blkio_w,
        Seq::<char>::empty(),
        "Esc close \u{b7} Enter refresh \u{b7} q quit"@,
    ]
}

fn labeled(label: &str, value: &str) -> (s: String)
    ensures
        s@ == label@ + value@,
{
    let mut s = String::from_str(label);
    s.append(value);
    s
}

fn count_line(label: &str, n: usize) -> (s: String)
    ensures
        s@ == label@ + dec_chars(n as nat) + "):"@,
{
    let mut s = String::from_str(label);
    push_dec(&mut s, n as u64);
    s.append("):");
    s
}

/// The text lines of the detail popup, as [`detail_lines`] states them;
/// `blkio_r` and `blkio_w` are the block-I/O totals already formatted.
pub fn format_detail_lines(snap: &DetailSnapshot, blkio_r: &str, blkio_w: &str) -> (out: Vec<String>)
    ensures
        views(out@) == detail_lines(*snap, blkio_r@, blkio_w@),
{
    let mut out: Vec<String> = Vec::new();
    let mut title = String::from_str(" ");
    title.append(snap.name.as_str());
    title.append(" ");
    out.push(title);
    out.push(labeled("Status:     ", status_str(snap.status)));
    let health = kitty_health_str(&snap.health);
    out.push(labeled("Health:     ", health.as_str()));
    out.push(labeled("Image:      ", snap.image_human.as_str()));
    out.push(labeled("Started:    ", snap.started_at_iso.as_str()));
    let mut restarts = String::from_str("Restarts:   ");
    push_dec(&mut restarts, snap.restart_count);
    restarts.append(" (");
    restarts.append(snap.restart_policy.as_str());
    restarts.append(")");
    out.push(restarts);
    out.push(labeled("Network:    ", snap.network_mode.as_str()));
    out.push(count_line("Ports (", snap.ports.len()));
    let ports = kitty_format_ports(snap.ports.as_slice());
    out.push(labeled("  ", ports.as_str()));
    out.push(count_line("Mounts (", snap.mounts.len()));
    let ghost head = views(out@);
    proof {
        assert(head =~= seq![
            " "@ + snap.name@ + " "@,
            "Status:     "@ + status_text(snap.status),
            "Health:     "@ + health_text(snap.health),
            "Image:      "@ + snap.image_human@,
            "Started:    "@ + snap.started_at_iso@,
            "Restarts:   "@ + dec_chars(snap.restart_count as nat) + " ("@ + snap.restart_policy@ + ")"@,
            "Network:    "@ + snap.network_mode@,
            "Ports ("@ + dec_chars(snap.ports@.len()) + "):"@,
            "  "@ + ports_text(snap.ports@),
            "Mounts ("@ + dec_chars(snap.mounts@.len()) + "):"@,
        ]);
    }
    let m = snap.mounts.len();
    let shown: usize = if m <= 3 { m } else { 3 };
    let ghost ms = snap.mounts@;
    let ghost sh = if ms.len() <= 3 { ms } else { ms.take(3) };
    let mut i: usize = 0;
    while i < shown
        invariant
            m == ms.len(),
            ms == snap.mounts@,
            shown <= m,
            sh == (if ms.len() <= 3 { ms } else { ms.take(3) }),
            sh.len() == shown,
            i <= shown,
            views(out@) =~= head + sh.take(i as int).map_values(|x: MountSummary| mount_line(x)),
        decreases shown - i,
    {
        let mt = &snap.mounts[i];
        let mut line = String::from_str("  ");
        let body = kitty_format_mount(mt);
        line.append(body.as_str());
        line.append(" (");
        if mt.rw {
            line.append("rw");
        } else {
            line.append("ro");
        }
        line.append(")");
        let ghost before = out@;
        out.push(line);
        proof {
            assert(sh[i as int] == ms[i as int]);
            assert(line@ == mount_line(sh[i as int]));
            assert(out@ =~= before.push(line));
            assert(views(out@) =~= views(before).push(line@));
            assert(sh.take(i as int + 1).map_values(|x: MountSummary| mount_line(x)) =~= sh.take(
                i as int,
            ).map_values(|x: MountSummary| mount_line(x)).push(mount_line(sh[i as int])));
        }
        i = i + 1;
    }
    proof {
        assert(sh.take(shown as int) =~= sh);
    }
    if m > 3 {
        let mut more = String::from_str("  …");
        push_dec(&mut more, (m - 3) as u64);
        more.append(" more");
        let ghost before = out@;
        out.push(more);
        proof {
            assert(views(out@) =~= views(before).push(more@));
        }
    }
    proof {
        assert(views(out@) =~= head + mount_lines(ms));
    }
    let mut blk = String::from_str("Block I/O:  R ");
    blk.append(blkio_r);
    blk.append(" / W ");
    blk.append(blkio_w);
    let ghost b1 = out@;
    out.push(blk);
    out.push(String::new());
    out.push(String::from_str("Esc close \u{b7} Enter refresh \u{b7} q quit"));
    proof {
        assert(views(out@) =~= views(b1) + seq![
            "Block I/O:  R "@ + blkio_r@ + " / W "@ + blkio_w@,
            Seq::<char>::empty(),
            "Esc close \u{b7} Enter refresh \u{b7} q quit"@,
        ]);
    }
    out
}

} // verus!

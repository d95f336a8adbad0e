//! The renderer's decisions: which hit is nearest, when the bounce budget
//! ends a ray, and how per-pixel results fill the raster.

use crate::camera::Resolution;
use crate::raster::{channel_pixel, into_channels, new_raster, put_pixel, raster_pixels, raster_size};
use vstd::arithmetic::div_mod::{
    lemma_fundamental_div_mod, lemma_fundamental_div_mod_converse, lemma_mod_pos_bound,
};
use vstd::prelude::*;

verus! {

/// Service that turns a scene's per-pixel results into an image.
pub struct RenderService;

/// A hit met during a nearest-hit search: the order key of its distance along
/// the ray (smaller is nearer) and its position among the candidates.
#[derive(Debug, Clone, Copy, PartialEq, Eq, Structural)]
pub struct HitKey {
    pub key: u64,
    pub index: usize,
}

/// Candidate `i` is a hit, no hit is nearer, and every earlier hit is
/// farther: on equal distances the first seen wins.
pub open spec fn is_first_nearest(keys: Seq<Option<u64>>, i: int) -> bool {
    &&& 0 <= i < keys.len()
    &&& keys[i] is Some
    &&& forall|j: int| 0 <= j < keys.len() && #[trigger] keys[j] is Some ==> keys[i].unwrap() <= keys[j].unwrap()
    &&& forall|j: int| 0 <= j < i && #[trigger] keys[j] is Some ==> keys[i].unwrap() < keys[j].unwrap()
}

/// What the tracer does with a ray that has `depth` bounces of budget left.
#[derive(Debug, Clone, Copy, PartialEq, Eq, Structural)]
pub enum TraceStep {
    /// The budget is spent: the ray takes the background color without a
    /// search of the scene.
    Background,
    /// Search the scene; the reflected and refracted rays spawned at a hit
    /// both carry `child_depth`.
    Search { child_depth: u32 },
}

/// The pixel of a row-major channel buffer `w` pixels wide that sits in
/// column `x` of row `y`.
pub open spec fn pixel_at(bytes: Seq<u8>, w: u32, x: u32, y: u32) -> (u8, u8, u8) {
    channel_pixel(bytes, y as int * w as int + x as int)
}

proof fn lemma_pixel_position(w: int, h: int, x: int, y: int)
    requires
        0 <= x < w,
        0 <= y < h,
    ensures
        0 <= y * w + x < w * h,
        (y * w + x) % w == x,
        (y * w + x) / w == y,
{
    lemma_fundamental_div_mod_converse(y * w + x, w, y, x);
    assert(0 <= y * w + x < w * h) by (nonlinear_arith)
        requires
            0 <= x < w,
            0 <= y < h,
    ;
}

proof fn lemma_index_position(w: int, h: int, k: int)
    requires
        0 <= k < w * h,
        w > 0,
    ensures
        0 <= k % w < w,
        0 <= k / w < h,
        (k / w) * w + k % w == k,
{
    lemma_fundamental_div_mod(k, w);
    lemma_mod_pos_bound(k, w);
    let q = k / w;
    let r = k % w;
    assert(0 <= q < h) by (nonlinear_arith)
        requires
            k == w * q + r,
            0 <= r < w,
            0 <= k < w * h,
    ;
}

/// Rendering is deterministic: where the shader's result is fixed by the
/// pixel's column and row, any two channel buffers that `generate_image` may
/// return for it are byte for byte the same.
pub proof fn lemma_render_deterministic<F: Fn(u32, u32) -> (u8, u8, u8)>(
    resolution: Resolution,
    shade: F,
    g: spec_fn(u32, u32) -> (u8, u8, u8),
    a: Seq<u8>,
    b: Seq<u8>,
)
    requires
        forall|x: u32, y: u32, p: (u8, u8, u8)|
            x < resolution.horizontal && y < resolution.vertical && #[trigger] shade.ensures(
                (x, y),
                p,
            ) ==> p == g(x, y),
        a.len() == 3 * resolution.horizontal * resolution.vertical,
        b.len() == 3 * resolution.horizontal * resolution.vertical,
        forall|x: u32, y: u32|
            x < resolution.horizontal && y < resolution.vertical ==> shade.ensures(
                (x, y),
                #[trigger] pixel_at(a, resolution.horizontal, x, y),
            ),
        forall|x: u32, y: u32|
            x < resolution.horizontal && y < resolution.vertical ==> shade.ensures(
                (x, y),
                #[trigger] pixel_at(b, resolution.horizontal, x, y),
            ),
    ensures
        a == b,
{
    let w = resolution.horizontal as int;
    let h = resolution.vertical as int;
    assert(3 * resolution.horizontal * resolution.vertical == 3 * (w * h)) by (nonlinear_arith)
        requires
            w == resolution.horizontal as int,
            h == resolution.vertical as int,
    ;
    assert forall|m: int| 0 <= m < a.len() implies a[m] == b[m] by {
        let k = m / 3;
        assert(0 <= k < w * h);
        lemma_index_position(w, h, k);
        let x = (k % w) as u32;
        let y = (k / w) as u32;
        assert(y as int * w + x as int == k);
        assert(pixel_at(a, resolution.horizontal, x, y) == g(x, y));
        assert(pixel_at(b, resolution.horizontal, x, y) == g(x, y));
        assert(m == 3 * k || m == 3 * k + 1 || m == 3 * k + 2);
    }
    assert(a =~= b);
}

impl RenderService {
    /// Keeps the nearer of the nearest hit so far and a new one; on equal
    /// distances the one seen first stays.
    pub fn keep_closest(current: Option<HitKey>, new: HitKey) -> (r: Option<HitKey>)
        ensures
            r == Some(
                match current {
                    Some(c) => if new.key < c.key {
                        new
                    } else {
                        c
                    },
                    None => new,
                },
            ),
    {
        match current {
            Some(c) => if new.key < c.key {
                Some(new)
            } else {
                Some(c)
            },
            None => Some(new),
        }
    }

    /// The position of the nearest hit among the candidates, each a hit's
    /// distance key or no hit; the first of equally near hits wins.
    pub fn closest_hit(keys: &Vec<Option<u64>>) -> (r: Option<usize>)
        ensures
            r is None <==> forall|j: int| 0 <= j < keys@.len() ==> #[trigger] keys@[j] is None,
            r matches Some(i) ==> is_first_nearest(keys@, i as int),
    {
        let mut best: Option<HitKey> = None;
        let mut i: usize = 0;
        while i < keys.len()
            invariant
                i <= keys@.len(),
                best is None <==> forall|j: int| 0 <= j < i ==> #[trigger] keys@[j] is None,
                best matches Some(b) ==> b.index < i && keys@[b.index as int] == Some(b.key)
                    && is_first_nearest(keys@.take(i as int), b.index as int),
            decreases keys@.len() - i,
        {
            match keys[i] {
                Some(key) => {
                    best = Self::keep_closest(best, HitKey { key, index: i });
                },
                None => {},
            }
            proof {
                let pre = keys@.take(i + 1);
                if let Some(b) = best {
                    assert(pre[b.index as int] == keys@[b.index as int]);
                    assert forall|j: int| 0 <= j < pre.len() && #[trigger] pre[j] is Some implies pre[b.index as int].unwrap() <= pre[j].unwrap() by {
                        if j < i {
                            assert(keys@.take(i as int)[j] == pre[j]);
                        }
                    }
                    assert forall|j: int| 0 <= j < b.index && #[trigger] pre[j] is Some implies pre[b.index as int].unwrap() < pre[j].unwrap() by {
                        assert(keys@.take(i as int)[j] == pre[j]);
                    }
                }
            }
            i = i + 1;
        }
        assert(keys@.take(i as int) =~= keys@);
        match best {
            Some(b) => Some(b.index),
            None => None,
        }
    }

    /// The step a ray takes with `depth` bounces of budget left: at zero the
    /// background, otherwise a search whose secondary rays carry one bounce
    /// less.
    pub fn trace_step(depth: u32) -> (r: TraceStep)
        ensures
            depth == 0 ==> r == TraceStep::Background,
            depth > 0 ==> r == (TraceStep::Search { child_depth: (depth - 1) as u32 }),
    {
        if depth == 0 {
            TraceStep::Background
        } else {
            TraceStep::Search { child_depth: depth - 1 }
        }
    }

    /// Fills an image of the given size pixel by pixel, row by row from the
    /// top left, with what `shade` gives for each pixel's column and row, and
    /// returns its channels: three bytes per pixel, row-major.
    pub fn generate_image<F: Fn(u32, u32) -> (u8, u8, u8)>(resolution: Resolution, shade: F) -> (r:
        Vec<u8>)
        requires
            3 * (resolution.horizontal as int) <= usize::MAX,
            resolution.horizontal as int * resolution.vertical as int * 3 <= usize::MAX,
            forall|x: u32, y: u32|
                x < resolution.horizontal && y < resolution.vertical ==> #[trigger] shade.requires(
                    (x, y),
                ),
        ensures
            r@.len() == 3 * resolution.horizontal * resolution.vertical,
            forall|x: u32, y: u32|
                x < resolution.horizontal && y < resolution.vertical ==> shade.ensures(
                    (x, y),
                    #[trigger] pixel_at(r@, resolution.horizontal, x, y),
                ),
    {
        let w = resolution.horizontal;
        let h = resolution.vertical;
        let mut raster = new_raster(w, h);
        let total: usize = (w as usize) * (h as usize);
        let mut k: usize = 0;
        while k < total
            invariant
                total == w as int * h as int,
                k <= total,
                raster_size(raster) == (w, h),
                raster_pixels(raster).len() == total,
                forall|x: u32, y: u32| x < w && y < h ==> #[trigger] shade.requires((x, y)),
                forall|j: int|
                    0 <= j < k ==> shade.ensures(
                        ((j % w as int) as u32, (j / w as int) as u32),
                        #[trigger] raster_pixels(raster)[j],
                    ),
            decreases total - k,
        {
            proof {
                if w == 0 {
                    assert(w as int * h as int == 0);
                }
                lemma_index_position(w as int, h as int, k as int);
            }
            let x = (k % (w as usize)) as u32;
            let y = (k / (w as usize)) as u32;
            let p = shade(x, y);
            put_pixel(&mut raster, x, y, p);
            k = k + 1;
        }
        let bytes = into_channels(raster);
        assert(3 * w * h == 3 * (w as int * h as int)) by (nonlinear_arith);
        assert forall|x: u32, y: u32| x < w && y < h implies shade.ensures(
            (x, y),
            #[trigger] pixel_at(bytes@, w, x, y),
        ) by {
            lemma_pixel_position(w as int, h as int, x as int, y as int);
            let j = y as int * w as int + x as int;
            assert(shade.ensures(((j % w as int) as u32, (j / w as int) as u32), raster_pixels(raster)[j]));
        }
        bytes
    }
}

} // verus!

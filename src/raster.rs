//! Grayscale rasters, as the renderer hands them over.
use vstd::prelude::*;

verus! {

/// A grayscale raster: `width` × `height` samples, row-major, 0 black to 255 white.
pub struct GrayRaster {
    pub width: u32,
    pub height: u32,
    pub pixels: Vec<u8>,
}

impl GrayRaster {
    /// Both dimensions are positive and there is one sample per pixel.
    pub open spec fn wf(&self) -> bool {
        &&& self.width > 0
        &&& self.height > 0
        &&& self.pixels@.len() == self.width as nat * self.height as nat
    }

    /// A raster of the given dimensions; `None` unless both are positive and
    /// `pixels` holds exactly one sample per pixel.
    pub fn new(width: u32, height: u32, pixels: Vec<u8>) -> (r: Option<GrayRaster>)
        ensures
            r is Some <==> (width > 0 && height > 0 && pixels@.len() == width as nat * height as nat),
            r matches Some(g) ==> g.wf() && g.width == width && g.height == height && g.pixels@
                == pixels@,
    {
        if width == 0 || height == 0 {
            return None;
        }
        let n: u64 = area(width, height);
        if pixels.len() as u64 != n {
            return None;
        }
        Some(GrayRaster { width, height, pixels })
    }
}

/// The number of pixels of a `width` × `height` raster.
pub fn area(width: u32, height: u32) -> (r: u64)
    ensures
        r == width as nat * height as nat,
        r <= u32::MAX as nat * u32::MAX as nat,
{
    assert(width as nat * height as nat <= u32::MAX as nat * u32::MAX as nat) by (nonlinear_arith);
    width as u64 * height as u64
}


/// Width of a stacked raster when there is nothing to stack.
pub const IMAGE_WIDTH: u32 = 384;

/// The widest of the rasters (0 for none).
pub open spec fn max_width(imgs: Seq<GrayRaster>) -> nat
    decreases imgs.len(),
{
    if imgs.len() == 0 {
        0
    } else {
        let m = max_width(imgs.drop_last());
        if imgs.last().width > m {
            imgs.last().width as nat
        } else {
            m
        }
    }
}

/// The width of the rasters stacked: the widest, or `IMAGE_WIDTH` for none.
pub open spec fn stack_width(imgs: Seq<GrayRaster>) -> nat {
    if imgs.len() == 0 {
        IMAGE_WIDTH as nat
    } else {
        max_width(imgs)
    }
}

/// The height of the rasters stacked: the sum of their heights.
pub open spec fn stack_height(imgs: Seq<GrayRaster>) -> nat
    decreases imgs.len(),
{
    if imgs.len() == 0 {
        0
    } else {
        stack_height(imgs.drop_last()) + imgs.last().height as nat
    }
}

/// The rows of one raster at width `w`: its samples on the left, black beyond.
pub open spec fn padded_rows(img: GrayRaster, w: nat) -> Seq<u8> {
    Seq::new(
        img.height as nat * w,
        |k: int|
            if k % (w as int) < img.width {
                img.pixels@[(k / (w as int)) * img.width + k % (w as int)]
            } else {
                0u8
            },
    )
}

/// The samples of the rasters stacked top to bottom at width `w`.
pub open spec fn stack_pixels(imgs: Seq<GrayRaster>, w: nat) -> Seq<u8>
    decreases imgs.len(),
{
    if imgs.len() == 0 {
        Seq::empty()
    } else {
        stack_pixels(imgs.drop_last(), w) + padded_rows(imgs.last(), w)
    }
}

proof fn lemma_max_width_bound(imgs: Seq<GrayRaster>, i: int)
    requires
        0 <= i < imgs.len(),
    ensures
        imgs[i].width <= max_width(imgs),
        max_width(imgs) <= u32::MAX,
    decreases imgs.len(),
{
    if i < imgs.len() - 1 {
        lemma_max_width_bound(imgs.drop_last(), i);
    } else if imgs.len() > 1 {
        lemma_max_width_bound(imgs.drop_last(), 0);
    }
}

proof fn lemma_stack_height_prefix(imgs: Seq<GrayRaster>, i: int)
    requires
        0 <= i <= imgs.len(),
    ensures
        stack_height(imgs.take(i)) <= stack_height(imgs),
    decreases imgs.len() - i,
{
    if i < imgs.len() {
        lemma_stack_height_prefix(imgs, i + 1);
        assert(imgs.take(i + 1).drop_last() =~= imgs.take(i));
    } else {
        assert(imgs.take(i) =~= imgs);
    }
}

proof fn lemma_stack_pixels_len(imgs: Seq<GrayRaster>, w: nat)
    ensures
        stack_pixels(imgs, w).len() == stack_height(imgs) * w,
    decreases imgs.len(),
{
    if imgs.len() == 0 {
        assert(stack_pixels(imgs, w) =~= Seq::<u8>::empty());
        assert(stack_height(imgs) == 0);
        assert(0 * w == 0);
    } else {
        lemma_stack_pixels_len(imgs.drop_last(), w);
        assert(padded_rows(imgs.last(), w).len() == imgs.last().height as nat * w);
        assert(stack_pixels(imgs, w) == stack_pixels(imgs.drop_last(), w) + padded_rows(imgs.last(), w));
        assert(stack_height(imgs) == stack_height(imgs.drop_last()) + imgs.last().height as nat);
        assert((stack_height(imgs.drop_last()) + imgs.last().height) * w == stack_height(
            imgs.drop_last(),
        ) * w + imgs.last().height * w) by (nonlinear_arith);
    }
}

/// The rasters stacked top to bottom, each at the left edge, on a black
/// background as wide as the widest of them.
pub fn v_concat(images: &[GrayRaster]) -> (r: GrayRaster)
    requires
        forall|i: int|
            0 <= i < images@.len() ==> (#[trigger] images@[i]).pixels@.len() == images@[i].width as nat
                * images@[i].height as nat,
        stack_height(images@) <= u32::MAX,
        stack_width(images@) * stack_height(images@) <= usize::MAX,
    ensures
        r.width == stack_width(images@),
        r.height == stack_height(images@),
        r.pixels@ == stack_pixels(images@, r.width as nat),
{
    let n = images.len();
    let mut w: u32 = 0;
    for i in 0..n
        invariant
            n == images@.len(),
            w == max_width(images@.take(i as int)),
    {
        proof {
            assert(images@.take(i + 1).drop_last() =~= images@.take(i as int));
        }
        if images[i].width > w {
            w = images[i].width;
        }
    }
    assert(images@.take(n as int) =~= images@);
    if n == 0 {
        w = IMAGE_WIDTH;
    }
    let mut h: u32 = 0;
    for i in 0..n
        invariant
            n == images@.len(),
            h == stack_height(images@.take(i as int)),
            stack_height(images@) <= u32::MAX,
    {
        proof {
            assert(images@.take(i + 1).drop_last() =~= images@.take(i as int));
            lemma_stack_height_prefix(images@, i + 1);
        }
        h = h + images[i].height;
    }
    let ghost wn = w as nat;
    let mut out: Vec<u8> = Vec::new();
    for i in 0..n
        invariant
            n == images@.len(),
            w == stack_width(images@),
            h == stack_height(images@),
            w as nat * h as nat <= usize::MAX,
            forall|j: int|
                0 <= j < images@.len() ==> (#[trigger] images@[j]).pixels@.len() == images@[j].width as nat
                    * images@[j].height as nat,
            out@ == stack_pixels(images@.take(i as int), w as nat),
    {
        let img = &images[i];
        let wi = img.width;
        let hi = img.height;
        let pix = &img.pixels;
        let plen = pix.len();
        let ghost gi = images@[i as int];
        proof {
            lemma_max_width_bound(images@, i as int);
            lemma_stack_pixels_len(images@.take(i as int), w as nat);
            lemma_stack_pixels_len(images@.take(i + 1), w as nat);
            lemma_stack_height_prefix(images@, i + 1);
            assert(images@.take(i + 1).drop_last() =~= images@.take(i as int));
            assert(images@.take(i + 1).last() == gi);
            assert(stack_height(images@.take(i + 1)) * (w as nat) <= h as nat * w as nat) by (nonlinear_arith)
                requires stack_height(images@.take(i + 1)) <= h;
        }
        let ghost before = out@;
        let ghost rows = padded_rows(gi, w as nat);
        assert(out@ =~= before + rows.take(0));
        assert(0 * w as int == 0);
        for r in 0..hi
            invariant
                gi.width == wi,
                gi.height == hi,
                gi.pixels@ == pix@,
                wi <= w,
                plen == pix@.len(),
                pix@.len() == wi as nat * hi as nat,
                rows == padded_rows(gi, w as nat),
                rows.len() == hi as nat * w as nat,
                before.len() + rows.len() <= usize::MAX,
                out@ == before + rows.take(r * w),
        {
            proof {
                assert((r + 1) * w as nat <= hi as nat * w as nat) by (nonlinear_arith)
                    requires r < hi;
                assert((r + 1) * w as nat == r * w as nat + w as nat) by (nonlinear_arith);
                assert((r + 1) * wi as nat <= wi as nat * hi as nat) by (nonlinear_arith)
                    requires r < hi;
                assert((r + 1) * wi as nat == r * wi as nat + wi as nat) by (nonlinear_arith);
            }
            let row: usize = r as usize * wi as usize;
            for x in 0..w
                invariant
                    gi.width == wi,
                    gi.pixels@ == pix@,
                    wi <= w,
                    plen == pix@.len(),
                    r < hi,
                    row == r * wi,
                    row + wi <= pix@.len(),
                    rows == padded_rows(gi, w as nat),
                    (r + 1) * w as nat <= rows.len(),
                    (r + 1) * w as nat == r * w as nat + w as nat,
                    before.len() + rows.len() <= usize::MAX,
                    out@ == before + rows.take(r * w + x),
            {
                let v: u8 = if x < wi { pix[row + x as usize] } else { 0u8 };
                proof {
                    vstd::arithmetic::div_mod::lemma_fundamental_div_mod_converse(
                        r * w + x,
                        w as int,
                        r as int,
                        x as int,
                    );
                    assert(v == rows[r * w + x]);
                }
                out.push(v);
                assert(out@ =~= before + rows.take(r * w + x + 1));
            }
        }
        proof {
            assert(rows.take(hi * w) =~= rows);
            assert(stack_pixels(images@.take(i + 1), w as nat) == stack_pixels(images@.take(i as int), w as nat) + rows);
        }
    }
    assert(images@.take(n as int) =~= images@);
    GrayRaster { width: w, height: h, pixels: out }
}

} // verus!

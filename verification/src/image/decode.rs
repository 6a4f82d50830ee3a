use vstd::prelude::*;

use ::image::imageops::FilterType;

use crate::image::block::{rectangular, rows_view, Rgba8};

verus! {

/// An image as its width, its height and its pixels, four bytes each
/// (red, green, blue, alpha), row after row.
#[derive(Clone, Debug)]
pub struct ImageRows {
    pub width: u32,
    pub height: u32,
    pub pixels: Vec<u8>,
}

/// The pixels of an image of `w` by `h` whose bytes are `px`, as rows.
pub open spec fn pixel_rows(w: nat, h: nat, px: Seq<u8>) -> Seq<Seq<Rgba8>> {
    Seq::new(
        h,
        |y: int|
            Seq::new(
                w,
                |x: int|
                    Rgba8 {
                        r: px[4 * (y * w + x)],
                        g: px[4 * (y * w + x) + 1],
                        b: px[4 * (y * w + x) + 2],
                        a: px[4 * (y * w + x) + 3],
                    },
            ),
    )
}

/// The bytes of a row of pixels, four per pixel.
pub open spec fn row_bytes(row: Seq<Rgba8>) -> Seq<u8>
    decreases row.len(),
{
    if row.len() == 0 {
        Seq::empty()
    } else {
        row_bytes(row.drop_last()) + seq![row.last().r, row.last().g, row.last().b, row.last().a]
    }
}

/// The bytes of rows of pixels, row after row.
pub open spec fn flat_pixels(rows: Seq<Seq<Rgba8>>) -> Seq<u8>
    decreases rows.len(),
{
    if rows.len() == 0 {
        Seq::empty()
    } else {
        flat_pixels(rows.drop_last()) + row_bytes(rows.last())
    }
}

/// A row takes four bytes a pixel.
pub proof fn lemma_row_bytes_len(row: Seq<Rgba8>)
    ensures
        row_bytes(row).len() == 4 * row.len(),
    decreases row.len(),
{
    if row.len() > 0 {
        lemma_row_bytes_len(row.drop_last());
    }
}

/// Rows of one width take four bytes a pixel.
pub proof fn lemma_flat_len(rows: Seq<Seq<Rgba8>>)
    requires
        rectangular(rows),
    ensures
        flat_pixels(rows).len() == 4 * rows.len() * (if rows.len() > 0 { rows[0].len() } else { 0 }),
    decreases rows.len(),
{
    if rows.len() > 0 {
        let w = rows[0].len();
        let front = rows.drop_last();
        assert forall|i: int| 0 <= i < front.len() implies #[trigger] front[i].len() == front[0].len() by {
            assert(front[i] == rows[i]);
            assert(rows[i].len() == w);
            assert(rows[0].len() == w);
        }
        lemma_flat_len(front);
        lemma_row_bytes_len(rows.last());
        assert(rows[rows.len() - 1].len() == w);
        if front.len() > 0 {
            assert(front[0] == rows[0]);
        }
        assert(4 * front.len() * w + 4 * w == 4 * rows.len() * w) by (nonlinear_arith)
            requires
                front.len() + 1 == rows.len(),
        ;
    }
}

impl ImageRows {
    /// The bytes are exactly those of its width and height.
    pub open spec fn wf(&self) -> bool {
        self.pixels@.len() == 4 * self.width * self.height
    }

    /// The image as rows of pixels.
    pub open spec fn rows_view(&self) -> Seq<Seq<Rgba8>> {
        pixel_rows(self.width as nat, self.height as nat, self.pixels@)
    }
}

/// What the `image` crate decodes `bytes` to, as width, height and RGBA
/// bytes; none where it cannot decode them.
pub uninterp spec fn decoded_rgba(bytes: Seq<u8>) -> Option<(u32, u32, Seq<u8>)>;

/// The RGBA bytes the `image` crate resizes an image of `width` by
/// `height` with bytes `pixels` to, exactly `new_width` by `new_height`,
/// with the triangle filter.
pub uninterp spec fn resized_rgba(width: u32, height: u32, pixels: Seq<u8>, new_width: u32, new_height: u32) -> Seq<u8>;

/// Decodes an encoded image (its format guessed from its bytes) with
/// `image::load_from_memory`, then takes its pixels as RGBA bytes
/// (`to_rgba8`, `into_raw`). The contract names what comes out
/// (`decoded_rgba`) and says that the bytes are four per pixel, as an
/// `ImageBuffer` made by the crate holds them; what the pixels are is not
/// stated.
#[verifier::external_body]
pub fn decode_image(bytes: &[u8]) -> (r: Option<ImageRows>)
    ensures
        r is None <==> decoded_rgba(bytes@) is None,
        r matches Some(d) ==> decoded_rgba(bytes@) == Some((d.width, d.height, d.pixels@)) && d.wf(),
{
    match ::image::load_from_memory(bytes) {
        Ok(img) => {
            let buf = img.to_rgba8();
            Some(ImageRows { width: buf.width(), height: buf.height(), pixels: buf.into_raw() })
        },
        Err(_) => None,
    }
}

/// Resizes an image to exactly `width` by `height` with
/// `DynamicImage::resize_exact` and the triangle filter, over the RGBA
/// buffer that `ImageBuffer::from_raw` makes of its bytes (which holds
/// where the bytes are exactly those of its size). The contract names the
/// bytes that come out (`resized_rgba`) and says the result has the size
/// asked for, four bytes per pixel, as `resize_exact` documents; what the
/// pixels are is not stated.
#[verifier::external_body]
pub fn resize_rows(img: &ImageRows, width: u32, height: u32) -> (r: ImageRows)
    requires
        img.wf(),
        img.width > 0,
        img.height > 0,
        width > 0,
        height > 0,
    ensures
        r.width == width,
        r.height == height,
        r.wf(),
        r.pixels@ == resized_rgba(img.width, img.height, img.pixels@, width, height),
{
    let buf = ::image::RgbaImage::from_raw(img.width, img.height, img.pixels.clone()).unwrap();
    let out = ::image::DynamicImage::ImageRgba8(buf).resize_exact(width, height, FilterType::Triangle).to_rgba8();
    ImageRows { width: out.width(), height: out.height(), pixels: out.into_raw() }
}

impl ImageRows {
    /// The image as rows of pixels.
    pub fn to_rows(&self) -> (r: Vec<Vec<Rgba8>>)
        requires
            self.wf(),
        ensures
            rows_view(r@) == self.rows_view(),
    {
        let w = self.width as usize;
        let h = self.height as usize;
        let ghost px = self.pixels@;
        let mut out: Vec<Vec<Rgba8>> = Vec::new();
        let mut i: usize = 0;
        let mut y: usize = 0;
        while y < h
            invariant
                w == self.width,
                h == self.height,
                px == self.pixels@,
                px.len() == 4 * w * h,
                y <= h,
                i == 4 * (y * w),
                rows_view(out@) == self.rows_view().take(y as int),
            decreases h - y,
        {
            let mut row: Vec<Rgba8> = Vec::new();
            let mut x: usize = 0;
            while x < w
                invariant
                    w == self.width,
                    h == self.height,
                    px == self.pixels@,
                    px.len() == 4 * w * h,
                    y < h,
                    x <= w,
                    i == 4 * (y * w) + 4 * x,
                    row@ == self.rows_view()[y as int].take(x as int),
                decreases w - x,
            {
                proof {
                    assert(4 * (y * w) + 4 * x + 3 < 4 * w * h) by (nonlinear_arith)
                        requires
                            y < h,
                            x < w,
                    ;
                    assert(4 * (y * w + x) == 4 * (y * w) + 4 * x);
                    assert(self.pixels@.len() == self.pixels.len());
                }
                let p = Rgba8 {
                    r: self.pixels[i],
                    g: self.pixels[i + 1],
                    b: self.pixels[i + 2],
                    a: self.pixels[i + 3],
                };
                row.push(p);
                proof {
                    assert(row@ =~= self.rows_view()[y as int].take(x + 1));
                }
                i = i + 4;
                x = x + 1;
            }
            proof {
                assert(self.rows_view()[y as int].take(w as int) =~= self.rows_view()[y as int]);
                assert((y + 1) * w == y * w + w) by (nonlinear_arith);
                assert(rows_view(out@.push(row)) =~= rows_view(out@).push(row@));
                assert(self.rows_view().take(y + 1) =~= self.rows_view().take(y as int).push(self.rows_view()[y as int]));
            }
            out.push(row);
            y = y + 1;
        }
        proof {
            assert(self.rows_view().take(h as int) =~= self.rows_view());
        }
        out
    }
}

/// The rows as an image of their width and height. The rows must have one
/// width, and all of it must fit in memory.
pub fn from_rows(rows: &Vec<Vec<Rgba8>>) -> (r: ImageRows)
    requires
        rectangular(rows_view(rows@)),
        rows@.len() <= u32::MAX,
        rows@.len() > 0 ==> rows@[0]@.len() <= u32::MAX,
        flat_pixels(rows_view(rows@)).len() <= usize::MAX,
    ensures
        r.wf(),
        r.height == rows@.len(),
        r.width == (if rows@.len() > 0 { rows@[0]@.len() } else { 0 }),
        r.pixels@ == flat_pixels(rows_view(rows@)),
{
    let ghost rv = rows_view(rows@);
    let width: usize = if rows.len() > 0 { rows[0].len() } else { 0 };
    let mut pixels: Vec<u8> = Vec::new();
    let mut y: usize = 0;
    while y < rows.len()
        invariant
            rv == rows_view(rows@),
            rectangular(rv),
            y <= rows@.len(),
            pixels@ == flat_pixels(rv.take(y as int)),
        decreases rows@.len() - y,
    {
        let row = &rows[y];
        let ghost before = pixels@;
        let mut x: usize = 0;
        while x < row.len()
            invariant
                x <= row@.len(),
                pixels@ == before + row_bytes(row@.take(x as int)),
            decreases row@.len() - x,
        {
            let p = row[x];
            pixels.push(p.r);
            pixels.push(p.g);
            pixels.push(p.b);
            pixels.push(p.a);
            proof {
                assert(row@.take(x + 1).drop_last() =~= row@.take(x as int));
                assert(pixels@ =~= before + row_bytes(row@.take(x + 1)));
            }
            x = x + 1;
        }
        proof {
            assert(row@.take(row@.len() as int) =~= row@);
            assert(rv[y as int] == row@);
            assert(rv.take(y + 1).drop_last() =~= rv.take(y as int));
        }
        y = y + 1;
    }
    proof {
        assert(rv.take(rows@.len() as int) =~= rv);
        lemma_flat_len(rv);
        if rows@.len() > 0 {
            assert(rv[0] == rows@[0]@);
        }
        let hh = rows@.len() as int;
        let ww = width as int;
        assert(4 * hh * ww == 4 * ww * hh) by (nonlinear_arith);
    }
    ImageRows { width: width as u32, height: rows.len() as u32, pixels }
}

} // verus!

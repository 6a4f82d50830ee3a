use vstd::prelude::*;

use crate::image::block::{block_ops, image_ops, rectangular, rows_view, Rgba8};
use crate::image::decode::{decode_image, decoded_rgba, flat_pixels, from_rows, lemma_flat_len, pixel_rows, resize_rows, resized_rgba};
use crate::image::config::{Config, HorizontalAlignment, ImageAlignment, VerticalAlignment};
use crate::image::printer::{chosen_printer, Printer, PrinterChooser, PrinterKind};

verus! {

/// A decoded image: rows of pixels, top to bottom, all of one width.
#[derive(Clone, Debug)]
pub struct ImageData {
    pub rows: Vec<Vec<Rgba8>>,
}

/// An image to be shown: where to get it from, or the image itself.
#[derive(Debug)]
pub enum UnprocessedImage {
    Path(String),
    Url(String),
    /// The bytes read from a path or a url, still to be decoded.
    Encoded(Vec<u8>),
    Image(ImageData),
    Empty,
}

/// Why an image could not be readied.
#[derive(Clone, Copy, Debug, PartialEq, Eq, Structural)]
pub enum ImageError {
    /// Its bytes are no image the decoder knows.
    Undecodable,
}

/// The rows of an image, cut to the square in their middle where wider
/// than high.
pub open spec fn squared(rows: Seq<Seq<Rgba8>>) -> Seq<Seq<Rgba8>> {
    if rows.len() > 0 && rows[0].len() > rows.len() {
        square_cut(rows)
    } else {
        rows
    }
}

/// The rows of a square cut from the middle of an image wider than high.
pub open spec fn square_cut(rows: Seq<Seq<Rgba8>>) -> Seq<Seq<Rgba8>> {
    let h = rows.len();
    let w = rows[0].len();
    let x0 = (w - h) / 2;
    rows.map_values(|r: Seq<Rgba8>| r.subrange(x0, x0 + h))
}

/// An image wider than high comes out square, as wide as it is high, made
/// of the middle columns of each row: as many columns are dropped on the
/// left as on the right, or one fewer. Any other image is kept whole.
pub proof fn lemma_squared_is_middle_square(rows: Seq<Seq<Rgba8>>)
    requires
        rectangular(rows),
    ensures
        squared(rows).len() == rows.len(),
        rows.len() > 0 && rows[0].len() > rows.len() ==> {
            let h = rows.len() as int;
            let w = rows[0].len() as int;
            let left = (w - h) / 2;
            &&& 0 <= left
            &&& left <= w - (left + h) <= left + 1
            &&& forall|i: int| 0 <= i < h ==> (#[trigger] squared(rows)[i]).len() == h
            &&& forall|i: int, c: int| 0 <= i < h && 0 <= c < h ==> #[trigger] squared(rows)[i][c] == rows[i][left + c]
        },
        !(rows.len() > 0 && rows[0].len() > rows.len()) ==> squared(rows) == rows,
{
    if rows.len() > 0 && rows[0].len() > rows.len() {
        let h = rows.len() as int;
        let w = rows[0].len() as int;
        let left = (w - h) / 2;
        assert forall|i: int| 0 <= i < h implies (#[trigger] squared(rows)[i]).len() == h by {
            assert(rows[i].len() == w);
        }
        assert forall|i: int, c: int| 0 <= i < h && 0 <= c < h implies #[trigger] squared(rows)[i][c] == rows[i][left + c] by {
            assert(rows[i].len() == w);
            assert(squared(rows)[i] == rows[i].subrange(left, left + h));
        }
    }
}

impl UnprocessedImage {
    /// Whether the image still has to be fetched or decoded (an image held
    /// is ready; the empty one has to be looked at too).
    pub fn needs_preparing(&self) -> (r: bool)
        ensures
            r == !(self is Image),
    {
        match self {
            UnprocessedImage::Image(_) => false,
            _ => true,
        }
    }

    /// Cuts an image held wider than high to the square in its middle;
    /// leaves anything else as it is.
    fn cut_square(&mut self)
        requires
            *old(self) matches UnprocessedImage::Image(d) ==> rectangular(rows_view(d.rows@)),
        ensures
            match *old(self) {
                UnprocessedImage::Image(d) => *final(self) matches UnprocessedImage::Image(e) && rows_view(e.rows@)
                    == squared(rows_view(d.rows@)),
                _ => *final(self) == *old(self),
            },
    {
        match self {
            UnprocessedImage::Image(d) => {
                let h = d.rows.len();
                if h > 0 && d.rows[0].len() > h {
                    let w = d.rows[0].len();
                    let x0 = (w - h) / 2;
                    let ghost rows = rows_view(d.rows@);
                    let mut out: Vec<Vec<Rgba8>> = Vec::new();
                    let mut k: usize = 0;
                    while k < h
                        invariant
                            k <= h,
                            h == d.rows@.len(),
                            rows == rows_view(d.rows@),
                            rectangular(rows),
                            w == rows[0].len(),
                            x0 == (w - h) / 2,
                            w > h,
                            rows_view(out@) == square_cut(rows).take(k as int),
                        decreases h - k,
                    {
                        proof {
                            assert(rows[k as int].len() == w);
                            assert(d.rows@[k as int]@ == rows[k as int]);
                        }
                        let row = slice_row(&d.rows[k], x0, x0 + h);
                        let ghost prev = out@;
                        out.push(row);
                        proof {
                            assert(square_cut(rows)[k as int] == rows[k as int].subrange(x0 as int, x0 + h));
                            assert(rows_view(out@) =~= rows_view(prev).push(row@));
                            assert(rows_view(out@) =~= square_cut(rows).take(k + 1));
                        }
                        k = k + 1;
                    }
                    proof {
                        assert(square_cut(rows).take(h as int) =~= square_cut(rows));
                    }
                    d.rows = out;
                }
            },
            _ => {},
        }
    }
}

impl UnprocessedImage {
    /// Readies the image: encoded bytes are decoded into an image; an image
    /// held, decoded or not, that is wider than high is cut to the square in
    /// its middle. Reading a path or a url is the caller's, which hands the
    /// bytes in as `Encoded`; those and the empty image are left as they
    /// are. Fails, leaving the bytes, where they are no image.
    pub fn prepare_image(&mut self) -> (r: Result<(), ImageError>)
        requires
            *old(self) matches UnprocessedImage::Image(d) ==> rectangular(rows_view(d.rows@)),
        ensures
            match *old(self) {
                UnprocessedImage::Image(d) => r is Ok && (*final(self) matches UnprocessedImage::Image(e) && rows_view(e.rows@)
                    == squared(rows_view(d.rows@))),
                UnprocessedImage::Encoded(b) => match decoded_rgba(b@) {
                    None => r == Err::<(), ImageError>(ImageError::Undecodable) && *final(self) == *old(self),
                    Some((w, h, px)) => r is Ok && (*final(self) matches UnprocessedImage::Image(e) && rows_view(e.rows@)
                        == squared(pixel_rows(w as nat, h as nat, px))),
                },
                _ => r is Ok && *final(self) == *old(self),
            },
    {
        let decoded = match self {
            UnprocessedImage::Encoded(b) => match decode_image(b.as_slice()) {
                Some(d) => Some(d),
                None => {
                    return Err(ImageError::Undecodable);
                },
            },
            _ => None,
        };
        match decoded {
            Some(d) => {
                let rows = d.to_rows();
                proof {
                    assert forall|i: int| 0 <= i < rows_view(rows@).len() implies #[trigger] rows_view(rows@)[i].len()
                        == rows_view(rows@)[0].len() by {
                    }
                }
                *self = UnprocessedImage::Image(ImageData { rows });
            },
            None => {},
        }
        self.cut_square();
        Ok(())
    }
}

/// The pixels of `row` from `start` up to `end`.
fn slice_row(row: &Vec<Rgba8>, start: usize, end: usize) -> (r: Vec<Rgba8>)
    requires
        start <= end <= row@.len(),
    ensures
        r@ == row@.subrange(start as int, end as int),
{
    let mut out: Vec<Rgba8> = Vec::new();
    let mut i = start;
    while i < end
        invariant
            start <= i <= end <= row@.len(),
            out@ == row@.subrange(start as int, i as int),
        decreases end - i,
    {
        out.push(row[i]);
        proof {
            assert(row@.subrange(start as int, i + 1) =~= row@.subrange(start as int, i as int).push(row@[i as int]));
        }
        i = i + 1;
    }
    out
}

impl Printer {
    /// The printer the configuration chooses for an image already fitted to
    /// its space: half blocks at the configured place, or nothing.
    pub fn new_from_img(&mut self, rows: &Vec<Vec<Rgba8>>, config: &Config, truecolor_available: bool)
        requires
            rectangular(rows_view(rows@)),
        ensures
            final(self).ops@ == match chosen_printer(config.printer_chooser, truecolor_available) {
                PrinterKind::Block { truecolor } => image_ops(rows_view(rows@), truecolor, config.x, config.y),
                PrinterKind::Nothing => Seq::empty(),
            },
    {
        match config.printer_chooser.printer(truecolor_available) {
            PrinterKind::Block { truecolor } => {
                self.ops = block_ops(rows, truecolor, config.x, config.y);
            },
            PrinterKind::Nothing => {
                self.ops = Vec::new();
            },
        }
    }
}

/// The image has pixels, and its size and bytes fit the machine.
pub open spec fn resizable(rows: Seq<Seq<Rgba8>>) -> bool {
    &&& rows.len() > 0
    &&& rows[0].len() > 0
    &&& rows.len() <= u32::MAX
    &&& rows[0].len() <= u32::MAX
    &&& 4 * rows.len() * rows[0].len() <= usize::MAX
}

/// The rows of an image fitted to `width` by `height`: resized to exactly
/// that where the image has pixels and the size is not empty, otherwise as
/// they are.
pub open spec fn fitted(rows: Seq<Seq<Rgba8>>, width: u32, height: u32) -> Seq<Seq<Rgba8>> {
    if resizable(rows) && width > 0 && height > 0 {
        pixel_rows(
            width as nat,
            height as nat,
            resized_rgba(rows[0].len() as u32, rows.len() as u32, flat_pixels(rows), width, height),
        )
    } else {
        rows
    }
}

/// The rows of an image fitted to `width` by `height` (see `fitted`).
pub fn fit_rows(rows: &Vec<Vec<Rgba8>>, width: u32, height: u32) -> (r: Vec<Vec<Rgba8>>)
    requires
        rectangular(rows_view(rows@)),
    ensures
        rows_view(r@) == fitted(rows_view(rows@), width, height),
        rectangular(rows_view(r@)),
{
    let ghost rv = rows_view(rows@);
    let h = rows.len();
    let ok = if h == 0 || width == 0 || height == 0 {
        false
    } else {
        let w = rows[0].len();
        proof {
            assert(rv[0] == rows@[0]@);
        }
        if w == 0 || h > u32::MAX as usize || w > u32::MAX as usize {
            false
        } else {
            match 4usize.checked_mul(h) {
                Some(a) => a.checked_mul(w).is_some(),
                None => false,
            }
        }
    };
    if ok {
        proof {
            lemma_flat_len(rv);
            assert(rv[0] == rows@[0]@);
            assert(resizable(rv));
        }
        let img = from_rows(rows);
        let out = resize_rows(&img, width, height).to_rows();
        proof {
            let pr = rows_view(out@);
            assert forall|i: int| 0 <= i < pr.len() implies #[trigger] pr[i].len() == pr[0].len() by {}
        }
        out
    } else {
        proof {
            if resizable(rv) && width > 0 && height > 0 {
                assert(rv[0] == rows@[0]@);
                let ww = rv[0].len() as int;
                let hh = h as int;
                assert(4 * hh * ww <= usize::MAX);
                assert(4 * hh <= usize::MAX) by (nonlinear_arith)
                    requires
                        4 * hh * ww <= usize::MAX,
                        ww >= 1,
                        hh >= 0,
                ;
                assert(false);
            }
        }
        let mut out: Vec<Vec<Rgba8>> = Vec::new();
        let mut k: usize = 0;
        while k < rows.len()
            invariant
                k <= rows@.len(),
                rows_view(out@) == rows_view(rows@).take(k as int),
            decreases rows@.len() - k,
        {
            let row = slice_row(&rows[k], 0, rows[k].len());
            proof {
                assert(row@ =~= rows@[k as int]@);
                assert(rows_view(out@.push(row)) =~= rows_view(out@).push(row@));
                assert(rows_view(rows@).take(k + 1) =~= rows_view(rows@).take(k as int).push(rows_view(rows@)[k as int]));
            }
            out.push(row);
            k = k + 1;
        }
        proof {
            assert(rows_view(rows@).take(rows@.len() as int) =~= rows_view(rows@));
        }
        out
    }
}

/// Shows one image: where and how it is printed, what prints it, and
/// whether the space it is given changed since.
#[derive(Debug)]
pub struct ImageHandler {
    pub config: Config,
    pub printer: Printer,
    pub unprocessed_image: UnprocessedImage,
    pub dimensions_changed: bool,
}

impl ImageHandler {
    pub open spec fn changed(&self) -> bool {
        self.dimensions_changed
    }

    /// Where the space an image is shown in starts.
    pub fn set_offset(&mut self, x: u16, y: u16)
        ensures
            final(self).config == (Config { x, y, ..old(self).config }),
            final(self).printer == old(self).printer,
            final(self).unprocessed_image == old(self).unprocessed_image,
            final(self).changed() == old(self).changed(),
    {
        self.config.x = x;
        self.config.y = y;
    }

    /// How big the space an image is shown in is.
    pub fn set_size(&mut self, width: Option<u32>, height: Option<u32>)
        ensures
            final(self).config == (Config { width, height, ..old(self).config }),
            final(self).printer == old(self).printer,
            final(self).unprocessed_image == old(self).unprocessed_image,
            final(self).changed() == old(self).changed(),
    {
        self.config.width = width;
        self.config.height = height;
    }

    /// Shows another image: it is printed anew at the next chance.
    pub fn set_image(&mut self, img: UnprocessedImage)
        ensures
            final(self).unprocessed_image == img,
            final(self).config == old(self).config,
            final(self).printer == old(self).printer,
            final(self).changed(),
    {
        self.unprocessed_image = img;
        self.dimensions_changed();
    }

    /// Stops printing the image shown.
    pub fn clear_image(&mut self)
        ensures
            final(self).printer.ops@.len() == 0,
            final(self).config == old(self).config,
            final(self).unprocessed_image == old(self).unprocessed_image,
            final(self).changed() == old(self).changed(),
    {
        self.printer = Printer::default();
    }

    /// Notes that the space changed: the image is printed anew at the next chance.
    pub fn dimensions_changed(&mut self)
        ensures
            final(self).changed(),
            final(self).config == old(self).config,
            final(self).printer == old(self).printer,
            final(self).unprocessed_image == old(self).unprocessed_image,
    {
        self.dimensions_changed = true;
    }

    /// Whether a printer has to be made: the space changed and an image is held.
    pub fn needs_printer(&self) -> (r: bool)
        ensures
            r == (self.changed() && self.unprocessed_image is Image),
    {
        self.dimensions_changed && match &self.unprocessed_image {
            UnprocessedImage::Image(_) => true,
            _ => false,
        }
    }

    /// Makes the printer for the image held where the space changed: the
    /// image is fitted to `width` by `height` (the size its space comes to
    /// in pixels, which the caller measures on the terminal) and printed by
    /// the printer the configuration chooses; the image then counts as
    /// printed for this space. Says whether it made one; where the space did
    /// not change or no image is held, nothing changes.
    pub fn prepare_image(&mut self, width: u32, height: u32, truecolor_available: bool) -> (r: bool)
        requires
            old(self).unprocessed_image matches UnprocessedImage::Image(d) ==> rectangular(rows_view(d.rows@)),
        ensures
            r == (old(self).changed() && old(self).unprocessed_image is Image),
            final(self).config == old(self).config,
            final(self).unprocessed_image == old(self).unprocessed_image,
            r ==> {
                let rows = fitted(rows_view(old(self).unprocessed_image->Image_0.rows@), width, height);
                &&& !final(self).changed()
                &&& final(self).printer.ops@ == match chosen_printer(old(self).config.printer_chooser, truecolor_available) {
                    PrinterKind::Block { truecolor } => image_ops(rows, truecolor, old(self).config.x, old(self).config.y),
                    PrinterKind::Nothing => Seq::empty(),
                }
            },
            !r ==> final(self).printer == old(self).printer && final(self).changed() == old(self).changed(),
    {
        if !self.dimensions_changed {
            return false;
        }
        let rows = match &self.unprocessed_image {
            UnprocessedImage::Image(d) => fit_rows(&d.rows, width, height),
            _ => {
                return false;
            },
        };
        let mut printer = Printer::default();
        printer.new_from_img(&rows, &self.config, truecolor_available);
        self.printer = printer;
        self.dimensions_changed = false;
        true
    }

    /// Takes the printer made for the image held, fitted to the space; the
    /// image counts as printed for this space.
    pub fn install_printer(&mut self, printer: Printer)
        ensures
            final(self).printer == printer,
            !final(self).changed(),
            final(self).config == old(self).config,
            final(self).unprocessed_image == old(self).unprocessed_image,
    {
        self.printer = printer;
        self.dimensions_changed = false;
    }
}

impl Default for ImageHandler {
    /// Nothing shown, at the top left corner, no bounds, the default printer,
    /// the cursor put back after printing.
    fn default() -> (r: ImageHandler)
        ensures
            r.config.x == 0 && r.config.y == 0,
            r.config.restore_cursor,
            r.config.width is None && r.config.height is None,
            r.config.printer_chooser == PrinterChooser::Default,
            r.config.alignment.horizontal_spec() == HorizontalAlignment::Center,
            r.config.alignment.vertical_spec() == VerticalAlignment::Center,
            r.printer.ops@.len() == 0,
            r.unprocessed_image is Empty,
            !r.changed(),
    {
        ImageHandler {
            config: Config {
                x: 0,
                y: 0,
                restore_cursor: true,
                width: None,
                height: None,
                printer_chooser: PrinterChooser::Default,
                alignment: ImageAlignment::default(),
            },
            printer: Printer::default(),
            unprocessed_image: UnprocessedImage::Empty,
            dimensions_changed: false,
        }
    }
}

} // verus!

use vstd::prelude::*;

use image::RgbImage;

use crate::color::{opaque, PColor};

verus! {

/// An RGB image, 8 bits per channel.
///
/// The pixels live in an `image::RgbImage`. The contracts know of it what the names
/// `image_dimensions` and `image_pixels` hold, as the functions below that call into
/// the `image` crate state them.
#[verifier::external_body]
pub struct Image {
    buf: RgbImage,
}

/// The width and the height of an image.
pub uninterp spec fn image_dimensions(img: Image) -> (u32, u32);

/// The red, green and blue channels of the pixel at each `(x, y)` of an image.
pub uninterp spec fn image_pixels(img: Image) -> Map<(u32, u32), (u8, u8, u8)>;

/// The width of an image.
pub open spec fn width_of(img: Image) -> nat {
    image_dimensions(img).0 as nat
}

/// The height of an image.
pub open spec fn height_of(img: Image) -> nat {
    image_dimensions(img).1 as nat
}

/// The opaque color stored at `(x, y)`.
pub open spec fn pixel_of(img: Image, x: int, y: int) -> PColor {
    let (r, g, b) = image_pixels(img)[(x as u32, y as u32)];
    opaque(r, g, b)
}

/// An image as its rows of colors, top to bottom, each left to right.
pub open spec fn grid_of(img: Image) -> Seq<Seq<PColor>> {
    Seq::new(height_of(img), |y: int| Seq::new(width_of(img), |x: int| pixel_of(img, x, y)))
}

/// Relies on `ImageBuffer::width`, which returns the width the image was made with.
#[verifier::external_body]
fn buffer_width(img: &Image) -> (r: u32)
    ensures
        r == image_dimensions(*img).0,
{
    img.buf.width()
}

/// Relies on `ImageBuffer::height`, which returns the height the image was made with.
#[verifier::external_body]
fn buffer_height(img: &Image) -> (r: u32)
    ensures
        r == image_dimensions(*img).1,
{
    img.buf.height()
}

/// Relies on `ImageBuffer::get_pixel`, which returns the pixel stored at `(x, y)` and
/// panics outside the image.
#[verifier::external_body]
fn read_channels(img: &Image, x: u32, y: u32) -> (r: (u8, u8, u8))
    requires
        x < image_dimensions(*img).0,
        y < image_dimensions(*img).1,
    ensures
        r == image_pixels(*img)[(x, y)],
{
    let p = img.buf.get_pixel(x, y);
    (p.0[0], p.0[1], p.0[2])
}

/// Relies on `ImageBuffer::put_pixel`, which overwrites the pixel at `(x, y)` alone,
/// keeps the dimensions, and panics outside the image.
#[verifier::external_body]
fn write_channels(img: &mut Image, x: u32, y: u32, c: (u8, u8, u8))
    requires
        x < image_dimensions(*old(img)).0,
        y < image_dimensions(*old(img)).1,
    ensures
        image_dimensions(*final(img)) == image_dimensions(*old(img)),
        forall|i: u32, j: u32|
            i < image_dimensions(*old(img)).0 && j < image_dimensions(*old(img)).1 ==> (
            #[trigger] image_pixels(*final(img))[(i, j)]) == if i == x && j == y {
                c
            } else {
                image_pixels(*old(img))[(i, j)]
            },
{
    img.buf.put_pixel(x, y, image::Rgb([c.0, c.1, c.2]));
}

/// Relies on `ImageBuffer::from_raw`, which gives `None` unless the bytes hold
/// `3 * width * height` channels, and otherwise keeps the bytes as they are, pixel
/// `(x, y)` being the three from `3 * (y * width + x)` on.
#[verifier::external_body]
fn buffer_from_raw(width: u32, height: u32, data: Vec<u8>) -> (r: Option<Image>)
    ensures
        r is Some <==> 3 * width * height <= data@.len(),
        r matches Some(img) ==> image_dimensions(img) == (width, height) && forall|x: u32, y: u32|
            x < width && y < height ==> #[trigger] image_pixels(img)[(x, y)] == raw_pixel(
                data@,
                width as int,
                x as int,
                y as int,
            ),
{
    match image::ImageBuffer::from_raw(width, height, data) {
        Some(buf) => Some(Image { buf }),
        None => None,
    }
}

/// Relies on `ImageBuffer::into_raw`, which hands back the bytes that hold the pixels,
/// pixel `(x, y)` being the three from `3 * (y * width + x)` on.
#[verifier::external_body]
fn buffer_into_raw(img: Image) -> (r: Vec<u8>)
    ensures
        3 * width_of(img) * height_of(img) <= r@.len(),
        forall|x: u32, y: u32|
            x < width_of(img) && y < height_of(img) ==> raw_pixel(
                r@,
                width_of(img) as int,
                x as int,
                y as int,
            ) == #[trigger] image_pixels(img)[(x, y)],
{
    img.buf.into_raw()
}

/// The three channels of pixel `(x, y)` in row-major bytes of an image `width` wide.
pub open spec fn raw_pixel(data: Seq<u8>, width: int, x: int, y: int) -> (u8, u8, u8) {
    let i = 3 * (y * width + x);
    (data[i], data[i + 1], data[i + 2])
}

impl Image {
    /// An image of the given dimensions over row-major bytes, three per pixel (red,
    /// green, blue); `None` when there are fewer than `3 * width * height` bytes.
    pub fn from_raw(width: u32, height: u32, data: Vec<u8>) -> (r: Option<Image>)
        ensures
            r is Some <==> 3 * width * height <= data@.len(),
            r matches Some(img) ==> image_dimensions(img) == (width, height) && forall|
                x: u32,
                y: u32,
            |
                x < width && y < height ==> #[trigger] image_pixels(img)[(x, y)] == raw_pixel(
                    data@,
                    width as int,
                    x as int,
                    y as int,
                ),
    {
        buffer_from_raw(width, height, data)
    }

    /// The bytes of the image, row-major, three per pixel (red, green, blue).
    pub fn into_raw(self) -> (r: Vec<u8>)
        ensures
            3 * width_of(self) * height_of(self) <= r@.len(),
            forall|x: u32, y: u32|
                x < width_of(self) && y < height_of(self) ==> raw_pixel(
                    r@,
                    width_of(self) as int,
                    x as int,
                    y as int,
                ) == #[trigger] image_pixels(self)[(x, y)],
    {
        buffer_into_raw(self)
    }

    /// The width of the image.
    pub fn width(&self) -> (r: u32)
        ensures
            r == width_of(*self),
    {
        buffer_width(self)
    }

    /// The height of the image.
    pub fn height(&self) -> (r: u32)
        ensures
            r == height_of(*self),
    {
        buffer_height(self)
    }

    /// The color of the pixel at `(x, y)`.
    pub fn get_color(&self, x: u32, y: u32) -> (r: PColor)
        requires
            x < width_of(*self),
            y < height_of(*self),
        ensures
            r == grid_of(*self)[y as int][x as int],
    {
        let (red, green, blue) = read_channels(self, x, y);
        PColor::new(red, green, blue)
    }

    /// The colors of row `y`, left to right.
    pub fn row(&self, y: u32) -> (line: Vec<PColor>)
        requires
            y < height_of(*self),
        ensures
            line@ == grid_of(*self)[y as int],
    {
        let w = self.width();
        let mut line: Vec<PColor> = Vec::new();
        let mut x: u32 = 0;
        while x < w
            invariant
                w == width_of(*self),
                y < height_of(*self),
                x <= w,
                line@ == grid_of(*self)[y as int].subrange(0, x as int),
            decreases w - x,
        {
            line.push(self.get_color(x, y));
            x += 1;
        }
        line
    }

    /// The colors of column `x`, top to bottom.
    pub fn column(&self, x: u32) -> (line: Vec<PColor>)
        requires
            x < width_of(*self),
        ensures
            line@ == column(grid_of(*self), x as int),
    {
        let h = self.height();
        let mut line: Vec<PColor> = Vec::new();
        let mut y: u32 = 0;
        while y < h
            invariant
                h == height_of(*self),
                x < width_of(*self),
                y <= h,
                line@ == column(grid_of(*self), x as int).subrange(0, y as int),
            decreases h - y,
        {
            line.push(self.get_color(x, y));
            y += 1;
        }
        line
    }

    /// Stores the red, green and blue channels of `c` at `(x, y)`.
    pub fn set_color(&mut self, x: u32, y: u32, c: PColor)
        requires
            x < width_of(*old(self)),
            y < height_of(*old(self)),
        ensures
            image_dimensions(*final(self)) == image_dimensions(*old(self)),
            grid_of(*final(self)) == grid_of(*old(self)).update(
                y as int,
                grid_of(*old(self))[y as int].update(x as int, opaque(c.red, c.green, c.blue)),
            ),
    {
        write_channels(self, x, y, (c.red, c.green, c.blue));
        proof {
            let g0 = grid_of(*old(self));
            let g1 = grid_of(*self);
            let expect = g0.update(
                y as int,
                g0[y as int].update(x as int, opaque(c.red, c.green, c.blue)),
            );
            assert forall|j: int| 0 <= j < g1.len() implies g1[j] =~= expect[j] by {
                assert forall|i: int| 0 <= i < g1[j].len() implies g1[j][i] == expect[j][i] by {
                    let key = (i as u32, j as u32);
                    assert(image_pixels(*self)[key] == if i as u32 == x && j as u32 == y {
                        (c.red, c.green, c.blue)
                    } else {
                        image_pixels(*old(self))[key]
                    });
                }
            }
            assert(g1 =~= expect);
        }
    }
}

/// Column `x` of a grid of rows, top to bottom.
pub open spec fn column(g: Seq<Seq<PColor>>, x: int) -> Seq<PColor> {
    Seq::new(g.len(), |y: int| g[y][x])
}

} // verus!

//! Notification images: checking and unpacking raw pixel data sent with a
//! notification, shrinking images to thumbnails, drawing them on a card,
//! and where an image named by path or icon is read from.

use vstd::prelude::*;

use crate::text::{chars_of, string_from_chars};

verus! {

broadcast use vstd::string::group_string_axioms;

/// The largest width or height accepted for an image.
pub const MAX_IMAGE_DIMENSION: u32 = 4096;

/// The most bytes of pixel data accepted for an image.
pub const MAX_IMAGE_BYTES: usize = 67108864;

/// An RGBA image, four bytes per pixel, rows top to bottom.
pub struct Image {
    width: u32,
    height: u32,
    pixels: Vec<u8>,
}

impl Image {
    pub closed spec fn spec_width(&self) -> u32 {
        self.width
    }

    pub closed spec fn spec_height(&self) -> u32 {
        self.height
    }

    /// The RGBA bytes of the image.
    pub closed spec fn spec_pixels(&self) -> Seq<u8> {
        self.pixels@
    }

    pub closed spec fn wf(&self) -> bool {
        self.pixels@.len() == 4 * (self.width as int) * (self.height as int)
    }

    /// An image from its RGBA bytes; `None` when their number does not match
    /// the dimensions.
    pub fn from_rgba(width: u32, height: u32, pixels: Vec<u8>) -> (r: Option<Image>)
        ensures
            match r {
                Some(image) => {
                    &&& pixels@.len() == 4 * (width as int) * (height as int)
                    &&& image.wf()
                    &&& image.spec_width() == width
                    &&& image.spec_height() == height
                    &&& image.spec_pixels() == pixels@
                },
                None => pixels@.len() != 4 * (width as int) * (height as int),
            },
    {
        proof {
            assert((width as int) * (height as int) <= 0xFFFF_FFFFint * 0xFFFF_FFFFint)
                by (nonlinear_arith)
                requires
                    width <= 0xFFFF_FFFF,
                    height <= 0xFFFF_FFFF,
            ;
            assert(4 * (width as int) * (height as int) == (width as int) * (height as int) * 4)
                by (nonlinear_arith);
        }
        let expected = (width as u128) * (height as u128) * 4;
        if pixels.len() as u128 == expected {
            Some(Image { width, height, pixels })
        } else {
            None
        }
    }

    pub fn dimensions(&self) -> (d: (u32, u32))
        ensures
            d == (self.spec_width(), self.spec_height()),
    {
        (self.width, self.height)
    }

    pub fn pixels(&self) -> (p: &[u8])
        ensures
            p@ == self.spec_pixels(),
    {
        self.pixels.as_slice()
    }
}

/// Raw image data as a notification's `image-data` hint carries it:
/// dimensions, bytes per row, whether there is an alpha channel, bits per
/// sample, channels, and the bytes.
pub struct RawImage {
    pub width: i32,
    pub height: i32,
    pub rowstride: i32,
    pub has_alpha: bool,
    pub bits_per_sample: i32,
    pub channels: i32,
    pub bytes: Vec<u8>,
}

/// The first `height` rows of `row_len` bytes, rows starting every
/// `rowstride` bytes.
pub open spec fn rows_of(bytes: Seq<u8>, rowstride: int, row_len: int, height: nat) -> Seq<u8>
    decreases height,
{
    if height == 0 {
        Seq::empty()
    } else {
        let start = (height - 1) * rowstride;
        rows_of(bytes, rowstride, row_len, (height - 1) as nat) + bytes.subrange(start, start + row_len)
    }
}

/// The first `n` pixels of three-byte RGB data, each given an opaque alpha
/// byte.
pub open spec fn rgb_to_rgba(p: Seq<u8>, n: nat) -> Seq<u8>
    decreases n,
{
    if n == 0 {
        Seq::empty()
    } else {
        let k = 3 * (n - 1);
        rgb_to_rgba(p, (n - 1) as nat) + seq![p[k], p[k + 1], p[k + 2], 255u8]
    }
}

/// The image raw data describes, as width, height and RGBA bytes: `None`
/// unless it is 8-bit RGB or RGBA of 1 to 4096 pixels each way, with rows
/// at least as long as their pixels and all rows present, within the size
/// limits.
pub open spec fn decoded_raw(raw: RawImage) -> Option<(u32, u32, Seq<u8>)> {
    let bytes = raw.bytes@;
    if bytes.len() > MAX_IMAGE_BYTES || raw.width < 0 || raw.height < 0 || raw.rowstride < 0
        || raw.channels < 0 {
        None
    } else if raw.width == 0 || raw.height == 0 || raw.width > MAX_IMAGE_DIMENSION || raw.height
        > MAX_IMAGE_DIMENSION || raw.bits_per_sample != 8 || !((!raw.has_alpha && raw.channels == 3)
        || (raw.has_alpha && raw.channels == 4)) {
        None
    } else {
        let row = raw.width * raw.channels;
        let packed = row * raw.height;
        let required = raw.rowstride * raw.height;
        if required > usize::MAX || packed > MAX_IMAGE_BYTES || required > MAX_IMAGE_BYTES
            || raw.rowstride < row || bytes.len() < required {
            None
        } else {
            let p = rows_of(bytes, raw.rowstride as int, row, raw.height as nat);
            Some(
                (
                    raw.width as u32,
                    raw.height as u32,
                    if raw.has_alpha {
                        p
                    } else {
                        rgb_to_rgba(p, (raw.width * raw.height) as nat)
                    },
                ),
            )
        }
    }
}

proof fn lemma_rows_of_len(bytes: Seq<u8>, rowstride: int, row_len: int, height: nat)
    requires
        0 <= row_len <= rowstride,
        rowstride * height <= bytes.len(),
    ensures
        rows_of(bytes, rowstride, row_len, height).len() == row_len * height,
    decreases height,
{
    if height > 0 {
        assert(rowstride * (height - 1) <= rowstride * height) by (nonlinear_arith)
            requires
                rowstride >= 0,
                height >= 1,
        ;
        assert((height - 1) * rowstride + row_len <= rowstride * height) by (nonlinear_arith)
            requires
                row_len <= rowstride,
                height >= 1,
        ;
        assert(row_len * (height - 1) + row_len == row_len * height) by (nonlinear_arith);
        assert((height - 1) * rowstride >= 0) by (nonlinear_arith)
            requires
                rowstride >= 0,
                height >= 1,
        ;
        lemma_rows_of_len(bytes, rowstride, row_len, (height - 1) as nat);
        let start = (height - 1) * rowstride;
        assert(bytes.subrange(start, start + row_len).len() == row_len);
        assert(rows_of(bytes, rowstride, row_len, height) == rows_of(bytes, rowstride, row_len, (height - 1) as nat) + bytes.subrange(start, start + row_len));
    } else {
        assert(row_len * height == 0) by (nonlinear_arith)
            requires
                height == 0,
        ;
    }
}

proof fn lemma_rows_of_packed(bytes: Seq<u8>, row_len: int, height: nat)
    requires
        0 <= row_len,
        row_len * height <= bytes.len(),
    ensures
        rows_of(bytes, row_len, row_len, height) == bytes.take(row_len * height),
    decreases height,
{
    if height > 0 {
        assert(row_len * (height - 1) <= row_len * height) by (nonlinear_arith)
            requires
                row_len >= 0,
                height >= 1,
        ;
        assert((height - 1) * row_len + row_len == row_len * height) by (nonlinear_arith);
        assert((height - 1) * row_len == row_len * (height - 1)) by (nonlinear_arith);
        assert(row_len * (height - 1) >= 0) by (nonlinear_arith)
            requires
                row_len >= 0,
                height >= 1,
        ;
        lemma_rows_of_packed(bytes, row_len, (height - 1) as nat);
        assert(bytes.take(row_len * (height - 1)) + bytes.subrange(
            row_len * (height - 1),
            row_len * height,
        ) =~= bytes.take(row_len * height));
    } else {
        assert(row_len * height == 0) by (nonlinear_arith)
            requires
                height == 0,
        ;
        assert(bytes.take(0) =~= Seq::<u8>::empty());
    }
}

fn copy_rows(bytes: &Vec<u8>, rowstride: usize, row_len: usize, height: usize) -> (p: Vec<u8>)
    requires
        row_len <= rowstride,
        (rowstride as int) * (height as int) <= bytes@.len(),
    ensures
        p@ == rows_of(bytes@, rowstride as int, row_len as int, height as nat),
{
    let mut p: Vec<u8> = Vec::new();
    let mut row: usize = 0;
    while row < height
        invariant
            row <= height,
            row_len <= rowstride,
            (rowstride as int) * (height as int) <= bytes@.len(),
            p@ == rows_of(bytes@, rowstride as int, row_len as int, row as nat),
        decreases height - row,
    {
        proof {
            assert((row as int) * (rowstride as int) + (rowstride as int) <= (rowstride as int) * (
            height as int)) by (nonlinear_arith)
                requires
                    row < height,
            ;
            assert(bytes@.len() == bytes.len());
        }
        let start = row * rowstride;
        let mut i: usize = 0;
        let ghost before = p@;
        while i < row_len
            invariant
                i <= row_len,
                row_len <= rowstride,
                start + rowstride <= bytes@.len(),
                bytes@.len() == bytes.len(),
                p@ == before + bytes@.subrange(start as int, start + i),
            decreases row_len - i,
        {
            p.push(bytes[start + i]);
            proof {
                assert(bytes@.subrange(start as int, start + i + 1) =~= bytes@.subrange(
                    start as int,
                    start + i,
                ).push(bytes@[start + i]));
            }
            i = i + 1;
        }
        proof {
            assert(((row + 1) as nat - 1) * rowstride == start);
        }
        row = row + 1;
    }
    p
}

fn rgb_pixels_to_rgba(p: &Vec<u8>, n: usize) -> (out: Vec<u8>)
    requires
        3 * n <= p@.len(),
    ensures
        out@ == rgb_to_rgba(p@, n as nat),
        out@.len() == 4 * n,
{
    let mut out: Vec<u8> = Vec::new();
    let mut k: usize = 0;
    assert(p@.len() == p.len());
    while k < n
        invariant
            k <= n,
            3 * n <= p@.len(),
            p@.len() == p.len(),
            out@ == rgb_to_rgba(p@, k as nat),
            out@.len() == 4 * k,
        decreases n - k,
    {
        let ghost before = out@;
        out.push(p[3 * k]);
        out.push(p[3 * k + 1]);
        out.push(p[3 * k + 2]);
        out.push(255u8);
        proof {
            assert(out@ =~= before + seq![p@[3 * k as int], p@[3 * k + 1], p@[3 * k + 2], 255u8]);
        }
        k = k + 1;
    }
    out
}

/// Unpacks raw image data into an RGBA image.
pub fn decode_raw_image(raw: RawImage) -> (r: Option<Image>)
    ensures
        match decoded_raw(raw) {
            Some((w, h, p)) => r is Some && r->Some_0.wf() && r->Some_0.spec_width() == w
                && r->Some_0.spec_height() == h && r->Some_0.spec_pixels() == p,
            None => r is None,
        },
{
    let ghost model = decoded_raw(raw);
    if raw.bytes.len() > MAX_IMAGE_BYTES || raw.width < 0 || raw.height < 0 || raw.rowstride < 0
        || raw.channels < 0 {
        return None;
    }
    if raw.width == 0 || raw.height == 0 || raw.width > 4096 || raw.height > 4096
        || raw.bits_per_sample != 8 || !((!raw.has_alpha && raw.channels == 3) || (raw.has_alpha
        && raw.channels == 4)) {
        return None;
    }
    let width = raw.width as usize;
    let height = raw.height as usize;
    let rowstride = raw.rowstride as usize;
    let channels = raw.channels as usize;
    proof {
        assert(width * channels <= 4096 * 4) by (nonlinear_arith)
            requires
                width <= 4096,
                channels <= 4,
        ;
    }
    let row_len = width * channels;
    proof {
        assert((row_len as int) * (height as int) <= 4096 * 4 * 4096) by (nonlinear_arith)
            requires
                row_len == width * channels,
                width <= 4096,
                channels <= 4,
                height <= 4096,
        ;
    }
    let packed_len = row_len * height;
    let required_len = match rowstride.checked_mul(height) {
        Some(v) => v,
        None => {
            return None;
        },
    };
    if packed_len > MAX_IMAGE_BYTES || required_len > MAX_IMAGE_BYTES || rowstride < row_len
        || raw.bytes.len() < required_len {
        return None;
    }
    let has_alpha = raw.has_alpha;
    let mut bytes = raw.bytes;
    let pixels = if rowstride == row_len {
        proof {
            lemma_rows_of_packed(bytes@, row_len as int, height as nat);
        }
        bytes.truncate(packed_len);
        bytes
    } else {
        copy_rows(&bytes, rowstride, row_len, height)
    };
    proof {
        lemma_rows_of_len(raw.bytes@, rowstride as int, row_len as int, height as nat);
        assert((width as int) * (channels as int) * (height as int) == (channels as int) * ((width
            as int) * (height as int))) by (nonlinear_arith);
    }
    if has_alpha {
        proof {
            assert(4 * (width as int) * (height as int) == (width as int) * 4 * (height as int))
                by (nonlinear_arith);
        }
        Image::from_rgba(width as u32, height as u32, pixels)
    } else {
        proof {
            assert((width as int) * (height as int) <= 4096 * 4096) by (nonlinear_arith)
                requires
                    width <= 4096,
                    height <= 4096,
            ;
            assert(4 * ((width as int) * (height as int)) == 4 * (width as int) * (height as int))
                by (nonlinear_arith);
        }
        let rgba = rgb_pixels_to_rgba(&pixels, width * height);
        Image::from_rgba(width as u32, height as u32, rgba)
    }
}

/// The pixels of an image shrunk or stretched to `size` by `size`.
pub uninterp spec fn thumbnail_pixels(pixels: Seq<u8>, width: u32, height: u32, size: u32) -> Seq<u8>;

/// Resizes an image to a `size` by `size` thumbnail.
///
/// Trusted: calls `image::imageops::thumbnail`, whose source builds a new
/// buffer of exactly the asked dimensions and fills it from the source
/// image; what the pixels hold is left to the name `thumbnail_pixels`.
#[verifier::external_body]
fn resize_to_thumbnail(image: &Image, size: u32) -> (t: Image)
    requires
        image.wf(),
        4 * (size as int) * (size as int) <= usize::MAX,
    ensures
        t.wf(),
        t.spec_width() == size,
        t.spec_height() == size,
        t.spec_pixels() == thumbnail_pixels(
            image.spec_pixels(),
            image.spec_width(),
            image.spec_height(),
            size,
        ),
{
    let source = image::RgbaImage::from_raw(image.width, image.height, image.pixels.clone()).unwrap();
    let thumbnail = image::imageops::thumbnail(&source, size, size);
    Image { width: size, height: size, pixels: thumbnail.into_raw() }
}

impl Image {
    /// This image as a `size` by `size` thumbnail.
    pub fn thumbnail(&self, size: u32) -> (t: Image)
        requires
            self.wf(),
            4 * (size as int) * (size as int) <= usize::MAX,
        ensures
            t.wf(),
            t.spec_width() == size,
            t.spec_height() == size,
            t.spec_pixels() == thumbnail_pixels(
                self.spec_pixels(),
                self.spec_width(),
                self.spec_height(),
                size,
            ),
    {
        resize_to_thumbnail(self, size)
    }
}

/// The width, height and RGBA bytes `image` decodes an image file's bytes
/// to, its format guessed from the bytes and its width and height held to
/// `max_dimension` and its allocations to `max_alloc` bytes; `None` when the
/// bytes are no image it can decode within those limits.
pub uninterp spec fn decoded_file_image(bytes: Seq<u8>, max_dimension: u32, max_alloc: u64) -> Option<
    (u32, u32, Seq<u8>),
>;

/// Decodes the bytes of an image file to RGBA.
///
/// Trusted: reads the bytes with `image::ImageReader::with_guessed_format`
/// under `image::Limits` of the given sizes, decodes them and converts the
/// result with `to_rgba8`; the outcome is left to the name
/// `decoded_file_image`.
#[verifier::external_body]
fn decode_file_bytes(bytes: &[u8], max_dimension: u32, max_alloc: u64) -> (r: Option<
    (u32, u32, Vec<u8>),
>)
    ensures
        match r {
            Some((w, h, p)) => decoded_file_image(bytes@, max_dimension, max_alloc) == Some(
                (w, h, p@),
            ),
            None => decoded_file_image(bytes@, max_dimension, max_alloc) is None,
        },
{
    let mut reader = image::ImageReader::new(std::io::Cursor::new(bytes)).with_guessed_format().ok()?;
    let mut limits = image::Limits::default();
    limits.max_image_width = Some(max_dimension);
    limits.max_image_height = Some(max_dimension);
    limits.max_alloc = Some(max_alloc);
    reader.limits(limits);
    let rgba = reader.decode().ok()?.to_rgba8();
    let (width, height) = rgba.dimensions();
    Some((width, height, rgba.into_raw()))
}

/// Decodes an image file's bytes, with each side held to
/// [`MAX_IMAGE_DIMENSION`] and the decoder's allocations to
/// [`MAX_IMAGE_BYTES`].
pub fn decode_image_bytes(bytes: &[u8]) -> (r: Option<Image>)
    ensures
        match decoded_file_image(bytes@, MAX_IMAGE_DIMENSION, MAX_IMAGE_BYTES as u64) {
            Some((w, h, p)) => if p.len() == 4 * (w as int) * (h as int) {
                r is Some && r->Some_0.wf() && r->Some_0.spec_width() == w
                    && r->Some_0.spec_height() == h && r->Some_0.spec_pixels() == p
            } else {
                r is None
            },
            None => r is None,
        },
{
    match decode_file_bytes(bytes, MAX_IMAGE_DIMENSION, MAX_IMAGE_BYTES as u64) {
        Some((width, height, pixels)) => Image::from_rgba(width, height, pixels),
        None => None,
    }
}

/// Where a notification's picture is to come from.
#[derive(Debug, PartialEq, Eq)]
pub enum ImageSource {
    /// It gets none.
    Nothing,
    /// The raw image data it was sent.
    Raw,
    /// The image file its path hint names.
    Path(String),
    /// Its application icon, read as an image file.
    AppIcon(String),
}

/// Picks a notification's picture: none when thumbnails are turned off
/// (size 0), else the raw image data, else the image path hint, else the
/// application icon when there is one.
pub fn image_source(thumbnail_size: u32, has_raw: bool, path: Option<String>, app_icon: &str) -> (s:
    ImageSource)
    ensures
        thumbnail_size == 0 ==> s == ImageSource::Nothing,
        thumbnail_size != 0 && has_raw ==> s == ImageSource::Raw,
        thumbnail_size != 0 && !has_raw && path is Some ==> (s matches ImageSource::Path(p) && p@
            == path->Some_0@),
        thumbnail_size != 0 && !has_raw && path is None && app_icon@.len() > 0 ==> (
        s matches ImageSource::AppIcon(i) && i@ == app_icon@),
        thumbnail_size != 0 && !has_raw && path is None && app_icon@.len() == 0 ==> s
            == ImageSource::Nothing,
{
    if thumbnail_size == 0 {
        return ImageSource::Nothing;
    }
    if has_raw {
        return ImageSource::Raw;
    }
    match path {
        Some(path) => ImageSource::Path(path),
        None => if app_icon.is_empty() {
            ImageSource::Nothing
        } else {
            ImageSource::AppIcon(app_icon.to_owned())
        },
    }
}

/// The file an image path names: a `file://` URL must go on with an
/// absolute path, which is what is read; any other path is read as given.
pub open spec fn image_file(path: Seq<char>) -> Option<Seq<char>> {
    if path.len() >= 7 && path.take(7) == "file://"@ {
        let rest = path.skip(7);
        if rest.len() > 0 && rest[0] == '/' {
            Some(rest)
        } else {
            None
        }
    } else {
        Some(path)
    }
}

/// The file an application icon names: only an absolute path or a
/// `file://` URL is read as an image file; other icons are theme names.
pub open spec fn icon_file(icon: Seq<char>) -> Option<Seq<char>> {
    if (icon.len() > 0 && icon[0] == '/') || (icon.len() >= 7 && icon.take(7) == "file://"@) {
        image_file(icon)
    } else {
        None
    }
}

fn has_file_scheme(chars: &Vec<char>) -> (b: bool)
    ensures
        b == (chars@.len() >= 7 && chars@.take(7) == "file://"@),
{
    proof {
        reveal_strlit("file://");
    }
    if chars.len() < 7 {
        return false;
    }
    let b = chars[0] == 'f' && chars[1] == 'i' && chars[2] == 'l' && chars[3] == 'e' && chars[4]
        == ':' && chars[5] == '/' && chars[6] == '/';
    proof {
        if b {
            assert(chars@.take(7) =~= "file://"@);
        } else {
            if chars@.take(7) == "file://"@ {
                assert(chars@.take(7)[0] == 'f');
                assert(chars@.take(7)[1] == 'i');
                assert(chars@.take(7)[2] == 'l');
                assert(chars@.take(7)[3] == 'e');
                assert(chars@.take(7)[4] == ':');
                assert(chars@.take(7)[5] == '/');
                assert(chars@.take(7)[6] == '/');
            }
        }
    }
    b
}

/// The file to read for an image path hint.
pub fn image_path_file(path: &str) -> (r: Option<String>)
    ensures
        match r {
            Some(f) => image_file(path@) == Some(f@),
            None => image_file(path@) is None,
        },
{
    let chars = chars_of(path);
    if has_file_scheme(&chars) {
        if chars.len() > 7 && chars[7] == '/' {
            let mut rest: Vec<char> = Vec::new();
            let mut i: usize = 7;
            while i < chars.len()
                invariant
                    7 <= i <= chars@.len(),
                    rest@ == chars@.subrange(7, i as int),
                decreases chars@.len() - i,
            {
                rest.push(chars[i]);
                i = i + 1;
            }
            proof {
                assert(rest@ =~= path@.skip(7));
            }
            Some(string_from_chars(rest.as_slice()))
        } else {
            None
        }
    } else {
        Some(path.to_owned())
    }
}

/// The file to read for an application icon, if it names one.
pub fn app_icon_file(icon: &str) -> (r: Option<String>)
    ensures
        match r {
            Some(f) => icon_file(icon@) == Some(f@),
            None => icon_file(icon@) is None,
        },
{
    let chars = chars_of(icon);
    if (chars.len() > 0 && chars[0] == '/') || has_file_scheme(&chars) {
        image_path_file(icon)
    } else {
        None
    }
}

/// A channel of an image pixel laid over a canvas byte by the pixel's alpha.
pub open spec fn over(source: u8, target: u8, alpha: u8) -> u8 {
    ((source * alpha + target * (255 - alpha)) / 255) as u8
}

/// The canvas byte `i` after an image is drawn with its top-left corner at
/// (`draw_x`, `draw_y`): canvas pixels under the image get the image pixel
/// laid over them (blue, green and red from the image's red, green and blue
/// order) and become opaque; the rest keep their old bytes.
pub open spec fn thumbnail_byte(
    old: Seq<u8>,
    i: int,
    canvas_width: int,
    image: Seq<u8>,
    width: int,
    height: int,
    draw_x: int,
    draw_y: int,
) -> u8 {
    let q = i / 4;
    let k = i % 4;
    let tx = q % canvas_width;
    let ty = q / canvas_width;
    if draw_x <= tx < draw_x + width && draw_y <= ty < draw_y + height {
        let m = (ty - draw_y) * width + (tx - draw_x);
        if k == 3 {
            0xFFu8
        } else {
            over(image[4 * m + (2 - k)], old[i], image[4 * m + 3])
        }
    } else {
        old[i]
    }
}

/// The smaller of two integers.
pub open spec fn min_int(a: int, b: int) -> int {
    if a < b {
        a
    } else {
        b
    }
}

/// Every canvas pixel an image drawn at (`draw_x`, `draw_y`) covers has a
/// byte index, four times its pixel index, that fits in a `u32`: it holds
/// when the last such pixel's does.
pub open spec fn drawn_indices_fit(
    canvas_width: int,
    canvas_height: int,
    draw_x: int,
    draw_y: int,
    width: int,
    height: int,
) -> bool {
    width == 0 || height == 0 || draw_x >= canvas_width || draw_y >= canvas_height || 4 * ((
    min_int(draw_y + height, canvas_height) - 1) * canvas_width + (min_int(
        draw_x + width,
        canvas_width,
    ) - 1)) <= u32::MAX
}

/// Where, along one axis, an image of `size` is put centred in a box.
pub open spec fn centred(box_start: u32, box_size: u32, size: u32) -> int {
    box_start + (box_size - size) / 2
}

/// Whether an image of `width` by `height` can be drawn centred in the box
/// on a canvas of `canvas_len` bytes: it fits the box, its pixels' positions
/// and byte indices fit in a `u32`, and the canvas holds its rows.
pub open spec fn thumbnail_placeable(
    canvas_len: int,
    canvas_width: u32,
    canvas_height: u32,
    width: u32,
    height: u32,
    box_x: u32,
    box_y: u32,
    box_width: u32,
    box_height: u32,
) -> bool {
    &&& width <= box_width
    &&& height <= box_height
    &&& centred(box_x, box_width, width) + width <= u32::MAX + 1
    &&& centred(box_y, box_height, height) + height <= u32::MAX + 1
    &&& centred(box_x, box_width, width) <= u32::MAX
    &&& centred(box_y, box_height, height) <= u32::MAX
    &&& 4 * (canvas_width as int) * (canvas_height as int) <= canvas_len
    &&& drawn_indices_fit(
        canvas_width as int,
        canvas_height as int,
        centred(box_x, box_width, width),
        centred(box_y, box_height, height),
        width as int,
        height as int,
    )
}

/// Whether [`draw_thumbnail`] can draw `image` in the box on a canvas of
/// `canvas_len` bytes.
pub fn thumbnail_fits(
    canvas_len: usize,
    canvas_width: u32,
    canvas_height: u32,
    image: &Image,
    box_x: u32,
    box_y: u32,
    box_width: u32,
    box_height: u32,
) -> (b: bool)
    ensures
        b == thumbnail_placeable(
            canvas_len as int,
            canvas_width,
            canvas_height,
            image.spec_width(),
            image.spec_height(),
            box_x,
            box_y,
            box_width,
            box_height,
        ),
{
    let (width, height) = image.dimensions();
    if width > box_width || height > box_height {
        return false;
    }
    let dx: u128 = box_x as u128 + ((box_width - width) / 2) as u128;
    let dy: u128 = box_y as u128 + ((box_height - height) / 2) as u128;
    let limit: u128 = 0xFFFF_FFFF;
    if dx + width as u128 > limit + 1 || dy + height as u128 > limit + 1 || dx > limit || dy > limit {
        return false;
    }
    let cw = canvas_width as u128;
    let ch = canvas_height as u128;
    proof {
        assert(cw * ch <= 0xFFFF_FFFFint * 0xFFFF_FFFFint) by (nonlinear_arith)
            requires
                cw <= 0xFFFF_FFFF,
                ch <= 0xFFFF_FFFF,
        ;
        assert(4 * (cw as int) * (ch as int) == 4 * (cw * ch)) by (nonlinear_arith);
    }
    if 4 * (cw * ch) > canvas_len as u128 {
        return false;
    }
    if width == 0 || height == 0 || dx >= cw || dy >= ch {
        return true;
    }
    let last_x = (if dx + (width as u128) < cw { dx + width as u128 } else { cw }) - 1;
    let last_y = (if dy + (height as u128) < ch { dy + height as u128 } else { ch }) - 1;
    proof {
        assert(last_y * cw <= 0xFFFF_FFFFint * 0xFFFF_FFFFint) by (nonlinear_arith)
            requires
                last_y < ch,
                ch <= 0xFFFF_FFFF,
                cw <= 0xFFFF_FFFF,
        ;
    }
    4 * (last_y * cw + last_x) <= limit
}

fn over_byte(source: u8, target: u8, alpha: u8) -> (c: u8)
    ensures
        c == over(source, target, alpha),
{
    proof {
        assert(source * alpha + target * (255 - alpha) <= 255 * 255) by (nonlinear_arith)
            requires
                source <= 255,
                target <= 255,
                alpha <= 255,
        ;
    }
    ((source as u16 * alpha as u16 + target as u16 * (255 - alpha as u16)) / 255) as u8
}

/// Draws `image` centred in a box of `canvas`, a `canvas_width` by
/// `canvas_height` buffer of 4-byte pixels in rows, clipping what falls
/// outside it.
pub fn draw_thumbnail(
    canvas: &mut [u8],
    canvas_width: u32,
    canvas_height: u32,
    image: &Image,
    box_x: u32,
    box_y: u32,
    box_width: u32,
    box_height: u32,
)
    requires
        image.wf(),
        thumbnail_placeable(
            old(canvas)@.len() as int,
            canvas_width,
            canvas_height,
            image.spec_width(),
            image.spec_height(),
            box_x,
            box_y,
            box_width,
            box_height,
        ),
    ensures
        final(canvas)@.len() == old(canvas)@.len(),
        forall|i: int|
            0 <= i < 4 * (canvas_width as int) * (canvas_height as int) ==> #[trigger] final(canvas)@[i]
                == thumbnail_byte(
                old(canvas)@,
                i,
                canvas_width as int,
                image.spec_pixels(),
                image.spec_width() as int,
                image.spec_height() as int,
                centred(box_x, box_width, image.spec_width()),
                centred(box_y, box_height, image.spec_height()),
            ),
        forall|i: int|
            4 * (canvas_width as int) * (canvas_height as int) <= i < old(canvas)@.len()
                ==> #[trigger] final(canvas)@[i] == old(canvas)@[i],
{
    let (width, height) = image.dimensions();
    let pixels = image.pixels();
    let draw_x = box_x + (box_width - width) / 2;
    let draw_y = box_y + (box_height - height) / 2;
    let ghost old_canvas = canvas@;
    let ghost cw = canvas_width as int;
    let ghost total = 4 * (canvas_width as int) * (canvas_height as int);
    let ghost w = width as int;
    assert(4 * (canvas_width as int) * (canvas_height as int) == 4 * ((canvas_width as int) * (
    canvas_height as int))) by (nonlinear_arith);
    if width == 0 || height == 0 {
        return;
    }
    proof {
        assert(pixels@.len() == pixels.len());
        assert(4 * (width as int) * (height as int) == 4 * ((width as int) * (height as int)))
            by (nonlinear_arith);
        assert((width as int) * (height as int) <= 0xFFFF_FFFFint * 0xFFFF_FFFFint) by (nonlinear_arith)
            requires
                width <= 0xFFFF_FFFFu32,
                height <= 0xFFFF_FFFFu32,
        ;
    }
    let count: u64 = width as u64 * height as u64;
    let mut m: u64 = 0;
    let mut x: u32 = 0;
    let mut y: u32 = 0;
    while m < count
        invariant
            canvas@.len() == old_canvas.len(),
            total <= old_canvas.len(),
            total == 4 * (cw * (canvas_height as int)),
            drawn_indices_fit(cw, canvas_height as int, draw_x as int, draw_y as int, w, height as int),
            cw == canvas_width as int,
            w == width as int,
            width > 0,
            count == w * (height as int),
            4 * count == pixels@.len(),
            pixels@.len() == pixels.len(),
            m <= count,
            x < width,
            m == (y as int) * w + (x as int),
            draw_x as int + w <= u32::MAX + 1,
            draw_y as int + (height as int) <= u32::MAX + 1,
            forall|i: int|
                0 <= i < total ==> #[trigger] canvas@[i] == {
                    let q = i / 4;
                    let tx = q % cw;
                    let ty = q / cw;
                    if draw_x <= tx < draw_x + w && draw_y <= ty < draw_y + height && (ty - draw_y)
                        * w + (tx - draw_x) < m {
                        thumbnail_byte(old_canvas, i, cw, pixels@, w, height as int, draw_x as int, draw_y as int)
                    } else {
                        old_canvas[i]
                    }
                },
            forall|i: int| total <= i < canvas@.len() ==> #[trigger] canvas@[i] == old_canvas[i],
        decreases count - m,
    {
        proof {
            assert((y as int) < (height as int)) by (nonlinear_arith)
                requires
                    m == (y as int) * w + (x as int),
                    m < w * (height as int),
                    0 <= x,
                    w > 0,
            ;
        }
        let target_x = draw_x + x;
        let target_y = draw_y + y;
        if target_x < canvas_width && target_y < canvas_height {
            proof {
                assert((target_y as int) * cw + (target_x as int) < cw * (canvas_height as int))
                    by (nonlinear_arith)
                    requires
                        target_x < cw,
                        target_y < canvas_height,
                ;
                let last_x = min_int(draw_x + w, cw) - 1;
                let last_y = min_int(draw_y + height, canvas_height as int) - 1;
                assert((target_y as int) * cw <= last_y * cw) by (nonlinear_arith)
                    requires
                        target_y <= last_y,
                        0 <= cw,
                ;
                assert(4 * ((target_y as int) * cw + (target_x as int)) <= u32::MAX);
            }
            let q = target_y * canvas_width + target_x;
            let index = (q * 4) as usize;
            let base = (m * 4) as usize;
            let red = pixels[base];
            let green = pixels[base + 1];
            let blue = pixels[base + 2];
            let alpha = pixels[base + 3];
            let ghost before = canvas@;
            canvas[index] = over_byte(blue, canvas[index], alpha);
            canvas[index + 1] = over_byte(green, canvas[index + 1], alpha);
            canvas[index + 2] = over_byte(red, canvas[index + 2], alpha);
            canvas[index + 3] = 0xFF;
            proof {
                vstd::arithmetic::div_mod::lemma_fundamental_div_mod_converse(
                    q as int,
                    cw,
                    target_y as int,
                    target_x as int,
                );
                assert forall|i: int| 0 <= i < total implies #[trigger] canvas@[i] == {
                    let q2 = i / 4;
                    let tx = q2 % cw;
                    let ty = q2 / cw;
                    if draw_x <= tx < draw_x + w && draw_y <= ty < draw_y + height && (ty - draw_y)
                        * w + (tx - draw_x) < m + 1 {
                        thumbnail_byte(old_canvas, i, cw, pixels@, w, height as int, draw_x as int, draw_y as int)
                    } else {
                        old_canvas[i]
                    }
                } by {
                    let q2 = i / 4;
                    let tx = q2 % cw;
                    let ty = q2 / cw;
                    vstd::arithmetic::div_mod::lemma_fundamental_div_mod(q2, cw);
                    vstd::arithmetic::div_mod::lemma_fundamental_div_mod(i, 4);
                    if index <= i < index + 4 {
                        vstd::arithmetic::div_mod::lemma_fundamental_div_mod_converse(
                            i,
                            4,
                            q as int,
                            i - index,
                        );
                        assert(tx == target_x && ty == target_y);
                        assert((ty - draw_y) * w + (tx - draw_x) == m);
                        assert(before[i] == old_canvas[i]);
                    } else {
                        assert(canvas@[i] == before[i]);
                        if draw_x <= tx < draw_x + w && draw_y <= ty < draw_y + height && (ty
                            - draw_y) * w + (tx - draw_x) == m {
                            assert(tx - draw_x == x && ty - draw_y == y) by {
                                vstd::arithmetic::div_mod::lemma_fundamental_div_mod_converse(
                                    m as int,
                                    w,
                                    ty - draw_y,
                                    tx - draw_x,
                                );
                                vstd::arithmetic::div_mod::lemma_fundamental_div_mod_converse(
                                    m as int,
                                    w,
                                    y as int,
                                    x as int,
                                );
                            }
                            assert(ty * cw == cw * ty) by (nonlinear_arith);
                            assert(q2 == q);
                        }
                    }
                }
            }
        } else {
            proof {
                assert forall|i: int| 0 <= i < total implies #[trigger] canvas@[i] == {
                    let q2 = i / 4;
                    let tx = q2 % cw;
                    let ty = q2 / cw;
                    if draw_x <= tx < draw_x + w && draw_y <= ty < draw_y + height && (ty - draw_y)
                        * w + (tx - draw_x) < m + 1 {
                        thumbnail_byte(old_canvas, i, cw, pixels@, w, height as int, draw_x as int, draw_y as int)
                    } else {
                        old_canvas[i]
                    }
                } by {
                    let q2 = i / 4;
                    let tx = q2 % cw;
                    let ty = q2 / cw;
                    if draw_x <= tx < draw_x + w && draw_y <= ty < draw_y + height && (ty
                        - draw_y) * w + (tx - draw_x) == m {
                        vstd::arithmetic::div_mod::lemma_fundamental_div_mod_converse(
                            m as int,
                            w,
                            ty - draw_y,
                            tx - draw_x,
                        );
                        vstd::arithmetic::div_mod::lemma_fundamental_div_mod_converse(
                            m as int,
                            w,
                            y as int,
                            x as int,
                        );
                        vstd::arithmetic::div_mod::lemma_fundamental_div_mod(q2, cw);
                        vstd::arithmetic::div_mod::lemma_fundamental_div_mod(i, 4);
                        assert(q2 < cw * (canvas_height as int));
                        assert(tx == target_x);
                        assert(ty == target_y);
                        assert(ty < canvas_height) by (nonlinear_arith)
                            requires
                                q2 == cw * ty + tx,
                                q2 < cw * (canvas_height as int),
                                0 <= tx,
                                cw > 0,
                        ;
                        assert(false);
                    }
                }
            }
        }
        m = m + 1;
        if x + 1 == width {
            proof {
                assert((y as int + 1) * w == (y as int) * w + w) by (nonlinear_arith);
            }
            x = 0;
            y = y + 1;
        } else {
            x = x + 1;
        }
    }
    proof {
        assert forall|i: int| 0 <= i < total implies #[trigger] canvas@[i] == thumbnail_byte(
            old_canvas,
            i,
            cw,
            pixels@,
            w,
            height as int,
            draw_x as int,
            draw_y as int,
        ) by {
            let q2 = i / 4;
            let tx = q2 % cw;
            let ty = q2 / cw;
            if draw_x <= tx < draw_x + w && draw_y <= ty < draw_y + height {
                assert((ty - draw_y) * w + (tx - draw_x) < w * (height as int)) by (nonlinear_arith)
                    requires
                        0 <= ty - draw_y < height,
                        0 <= tx - draw_x < w,
                ;
            }
        }
    }
}

} // verus!

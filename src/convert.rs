//! Raw pixel formats of the image converter: naming a format, reading a pixel
//! of each colour layout as RGB, and telling input and output files apart.
use vstd::prelude::*;
use vstd::string::StringExecFns;
use crate::text::split_by;
use crate::text::split_on;

verus! {

/// The colour layout of one pixel.
#[derive(Debug, Clone, Copy, PartialEq, Eq, Structural)]
pub enum ColorFormat {
    Rgb332,
    Rgb565,
    Rgb888,
}

/// The kind of a file, as told by its name.
#[derive(Debug, Clone, Copy, PartialEq, Eq, Structural)]
pub enum FileFormat {
    TextFile,
    RawBinaryFile,
    StandardBinaryFile,
    CustomBinaryFile,
    Undefined,
}

/// How raw pixel data is laid out: bytes per pixel, colour layout, byte order.
#[derive(Debug, Clone, Copy, PartialEq, Eq, Structural)]
pub struct BinFileFormat {
    bytes_per_sample: u8,
    rgb_type: ColorFormat,
    is_small_endian: bool,
}

/// The layout that a format name stands for: bytes per pixel, colour layout
/// and whether the least significant byte comes first.
pub open spec fn format_named(name: Seq<char>) -> Option<(u8, ColorFormat, bool)> {
    if name == "rgb332"@ {
        Some((1u8, ColorFormat::Rgb332, true))
    } else if name == "rgb565"@ {
        Some((2u8, ColorFormat::Rgb565, true))
    } else if name == "rgb565-swap"@ {
        Some((2u8, ColorFormat::Rgb565, false))
    } else if name == "rgb888"@ {
        Some((4u8, ColorFormat::Rgb888, true))
    } else {
        None
    }
}

impl BinFileFormat {
    pub closed spec fn spec_bytes_per_sample(&self) -> u8 {
        self.bytes_per_sample
    }

    pub closed spec fn spec_rgb_type(&self) -> ColorFormat {
        self.rgb_type
    }

    pub closed spec fn spec_is_small_endian(&self) -> bool {
        self.is_small_endian
    }

    /// The layout named `rgb_type` (`rgb332`, `rgb565`, `rgb565-swap` or
    /// `rgb888`); any other name is refused.
    pub fn new(rgb_type: String) -> (r: Result<Self, String>)
        ensures
            match format_named(rgb_type@) {
                Some((n, c, le)) => r matches Ok(f) && f.spec_bytes_per_sample() == n
                    && f.spec_rgb_type() == c && f.spec_is_small_endian() == le,
                None => r matches Err(e) && e@ == "Unsupported rgb type"@,
            },
    {
        if rgb_type == String::from_str("rgb332") {
            Ok(BinFileFormat { bytes_per_sample: 1, rgb_type: ColorFormat::Rgb332, is_small_endian: true })
        } else if rgb_type == String::from_str("rgb565") {
            Ok(BinFileFormat { bytes_per_sample: 2, rgb_type: ColorFormat::Rgb565, is_small_endian: true })
        } else if rgb_type == String::from_str("rgb565-swap") {
            Ok(BinFileFormat { bytes_per_sample: 2, rgb_type: ColorFormat::Rgb565, is_small_endian: false })
        } else if rgb_type == String::from_str("rgb888") {
            Ok(BinFileFormat { bytes_per_sample: 4, rgb_type: ColorFormat::Rgb888, is_small_endian: true })
        } else {
            Err(String::from_str("Unsupported rgb type"))
        }
    }

    pub fn bytes_per_sample(&self) -> (r: u8)
        ensures
            r == self.spec_bytes_per_sample(),
    {
        self.bytes_per_sample
    }

    pub fn rgb_type(&self) -> (r: ColorFormat)
        ensures
            r == self.spec_rgb_type(),
    {
        self.rgb_type
    }

    pub fn is_small_endian(&self) -> (r: bool)
        ensures
            r == self.spec_is_small_endian(),
    {
        self.is_small_endian
    }
}

impl Default for BinFileFormat {
    /// No bytes per pixel yet, `Rgb332`, most significant byte first.
    fn default() -> (r: Self)
        ensures
            r.spec_bytes_per_sample() == 0,
            r.spec_rgb_type() == ColorFormat::Rgb332,
            !r.spec_is_small_endian(),
    {
        BinFileFormat { bytes_per_sample: 0, rgb_type: ColorFormat::Rgb332, is_small_endian: false }
    }
}

/// A channel of `bits` bits widened to eight: `x * 255 / max` rounded to the
/// nearest integer, where `max` is the channel's largest value.
pub open spec fn widen(x: int, max: int) -> int {
    (510 * x + max) / (2 * max)
}

pub open spec fn rgb332_spec(pixel: u32) -> Seq<u8> {
    let p = pixel % 256;
    seq![(p / 32 * 32) as u8, ((p / 4) % 8 * 32) as u8, (p % 4 * 64) as u8]
}

pub open spec fn rgb565_spec(pixel: u32) -> Seq<u8> {
    let p = (pixel % 65536) as int;
    seq![widen(p / 2048, 31) as u8, widen((p / 32) % 64, 63) as u8, widen(p % 32, 31) as u8]
}

pub open spec fn rgb888_spec(pixel: u32) -> Seq<u8> {
    let p = pixel % 0x1000000;
    seq![(p / 0x10000) as u8, ((p / 0x100) % 0x100) as u8, (p % 0x100) as u8]
}

/// An `Rgb332` pixel (its low byte) as RGB: the three bit fields moved to the
/// top of each channel.
pub fn rgb332_to_rgb(pixel: u32) -> (r: [u8; 3])
    ensures
        r@ == rgb332_spec(pixel),
{
    assert(pixel & 0xff == pixel % 256) by (bit_vector);
    let p = (pixel & 0xff) as u8;
    let r = p & 0xe0;
    let g = ((p & 0x1c) >> 2) << 5;
    let b = (p & 0x3) << 6;
    assert(p & 0xe0 == p / 32 * 32) by (bit_vector);
    assert(((p & 0x1c) >> 2) << 5 == (p / 4) % 8 * 32) by (bit_vector);
    assert((p & 0x3) << 6 == p % 4 * 64) by (bit_vector);
    let out = [r, g, b];
    assert(out@ =~= rgb332_spec(pixel));
    out
}

/// An `Rgb565` pixel (its low 16 bits) as RGB, each field scaled to 0..=255.
pub fn rgb565_to_rgb(pixel: u32) -> (r: [u8; 3])
    ensures
        r@ == rgb565_spec(pixel),
{
    assert(pixel & 0xffff == pixel % 65536) by (bit_vector);
    let p = (pixel & 0xffff) as u16;
    let r = (p >> 11) as u32;
    let g = ((p >> 5) & 0x3f) as u32;
    let b = (p & 0x1f) as u32;
    assert(p >> 11 == p / 2048) by (bit_vector);
    assert((p >> 5) & 0x3f == (p / 32) % 64) by (bit_vector);
    assert(p & 0x1f == p % 32) by (bit_vector);
    let out = [((510 * r + 31) / 62) as u8, ((510 * g + 63) / 126) as u8, ((510 * b + 31) / 62) as u8];
    assert(out@ =~= rgb565_spec(pixel));
    out
}

/// An `Rgb888` pixel (its low 24 bits) as RGB: red in the top byte, blue in the bottom one.
pub fn rgb888_to_rgb(pixel: u32) -> (r: [u8; 3])
    ensures
        r@ == rgb888_spec(pixel),
{
    let p = pixel & 0xffffff;
    assert(pixel & 0xffffff == pixel % 0x1000000) by (bit_vector);
    let out = [(p / 0x10000) as u8, ((p / 0x100) % 0x100) as u8, (p % 0x100) as u8];
    assert(out@ =~= rgb888_spec(pixel));
    out
}

/// A pixel of the given layout as RGB.
pub fn pixel_to_rgb(rgb_type: ColorFormat, pixel: u32) -> (r: [u8; 3])
    ensures
        r@ == match rgb_type {
            ColorFormat::Rgb332 => rgb332_spec(pixel),
            ColorFormat::Rgb565 => rgb565_spec(pixel),
            ColorFormat::Rgb888 => rgb888_spec(pixel),
        },
{
    match rgb_type {
        ColorFormat::Rgb332 => rgb332_to_rgb(pixel),
        ColorFormat::Rgb565 => rgb565_to_rgb(pixel),
        ColorFormat::Rgb888 => rgb888_to_rgb(pixel),
    }
}

/// The kind of the file named `file`: by the piece after its last `.`
/// (`txt`, `bin`, or `png` / `bmp` / `jpg`), a raw binary file where the name
/// has no `.`, and otherwise undefined, or custom where custom formats are on.
pub open spec fn format_of(file: Seq<char>, is_custom: bool) -> FileFormat {
    let ps = split_by(file, '.');
    let ext = ps.last();
    let base = if ps.len() == 1 {
        FileFormat::RawBinaryFile
    } else if ext == "txt"@ {
        FileFormat::TextFile
    } else if ext == "bin"@ {
        FileFormat::RawBinaryFile
    } else if ext == "png"@ || ext == "bmp"@ || ext == "jpg"@ {
        FileFormat::StandardBinaryFile
    } else {
        FileFormat::Undefined
    };
    if base == FileFormat::Undefined && is_custom {
        FileFormat::CustomBinaryFile
    } else {
        base
    }
}

/// A conversion from one file to another.
pub struct ImageConverter {
    from: String,
    to: String,
    has_custom_format: bool,
    bin_file_format: BinFileFormat,
    from_format: FileFormat,
    to_format: FileFormat,
    width: String,
    height: String,
}

/// What an `ImageConverter` holds.
pub ghost struct ImageConverterView {
    pub from: Seq<char>,
    pub to: Seq<char>,
    pub has_custom_format: bool,
    pub bin_file_format: BinFileFormat,
    pub from_format: FileFormat,
    pub to_format: FileFormat,
    pub width: Seq<char>,
    pub height: Seq<char>,
}

impl View for ImageConverter {
    type V = ImageConverterView;

    closed spec fn view(&self) -> ImageConverterView {
        ImageConverterView {
            from: self.from@,
            to: self.to@,
            has_custom_format: self.has_custom_format,
            bin_file_format: self.bin_file_format,
            from_format: self.from_format,
            to_format: self.to_format,
            width: self.width@,
            height: self.height@,
        }
    }
}

impl ImageConverter {
    /// A conversion from `from` to `to`, with the default pixel layout, formats
    /// not yet resolved and no size.
    pub fn new(from: String, to: String, has_custom_format: bool) -> (r: ImageConverter)
        ensures
            r@.from == from@,
            r@.to == to@,
            r@.has_custom_format == has_custom_format,
            r@.bin_file_format.spec_bytes_per_sample() == 0,
            r@.bin_file_format.spec_rgb_type() == ColorFormat::Rgb332,
            !r@.bin_file_format.spec_is_small_endian(),
            r@.from_format == FileFormat::Undefined,
            r@.to_format == FileFormat::Undefined,
            r@.width == Seq::<char>::empty(),
            r@.height == Seq::<char>::empty(),
    {
        ImageConverter {
            from,
            to,
            has_custom_format,
            bin_file_format: BinFileFormat::default(),
            from_format: FileFormat::Undefined,
            to_format: FileFormat::Undefined,
            width: String::new(),
            height: String::new(),
        }
    }

    pub fn set_bin_file_format(&mut self, format: BinFileFormat)
        ensures
            final(self)@ == (ImageConverterView { bin_file_format: format, ..old(self)@ }),
    {
        self.bin_file_format = format;
    }

    pub fn set_width_and_height(&mut self, width: String, height: String)
        ensures
            final(self)@ == (ImageConverterView { width: width@, height: height@, ..old(self)@ }),
    {
        self.width = width;
        self.height = height;
    }

    /// The kind of the file named `file` (see `format_of`).
    pub fn get_file_format(&self, file: &str, is_custom: bool) -> (r: FileFormat)
        ensures
            r == format_of(file@, is_custom),
    {
        let pieces = split_on(file, '.');
        proof {
            crate::text::lemma_split_nonempty(file@, '.');
        }
        let n = pieces.len();
        let mut format = FileFormat::Undefined;
        if n == 1 {
            format = FileFormat::RawBinaryFile;
        } else {
            let ext = &pieces[n - 1];
            assert(ext@ == split_by(file@, '.').last());
            if *ext == String::from_str("txt") {
                format = FileFormat::TextFile;
            } else if *ext == String::from_str("bin") {
                format = FileFormat::RawBinaryFile;
            } else if *ext == String::from_str("png") || *ext == String::from_str("bmp")
                || *ext == String::from_str("jpg") {
                format = FileFormat::StandardBinaryFile;
            }
        }
        if format == FileFormat::Undefined && is_custom {
            format = FileFormat::CustomBinaryFile;
        }
        format
    }

    /// Resolves the kinds of the input and output files; refuses a conversion
    /// where either is undefined.
    pub fn resolve_formats(&mut self) -> (r: Result<(), String>)
        ensures
            final(self)@ == (ImageConverterView {
                from_format: format_of(old(self)@.from, old(self)@.has_custom_format),
                to_format: format_of(old(self)@.to, old(self)@.has_custom_format),
                ..old(self)@
            }),
            r is Ok <==> final(self)@.from_format != FileFormat::Undefined
                && final(self)@.to_format != FileFormat::Undefined,
            r matches Err(e) ==> e@ == "from_format and to_format should not be undefined"@,
    {
        self.from_format = self.get_file_format(self.from.as_str(), self.has_custom_format);
        self.to_format = self.get_file_format(self.to.as_str(), self.has_custom_format);
        if self.from_format == FileFormat::Undefined || self.to_format == FileFormat::Undefined {
            return Err(String::from_str("from_format and to_format should not be undefined"));
        }
        Ok(())
    }

    pub fn from(&self) -> (r: &str)
        ensures
            r@ == self@.from,
    {
        self.from.as_str()
    }

    pub fn to(&self) -> (r: &str)
        ensures
            r@ == self@.to,
    {
        self.to.as_str()
    }

    pub fn width(&self) -> (r: &str)
        ensures
            r@ == self@.width,
    {
        self.width.as_str()
    }

    pub fn height(&self) -> (r: &str)
        ensures
            r@ == self@.height,
    {
        self.height.as_str()
    }

    pub fn bin_file_format(&self) -> (r: BinFileFormat)
        ensures
            r == self@.bin_file_format,
    {
        self.bin_file_format
    }

    pub fn from_format(&self) -> (r: FileFormat)
        ensures
            r == self@.from_format,
    {
        self.from_format
    }

    pub fn to_format(&self) -> (r: FileFormat)
        ensures
            r == self@.to_format,
    {
        self.to_format
    }
}

/// Something that can carry out a conversion.
pub trait Convertor {
    fn run(&self);
}

} // verus!

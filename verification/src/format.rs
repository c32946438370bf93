//! Output formats and the codec parameters that a quality setting maps to.
use vstd::prelude::*;
use vstd::string::*;
use crate::text::{lower_text, spells};

verus! {

/// The formats an image can be written in.
#[derive(Debug, Clone, Copy, PartialEq, Eq, Structural)]
pub enum OutputFormat {
    Jpg,
    Png,
    Webp,
    Gif,
    Bmp,
}

/// A quality setting: a whole number from 1 to 100.
#[derive(Debug, Clone, Copy, PartialEq, Eq, Structural)]
pub struct Quality {
    value: u8,
}

/// How much effort the PNG codec spends on compression.
#[derive(Debug, Clone, Copy, PartialEq, Eq, Structural)]
pub enum PngCompression {
    Fast,
    Default,
    Best,
}

/// The line filter the PNG codec applies before compression.
#[derive(Debug, Clone, Copy, PartialEq, Eq, Structural)]
pub enum PngFilter {
    Sub,
}

/// The codec an image is written with, and its parameters.
#[derive(Debug, Clone, Copy, PartialEq, Eq, Structural)]
pub enum EncoderSettings {
    /// The JPEG codec at the given compression quality.
    Jpeg { quality: u8 },
    /// The PNG codec at the given effort, with the given filter.
    Png { compression: PngCompression, filter: PngFilter },
    /// The codec of the given format as it comes, for a format that has
    /// no quality to set.
    Plain { format: OutputFormat },
}

/// The file's extension names no format that can be written, and no
/// format was asked for. Holds the extension, or nothing where the file
/// has none.
#[derive(Debug)]
pub struct UnknownFormatError(pub Option<String>);

/// The format an image is written in and the extension its file gets.
#[derive(Debug)]
pub struct OutputTarget {
    pub format: OutputFormat,
    pub extension: String,
}

/// The format that a file extension stands for, if it stands for one of
/// the formats that can be written.
pub uninterp spec fn format_named(extension: Seq<char>) -> Option<OutputFormat>;

impl Quality {
    /// The setting as a number.
    pub closed spec fn get(self) -> u8 {
        self.value
    }

    /// A quality holds a number from 1 to 100.
    pub open spec fn valid(self) -> bool {
        1 <= self.get() <= 100
    }

    /// The quality with the given value, if that lies between 1 and 100.
    pub fn new(value: u8) -> (q: Option<Quality>)
        ensures
            q is Some <==> 1 <= value <= 100,
            q matches Some(quality) ==> quality.get() == value && quality.valid(),
    {
        if 1 <= value && value <= 100 {
            Some(Quality { value })
        } else {
            None
        }
    }

    /// The quality nearest to the given value: values below 1 give 1,
    /// values above 100 give 100.
    pub fn clamped(value: u8) -> (q: Quality)
        ensures
            q.valid(),
            1 <= value <= 100 ==> q.get() == value,
            value < 1 ==> q.get() == 1,
            value > 100 ==> q.get() == 100,
    {
        if value < 1 {
            Quality { value: 1 }
        } else if value > 100 {
            Quality { value: 100 }
        } else {
            Quality { value }
        }
    }

    /// The setting as a number.
    pub fn value(&self) -> (v: u8)
        ensures
            v == self.get(),
    {
        self.value
    }
}

impl PngCompression {
    /// The effort that a quality stands for: the most at 100, the least
    /// up to 50, the codec's default in between.
    pub open spec fn of(quality: Quality) -> PngCompression {
        if quality.get() == 100 {
            PngCompression::Best
        } else if 1 <= quality.get() <= 50 {
            PngCompression::Fast
        } else {
            PngCompression::Default
        }
    }

    /// The effort that a quality stands for.
    pub fn for_quality(quality: Quality) -> (c: PngCompression)
        ensures
            c == Self::of(quality),
    {
        let v: u8 = quality.value();
        if v == 100 {
            PngCompression::Best
        } else if 1 <= v && v <= 50 {
            PngCompression::Fast
        } else {
            PngCompression::Default
        }
    }
}

impl EncoderSettings {
    /// The codec and parameters for a format at a quality. JPEG takes the
    /// quality as it is. PNG takes an effort for it and always the same
    /// filter. Every other format is written without regard to quality.
    pub open spec fn of(format: OutputFormat, quality: Quality) -> EncoderSettings {
        match format {
            OutputFormat::Jpg => EncoderSettings::Jpeg { quality: quality.get() },
            OutputFormat::Png => EncoderSettings::Png {
                compression: PngCompression::of(quality),
                filter: PngFilter::Sub,
            },
            _ => EncoderSettings::Plain { format },
        }
    }

    /// Picks the codec and its parameters for a format at a quality.
    pub fn for_format(format: OutputFormat, quality: Quality) -> (settings: EncoderSettings)
        ensures
            settings == Self::of(format, quality),
    {
        match format {
            OutputFormat::Jpg => EncoderSettings::Jpeg { quality: quality.value() },
            OutputFormat::Png => EncoderSettings::Png {
                compression: PngCompression::for_quality(quality),
                filter: PngFilter::Sub,
            },
            OutputFormat::Webp => EncoderSettings::Plain { format },
            OutputFormat::Gif => EncoderSettings::Plain { format },
            OutputFormat::Bmp => EncoderSettings::Plain { format },
        }
    }
}

impl OutputFormat {
    /// The extension that a file of this format is given.
    pub open spec fn extension(self) -> Seq<char> {
        match self {
            OutputFormat::Jpg => seq!['j', 'p', 'g'],
            OutputFormat::Png => seq!['p', 'n', 'g'],
            OutputFormat::Webp => seq!['w', 'e', 'b', 'p'],
            OutputFormat::Gif => seq!['g', 'i', 'f'],
            OutputFormat::Bmp => seq!['b', 'm', 'p'],
        }
    }
}

impl UnknownFormatError {
    /// What `to_string` says of a file without an extension.
    pub open spec fn no_extension() -> Seq<char> {
        "The file has no extension to tell its image format by"@
    }

    /// What `to_string` puts before a rejected extension.
    pub open spec fn prefix() -> Seq<char> {
        "No image format is known for the file extension '"@
    }

    /// What `to_string` puts after a rejected extension.
    pub open spec fn suffix() -> Seq<char> {
        "'"@
    }

    /// The message shown to the user.
    pub fn to_string(&self) -> (msg: String)
        ensures
            msg@ == match self.0 {
                Some(extension) => Self::prefix() + extension@ + Self::suffix(),
                None => Self::no_extension(),
            },
    {
        match &self.0 {
            Some(extension) => {
                let mut msg = String::from_str("No image format is known for the file extension '");
                msg.append(extension.as_str());
                msg.append("'");
                msg
            },
            None => String::from_str("The file has no extension to tell its image format by"),
        }
    }
}

/// Reads a format off a file extension with `ImageFormat::from_extension`
/// of the image crate, which knows the extension in any mix of upper and
/// lower case. The result is nothing where the crate knows no format for
/// the extension, or knows one that is none of the five written here.
#[verifier::external_body]
fn format_of_extension(extension: &str) -> (format: Option<OutputFormat>)
    ensures
        format == format_named(extension@),
{
    match image::ImageFormat::from_extension(extension) {
        Some(image::ImageFormat::Jpeg) => Some(OutputFormat::Jpg),
        Some(image::ImageFormat::Png) => Some(OutputFormat::Png),
        Some(image::ImageFormat::WebP) => Some(OutputFormat::Webp),
        Some(image::ImageFormat::Gif) => Some(OutputFormat::Gif),
        Some(image::ImageFormat::Bmp) => Some(OutputFormat::Bmp),
        _ => None,
    }
}

/// Gives the first of the extensions that `ImageFormat::extensions_str` of
/// the image crate lists for a format: `jpg`, `png`, `webp`, `gif` or
/// `bmp`.
#[verifier::external_body]
fn first_extension(format: OutputFormat) -> (extension: &'static str)
    ensures
        extension@ == format.extension(),
{
    let format = match format {
        OutputFormat::Jpg => image::ImageFormat::Jpeg,
        OutputFormat::Png => image::ImageFormat::Png,
        OutputFormat::Webp => image::ImageFormat::WebP,
        OutputFormat::Gif => image::ImageFormat::Gif,
        OutputFormat::Bmp => image::ImageFormat::Bmp,
    };
    format.extensions_str()[0]
}

/// What `select_output` returns: the format asked for with its own
/// extension; without one, the format read off the file's extension, which
/// the file keeps; and an error where that gives no format.
pub open spec fn selected(
    asked: Option<OutputFormat>,
    extension: Option<Seq<char>>,
    read: Option<OutputFormat>,
    target: Result<OutputTarget, UnknownFormatError>,
) -> bool {
    match asked {
        Some(format) => target matches Ok(t) && t.format == format && t.extension@ == format.extension(),
        None => match (extension, read) {
            (Some(e), Some(format)) => target matches Ok(t) && t.format == format && t.extension@ == e,
            (Some(e), None) => target matches Err(err) && err.0 matches Some(held) && held@ == e,
            (None, _) => target matches Err(err) && err.0 is None,
        },
    }
}

/// Settles the output format and extension once the file's extension has
/// been read: `read` is the format that `extension` stands for, if any.
pub fn select_output(asked: Option<OutputFormat>, extension: Option<&str>, read: Option<OutputFormat>) -> (target:
    Result<OutputTarget, UnknownFormatError>)
    ensures
        selected(
            asked,
            match extension {
                Some(e) => Some(e@),
                None => None,
            },
            read,
            target,
        ),
{
    match asked {
        Some(format) => Ok(OutputTarget { format, extension: first_extension(format).to_owned() }),
        None => match extension {
            Some(e) => match read {
                Some(format) => Ok(OutputTarget { format, extension: e.to_owned() }),
                None => Err(UnknownFormatError(Some(e.to_owned()))),
            },
            None => Err(UnknownFormatError(None)),
        },
    }
}

/// Settles the format an image is written in and the extension of its
/// file. A format that is asked for decides both, whatever the file is
/// called. Without one the file's own extension decides, and where it
/// names no known format the image cannot be written.
pub fn resolve_output(asked: Option<OutputFormat>, extension: Option<&str>) -> (target: Result<
    OutputTarget,
    UnknownFormatError,
>)
    ensures
        selected(
            asked,
            match extension {
                Some(e) => Some(e@),
                None => None,
            },
            match extension {
                Some(e) => format_named(e@),
                None => None,
            },
            target,
        ),
{
    let read: Option<OutputFormat> = match (asked, extension) {
        (None, Some(e)) => format_of_extension(e),
        _ => None,
    };
    select_output(asked, extension, read)
}

/// Whether a file extension, in any mix of upper and lower case, is one of
/// those by which an input file is taken for an image: `jpg`, `jpeg`,
/// `png`, `gif`, `bmp` or `webp`.
pub open spec fn names_image(extension: Seq<char>) -> bool {
    let l = lower_text(extension);
    ||| l == seq!['j', 'p', 'g']
    ||| l == seq!['j', 'p', 'e', 'g']
    ||| l == seq!['p', 'n', 'g']
    ||| l == seq!['g', 'i', 'f']
    ||| l == seq!['b', 'm', 'p']
    ||| l == seq!['w', 'e', 'b', 'p']
}

/// Whether a file with the given extension is taken for an image.
pub fn is_image_extension(extension: &str) -> (b: bool)
    ensures
        b == names_image(extension@),
{
    proof {
        reveal_strlit("jpg");
        reveal_strlit("jpeg");
        reveal_strlit("png");
        reveal_strlit("gif");
        reveal_strlit("bmp");
        reveal_strlit("webp");
        assert("jpg"@ =~= seq!['j', 'p', 'g']);
        assert("jpeg"@ =~= seq!['j', 'p', 'e', 'g']);
        assert("png"@ =~= seq!['p', 'n', 'g']);
        assert("gif"@ =~= seq!['g', 'i', 'f']);
        assert("bmp"@ =~= seq!['b', 'm', 'p']);
        assert("webp"@ =~= seq!['w', 'e', 'b', 'p']);
    }
    spells(extension, "jpg") || spells(extension, "jpeg") || spells(extension, "png") || spells(
        extension,
        "gif",
    ) || spells(extension, "bmp") || spells(extension, "webp")
}

/// A JPEG is always written at the quality that was set, which lies
/// between 1 and 100.
pub proof fn lemma_jpeg_quality_in_range(quality: Quality)
    requires
        quality.valid(),
    ensures
        EncoderSettings::of(OutputFormat::Jpg, quality) == (EncoderSettings::Jpeg { quality: quality.get() }),
        1 <= quality.get() <= 100,
{
}

/// More quality never means less effort: of two qualities the higher one
/// compresses a PNG at least as hard.
pub proof fn lemma_png_effort_rises_with_quality(low: Quality, high: Quality)
    requires
        low.valid(),
        high.valid(),
        low.get() <= high.get(),
    ensures
        PngCompression::of(low) == PngCompression::Best ==> PngCompression::of(high) == PngCompression::Best,
        PngCompression::of(high) == PngCompression::Fast ==> PngCompression::of(low) == PngCompression::Fast,
{
}

} // verus!

//! Textures as images that a notebook can show.

use crate::channels::{ErrorClass, OpError};
use vstd::prelude::*;

verus! {

/// The format of the texels of a texture.
#[derive(Debug)]
pub enum TextureFormat {
    Rgba8unorm,
    Rgba8unormSrgb,
    Rgba8snorm,
    Rgba8uint,
    Rgba8sint,
    Bgra8unorm,
    Bgra8unormSrgb,
    /// Any other format, with its name.
    Other(String),
}

/// The order of the channels of a pixel; each channel is one byte.
#[derive(Debug, Clone, Copy, PartialEq, Eq, Structural)]
pub enum PixelOrder {
    Rgba8,
    Bgra8,
}

/// The order of the channels of a texel, for the formats that can be shown.
pub open spec fn pixel_order(format: TextureFormat) -> Option<PixelOrder> {
    match format {
        TextureFormat::Rgba8unorm => Some(PixelOrder::Rgba8),
        TextureFormat::Rgba8unormSrgb => Some(PixelOrder::Rgba8),
        TextureFormat::Rgba8snorm => Some(PixelOrder::Rgba8),
        TextureFormat::Rgba8uint => Some(PixelOrder::Rgba8),
        TextureFormat::Rgba8sint => Some(PixelOrder::Rgba8),
        TextureFormat::Bgra8unorm => Some(PixelOrder::Bgra8),
        TextureFormat::Bgra8unormSrgb => Some(PixelOrder::Bgra8),
        TextureFormat::Other(_) => None,
    }
}

/// The file that the PNG encoder of the `image` crate makes of pixels, or the text of its
/// error.
pub uninterp spec fn png_file(
    data: Seq<u8>,
    width: u32,
    height: u32,
    order: PixelOrder,
) -> Result<Seq<u8>, Seq<char>>;

/// `image::codecs::png::PngEncoder::write_image` into a vector. The file, or the text of
/// the error, is a function of the arguments; pixels in BGRA order are refused. The encoder
/// panics where `data` does not have four bytes for every pixel. The PNG format is not
/// restated.
#[verifier::external_body]
fn encode_png(data: &[u8], width: u32, height: u32, order: PixelOrder) -> (file: Result<
    Vec<u8>,
    String,
>)
    requires
        data@.len() == width * height * 4,
    ensures
        match file {
            Ok(file) => png_file(data@, width, height, order) == Ok::<Seq<u8>, Seq<char>>(file@),
            Err(error) => png_file(data@, width, height, order) == Err::<Seq<u8>, Seq<char>>(
                error@,
            ),
        },
        order == PixelOrder::Bgra8 ==> file is Err,
{
    let color = match order {
        PixelOrder::Rgba8 => image::ExtendedColorType::Rgba8,
        PixelOrder::Bgra8 => image::ExtendedColorType::Bgra8,
    };
    let mut out: Vec<u8> = Vec::new();
    let encoder = image::codecs::png::PngEncoder::new(&mut out);
    let written = image::ImageEncoder::write_image(encoder, data, width, height, color);
    written.map(|_| out).map_err(|error| error.to_string())
}

/// The digits of base 64.
pub open spec fn base64_digits() -> Seq<char> {
    "ABCDEFGHIJKLMNOPQRSTUVWXYZabcdefghijklmnopqrstuvwxyz0123456789+/"@
}

/// The byte at an index, and zero beyond the end.
pub open spec fn byte_or_zero(bytes: Seq<u8>, index: int) -> int {
    if index < bytes.len() {
        bytes[index] as int
    } else {
        0
    }
}

/// The base64 form with padding: every three bytes make four digits of six bits each, and
/// digits that hold nothing but the bits of missing bytes are written as `=`.
pub open spec fn base64(bytes: Seq<u8>) -> Seq<char> {
    Seq::new(
        (bytes.len() + 2) / 3 * 4,
        |i: int|
            {
                let start = i / 4 * 3;
                let word = byte_or_zero(bytes, start) * 0x1_0000 + byte_or_zero(bytes, start + 1)
                    * 0x100 + byte_or_zero(bytes, start + 2);
                if start + i % 4 > bytes.len() {
                    '='
                } else if i % 4 == 0 {
                    base64_digits()[word / 0x4_0000]
                } else if i % 4 == 1 {
                    base64_digits()[word / 0x1000 % 64]
                } else if i % 4 == 2 {
                    base64_digits()[word / 64 % 64]
                } else {
                    base64_digits()[word % 64]
                }
            },
    )
}

/// `base64_simd::Base64::encode_to_string` with `base64_simd::STANDARD`: the base64 form
/// of the bytes. It panics where that form is longer than half the address space.
#[verifier::external_body]
fn encode_base64(bytes: &[u8]) -> (text: String)
    requires
        text_fits(bytes@.len()),
    ensures
        text@ == base64(bytes@),
{
    base64_simd::STANDARD.encode_to_string(bytes)
}

/// Whether an error says that a format cannot be shown.
pub open spec fn is_unsupported(format: TextureFormat, error: OpError) -> bool {
    &&& format matches TextureFormat::Other(name)
    &&& error.class == ErrorClass::Type
    &&& error.message@ == "Unsupported texture format '"@ + name@ + "'"@
}

impl TextureFormat {
    /// The order of the channels of a texel, for the formats that can be shown.
    pub fn order(&self) -> (order: Result<PixelOrder, OpError>)
        ensures
            match order {
                Ok(order) => pixel_order(*self) == Some(order),
                Err(error) => is_unsupported(*self, error),
            },
    {
        match self {
            TextureFormat::Rgba8unorm => Ok(PixelOrder::Rgba8),
            TextureFormat::Rgba8unormSrgb => Ok(PixelOrder::Rgba8),
            TextureFormat::Rgba8snorm => Ok(PixelOrder::Rgba8),
            TextureFormat::Rgba8uint => Ok(PixelOrder::Rgba8),
            TextureFormat::Rgba8sint => Ok(PixelOrder::Rgba8),
            TextureFormat::Bgra8unorm => Ok(PixelOrder::Bgra8),
            TextureFormat::Bgra8unormSrgb => Ok(PixelOrder::Bgra8),
            TextureFormat::Other(name) => {
                let mut message = "Unsupported texture format '".to_owned();
                message.append(name.as_str());
                message.append("'");
                Err(OpError { class: ErrorClass::Type, message })
            },
        }
    }
}

/// What a script gets of an encoded image: the file, or the text of the error as a type
/// error.
pub fn encoded_image(file: Result<Vec<u8>, String>) -> (image: Result<Vec<u8>, OpError>)
    ensures
        match image {
            Ok(image) => file == Ok::<Vec<u8>, String>(image),
            Err(error) => {
                &&& file == Err::<Vec<u8>, String>(error.message)
                &&& error.class == ErrorClass::Type
            },
        },
{
    match file {
        Ok(image) => Ok(image),
        Err(message) => Err(OpError { class: ErrorClass::Type, message }),
    }
}

/// Whether the base64 form of so many bytes fits into memory.
pub open spec fn text_fits(length: nat) -> bool {
    (length + 2) / 3 * 4 <= usize::MAX / 2
}

/// The PNG file of a texture whose texels were copied to `data`.
pub fn encode_texture(format: &TextureFormat, width: u32, height: u32, data: &[u8]) -> (image:
    Result<Vec<u8>, OpError>)
    requires
        pixel_order(*format) is Some ==> data@.len() == width * height * 4,
    ensures
        match pixel_order(*format) {
            Some(order) => match png_file(data@, width, height, order) {
                Ok(file) => image matches Ok(image) && image@ == file,
                Err(text) => {
                    &&& image matches Err(error)
                    &&& error.class == ErrorClass::Type
                    &&& error.message@ == text
                },
            },
            None => image matches Err(error) && is_unsupported(*format, error),
        },
        pixel_order(*format) == Some(PixelOrder::Bgra8) ==> image is Err,
{
    match format.order() {
        Ok(order) => encoded_image(encode_png(data, width, height, order)),
        Err(error) => Err(error),
    }
}

/// The text in which a script gets an image file.
pub fn image_text(file: &[u8]) -> (text: String)
    requires
        text_fits(file@.len()),
    ensures
        text@ == base64(file@),
{
    encode_base64(file)
}

/// The PNG file of a texture whose texels were copied to `data`, as the text in which a
/// script gets it. Nothing comes of a file whose text would not fit into memory.
pub fn op_jupyter_create_png_from_texture(
    format: &TextureFormat,
    width: u32,
    height: u32,
    data: &[u8],
) -> (image: Result<Option<String>, OpError>)
    requires
        pixel_order(*format) is Some ==> data@.len() == width * height * 4,
    ensures
        match pixel_order(*format) {
            Some(order) => match png_file(data@, width, height, order) {
                Ok(file) => match image {
                    Ok(Some(text)) => text_fits(file.len()) && text@ == base64(file),
                    Ok(None) => !text_fits(file.len()),
                    Err(_) => false,
                },
                Err(text) => {
                    &&& image matches Err(error)
                    &&& error.class == ErrorClass::Type
                    &&& error.message@ == text
                },
            },
            None => image matches Err(error) && is_unsupported(*format, error),
        },
        pixel_order(*format) == Some(PixelOrder::Bgra8) ==> image is Err,
{
    match encode_texture(format, width, height, data) {
        Ok(file) => {
            let length: usize = file.len();
            let groups: usize = length / 3 + if length % 3 == 0 {
                0
            } else {
                1
            };
            assert(groups == (length + 2) / 3);
            if groups <= usize::MAX / 2 / 4 {
                Ok(Some(image_text(&file)))
            } else {
                Ok(None)
            }
        },
        Err(error) => Err(error),
    }
}

/// The formats that can be shown, by the order of their channels; no other format can be.
pub proof fn law_formats(name: String)
    ensures
        pixel_order(TextureFormat::Rgba8unorm) == Some(PixelOrder::Rgba8),
        pixel_order(TextureFormat::Rgba8unormSrgb) == Some(PixelOrder::Rgba8),
        pixel_order(TextureFormat::Rgba8snorm) == Some(PixelOrder::Rgba8),
        pixel_order(TextureFormat::Rgba8uint) == Some(PixelOrder::Rgba8),
        pixel_order(TextureFormat::Rgba8sint) == Some(PixelOrder::Rgba8),
        pixel_order(TextureFormat::Bgra8unorm) == Some(PixelOrder::Bgra8),
        pixel_order(TextureFormat::Bgra8unormSrgb) == Some(PixelOrder::Bgra8),
        pixel_order(TextureFormat::Other(name)) is None,
{
}

/// The error of a format that cannot be shown is a type error that names the format.
pub proof fn law_unsupported(name: String, error: OpError)
    ensures
        is_unsupported(TextureFormat::Other(name), error) <==> error.class == ErrorClass::Type
            && error.message@ == "Unsupported texture format '"@ + name@ + "'"@,
{
}

/// The number of three bytes falls into four digits of six bits.
proof fn lemma_six_bits(a: u8, b: u8, c: u8)
    ensures
        (a * 0x1_0000 + b * 0x100 + c) / 0x4_0000 == a as int / 4,
        (a * 0x1_0000 + b * 0x100 + c) / 0x1000 % 64 == a as int % 4 * 16 + b as int / 16,
        (a * 0x1_0000 + b * 0x100 + c) / 64 % 64 == b as int % 16 * 4 + c as int / 64,
        (a * 0x1_0000 + b * 0x100 + c) % 64 == c as int % 64,
{
    let (p, q) = (a as int / 4, a as int % 4);
    let (r, s) = (b as int / 16, b as int % 16);
    let (t, u) = (c as int / 64, c as int % 64);
    let word = a * 0x1_0000 + b * 0x100 + c;
    assert(a == 4 * p + q && b == 16 * r + s && c == 64 * t + u);
    assert(word == 0x4_0000 * p + 0x1000 * (16 * q + r) + 64 * (4 * s + t) + u);
    assert(word / 0x1000 == 64 * p + (16 * q + r));
    assert(word / 64 == 0x1000 * p + 64 * (16 * q + r) + (4 * s + t));
}

/// The four characters of a group of three bytes, of which the last may be missing.
proof fn lemma_base64_at(bytes: Seq<u8>, group: int)
    requires
        0 <= group,
        3 * group < bytes.len(),
    ensures
        base64(bytes).len() >= 4 * group + 4,
        ({
            let word = byte_or_zero(bytes, 3 * group) * 0x1_0000 + byte_or_zero(
                bytes,
                3 * group + 1,
            ) * 0x100 + byte_or_zero(bytes, 3 * group + 2);
            &&& base64(bytes)[4 * group] == base64_digits()[word / 0x4_0000]
            &&& base64(bytes)[4 * group + 1] == base64_digits()[word / 0x1000 % 64]
            &&& base64(bytes)[4 * group + 2] == if 3 * group + 2 > bytes.len() {
                '='
            } else {
                base64_digits()[word / 64 % 64]
            }
            &&& base64(bytes)[4 * group + 3] == if 3 * group + 3 > bytes.len() {
                '='
            } else {
                base64_digits()[word % 64]
            }
        }),
{
    assert((bytes.len() + 2) / 3 >= group + 1);
    assert((4 * group) / 4 == group && (4 * group) % 4 == 0);
    assert((4 * group + 1) / 4 == group && (4 * group + 1) % 4 == 1);
    assert((4 * group + 2) / 4 == group && (4 * group + 2) % 4 == 2);
    assert((4 * group + 3) / 4 == group && (4 * group + 3) % 4 == 3);
}

/// Three bytes make four digits: the six bits of each, from the left.
pub proof fn law_base64_group(bytes: Seq<u8>, group: int)
    requires
        0 <= group,
        3 * group + 3 <= bytes.len(),
    ensures
        base64(bytes).len() >= 4 * group + 4,
        base64(bytes)[4 * group] == base64_digits()[bytes[3 * group] as int / 4],
        base64(bytes)[4 * group + 1] == base64_digits()[bytes[3 * group] as int % 4 * 16 + bytes[3
            * group + 1] as int / 16],
        base64(bytes)[4 * group + 2] == base64_digits()[bytes[3 * group + 1] as int % 16 * 4
            + bytes[3 * group + 2] as int / 64],
        base64(bytes)[4 * group + 3] == base64_digits()[bytes[3 * group + 2] as int % 64],
{
    lemma_base64_at(bytes, group);
    lemma_six_bits(bytes[3 * group], bytes[3 * group + 1], bytes[3 * group + 2]);
}

/// The end of the base64 form: nothing is added behind whole groups of three bytes, one byte
/// left over makes two digits and `==`, two make three digits and `=`.
pub proof fn law_base64_end(bytes: Seq<u8>)
    ensures
        bytes.len() % 3 == 0 ==> base64(bytes).len() == bytes.len() / 3 * 4,
        bytes.len() % 3 != 0 ==> base64(bytes).len() == bytes.len() / 3 * 4 + 4,
        bytes.len() % 3 == 1 ==> {
            let last = bytes[bytes.len() - 1] as int;
            let start = bytes.len() as int / 3 * 4;
            &&& base64(bytes)[start] == base64_digits()[last / 4]
            &&& base64(bytes)[start + 1] == base64_digits()[last % 4 * 16]
            &&& base64(bytes)[start + 2] == '='
            &&& base64(bytes)[start + 3] == '='
        },
        bytes.len() % 3 == 2 ==> {
            let first = bytes[bytes.len() - 2] as int;
            let last = bytes[bytes.len() - 1] as int;
            let start = bytes.len() as int / 3 * 4;
            &&& base64(bytes)[start] == base64_digits()[first / 4]
            &&& base64(bytes)[start + 1] == base64_digits()[first % 4 * 16 + last / 16]
            &&& base64(bytes)[start + 2] == base64_digits()[last % 16 * 4]
            &&& base64(bytes)[start + 3] == '='
        },
{
    let group = bytes.len() as int / 3;
    if bytes.len() % 3 != 0 {
        lemma_base64_at(bytes, group);
    }
    if bytes.len() % 3 == 1 {
        lemma_six_bits(bytes[3 * group], 0, 0);
    }
    if bytes.len() % 3 == 2 {
        lemma_six_bits(bytes[3 * group], bytes[3 * group + 1], 0);
    }
}

/// The digits of base 64 are the capital letters, the small letters, the decimal digits,
/// `+` and `/`, in that order.
pub proof fn law_base64_digits(i: int)
    requires
        0 <= i < 64,
    ensures
        base64_digits().len() == 64,
        base64_digits()[i] as int == if i < 26 {
            'A' as int + i
        } else if i < 52 {
            'a' as int + i - 26
        } else if i < 62 {
            '0' as int + i - 52
        } else if i == 62 {
            '+' as int
        } else {
            '/' as int
        },
{
    reveal_strlit("ABCDEFGHIJKLMNOPQRSTUVWXYZabcdefghijklmnopqrstuvwxyz0123456789+/");
}

/// A text fits into memory if it is no longer than half the address space.
pub proof fn law_text_fits(bytes: Seq<u8>)
    ensures
        text_fits(bytes.len()) <==> base64(bytes).len() <= usize::MAX / 2,
{
}

} // verus!

use jupyter_transport::channels::ErrorClass;
use jupyter_transport::texture::{
    encode_texture, encoded_image, image_text, op_jupyter_create_png_from_texture, PixelOrder,
    TextureFormat,
};

const PNG_SIGNATURE: [u8; 8] = [0x89, b'P', b'N', b'G', 0x0d, 0x0a, 0x1a, 0x0a];

#[test]
fn rgba_texture_is_encoded() {
    let data = [255u8, 0, 0, 255, 0, 255, 0, 255];
    let file = encode_texture(&TextureFormat::Rgba8unorm, 2, 1, &data).ok().unwrap();
    assert_eq!(&file[..8], &PNG_SIGNATURE);
    // Width and height stand at the start of the first chunk.
    assert_eq!(&file[16..24], &[0, 0, 0, 2, 0, 0, 0, 1]);

    let decoder = image::codecs::png::PngDecoder::new(std::io::Cursor::new(&file[..])).unwrap();
    let mut pixels = vec![0u8; 8];
    image::ImageDecoder::read_image(decoder, &mut pixels).unwrap();
    assert_eq!(pixels, data.to_vec());

    let text = op_jupyter_create_png_from_texture(&TextureFormat::Rgba8unorm, 2, 1, &data);
    let text = text.ok().unwrap().unwrap();
    assert!(text.starts_with("iVBORw0KGgo"));
    assert_eq!(text, image_text(&file));
}

#[test]
fn orders_of_formats() {
    for format in [
        TextureFormat::Rgba8unorm,
        TextureFormat::Rgba8unormSrgb,
        TextureFormat::Rgba8snorm,
        TextureFormat::Rgba8uint,
        TextureFormat::Rgba8sint,
    ] {
        assert_eq!(format.order().ok(), Some(PixelOrder::Rgba8));
    }
    for format in [TextureFormat::Bgra8unorm, TextureFormat::Bgra8unormSrgb] {
        assert_eq!(format.order().ok(), Some(PixelOrder::Bgra8));
    }
}

#[test]
fn bgra_texture_is_refused() {
    let error = op_jupyter_create_png_from_texture(&TextureFormat::Bgra8unorm, 1, 1, &[0; 4]);
    let error = error.err().unwrap();
    assert_eq!(error.class, ErrorClass::Type);
    assert!(!error.message.is_empty());
}

#[test]
fn unsupported_format() {
    let format = TextureFormat::Other("depth24plus".to_string());
    let error = op_jupyter_create_png_from_texture(&format, 1, 1, &[]).err().unwrap();
    assert_eq!(error.class, ErrorClass::Type);
    assert_eq!(error.message, "Unsupported texture format 'depth24plus'");
}

#[test]
fn encoder_errors_are_type_errors() {
    let error = encoded_image(Err("too large".to_string())).err().unwrap();
    assert_eq!(error.class, ErrorClass::Type);
    assert_eq!(error.message, "too large");
    assert_eq!(encoded_image(Ok(vec![1])).ok(), Some(vec![1]));
}

#[test]
fn base64_text() {
    assert_eq!(image_text(b""), "");
    assert_eq!(image_text(b"h"), "aA==");
    assert_eq!(image_text(b"he"), "aGU=");
    assert_eq!(image_text(b"hel"), "aGVs");
    assert_eq!(image_text(b"hello world"), "aGVsbG8gd29ybGQ=");
    assert_eq!(image_text(&[0xfb, 0xff, 0xfe]), "+//+");
}

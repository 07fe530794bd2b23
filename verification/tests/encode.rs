use remajiro_tools::encode::{merges_layers, png_output, writes_png, PngRefusal, PngStage};

fn decode(bytes: &[u8]) -> (u32, u32, Vec<u8>) {
    let decoder = png::Decoder::new(bytes);
    let mut reader = decoder.read_info().unwrap();
    let mut buf = vec![0; reader.output_buffer_size()];
    let info = reader.next_frame(&mut buf).unwrap();
    buf.truncate(info.buffer_size());
    assert_eq!(info.color_type, png::ColorType::Rgba);
    assert_eq!(info.bit_depth, png::BitDepth::Eight);
    (info.width, info.height, buf)
}

#[test]
fn encoded_png_decodes_to_the_pixels() {
    let pixels = vec![255, 0, 0, 255, 0, 255, 0, 128, 0, 0, 255, 0, 1, 2, 3, 4, 5, 6];
    let bytes = png_output(2, 2, &pixels[..16], false, false).unwrap();
    assert_eq!(&bytes[..8], &[137, 80, 78, 71, 13, 10, 26, 10]);
    assert_eq!(decode(&bytes), (2, 2, pixels[..16].to_vec()));
}

#[test]
fn existing_output_is_kept_unless_forced() {
    let pixels = vec![1, 2, 3, 4];
    assert!(matches!(png_output(1, 1, &pixels, true, false), Err(PngRefusal::Exists)));
    let forced = png_output(1, 1, &pixels, true, true).unwrap();
    assert_eq!(decode(&forced), (1, 1, pixels.clone()));
    assert_eq!(png_output(1, 1, &pixels, false, false).unwrap(), forced);
}

#[test]
fn zero_sizes_fail_at_the_header() {
    match png_output(0, 1, &[], false, false) {
        Err(PngRefusal::Encoding { failure, written }) => {
            assert_eq!(failure.stage, PngStage::Header);
            assert_eq!(written, vec![0, 0, 0, 0, 0x49, 0x45, 0x4E, 0x44, 0xAE, 0x42, 0x60, 0x82]);
        }
        other => panic!("unexpected {other:?}"),
    }
    match png_output(3, 0, &[], false, true) {
        Err(PngRefusal::Encoding { failure, .. }) => assert_eq!(failure.stage, PngStage::Header),
        other => panic!("unexpected {other:?}"),
    }
}

#[test]
fn wrong_buffer_fails_at_the_image_data() {
    match png_output(2, 1, &[1, 2, 3, 4], false, false) {
        Err(PngRefusal::Encoding { failure, written }) => {
            assert_eq!(failure.stage, PngStage::ImageData);
            assert_eq!(&written[..8], &[137, 80, 78, 71, 13, 10, 26, 10]);
            assert_eq!(&written[written.len() - 12..], &[0, 0, 0, 0, 0x49, 0x45, 0x4E, 0x44, 0xAE, 0x42, 0x60, 0x82]);
            assert!(format!("PNG write: {}", failure.error).starts_with("PNG write: "));
            assert!(failure.error.to_string().contains("8"));
        }
        other => panic!("unexpected {other:?}"),
    }
}

#[test]
fn which_runs_write_png() {
    assert!(writes_png(false, false));
    assert!(!writes_png(true, false));
    assert!(!writes_png(false, true));
    assert!(!writes_png(true, true));
    assert!(merges_layers(false));
    assert!(!merges_layers(true));
}

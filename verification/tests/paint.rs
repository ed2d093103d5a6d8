use reworkspace::files::Entry;
use reworkspace::geom::rect;
use reworkspace::inspector::Inspector;
use reworkspace::paint::{decode_png, encode_png, encode_png_rgba, image_from_frame, rgba, Frame, Image, DARK, LIGHT, WHITE};

#[test]
fn decodes_rgb_and_rgba_at_eight_and_sixteen_bits() {
    for (color, depth, samples, expected) in [
        (png::ColorType::Rgb, png::BitDepth::Sixteen, vec![255, 255, 0, 0, 0, 0], [255, 0, 0, 255]),
        (png::ColorType::Rgba, png::BitDepth::Sixteen, vec![255, 255, 0, 0, 0, 0, 128, 128], [128, 0, 0, 128]),
        (png::ColorType::Rgb, png::BitDepth::Eight, vec![255, 0, 0], [255, 0, 0, 255]),
        (png::ColorType::Rgba, png::BitDepth::Eight, vec![255, 0, 0, 128], [128, 0, 0, 128]),
    ] {
        let mut bytes = vec![];
        let mut encoder = png::Encoder::new(&mut bytes, 1, 1);
        encoder.set_color(color);
        encoder.set_depth(depth);
        encoder.write_header().unwrap().write_image_data(&samples).unwrap();
        let image = decode_png(&bytes).unwrap();
        assert_eq!((image.w, image.h), (1, 1));
        assert_eq!(image.px, vec![expected]);
    }
}

#[test]
fn grayscale_frames_are_refused_and_garbage_reports_the_decoder_error() {
    let mut bytes = vec![];
    let mut encoder = png::Encoder::new(&mut bytes, 1, 1);
    encoder.set_color(png::ColorType::GrayscaleAlpha);
    encoder.set_depth(png::BitDepth::Eight);
    encoder.write_header().unwrap().write_image_data(&[9, 200]).unwrap();
    assert_eq!(decode_png(&bytes).err(), Some("unsupported PNG color type".to_string()));
    assert!(decode_png(b"not a png").is_err());
    assert_eq!(image_from_frame(1, 1, 0, &[7]).err(), Some("unsupported PNG color type".to_string()));
}

#[test]
fn frames_are_premultiplied_with_rounding() {
    let img = image_from_frame(2, 1, 6, &[200, 100, 50, 128, 10, 20, 30, 0, 99]).unwrap();
    // 200*128+127 = 25727, /255 = 100; 100*128+127 = 12927 -> 50; 50*128+127 = 6527 -> 25
    assert_eq!(img.px, vec![[100, 50, 25, 128], [0, 0, 0, 0]]);
    let img = image_from_frame(1, 1, 2, &[1, 2, 3, 4]).unwrap();
    assert_eq!(img.px, vec![[1, 2, 3, 255]]);
}

#[test]
fn encoded_frames_decode_to_the_same_pixels() {
    let px = [0x112233u32, 0xffffff, 0x000000, 0x808080];
    let file = encode_png(2, 2, &px);
    assert_eq!(&file[..8], &[0x89, b'P', b'N', b'G', 0x0d, 0x0a, 0x1a, 0x0a]);
    let img = decode_png(&file).unwrap();
    assert_eq!((img.w, img.h), (2, 2));
    assert_eq!(img.px, vec![[0x11, 0x22, 0x33, 255], [255, 255, 255, 255], [0, 0, 0, 255], [0x80, 0x80, 0x80, 255]]);
    let file = encode_png_rgba(1, 1, &[255, 0, 0, 128]);
    assert_eq!(decode_png(&file).unwrap().px, vec![[128, 0, 0, 128]]);
}

#[test]
fn rgba_undoes_the_premultiplication() {
    let img = Image { w: 2, h: 1, px: vec![[128, 0, 64, 128], [5, 6, 7, 0]] };
    let (w, h, bytes) = rgba(&img);
    assert_eq!((w, h), (2, 1));
    // (128*255 + 64) / 128 = 255; (64*255 + 64) / 128 = 128
    assert_eq!(bytes, vec![255, 0, 128, 128, 0, 0, 0, 0]);
}

#[test]
fn fills_only_inside_the_clip() {
    let mut px = vec![0u32; 4 * 3];
    let mut f = Frame { w: 4, h: 3, px: &mut px };
    f.fill_dev(rect(-1, 1, 3, 5), rect(0, 0, 4, 2), DARK);
    assert_eq!(px, vec![0, 0, 0, 0, DARK, DARK, 0, 0, 0, 0, 0, 0]);
    let mut f = Frame { w: 4, h: 3, px: &mut px };
    f.fill_dev(rect(1, 0, 2, 3), rect(0, 0, 4, 3), LIGHT);
    assert_eq!(px, vec![0, LIGHT, LIGHT, 0, DARK, LIGHT, LIGHT, 0, 0, LIGHT, LIGHT, 0]);
}

#[test]
fn images_are_stretched_blended_and_clipped() {
    let img = Image { w: 1, h: 1, px: vec![[0, 0, 0, 255]] };
    let mut px = vec![WHITE; 3 * 2];
    let mut f = Frame { w: 3, h: 2, px: &mut px };
    f.image_dev(&img, rect(1, 0, 2, 2), rect(0, 0, 2, 2), 255);
    assert_eq!(px, vec![WHITE, 0, WHITE, WHITE, 0, WHITE]);
    // half-transparent red over white at full opacity: red stays 255, the others halve
    let img = Image { w: 2, h: 1, px: vec![[128, 0, 0, 128], [0, 0, 0, 0]] };
    let mut px = vec![WHITE; 2];
    let mut f = Frame { w: 2, h: 1, px: &mut px };
    f.image_dev(&img, rect(0, 0, 2, 1), rect(0, 0, 2, 1), 255);
    assert_eq!(px, vec![0xff7f7f, WHITE]);
}

#[test]
fn the_inspector_takes_the_decoded_image_of_the_current_entry() {
    let e = Entry { name: "a.png".into(), path: "/d/a.png".into(), is_dir: false, is_symlink: false, is_app: false, size: 3, modified: 7, hidden: false };
    let mut i = Inspector::default();
    i.update(Some(e));
    let file = encode_png(1, 1, &[0x010203]);
    i.set_image("/d/other.png", Ok(file.clone()));
    assert!(i.image.is_none());
    i.set_image("/d/a.png", Ok(file));
    assert_eq!(i.image.as_ref().unwrap().px, vec![[1, 2, 3, 255]]);
    i.set_image("/d/a.png", Ok(b"junk".to_vec()));
    assert!(i.msg.is_some());
    i.set_image("/d/a.png", Err("gone".into()));
    assert_eq!(i.msg.as_deref(), Some("gone"));
}

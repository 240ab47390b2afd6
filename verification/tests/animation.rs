use engiffen::animation::{finish_write, Gif};
use engiffen::{engiffen, Color, Error, Image, Quantizer};

fn decode(bytes: &[u8]) -> (Vec<u8>, Vec<(Vec<u8>, u16, Option<u8>)>, u16, u16) {
    let mut options = gif::DecodeOptions::new();
    options.set_color_output(gif::ColorOutput::Indexed);
    let mut decoder = options.read_info(bytes).unwrap();
    let palette = decoder.global_palette().unwrap().to_vec();
    let (width, height) = (decoder.width(), decoder.height());
    let mut frames = Vec::new();
    while let Some(frame) = decoder.read_next_frame().unwrap() {
        frames.push((frame.buffer.to_vec(), frame.delay, frame.transparent));
    }
    (palette, frames, width, height)
}

fn pattern(seed: u8) -> Vec<Color> {
    (0..12u8)
        .map(|p| {
            let k = (p + seed) % 5;
            Color::new(40 * k, 255 - 40 * k, 7 * k, 255)
        })
        .collect()
}

#[test]
fn written_animation_decodes_to_the_same_pixels() {
    let frames = vec![pattern(0), pattern(1), pattern(3)];
    let imgs: Vec<Image> = frames.iter().map(|f| Image::from_pixels(4, 3, f.clone()).unwrap()).collect();
    let gif = engiffen(&imgs, 20, Quantizer::Naive).unwrap();
    assert!(gif.can_encode());
    let mut out = Vec::new();
    gif.write(&mut out).unwrap();
    let (palette, decoded, width, height) = decode(&out);
    assert_eq!((width, height), (4, 3));
    assert_eq!(decoded.len(), 3);
    for (f, (buffer, delay, transparent)) in decoded.iter().enumerate() {
        assert_eq!(*delay, 5);
        assert_eq!(*transparent, None);
        assert_eq!(buffer, &gif.images[f]);
        for (p, slot) in buffer.iter().enumerate() {
            let c = frames[f][p];
            let at = 3 * (*slot as usize);
            assert_eq!(&palette[at..at + 3], &[c.r, c.g, c.b]);
        }
    }
}

#[test]
fn written_animation_marks_the_transparent_pixels() {
    let clear = Color::new(0, 0, 0, 0);
    let frame: Vec<Color> = (0..64u8)
        .map(|p| if p % 4 == 1 { clear } else { Color::new(255, 255, 255, 255) })
        .collect();
    let imgs = vec![Image::from_pixels(8, 8, frame.clone()).unwrap()];
    let gif = engiffen(&imgs, 10, Quantizer::NeuQuant(1)).unwrap();
    let mut out = Vec::new();
    gif.write(&mut out).unwrap();
    let (palette, decoded, _, _) = decode(&out);
    assert_eq!(decoded.len(), 1);
    let (buffer, delay, transparent) = &decoded[0];
    assert_eq!(*delay, 10);
    assert_eq!(*transparent, gif.transparency);
    assert!(transparent.is_some());
    assert_eq!(&palette[..768], &gif.palette[..]);
    for (p, slot) in buffer.iter().enumerate() {
        assert_eq!(Some(*slot) == *transparent, frame[p].a == 0);
        assert_eq!(*slot, gif.images[0][p]);
    }
}

fn tiny() -> Gif {
    Gif {
        palette: vec![1, 2, 3],
        transparency: Some(0),
        width: 2,
        height: 1,
        images: vec![vec![0, 0], vec![0, 0]],
        delay: 125,
    }
}

#[test]
fn stream_has_signature_screen_repeat_block_and_trailer() {
    let mut out = Vec::new();
    tiny().write(&mut out).unwrap();
    assert_eq!(&out[0..6], b"GIF89a");
    assert_eq!(&out[6..10], &[2, 0, 1, 0]);
    assert_eq!(&out[13..19], &[1, 2, 3, 0, 0, 0]);
    assert_eq!(
        &out[19..38],
        &[
            0x21, 0xFF, 0x0B, b'N', b'E', b'T', b'S', b'C', b'A', b'P', b'E', b'2', b'.', b'0',
            0x03, 0x01, 0x00, 0x00, 0x00
        ]
    );
    assert_eq!(&out[38..46], &[0x21, 0xF9, 0x04, 0b0000_0101, 12, 0, 0, 0]);
    assert_eq!(*out.last().unwrap(), 0x3B);
    let (_, decoded, width, height) = decode(&out);
    assert_eq!((width, height), (2, 1));
    assert_eq!(decoded, vec![(vec![0, 0], 12, Some(0)), (vec![0, 0], 12, Some(0))]);
}

#[test]
fn write_appends_to_what_is_there() {
    let mut fresh = Vec::new();
    tiny().write(&mut fresh).unwrap();
    let mut out = vec![9, 9, 9];
    tiny().write(&mut out).unwrap();
    assert_eq!(&out[..3], &[9, 9, 9]);
    assert_eq!(&out[3..], &fresh[..]);
    assert_eq!(tiny().encode().unwrap(), fresh);
}

#[test]
fn too_many_colours_are_refused_and_nothing_is_written() {
    let mut gif = tiny();
    gif.palette = vec![0; 3 * 257];
    let mut out = vec![4, 5];
    match gif.write(&mut out) {
        Err(Error::ImageWrite(_)) => {}
        _ => panic!("the palette has 257 colours"),
    }
    assert_eq!(out, vec![4, 5]);
    gif.palette = vec![0; 3 * 256];
    assert!(gif.write(&mut out).is_ok());
}

#[test]
fn a_frame_with_too_few_slots_is_refused() {
    let mut gif = tiny();
    gif.images = vec![vec![0, 0], vec![0]];
    let mut out = vec![];
    assert!(matches!(gif.write(&mut out), Err(Error::ImageWrite(_))));
    assert_eq!(out, Vec::<u8>::new());
}

#[test]
fn an_animation_without_frames_is_a_stream_without_frames() {
    let mut gif = tiny();
    gif.images = vec![];
    let mut out = vec![];
    gif.write(&mut out).unwrap();
    assert_eq!(out.len(), 39);
    assert_eq!(*out.last().unwrap(), 0x3B);
}

#[test]
fn can_encode_asks_for_area_or_empty_frames() {
    let mut gif = tiny();
    assert!(gif.can_encode());
    gif.width = 0;
    assert!(!gif.can_encode());
    gif.images = vec![vec![], vec![]];
    assert!(gif.can_encode());
    gif.images = vec![vec![], vec![1]];
    assert!(!gif.can_encode());
    gif.width = 3;
    gif.height = 0;
    assert!(!gif.can_encode());
    gif.images = vec![];
    assert!(gif.can_encode());
}

#[test]
fn finish_write_appends_or_reports() {
    let mut out = vec![1];
    assert!(finish_write(&mut out, Ok(vec![2, 3])).is_ok());
    assert_eq!(out, vec![1, 2, 3]);
    let mut gif = tiny();
    gif.palette = vec![0; 3 * 300];
    let refused = gif.encode();
    assert!(refused.is_err());
    assert!(matches!(finish_write(&mut out, refused), Err(Error::ImageWrite(_))));
    assert_eq!(out, vec![1, 2, 3]);
}

#[test]
fn frames_need_a_colour_table_with_a_colour() {
    let mut gif = tiny();
    gif.palette = vec![];
    let mut out = vec![7];
    assert!(matches!(gif.write(&mut out), Err(Error::ImageWrite(_))));
    assert_eq!(out, vec![7]);
    gif.palette = vec![1, 2];
    assert!(gif.encode().is_err());
    gif.images = vec![];
    assert!(gif.encode().is_ok());
    gif.palette = vec![];
    assert!(gif.write(&mut out).is_ok());
    assert_eq!(&out[1..7], b"GIF89a");
}

#[test]
fn an_animation_without_frames_is_encoded_if_the_palette_fits() {
    let mut gif = tiny();
    gif.images = vec![];
    gif.palette = vec![0; 3 * 256 + 2];
    assert!(gif.encode().is_ok());
    gif.palette = vec![0; 3 * 257];
    assert!(gif.encode().is_err());
}

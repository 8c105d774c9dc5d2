use rascii_art::cell::Cell;
use image::codecs::gif::GifEncoder;
use image::{Delay, Frame, Rgba, RgbaImage};
use rascii_art::gif::{GifFrameInfo, GifRenderer};
use rascii_art::script::Step;

fn cell() -> Cell {
    Cell { ch: "#".to_string(), color_pre: String::new(), color_suf: String::new() }
}

#[test]
fn gif_delay_in_whole_milliseconds() {
    assert_eq!(GifRenderer::frame_delay_nanos(100, 1), 100_000_000);
    assert_eq!(GifRenderer::frame_delay_nanos(1001, 10), 100_000_000);
    assert_eq!(GifRenderer::frame_delay_nanos(70, 0), 70_000_000);
    assert_eq!(GifRenderer::frame_delay_nanos(3, 4), 0);
    assert_eq!(GifRenderer::frame_delay_nanos(u32::MAX, 1), u32::MAX as u64 * 1_000_000);
}

#[test]
fn gif_frame_writes_rows_with_breaks_between() {
    let g = vec![vec![cell(), cell()], vec![cell()]];
    assert_eq!(
        GifRenderer::frame_steps(&g, 40),
        vec![
            Step::Home,
            Step::PutCell(0, 0),
            Step::PutCell(0, 1),
            Step::NewLine,
            Step::PutCell(1, 0),
            Step::Flush,
            Step::Sleep(40),
        ]
    );
    assert_eq!(GifRenderer::frame_steps(&Vec::new(), 5), vec![Step::Home, Step::Flush, Step::Sleep(5)]);
}

fn encode(frames: Vec<(u32, u32, u32)>) -> Vec<u8> {
    let mut bytes = Vec::new();
    {
        let mut enc = GifEncoder::new(&mut bytes);
        for (w, h, ms) in frames {
            let buf = RgbaImage::from_pixel(w, h, Rgba([200, 10, 10, 255]));
            enc.encode_frame(Frame::from_parts(buf, 0, 0, Delay::from_numer_denom_ms(ms, 1))).unwrap();
        }
    }
    bytes
}

#[test]
fn gif_decode_gives_frames_with_delays() {
    let bytes = encode(vec![(3, 2, 100), (3, 2, 250)]);
    let frames = GifRenderer::decode(&bytes).unwrap();
    assert_eq!(frames.len(), 2);
    assert_eq!(frames[0].delay_nanos, 100_000_000);
    assert_eq!(frames[1].delay_nanos, 250_000_000);
    assert_eq!((frames[0].width, frames[0].height), (3, 2));
    assert_eq!(frames[0].pixels.len(), 3 * 2 * 4);
    assert_eq!(&frames[0].pixels[0..4], &[200, 10, 10, 255]);
}

#[test]
fn gif_decode_refuses_other_bytes() {
    assert!(GifRenderer::decode(b"not a gif").is_none());
    assert!(GifRenderer::decode(&[]).is_none());
}

#[test]
fn gif_timed_frame_rounds_the_delay() {
    let f = GifRenderer::timed_frame(GifFrameInfo {
        delay_numer: 1001,
        delay_denom: 10,
        width: 1,
        height: 1,
        pixels: vec![1, 2, 3, 4],
    });
    assert_eq!(f.delay_nanos, 100_000_000);
    assert_eq!((f.width, f.height), (1, 1));
    assert_eq!(f.pixels, vec![1, 2, 3, 4]);
}

#[test]
fn gif_start_steps_only_with_frames() {
    assert_eq!(GifRenderer::start_steps(0), None);
    assert_eq!(GifRenderer::start_steps(3), Some(vec![Step::HideCursorAndClear, Step::Flush]));
}

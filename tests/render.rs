use termplay::event_loop::LoopEvent;
use termplay::terminal::{encode_frame, renderer_stops, StringInfo};

fn home() -> Vec<u8> {
    b"\x1b[1;1H".to_vec()
}

fn count_esc(bytes: &[u8]) -> usize {
    bytes.iter().filter(|b| **b == 0x1b).count()
}

#[test]
fn grayscale_frame_is_written_verbatim() {
    let f = StringInfo { char_len: 1, string: b"ab\ncd".to_vec(), rgb: Vec::new() };
    let mut want = home();
    want.extend_from_slice(b"ab\ncd");
    assert_eq!(encode_frame(&f), want);
}

#[test]
fn uniform_color_frame_has_one_color_sequence() {
    let n = 50;
    let f = StringInfo { char_len: 1, string: vec![b'#'; n], rgb: [10u8, 20, 30].repeat(n) };
    let out = encode_frame(&f);
    let mut want = home();
    want.extend_from_slice(b"\x1b[38;2;10;20;30m");
    want.extend_from_slice(&vec![b'#'; n]);
    assert_eq!(out, want);
    assert_eq!(count_esc(&out), 2);
}

#[test]
fn color_sequence_per_run() {
    let f = StringInfo {
        char_len: 1,
        string: b"abcd".to_vec(),
        rgb: vec![1, 2, 3, 1, 2, 3, 255, 0, 100, 1, 2, 3],
    };
    let mut want = home();
    want.extend_from_slice(b"\x1b[38;2;1;2;3mab\x1b[38;2;255;0;100mc\x1b[38;2;1;2;3md");
    assert_eq!(encode_frame(&f), want);
}

#[test]
fn black_first_cell_still_gets_its_color() {
    let f = StringInfo { char_len: 1, string: b"x".to_vec(), rgb: vec![0, 0, 0] };
    let mut want = home();
    want.extend_from_slice(b"\x1b[38;2;0;0;0mx");
    assert_eq!(encode_frame(&f), want);
}

#[test]
fn multibyte_cells_stay_whole() {
    let f = StringInfo {
        char_len: 3,
        string: vec![0xE2, 0x96, 0x88, 0x20, 0, 0],
        rgb: vec![9, 9, 9, 8, 8, 8],
    };
    let mut want = home();
    want.extend_from_slice(b"\x1b[38;2;9;9;9m");
    want.extend_from_slice(&[0xE2, 0x96, 0x88]);
    want.extend_from_slice(b"\x1b[38;2;8;8;8m");
    want.extend_from_slice(&[0x20, 0, 0]);
    assert_eq!(encode_frame(&f), want);
}

#[test]
fn color_state_does_not_leak_between_frames() {
    let rgb = [7u8, 7, 7].repeat(3);
    let a = StringInfo { char_len: 1, string: b"aaa".to_vec(), rgb: rgb.clone() };
    let b = StringInfo { char_len: 1, string: b"bbb".to_vec(), rgb };
    let out_a = encode_frame(&a);
    let out_b = encode_frame(&b);
    let mut prefix = home();
    prefix.extend_from_slice(b"\x1b[38;2;7;7;7m");
    assert!(out_a.starts_with(&prefix));
    assert!(out_b.starts_with(&prefix));
    assert_eq!(count_esc(&out_b), 2);
}

#[test]
fn empty_frame_is_just_cursor_home() {
    let f = StringInfo { char_len: 1, string: Vec::new(), rgb: Vec::new() };
    assert_eq!(encode_frame(&f), home());
}

#[test]
fn renderer_stops_only_on_shutdown() {
    assert!(renderer_stops(LoopEvent::Shutdown));
    assert!(!renderer_stops(LoopEvent::PlayPause));
    assert!(!renderer_stops(LoopEvent::Skip(10)));
}

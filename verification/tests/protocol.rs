use pixeltree::primitive::{Pixel, Rect};
use pixeltree::protocol::{
    command_info, command_print, command_rectangle_fill, command_rectangle_get,
    command_rectangle_print, decode_colors, decode_info, decode_u32, encode_rect, next_read,
    ServerInfo,
};

const RECT: Rect = Rect { x: 0x0102, y: 0x0304, w: 0x0a05, h: 0x0b06 };
const RECT_BYTES: [u8; 7] = [0x02, 0x01, 0x04, 0x03, 0x05, 0x06, 0xba];

#[test]
fn numbers_are_read_low_byte_first() {
    assert_eq!(decode_u32(&[0x78, 0x56, 0x34, 0x12]), 0x1234_5678);
    assert_eq!(decode_u32(&[0, 4, 0, 0]), 1024);
    assert_eq!(decode_u32(&[255, 255, 255, 255]), u32::MAX);
    assert_eq!(decode_u32(&[1, 0, 0, 0, 9, 9]), 1);
    assert_eq!(decode_u32(&1_000_000u32.to_le_bytes()), 1_000_000);
}

#[test]
fn info_is_asked_with_a_letter_and_zeros() {
    assert_eq!(command_info(), [b'I', 0, 0, 0, 0, 0, 0, 0]);
}

#[test]
fn info_is_four_numbers() {
    let mut response = Vec::new();
    response.extend(1024u32.to_le_bytes());
    response.extend(768u32.to_le_bytes());
    response.extend(65536u32.to_le_bytes());
    response.extend(0x0a0b_0c0du32.to_le_bytes());
    assert_eq!(
        decode_info(&response),
        ServerInfo { width: 1024, height: 768, recv_buffer_size: 65536, send_buffer_size: 0x0a0b_0c0d }
    );
}

#[test]
fn pixel_command_holds_sixteen_bits_a_coordinate() {
    let px = Pixel { x: 0x1234, y: 0xabcd, color: (1, 2, 3) };
    assert_eq!(command_print(&px), [b'P', 0x34, 0x12, 0xcd, 0xab, 1, 2, 3]);
    let far = Pixel { x: 0x12345, y: 0x10000, color: (255, 0, 9) };
    assert_eq!(command_print(&far), [b'P', 0x45, 0x23, 0, 0, 255, 0, 9]);
    let origin = Pixel { x: 0, y: 0, color: (0, 0, 0) };
    assert_eq!(command_print(&origin), [b'P', 0, 0, 0, 0, 0, 0, 0]);
}

#[test]
fn rectangle_is_written_into_bytes_one_to_seven() {
    let mut data = [0xeeu8; 10];
    encode_rect(RECT, &mut data);
    assert_eq!(data[0], 0xee);
    assert_eq!(data[1..8], RECT_BYTES);
    assert_eq!(data[8..], [0xee, 0xee]);
}

#[test]
fn sides_hold_twelve_bits() {
    let mut data = [0u8; 8];
    encode_rect(Rect { x: 0, y: 0, w: 0xfff, h: 0xfff }, &mut data);
    assert_eq!(data[5..8], [0xff, 0xff, 0xff]);
    encode_rect(Rect { x: 0, y: 0, w: 0x1000, h: 0x2100 }, &mut data);
    assert_eq!(data[5..8], [0, 0, 0x10]);
    encode_rect(Rect { x: 0x1ffff, y: 0x20001, w: 1024, h: 768 }, &mut data);
    assert_eq!(data[1..8], [0xff, 0xff, 0x01, 0x00, 0x00, 0x00, 0x34]);
}

#[test]
fn get_and_fill_commands() {
    let mut get = vec![b'g'];
    get.extend(RECT_BYTES);
    assert_eq!(command_rectangle_get(RECT).to_vec(), get);
    let mut fill = vec![b'f'];
    fill.extend(RECT_BYTES);
    fill.extend([7, 8, 9, 0]);
    assert_eq!(command_rectangle_fill((7, 8, 9), RECT).to_vec(), fill);
}

#[test]
fn colors_come_four_bytes_each() {
    assert_eq!(decode_colors(&[1, 2, 3, 99, 4, 5, 6, 0]), vec![(1, 2, 3), (4, 5, 6)]);
    assert_eq!(decode_colors(&[]), Vec::<(u8, u8, u8)>::new());
    let data: Vec<u8> = (0..=255).collect();
    let colors = decode_colors(&data);
    assert_eq!(colors.len(), 64);
    assert_eq!(colors[63], (252, 253, 254));
}

#[test]
fn answers_are_read_a_piece_at_a_time() {
    assert_eq!(next_read(5000), 1024);
    assert_eq!(next_read(1025), 1024);
    assert_eq!(next_read(1024), 1024);
    assert_eq!(next_read(10), 10);
    assert_eq!(next_read(0), 0);
}

fn stream(colors: &[(u8, u8, u8)], rect: Rect) -> Vec<u8> {
    let mut bytes = vec![b'p'];
    let mut head = [0u8; 8];
    encode_rect(rect, &mut head);
    bytes.extend(&head[1..]);
    for color in colors {
        bytes.extend([color.0, color.1, color.2, 0]);
    }
    bytes
}

fn some_colors(n: usize) -> Vec<(u8, u8, u8)> {
    (0..n).map(|i| (i as u8, (i / 3) as u8, (i * 7) as u8)).collect()
}

#[test]
fn rectangle_is_printed_in_pieces_of_1024_bytes() {
    for (n, sizes) in [
        (1, vec![12]),
        (254, vec![1024]),
        (255, vec![1024, 4]),
        (510, vec![1024, 1024]),
        (600, vec![1024, 1024, 360]),
    ] {
        let colors = some_colors(n);
        let frames = command_rectangle_print(&colors, RECT);
        assert_eq!(frames.iter().map(|f| f.len()).collect::<Vec<_>>(), sizes, "{n} colours");
        assert_eq!(frames.concat(), stream(&colors, RECT));
    }
}

#[test]
fn first_piece_starts_with_the_command() {
    let frames = command_rectangle_print(&[(1, 2, 3)], RECT);
    let mut expected = vec![b'p'];
    expected.extend(RECT_BYTES);
    expected.extend([1, 2, 3, 0]);
    assert_eq!(frames, vec![expected]);
}

#[test]
fn nothing_is_printed_without_colors() {
    assert!(command_rectangle_print(&[], RECT).is_empty());
}

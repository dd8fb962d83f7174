//! The byte layout of the canvas commands.
//!
//! A command starts with one letter, followed by little-endian fields.
//! Coordinates travel as 16 bits, the sides of a rectangle as 12 bits, colours
//! as three bytes; whatever does not fit is cut off at the top. Nothing here
//! touches a connection: the commands are built as bytes and the answers are
//! read from bytes.

use crate::primitive::{Pixel, Rect};
use vstd::prelude::*;

verus! {

/// `I`: asks for the canvas size.
pub const OP_INFO: u8 = 73;

/// `P`: prints one pixel.
pub const OP_PRINT: u8 = 80;

/// `g`: asks for the colours of a rectangle.
pub const OP_RECTANGLE_GET: u8 = 103;

/// `p`: prints the colours of a rectangle.
pub const OP_RECTANGLE_PRINT: u8 = 112;

/// `f`: fills a rectangle with one colour.
pub const OP_RECTANGLE_FILL: u8 = 102;

/// The most bytes that are sent in one piece.
pub const FRAME: usize = 1024;

/// What the server tells of itself.
#[derive(Debug, Copy, Clone, PartialEq, Eq, Structural)]
pub struct ServerInfo {
    pub width: u32,
    pub height: u32,
    pub recv_buffer_size: u32,
    pub send_buffer_size: u32,
}

/// The number whose little-endian bytes are the four of `data` from `at` on.
pub open spec fn le_u32(data: Seq<u8>, at: int) -> int {
    data[at] + 256 * data[at + 1] + 65536 * data[at + 2] + 16777216 * data[at + 3]
}

/// The lowest byte of a number.
pub open spec fn low_byte_of(value: usize) -> u8 {
    (value % 256) as u8
}

/// The second lowest byte of a number.
pub open spec fn second_byte_of(value: usize) -> u8 {
    ((value / 256) % 256) as u8
}

/// The seven bytes that describe a rectangle: corner as two 16-bit numbers,
/// then the low bytes of width and height, then bits 8 to 11 of the width in
/// the low half and of the height in the high half of the last byte.
pub open spec fn rect_bytes(rect: Rect) -> Seq<u8> {
    seq![
        low_byte_of(rect.x),
        second_byte_of(rect.x),
        low_byte_of(rect.y),
        second_byte_of(rect.y),
        low_byte_of(rect.w),
        low_byte_of(rect.h),
        ((rect.w / 256) % 16 + 16 * ((rect.h / 256) % 16)) as u8,
    ]
}

/// Four bytes for each colour: its three channels and a zero.
pub open spec fn color_bytes(colors: Seq<(u8, u8, u8)>) -> Seq<u8> {
    Seq::new(
        4 * colors.len(),
        |i: int|
            if i % 4 == 0 {
                colors[i / 4].0
            } else if i % 4 == 1 {
                colors[i / 4].1
            } else if i % 4 == 2 {
                colors[i / 4].2
            } else {
                0u8
            },
    )
}

/// Everything that printing a rectangle sends: the letter, the rectangle, the
/// colours.
pub open spec fn print_stream(colors: Seq<(u8, u8, u8)>, rect: Rect) -> Seq<u8> {
    seq![OP_RECTANGLE_PRINT] + rect_bytes(rect) + color_bytes(colors)
}

/// Piece `k` of a stream that is cut every [`FRAME`] bytes.
pub open spec fn piece(stream: Seq<u8>, k: int) -> Seq<u8> {
    stream.subrange(
        FRAME * k,
        if FRAME * (k + 1) <= stream.len() {
            FRAME * (k + 1)
        } else {
            stream.len() as int
        },
    )
}

/// How many pieces a stream of `len` bytes is cut into.
pub open spec fn pieces(len: nat) -> nat {
    ((len + FRAME - 1) / FRAME as int) as nat
}

fn low_byte(value: usize) -> (byte: u8)
    ensures
        byte == low_byte_of(value),
{
    assert(value & 0xff == value % 256) by (bit_vector);
    (value & 0xff) as u8
}

fn second_byte(value: usize) -> (byte: u8)
    ensures
        byte == second_byte_of(value),
{
    assert((value >> 8) & 0xff == (value / 256) % 256) by (bit_vector);
    ((value >> 8) & 0xff) as u8
}

fn sides_byte(w: usize, h: usize) -> (byte: u8)
    ensures
        byte == (w / 256) % 16 + 16 * ((h / 256) % 16),
{
    let low = (w >> 8) & 0x0f;
    let high = (h >> 4) & 0xf0;
    assert(low == (w / 256) % 16) by (bit_vector)
        requires
            low == (w >> 8) & 0x0f,
    ;
    assert(high == 16 * ((h / 256) % 16)) by (bit_vector)
        requires
            high == (h >> 4) & 0xf0,
    ;
    assert(low | high == low + high) by (bit_vector)
        requires
            low == (w >> 8) & 0x0f,
            high == (h >> 4) & 0xf0,
    ;
    (low | high) as u8
}

/// Reads a little-endian 32-bit number from the first four bytes of `data`.
pub fn decode_u32(data: &[u8]) -> (value: u32)
    requires
        data@.len() >= 4,
    ensures
        value == le_u32(data@, 0),
{
    let b0 = data[0] as u32;
    let b1 = data[1] as u32;
    let b2 = data[2] as u32;
    let b3 = data[3] as u32;
    assert(b0 | (b1 << 8) | (b2 << 16) | (b3 << 24) == b0 + 256 * b1 + 65536 * b2 + 16777216 * b3)
        by (bit_vector)
        requires
            b0 < 256,
            b1 < 256,
            b2 < 256,
            b3 < 256,
    ;
    b0 | (b1 << 8) | (b2 << 16) | (b3 << 24)
}

fn decode_u32_at(data: &[u8], at: usize) -> (value: u32)
    requires
        at + 4 <= data@.len(),
    ensures
        value == le_u32(data@, at as int),
{
    let word = [data[at], data[at + 1], data[at + 2], data[at + 3]];
    decode_u32(word.as_slice())
}

/// The command that asks for the canvas size: the letter and seven zeros.
pub fn command_info() -> (command: [u8; 8])
    ensures
        command@ == seq![OP_INFO, 0u8, 0u8, 0u8, 0u8, 0u8, 0u8, 0u8],
{
    let command = [OP_INFO, 0, 0, 0, 0, 0, 0, 0];
    assert(command@ =~= seq![OP_INFO, 0u8, 0u8, 0u8, 0u8, 0u8, 0u8, 0u8]);
    command
}

/// Reads the answer to [`command_info`]: four 32-bit numbers.
pub fn decode_info(response: &[u8]) -> (info: ServerInfo)
    requires
        response@.len() >= 16,
    ensures
        info.width == le_u32(response@, 0),
        info.height == le_u32(response@, 4),
        info.recv_buffer_size == le_u32(response@, 8),
        info.send_buffer_size == le_u32(response@, 12),
{
    ServerInfo {
        width: decode_u32_at(response, 0),
        height: decode_u32_at(response, 4),
        recv_buffer_size: decode_u32_at(response, 8),
        send_buffer_size: decode_u32_at(response, 12),
    }
}

/// The command that prints one pixel: the letter, column and row as 16 bits
/// each, and the colour.
pub fn command_print(px: &Pixel) -> (command: [u8; 8])
    ensures
        command@ == seq![
            OP_PRINT,
            low_byte_of(px.x),
            second_byte_of(px.x),
            low_byte_of(px.y),
            second_byte_of(px.y),
            px.color.0,
            px.color.1,
            px.color.2,
        ],
{
    let command = [
        OP_PRINT,
        low_byte(px.x),
        second_byte(px.x),
        low_byte(px.y),
        second_byte(px.y),
        px.color.0,
        px.color.1,
        px.color.2,
    ];
    assert(command@ =~= seq![
        OP_PRINT,
        low_byte_of(px.x),
        second_byte_of(px.x),
        low_byte_of(px.y),
        second_byte_of(px.y),
        px.color.0,
        px.color.1,
        px.color.2,
    ]);
    command
}

/// Writes the rectangle into bytes 1 to 7 of a command and leaves the rest of
/// `data` as it is.
pub fn encode_rect(rect: Rect, data: &mut [u8])
    requires
        old(data)@.len() >= 8,
    ensures
        final(data)@.len() == old(data)@.len(),
        final(data)@.subrange(1, 8) == rect_bytes(rect),
        final(data)@[0] == old(data)@[0],
        final(data)@.subrange(8, old(data)@.len() as int) == old(data)@.subrange(
            8,
            old(data)@.len() as int,
        ),
{
    data[1] = low_byte(rect.x);
    data[2] = second_byte(rect.x);
    data[3] = low_byte(rect.y);
    data[4] = second_byte(rect.y);
    data[5] = low_byte(rect.w);
    data[6] = low_byte(rect.h);
    data[7] = sides_byte(rect.w, rect.h);
    assert(data@.subrange(1, 8) =~= rect_bytes(rect));
    assert(data@.subrange(8, data@.len() as int) =~= old(data)@.subrange(
        8,
        old(data)@.len() as int,
    ));
}

/// The command that asks for the colours of a rectangle.
pub fn command_rectangle_get(rect: Rect) -> (command: [u8; 8])
    ensures
        command@ == seq![OP_RECTANGLE_GET] + rect_bytes(rect),
{
    let mut command = [OP_RECTANGLE_GET, 0, 0, 0, 0, 0, 0, 0];
    encode_rect(rect, &mut command);
    assert(command@ =~= seq![OP_RECTANGLE_GET] + command@.subrange(1, 8));
    command
}

/// The command that fills a rectangle with one colour: the letter, the
/// rectangle, the colour and a zero.
pub fn command_rectangle_fill(color: (u8, u8, u8), rect: Rect) -> (command: [u8; 12])
    ensures
        command@ == seq![OP_RECTANGLE_FILL] + rect_bytes(rect) + seq![color.0, color.1, color.2, 0u8],
{
    let mut head = [OP_RECTANGLE_FILL, 0, 0, 0, 0, 0, 0, 0];
    encode_rect(rect, &mut head);
    let command = [
        head[0],
        head[1],
        head[2],
        head[3],
        head[4],
        head[5],
        head[6],
        head[7],
        color.0,
        color.1,
        color.2,
        0,
    ];
    assert(command@ =~= seq![OP_RECTANGLE_FILL] + head@.subrange(1, 8) + seq![
        color.0,
        color.1,
        color.2,
        0u8,
    ]);
    command
}

/// Reads the colours of a rectangle from the answer to
/// [`command_rectangle_get`]: four bytes a colour, the fourth of which says
/// nothing.
pub fn decode_colors(data: &[u8]) -> (colors: Vec<(u8, u8, u8)>)
    requires
        data@.len() % 4 == 0,
    ensures
        colors@.len() * 4 == data@.len(),
        forall|i: int|
            0 <= i < colors@.len() ==> #[trigger] colors@[i] == (
                data@[4 * i],
                data@[4 * i + 1],
                data@[4 * i + 2],
            ),
{
    let mut colors: Vec<(u8, u8, u8)> = Vec::new();
    let mut at: usize = 0;
    while at < data.len()
        invariant
            data@.len() % 4 == 0,
            at % 4 == 0,
            at <= data@.len(),
            colors@.len() * 4 == at,
            forall|i: int|
                0 <= i < colors@.len() ==> #[trigger] colors@[i] == (
                    data@[4 * i],
                    data@[4 * i + 1],
                    data@[4 * i + 2],
                ),
        decreases data@.len() - at,
    {
        colors.push((data[at], data[at + 1], data[at + 2]));
        at = at + 4;
    }
    colors
}

/// How many bytes of an answer to read next when `remaining` are still to
/// come: all of them, or a full piece.
pub fn next_read(remaining: usize) -> (size: usize)
    ensures
        size == if remaining > FRAME {
            FRAME
        } else {
            remaining
        },
{
    if remaining > FRAME {
        FRAME
    } else {
        remaining
    }
}

/// The pieces in which a rectangle of colours is sent: the stream of
/// [`print_stream`] cut every 1024 bytes. Without colours nothing is sent at
/// all.
pub fn command_rectangle_print(colors: &[(u8, u8, u8)], rect: Rect) -> (frames: Vec<Vec<u8>>)
    requires
        8 + 4 * colors@.len() <= usize::MAX,
    ensures
        frames@.len() == if colors@.len() == 0 {
            0
        } else {
            pieces(print_stream(colors@, rect).len())
        },
        forall|k: int|
            0 <= k < frames@.len() ==> (#[trigger] frames@[k])@ == piece(
                print_stream(colors@, rect),
                k,
            ),
{
    let ghost stream = print_stream(colors@, rect);
    let mut frames: Vec<Vec<u8>> = Vec::new();
    let mut head = [OP_RECTANGLE_PRINT, 0, 0, 0, 0, 0, 0, 0];
    encode_rect(rect, &mut head);
    let mut data: Vec<u8> = Vec::new();
    let mut i: usize = 0;
    while i < 8
        invariant
            i <= 8,
            data@ == head@.subrange(0, i as int),
        decreases 8 - i,
    {
        data.push(head[i]);
        assert(data@ =~= head@.subrange(0, i + 1));
        i = i + 1;
    }
    assert(data@ =~= stream.subrange(0, 8)) by {
        assert(head@.subrange(0, 8) =~= seq![OP_RECTANGLE_PRINT] + head@.subrange(1, 8));
    }
    let mut pixel_idx: usize = 0;
    while pixel_idx < colors.len()
        invariant
            stream == print_stream(colors@, rect),
            8 + 4 * colors@.len() <= usize::MAX,
            pixel_idx <= colors@.len(),
            data@.len() <= FRAME,
            FRAME * frames@.len() + data@.len() == 8 + 4 * pixel_idx,
            data@ == stream.subrange(FRAME * frames@.len(), 8 + 4 * pixel_idx),
            data@.len() % 4 == 0,
            data@.len() < FRAME,
            frames@.len() == 0 || pixel_idx < colors@.len(),
            pixel_idx == 0 || pixel_idx < colors@.len(),
            forall|k: int|
                0 <= k < frames@.len() ==> (#[trigger] frames@[k])@ == stream.subrange(
                    FRAME * k,
                    FRAME * (k + 1),
                ),
        decreases colors@.len() - pixel_idx,
    {
        while data.len() <= FRAME - 4 && pixel_idx < colors.len()
            invariant
                stream == print_stream(colors@, rect),
                8 + 4 * colors@.len() <= usize::MAX,
                pixel_idx <= colors@.len(),
                data@.len() <= FRAME,
                data@.len() % 4 == 0,
                FRAME * frames@.len() + data@.len() == 8 + 4 * pixel_idx,
                data@ == stream.subrange(FRAME * frames@.len(), 8 + 4 * pixel_idx),
            decreases colors@.len() - pixel_idx,
        {
            let col = colors[pixel_idx];
            let ghost before = data@;
            data.push(col.0);
            data.push(col.1);
            data.push(col.2);
            data.push(0);
            proof {
                let at = 4 * pixel_idx;
                assert(color_bytes(colors@)[at] == col.0);
                assert(color_bytes(colors@)[at + 1] == col.1);
                assert(color_bytes(colors@)[at + 2] == col.2);
                assert(color_bytes(colors@)[at + 3] == 0);
                assert(data@ =~= stream.subrange(FRAME * frames@.len(), 8 + 4 * (pixel_idx + 1)));
            }
            pixel_idx = pixel_idx + 1;
        }
        let ghost sent = frames@;
        let ghost cut = data@;
        frames.push(data);
        if pixel_idx >= colors.len() {
            proof {
                let n = frames@.len() as int;
                let total = stream.len() as int;
                assert(total == 8 + 4 * colors@.len());
                assert(n == pieces(stream.len()));
                assert forall|k: int| 0 <= k < frames@.len() implies (#[trigger] frames@[k])@
                    == piece(stream, k) by {
                    if k < n - 1 {
                        assert(frames@[k] == sent[k]);
                    }
                }
            }
            return frames;
        }
        data = Vec::new();
        proof {
            assert(cut.len() == FRAME);
            assert(data@ =~= stream.subrange(FRAME * frames@.len(), 8 + 4 * pixel_idx));
            assert forall|k: int| 0 <= k < frames@.len() implies (#[trigger] frames@[k])@
                == stream.subrange(FRAME * k, FRAME * (k + 1)) by {
                if k < sent.len() {
                    assert(frames@[k] == sent[k]);
                }
            }
        }
    }
    frames
}

/// The first `n` pieces of a stream, one after the other.
pub open spec fn joined(stream: Seq<u8>, n: nat) -> Seq<u8>
    decreases n,
{
    if n == 0 {
        Seq::empty()
    } else {
        joined(stream, (n - 1) as nat) + piece(stream, n - 1)
    }
}

/// Nothing is lost in the cutting: the pieces of a stream, one after the
/// other, are the stream.
pub proof fn lemma_pieces_join(stream: Seq<u8>, n: nat)
    requires
        n <= pieces(stream.len()),
    ensures
        joined(stream, n) == stream.take(
            if FRAME * n <= stream.len() {
                FRAME * n
            } else {
                stream.len() as int
            },
        ),
        n == pieces(stream.len()) ==> joined(stream, n) == stream,
    decreases n,
{
    if n > 0 {
        lemma_pieces_join(stream, (n - 1) as nat);
        assert(FRAME * (n - 1) <= stream.len());
    }
    assert(joined(stream, n) =~= stream.take(
        if FRAME * n <= stream.len() {
            FRAME * n
        } else {
            stream.len() as int
        },
    ));
    if n == pieces(stream.len()) {
        assert(FRAME * n >= stream.len());
        assert(stream.take(stream.len() as int) =~= stream);
    }
}

/// What is printed is read back unchanged: the colours that
/// [`decode_colors`] reads from the bytes that printing sends for `colors`
/// are `colors`.
pub proof fn lemma_colors_read_as_printed(colors: Seq<(u8, u8, u8)>, read: Seq<(u8, u8, u8)>)
    requires
        read.len() * 4 == color_bytes(colors).len(),
        forall|i: int|
            0 <= i < read.len() ==> #[trigger] read[i] == (
                color_bytes(colors)[4 * i],
                color_bytes(colors)[4 * i + 1],
                color_bytes(colors)[4 * i + 2],
            ),
    ensures
        read == colors,
{
    assert(read.len() == colors.len());
    assert forall|i: int| 0 <= i < read.len() implies read[i] == colors[i] by {
        assert((4 * i) / 4 == i && (4 * i + 1) / 4 == i && (4 * i + 2) / 4 == i);
    }
    assert(read =~= colors);
}

/// A number is read back from its little-endian bytes.
pub proof fn lemma_le_u32_reads_its_bytes(value: u32)
    ensures
        le_u32(
            seq![
                (value % 256) as u8,
                ((value / 256) % 256) as u8,
                ((value / 65536) % 256) as u8,
                (value / 16777216) as u8,
            ],
            0,
        ) == value,
{
}

} // verus!

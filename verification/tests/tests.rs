use ase::chunk::cel_chunk::Cel;
use ase::color::{Pixels, RGBA256};
use ase::{Aseprite, ChunkData, ColorDepth, Reader};

fn le16(v: u16) -> Vec<u8> {
    vec![(v & 0xff) as u8, (v >> 8) as u8]
}

fn le32(v: u32) -> Vec<u8> {
    vec![(v & 0xff) as u8, ((v >> 8) & 0xff) as u8, ((v >> 16) & 0xff) as u8, (v >> 24) as u8]
}

fn text(s: &str) -> Vec<u8> {
    let mut out = le16(s.len() as u16);
    out.extend_from_slice(s.as_bytes());
    out
}

fn cat(parts: Vec<Vec<u8>>) -> Vec<u8> {
    let mut out = Vec::new();
    for part in parts {
        out.extend_from_slice(&part);
    }
    out
}

fn chunk(tag: u16, payload: Vec<u8>) -> Vec<u8> {
    cat(vec![le32(6 + payload.len() as u32), le16(tag), payload])
}

fn frame(duration: u16, chunks: Vec<Vec<u8>>) -> Vec<u8> {
    let count = chunks.len() as u16;
    let body = cat(chunks);
    cat(vec![
        le32(16 + body.len() as u32),
        le16(0xF1FA),
        le16(count),
        le16(duration),
        vec![0; 2],
        le32(0),
        body,
    ])
}

fn document(w: u16, h: u16, depth: u16, colors: u16, frames: Vec<Vec<u8>>) -> Vec<u8> {
    let count = frames.len() as u16;
    let body = cat(frames);
    cat(vec![
        le32(128 + body.len() as u32),
        le16(0xA5E0),
        le16(count),
        le16(w),
        le16(h),
        le16(depth),
        le32(1),
        le16(100),
        vec![0; 8],
        vec![0],
        vec![0; 3],
        le16(colors),
        vec![1, 1],
        vec![0; 92],
        body,
    ])
}

fn layer(name: &str, flags: u16, kind: u16, level: u16, blend: u16, opacity: u8) -> Vec<u8> {
    chunk(
        0x2004,
        cat(vec![
            le16(flags),
            le16(kind),
            le16(level),
            vec![0; 4],
            le16(blend),
            vec![opacity],
            vec![0; 3],
            text(name),
        ]),
    )
}

fn cel_head(layer_index: u16, x: i16, y: i16, opacity: u8, kind: u16) -> Vec<u8> {
    cat(vec![
        le16(layer_index),
        le16(x as u16),
        le16(y as u16),
        vec![opacity],
        le16(kind),
        vec![0; 7],
    ])
}

fn raw_cel(layer_index: u16, x: i16, y: i16, w: u16, h: u16, pixels: Vec<u8>) -> Vec<u8> {
    chunk(0x2005, cat(vec![cel_head(layer_index, x, y, 255, 0), le16(w), le16(h), pixels]))
}

fn linked_cel(layer_index: u16, frame_position: u16) -> Vec<u8> {
    chunk(0x2005, cat(vec![cel_head(layer_index, 0, 0, 255, 1), le16(frame_position)]))
}

fn compressed_cel(layer_index: u16, w: u16, h: u16, data: Vec<u8>) -> Vec<u8> {
    chunk(0x2005, cat(vec![cel_head(layer_index, 0, 0, 128, 2), le16(w), le16(h), data]))
}

fn srgb_profile() -> Vec<u8> {
    chunk(0x2007, cat(vec![le16(1), le16(0), le32(0), vec![0; 8]]))
}

fn palette(entries: Vec<(u8, u8, u8, u8, Option<&str>)>) -> Vec<u8> {
    let count = entries.len() as u32;
    let mut body = cat(vec![le32(count), le32(0), le32(count - 1), vec![0; 8]]);
    for (r, g, b, a, name) in entries {
        match name {
            Some(name) => {
                body.extend_from_slice(&le16(1));
                body.extend_from_slice(&[r, g, b, a]);
                body.extend_from_slice(&text(name));
            }
            None => {
                body.extend_from_slice(&le16(0));
                body.extend_from_slice(&[r, g, b, a]);
            }
        }
    }
    chunk(0x2019, body)
}

fn old_palette(tag: u16, colors: Vec<(u8, u8, u8)>) -> Vec<u8> {
    let mut body = cat(vec![le16(1), vec![0, colors.len() as u8]]);
    for (r, g, b) in colors {
        body.extend_from_slice(&[r, g, b]);
    }
    chunk(tag, body)
}

fn tags(list: Vec<(u16, u16, u8, &str)>) -> Vec<u8> {
    let mut body = le16(list.len() as u16);
    for (from, to, direction, name) in list {
        body.extend_from_slice(&cat(vec![
            le16(from),
            le16(to),
            vec![direction],
            vec![0; 8],
            vec![10, 20, 30],
            vec![0],
            text(name),
        ]));
    }
    chunk(0x2018, body)
}

fn slice(name: &str, flags: u32, keys: Vec<Vec<u8>>) -> Vec<u8> {
    chunk(
        0x2022,
        cat(vec![le32(keys.len() as u32), le32(flags), vec![0; 4], text(name), cat(keys)]),
    )
}

fn key(frame_number: u32, x: i32, y: i32, w: u32, h: u32, rest: Vec<u8>) -> Vec<u8> {
    cat(vec![le32(frame_number), le32(x as u32), le32(y as u32), le32(w), le32(h), rest])
}

fn user_data(flags: u32, note: Option<&str>, color: Option<[u8; 4]>) -> Vec<u8> {
    let mut body = le32(flags);
    if let Some(note) = note {
        body.extend_from_slice(&text(note));
    }
    if let Some(color) = color {
        body.extend_from_slice(&color);
    }
    chunk(0x2020, body)
}

fn cel_extra() -> Vec<u8> {
    chunk(
        0x2006,
        cat(vec![
            le32(1),
            le32(0x3FC0_0000),
            le32(0xBF80_0000),
            le32(0x4000_0000),
            le32(0x4080_0000),
            vec![0; 16],
        ]),
    )
}

fn mask() -> Vec<u8> {
    chunk(
        0x2016,
        cat(vec![le16(1), le16(0xFFFE), le16(9), le16(2), vec![0; 8], text("m"), vec![7, 8, 9, 10]]),
    )
}

const FOUR_PIXELS: [u8; 16] = [255, 0, 0, 255, 0, 255, 0, 255, 0, 0, 255, 255, 10, 20, 30, 40];

const FOUR_PIXELS_ZLIB: [u8; 21] =
    [120, 218, 251, 207, 192, 240, 31, 12, 25, 254, 255, 231, 18, 145, 211, 0, 0, 60, 156, 6, 95];

/// A minimal document: one frame, one layer, one raw cel.
fn simple() -> Vec<u8> {
    document(
        2,
        2,
        32,
        2,
        vec![frame(
            100,
            vec![
                srgb_profile(),
                old_palette(0x0004, vec![(0, 0, 0), (255, 255, 255)]),
                palette(vec![(0, 0, 0, 255, None), (255, 255, 255, 255, None)]),
                layer("Layer 1", 3, 0, 0, 0, 255),
                raw_cel(0, 0, 0, 2, 2, FOUR_PIXELS.to_vec()),
            ],
        )],
    )
}

/// A document with a group and two layers in it, and compressed cels.
fn layered() -> Vec<u8> {
    document(
        2,
        2,
        32,
        0,
        vec![frame(
            250,
            vec![
                srgb_profile(),
                layer("Group", 3, 1, 0, 0, 255),
                layer("Below", 3, 0, 1, 1, 200),
                layer("Above", 2, 0, 1, 16, 100),
                compressed_cel(1, 2, 2, FOUR_PIXELS_ZLIB.to_vec()),
                cel_extra(),
                compressed_cel(2, 2, 2, FOUR_PIXELS_ZLIB.to_vec()),
            ],
        )],
    )
}

/// An indexed document of three frames with tags and a linked cel.
fn animated() -> Vec<u8> {
    document(
        3,
        1,
        8,
        3,
        vec![
            frame(
                100,
                vec![
                    old_palette(0x0011, vec![(0, 0, 0), (63, 0, 0), (0, 63, 0)]),
                    palette(vec![
                        (0, 0, 0, 0, Some("clear")),
                        (255, 0, 0, 255, None),
                        (0, 255, 0, 255, Some("gr\u{fc}n")),
                    ]),
                    layer("Sprite", 3, 0, 0, 0, 255),
                    tags(vec![(0, 1, 0, "walk"), (1, 2, 2, "turn"), (2, 2, 1, "")]),
                    raw_cel(0, 0, 0, 3, 1, vec![0, 1, 2]),
                ],
            ),
            frame(50, vec![linked_cel(0, 0)]),
            frame(75, vec![raw_cel(0, -1, 2, 3, 1, vec![2, 1, 0])]),
        ],
    )
}

/// A grayscale document with slices, user data, a mask and a path.
fn sliced() -> Vec<u8> {
    let nine = cat(vec![le32(1), le32((-2i32) as u32), le32(3), le32(4)]);
    let pivot = cat(vec![le32(5), le32((-6i32) as u32)]);
    document(
        2,
        1,
        16,
        0,
        vec![frame(
            100,
            vec![
                layer("Layer", 3, 0, 0, 0, 255),
                raw_cel(0, 0, 0, 2, 1, vec![9, 255, 200, 128]),
                slice("plain", 0, vec![key(0, 0, 0, 2, 1, vec![])]),
                user_data(3, Some("a note"), Some([1, 2, 3, 4])),
                slice(
                    "button",
                    3,
                    vec![
                        key(0, 1, 1, 8, 8, cat(vec![nine.clone(), pivot.clone()])),
                        key(4, -1, -1, 8, 8, cat(vec![nine, pivot])),
                    ],
                ),
                user_data(1, Some("text only"), None),
                slice("pivot", 2, vec![key(0, 0, 0, 1, 1, cat(vec![le32(7), le32(8)]))]),
                user_data(0, None, None),
                mask(),
                chunk(0x2017, vec![]),
            ],
        )],
    )
}

fn test_read(bytes: Vec<u8>) -> Result<Aseprite, ase::Error> {
    let mut file = Reader::new(bytes);
    Aseprite::from_read(&mut file)
}

fn test_rw(bytes: Vec<u8>) -> Result<(), ase::Error> {
    let file_buf = bytes.clone();
    let mut file = Reader::new(bytes);
    let ase = Aseprite::from_read(&mut file)?;
    assert_eq!(file.position(), file_buf.len());

    let mut my_buf = vec![];
    ase.write(&mut my_buf)?;
    assert_eq!(my_buf, file_buf);

    Ok(())
}

#[test]
fn read() {
    let doc = test_read(simple()).unwrap();
    assert_eq!(doc.header.frames, 1);
    assert_eq!(doc.frames.len(), 1);
    assert_eq!(doc.frames[0].chunks.len(), 5);
    let doc = test_read(layered()).unwrap();
    assert_eq!(doc.frames[0].chunks.len(), 7);
    let doc = test_read(animated()).unwrap();
    assert_eq!(doc.frames.len(), 3);
    assert_eq!(doc.header.color_depth, ColorDepth::Indexed);
    let doc = test_read(sliced()).unwrap();
    assert_eq!(doc.frames[0].chunks.len(), 10);
    assert_eq!(doc.header.color_depth, ColorDepth::Grayscale);
}

#[test]
fn rw() {
    test_rw(simple()).unwrap();
    test_rw(layered()).unwrap();
    test_rw(animated()).unwrap();
    test_rw(sliced()).unwrap();
}

#[test]
fn test_compression() {
    let data: Vec<u8> = vec![
        120, 156, 99, 96, 160, 61, 48, 72, 104, 250, 15, 194, 228, 232, 33, 21, 83, 170, 159, 24,
        243, 209, 253, 66, 11, 183, 34, 203, 17, 19, 86, 248, 194, 153, 20, 119, 208, 42, 94, 240,
        217, 75, 200, 95, 184, 220, 70, 138, 95, 41, 177, 139, 20, 63, 80, 98, 23, 169, 97, 70, 75,
        127, 81, 219, 46, 92, 242, 212, 14, 67, 100, 49, 98, 210, 55, 185, 118, 145, 147, 14, 168,
        237, 47, 90, 165, 67, 92, 118, 225, 83, 71, 172, 61, 196, 216, 69, 138, 89, 164, 218, 69,
        110, 153, 64, 142, 60, 41, 128, 158, 118, 161, 3, 0, 164, 249, 126, 89,
    ];
    let cel = Cel::CompressedImage { width: 0, height: 0, zlib_compressed_data: data };

    let pixels = cel.pixels(&ColorDepth::RGBA);
    match pixels {
        Some(Pixels::RGBA(px)) => {
            assert_eq!(px.len(), 513);
            assert_eq!(px[0], RGBA256 { r: 0, g: 0, b: 0, a: 0 });
            assert_eq!(px.iter().filter(|p| **p == RGBA256 { r: 48, g: 96, b: 130, a: 255 }).count(), 185);
        }
        other => panic!("no RGBA pixels: {:?}", other),
    }
}

#[test]
fn decoded_layered_document_inflates_to_its_pixels() {
    let doc = test_read(layered()).unwrap();
    let cel = match &doc.frames[0].chunks[4].chunk_data {
        ChunkData::CelChunk(c) => c.cel.clone(),
        other => panic!("chunk 4 is no cel: {:?}", other),
    };
    let expected = Pixels::RGBA(vec![
        RGBA256 { r: 255, g: 0, b: 0, a: 255 },
        RGBA256 { r: 0, g: 255, b: 0, a: 255 },
        RGBA256 { r: 0, g: 0, b: 255, a: 255 },
        RGBA256 { r: 10, g: 20, b: 30, a: 40 },
    ]);
    assert_eq!(cel.pixels(&ColorDepth::RGBA), Some(expected));
    assert_eq!(cel.pixels(&ColorDepth::Grayscale).map(|p| match p {
        Pixels::Grayscale(v) => v.len(),
        _ => 0,
    }), Some(8));
}

#[test]
fn decoded_sizes_are_the_declared_ones() {
    let bytes = simple();
    let total = bytes.len() as u32;
    let doc = test_read(bytes).unwrap();
    assert_eq!(doc.header.file_size, total);
    assert_eq!(doc.frames[0].byte_count, total - 128);
    assert_eq!(doc.frames[0].number_of_chunks, 5);
    assert_eq!(doc.frames[0].number_of_chunks_old, 5);
    assert_eq!(doc.frames[0].frame_duration_milliseconds, 100);
    // colour profile: 16 payload bytes and 6 header bytes
    assert_eq!(doc.frames[0].chunks[0].chunk_size, 22);
    // raw cel: 16 fixed bytes, width and height, 16 pixel bytes
    assert_eq!(doc.frames[0].chunks[4].chunk_size, 6 + 16 + 4 + 16);
}

#[test]
fn trailing_bytes_are_left_unread() {
    let mut bytes = simple();
    let len = bytes.len();
    bytes.extend_from_slice(&[1, 2, 3]);
    let mut file = Reader::new(bytes);
    let doc = Aseprite::from_read(&mut file).unwrap();
    assert_eq!(file.position(), len);
    assert_eq!(file.remaining(), 3);
    let mut out = Vec::new();
    doc.write(&mut out).unwrap();
    assert_eq!(out.len(), len);
}

#[test]
fn a_nonzero_reserved_byte_is_not_written_back() {
    let mut bytes = simple();
    bytes[40] = 0xAB;
    let doc = test_read(bytes.clone()).unwrap();
    let mut out = Vec::new();
    doc.write(&mut out).unwrap();
    assert_ne!(out, bytes);
    assert_eq!(out, simple());
}

#[test]
fn every_truncation_of_a_document_fails_to_decode() {
    let bytes = sliced();
    for cut in 0..bytes.len() {
        let r = test_read(bytes[..cut].to_vec());
        assert!(r.is_err(), "decoded from a prefix of {} bytes", cut);
    }
}

use ase::chunk::cel_extra_chunk;
use ase::chunk::color_profile_chunk;
use ase::chunk::layer_chunk;
use ase::chunk::palette_chunk;
use ase::chunk::slice_chunk;
use ase::chunk::user_data_chunk;
use ase::chunk::cel_chunk::{Cel, CelChunk};
use ase::chunk::cel_extra_chunk::CelExtraChunk;
use ase::chunk::color_profile_chunk::{ColorProfileChunk, ProfileType};
use ase::chunk::frame_tags_chunk::{FrameTagsChunk, LoopAnimationDirection, Tag};
use ase::chunk::layer_chunk::{BlendMode, LayerChunk, LayerType};
use ase::chunk::mask_chunk::MaskChunk;
use ase::chunk::old_palette_chunk11::OldPaletteChunk11;
use ase::chunk::old_palette_chunk4::OldPaletteChunk4;
use ase::chunk::palette_chunk::{PaletteChunk, PaletteEntry};
use ase::chunk::path_chunk::PathChunk;
use ase::chunk::slice_chunk::{NinePatchesInfo, PivotInfo, SliceChunk, SliceKey};
use ase::chunk::user_data_chunk::UserDataChunk;
use ase::color::{Pixels, RGB256, RGB64, RGBA256};
use ase::{Chunk, ChunkData, ColorDepth, Discriminant, Error, Gated, Header, Reader};

fn header(depth: ColorDepth) -> Header {
    let mut h = Header::new(1, 1);
    h.color_depth = depth;
    h
}

fn decode_chunk(bytes: Vec<u8>, depth: ColorDepth) -> Result<Chunk, Error> {
    let mut read = Reader::new(bytes);
    Chunk::from_read(&mut read, &header(depth))
}

fn encode(data: ChunkData) -> Result<Vec<u8>, Error> {
    let mut out: Vec<u8> = Vec::new();
    Chunk::new(data).write(&mut out)?;
    Ok(out)
}

/// Encodes the payload as a chunk, checks the declared length, decodes the
/// bytes again and hands back the payload that came out.
fn through_the_wire(data: ChunkData, depth: ColorDepth) -> ChunkData {
    let bytes = encode(data).unwrap();
    let len = bytes.len();
    let mut with_tail = bytes.clone();
    with_tail.extend_from_slice(&[0xDE, 0xAD]);
    let mut read = Reader::new(with_tail);
    let chunk = Chunk::from_read(&mut read, &header(depth)).unwrap();
    assert_eq!(read.position(), len);
    assert_eq!(chunk.chunk_size as usize, len);
    let mut again: Vec<u8> = Vec::new();
    chunk.write(&mut again).unwrap();
    assert_eq!(again, bytes);
    chunk.chunk_data
}

#[test]
fn old_palette_count_byte_zero_stands_for_256_colors() {
    let mut bytes: Vec<u8> = vec![1, 0, 5, 0];
    for k in 0..256u32 {
        bytes.extend_from_slice(&[k as u8, (k / 2) as u8, 7]);
    }
    let mut read = Reader::new(bytes.clone());
    let chunk = OldPaletteChunk4::from_read(&mut read).unwrap();
    assert_eq!(read.remaining(), 0);
    assert_eq!(chunk.number_of_packets, 1);
    assert_eq!(chunk.packets[0].palette_entries_to_skip, 5);
    assert_eq!(chunk.packets[0].colors.len(), 256);
    assert_eq!(chunk.packets[0].colors[255], RGB256 { r: 255, g: 127, b: 7 });
    let mut out: Vec<u8> = Vec::new();
    chunk.write(&mut out).unwrap();
    assert_eq!(out[3], 0);
    assert_eq!(out, bytes);

    let mut read = Reader::new(bytes.clone());
    let chunk = OldPaletteChunk11::from_read(&mut read).unwrap();
    assert_eq!(chunk.packets[0].colors.len(), 256);
    assert_eq!(chunk.packets[0].colors[2], RGB64 { r: 2, g: 1, b: 7 });
    let mut out: Vec<u8> = Vec::new();
    chunk.write(&mut out).unwrap();
    assert_eq!(out[3], 0);
    assert_eq!(out, bytes);
}

#[test]
fn old_palette_with_a_zero_count_byte_needs_all_256_colors() {
    let mut bytes: Vec<u8> = vec![1, 0, 0, 0];
    bytes.extend_from_slice(&[0; 767]);
    let mut read = Reader::new(bytes.clone());
    assert_eq!(OldPaletteChunk4::from_read(&mut read), Err(Error::UnexpectedEof));
    let mut read = Reader::new(bytes);
    assert_eq!(OldPaletteChunk11::from_read(&mut read), Err(Error::UnexpectedEof));
}

#[test]
fn old_palette_packets_follow_one_another() {
    let bytes: Vec<u8> = vec![2, 0, 3, 1, 10, 20, 30, 0, 2, 1, 2, 3, 4, 5, 6];
    let mut read = Reader::new(bytes.clone());
    let chunk = OldPaletteChunk4::from_read(&mut read).unwrap();
    assert_eq!(chunk.packets.len(), 2);
    assert_eq!(chunk.packets[0].colors, vec![RGB256 { r: 10, g: 20, b: 30 }]);
    assert_eq!(
        chunk.packets[1].colors,
        vec![RGB256 { r: 1, g: 2, b: 3 }, RGB256 { r: 4, g: 5, b: 6 }]
    );
    let mut out: Vec<u8> = Vec::new();
    chunk.write(&mut out).unwrap();
    assert_eq!(out, bytes);
    let mut read = Reader::new(vec![2, 0, 3, 1, 10, 20, 30, 0, 2, 1, 2, 3, 4, 5]);
    assert_eq!(OldPaletteChunk4::from_read(&mut read), Err(Error::UnexpectedEof));
    let mut read = Reader::new(vec![2, 0, 3, 1, 10, 20, 30]);
    assert_eq!(OldPaletteChunk11::from_read(&mut read), Err(Error::UnexpectedEof));
}

#[test]
fn user_data_flag_without_its_field_is_an_error() {
    let mut out: Vec<u8> = vec![9];
    let chunk = UserDataChunk { flags: user_data_chunk::Flags { bits: user_data_chunk::Flags::HAS_COLOR }, text: None, color: None };
    assert_eq!(chunk.write(&mut out), Err(Error::FlagDataMismatch(Gated::Color)));
    assert_eq!(chunk.check(), Err(Error::FlagDataMismatch(Gated::Color)));
    assert_eq!(out, vec![9]);
    let chunk = UserDataChunk { flags: user_data_chunk::Flags { bits: 0 }, text: None, color: None };
    assert_eq!(chunk.write(&mut out), Ok(()));
    assert_eq!(out, vec![9, 0, 0, 0, 0]);

    let chunk = UserDataChunk { flags: user_data_chunk::Flags { bits: user_data_chunk::Flags::HAS_TEXT }, text: None, color: None };
    assert_eq!(chunk.write(&mut out), Err(Error::FlagDataMismatch(Gated::Text)));
    let chunk = UserDataChunk { flags: user_data_chunk::Flags { bits: 3 }, text: None, color: None };
    assert_eq!(chunk.write(&mut out), Err(Error::FlagDataMismatch(Gated::Text)));
    let chunk =
        UserDataChunk { flags: user_data_chunk::Flags { bits: 3 }, text: Some("x".to_string()), color: None };
    assert_eq!(chunk.write(&mut out), Err(Error::FlagDataMismatch(Gated::Color)));
    let chunk = UserDataChunk {
        flags: user_data_chunk::Flags { bits: 1 },
        text: Some("a".repeat(70000)),
        color: None,
    };
    assert_eq!(chunk.write(&mut out), Err(Error::TooLarge));
    assert_eq!(out, vec![9, 0, 0, 0, 0]);
    assert_eq!(
        encode(ChunkData::UserDataChunk(UserDataChunk {
            flags: user_data_chunk::Flags { bits: 2 },
            text: None,
            color: None
        })),
        Err(Error::FlagDataMismatch(Gated::Color))
    );
}

#[test]
fn user_data_fields_follow_their_flags() {
    let color = RGBA256 { r: 1, g: 2, b: 3, a: 4 };
    let full = UserDataChunk { flags: user_data_chunk::Flags { bits: 3 }, text: Some("hi".to_string()), color: Some(color) };
    let mut out: Vec<u8> = Vec::new();
    full.write(&mut out).unwrap();
    assert_eq!(out, vec![3, 0, 0, 0, 2, 0, b'h', b'i', 1, 2, 3, 4]);
    assert_eq!(
        through_the_wire(ChunkData::UserDataChunk(full.clone()), ColorDepth::RGBA),
        ChunkData::UserDataChunk(full)
    );
    // a field whose flag is clear is not written
    let quiet = UserDataChunk { flags: user_data_chunk::Flags { bits: 2 }, text: Some("hi".to_string()), color: Some(color) };
    let mut out: Vec<u8> = Vec::new();
    quiet.write(&mut out).unwrap();
    assert_eq!(out, vec![2, 0, 0, 0, 1, 2, 3, 4]);
    // bits without a meaning are dropped on decode
    let mut read = Reader::new(vec![0xF2, 0xFF, 0xFF, 0xFF, 1, 2, 3, 4]);
    let got = UserDataChunk::from_read(&mut read).unwrap();
    assert_eq!(got, UserDataChunk { flags: user_data_chunk::Flags { bits: 2 }, text: None, color: Some(color) });
    let mut read = Reader::new(vec![2, 0, 0, 0, 1, 2, 3]);
    assert_eq!(UserDataChunk::from_read(&mut read), Err(Error::UnexpectedEof));
    assert!(user_data_chunk::Flags::from_bits_truncate(7).contains(user_data_chunk::Flags::HAS_TEXT | user_data_chunk::Flags::HAS_COLOR));
    assert!(!user_data_chunk::Flags { bits: 1 }.contains(user_data_chunk::Flags::HAS_COLOR));
}

#[test]
fn chunk_of_an_unknown_type_is_refused() {
    for tag in [0u16, 1, 0x0005, 0x2003, 0x2008, 0x201A, 0x2021, 0x2023, 0x9999, 0xFFFF] {
        let mut bytes: Vec<u8> = vec![16, 0, 0, 0, (tag & 0xFF) as u8, (tag >> 8) as u8];
        bytes.extend_from_slice(&[0; 10]);
        assert_eq!(
            decode_chunk(bytes, ColorDepth::RGBA),
            Err(Error::InvalidDiscriminant(Discriminant::ChunkType, tag))
        );
    }
}

#[test]
fn chunk_that_declares_less_than_its_header_is_refused() {
    for size in 0u8..6 {
        let bytes: Vec<u8> = vec![size, 0, 0, 0, 0x17, 0x20, 0, 0];
        assert_eq!(decode_chunk(bytes, ColorDepth::RGBA), Err(Error::InvalidChunkSize));
    }
    assert_eq!(decode_chunk(vec![6, 0, 0, 0, 0x17], ColorDepth::RGBA), Err(Error::UnexpectedEof));
    assert_eq!(decode_chunk(vec![], ColorDepth::RGBA), Err(Error::UnexpectedEof));
}

#[test]
fn chunk_length_counts_its_six_header_bytes() {
    let bytes = encode(ChunkData::PathChunk(PathChunk {})).unwrap();
    assert_eq!(bytes, vec![6, 0, 0, 0, 0x17, 0x20]);
    let bytes = encode(ChunkData::CelChunk(CelChunk {
        layer_index: 1,
        x_position: -1,
        y_position: 2,
        opacity_level: 9,
        cel: Cel::LinkedCel { frame_position: 0x0102 },
    }))
    .unwrap();
    assert_eq!(
        bytes,
        vec![24, 0, 0, 0, 0x05, 0x20, 1, 0, 0xFF, 0xFF, 2, 0, 9, 1, 0, 0, 0, 0, 0, 0, 0, 0, 2, 1]
    );
    assert_eq!(Chunk::new(ChunkData::PathChunk(PathChunk {})).chunk_size, 0);
}

#[test]
fn path_chunk_passes_over_its_payload() {
    let chunk = decode_chunk(vec![9, 0, 0, 0, 0x17, 0x20, 1, 2, 3, 4], ColorDepth::RGBA).unwrap();
    assert_eq!(chunk, Chunk { chunk_size: 9, chunk_data: ChunkData::PathChunk(PathChunk {}) });
    let mut read = Reader::new(vec![1, 2, 3, 4]);
    assert_eq!(PathChunk::from_read(&mut read, 3), Ok(PathChunk {}));
    assert_eq!(read.position(), 3);
    assert_eq!(PathChunk::from_read(&mut read, 2), Err(Error::UnexpectedEof));
    assert_eq!(read.position(), 3);
    let mut out: Vec<u8> = vec![5];
    assert_eq!(PathChunk {}.write(&mut out), Ok(()));
    assert_eq!(out, vec![5]);
}

#[test]
fn layer_chunk_layout() {
    let layer = LayerChunk::new("bg", true);
    assert_eq!(layer.flags.bits, 3);
    assert_eq!(layer.layer_type, LayerType::Normal);
    assert_eq!(layer.blend_mode, BlendMode::Normal);
    assert_eq!(layer.opacity, 255);
    assert_eq!(layer.layer_child_level, 0);
    assert_eq!(layer.layer_name, "bg");
    assert_eq!(LayerChunk::new("", false).flags.bits, 2);
    let mut out: Vec<u8> = Vec::new();
    layer.write(&mut out).unwrap();
    assert_eq!(out, vec![3, 0, 0, 0, 0, 0, 0, 0, 0, 0, 0, 0, 255, 0, 0, 0, 2, 0, b'b', b'g']);
    let other = LayerChunk {
        flags: layer_chunk::Flags { bits: layer_chunk::Flags::REFERENCE_LAYER | layer_chunk::Flags::BACKGROUND },
        layer_type: LayerType::Group,
        layer_child_level: 0x0304,
        blend_mode: BlendMode::Divide,
        opacity: 7,
        layer_name: "\u{e4}".to_string(),
    };
    let mut out: Vec<u8> = Vec::new();
    other.write(&mut out).unwrap();
    assert_eq!(out, vec![72, 0, 1, 0, 4, 3, 0, 0, 0, 0, 18, 0, 7, 0, 0, 0, 2, 0, 0xC3, 0xA4]);
    assert_eq!(
        through_the_wire(ChunkData::LayerChunk(other.clone()), ColorDepth::RGBA),
        ChunkData::LayerChunk(other)
    );
    assert_eq!(layer_chunk::Flags::from_bits_truncate(0xFFFF).bits, 127);
    assert!(layer_chunk::Flags { bits: 5 }.contains(layer_chunk::Flags::LOCK_MOVEMENT));
    assert!(!layer_chunk::Flags { bits: 5 }.contains(layer_chunk::Flags::EDITABLE));
}

#[test]
fn layer_chunk_refuses_values_outside_its_enumerations() {
    let mut bytes: Vec<u8> = vec![3, 0, 2, 0, 0, 0, 0, 0, 0, 0, 0, 0, 255, 0, 0, 0, 0, 0];
    let mut read = Reader::new(bytes.clone());
    assert_eq!(
        LayerChunk::from_read(&mut read),
        Err(Error::InvalidDiscriminant(Discriminant::LayerType, 2))
    );
    bytes[2] = 1;
    bytes[10] = 19;
    let mut read = Reader::new(bytes.clone());
    assert_eq!(
        LayerChunk::from_read(&mut read),
        Err(Error::InvalidDiscriminant(Discriminant::BlendMode, 19))
    );
    bytes[10] = 18;
    let mut read = Reader::new(bytes.clone());
    assert_eq!(LayerChunk::from_read(&mut read).map(|l| l.blend_mode), Ok(BlendMode::Divide));
    let mut read = Reader::new(bytes[..17].to_vec());
    assert_eq!(LayerChunk::from_read(&mut read), Err(Error::UnexpectedEof));
    let mut read = Reader::new(bytes[..15].to_vec());
    assert_eq!(LayerChunk::from_read(&mut read), Err(Error::UnexpectedEof));
    let long = LayerChunk::new(&"n".repeat(65536), true);
    let mut out: Vec<u8> = vec![1];
    assert_eq!(long.write(&mut out), Err(Error::TooLarge));
    assert_eq!(out, vec![1]);
}

#[test]
fn enumerations_map_to_their_wire_values_and_back() {
    let modes = [
        BlendMode::Normal,
        BlendMode::Multiply,
        BlendMode::Screen,
        BlendMode::Overlay,
        BlendMode::Darken,
        BlendMode::Lighten,
        BlendMode::ColorDodge,
        BlendMode::ColorBurn,
        BlendMode::HardLight,
        BlendMode::SoftLight,
        BlendMode::Difference,
        BlendMode::Exclusion,
        BlendMode::Hue,
        BlendMode::Saturation,
        BlendMode::Color,
        BlendMode::Luminosity,
        BlendMode::Addition,
        BlendMode::Subtract,
        BlendMode::Divide,
    ];
    for (k, mode) in modes.iter().enumerate() {
        assert_eq!(mode.code(), k as u16);
        assert_eq!(BlendMode::from_code(k as u16), Ok(*mode));
    }
    assert_eq!(
        BlendMode::from_code(19),
        Err(Error::InvalidDiscriminant(Discriminant::BlendMode, 19))
    );
    assert_eq!(ColorDepth::Indexed.code(), 8);
    assert_eq!(ColorDepth::Grayscale.code(), 16);
    assert_eq!(ColorDepth::RGBA.code(), 32);
    assert_eq!(ColorDepth::from_code(8), Ok(ColorDepth::Indexed));
    assert_eq!(ColorDepth::from_code(16), Ok(ColorDepth::Grayscale));
    assert_eq!(ColorDepth::from_code(32), Ok(ColorDepth::RGBA));
    assert_eq!(
        ColorDepth::from_code(24),
        Err(Error::InvalidDiscriminant(Discriminant::ColorDepth, 24))
    );
    assert_eq!(LayerType::from_code(0), Ok(LayerType::Normal));
    assert_eq!(LayerType::from_code(1), Ok(LayerType::Group));
    assert_eq!(LayerType::Group.code(), 1);
    assert_eq!(ProfileType::from_code(0), Ok(ProfileType::NoProfile));
    assert_eq!(ProfileType::from_code(1), Ok(ProfileType::SRgb));
    assert_eq!(ProfileType::from_code(2), Ok(ProfileType::EmbeddedIccProfile));
    assert_eq!(ProfileType::EmbeddedIccProfile.code(), 2);
    assert_eq!(LoopAnimationDirection::from_code(0), Ok(LoopAnimationDirection::Forward));
    assert_eq!(LoopAnimationDirection::from_code(1), Ok(LoopAnimationDirection::Reverse));
    assert_eq!(LoopAnimationDirection::from_code(2), Ok(LoopAnimationDirection::PingPong));
    assert_eq!(LoopAnimationDirection::PingPong.code(), 2);
    assert_eq!(ColorDepth::default(), ColorDepth::RGBA);
}

#[test]
fn cel_chunk_takes_what_is_left_of_its_payload() {
    let cel = CelChunk::new(2, -3, 4, 2, 1, Pixels::Grayscale(vec![]));
    assert_eq!(cel.opacity_level, 255);
    assert_eq!(cel.layer_index, 2);
    assert_eq!(cel.x_position, -3);
    assert_eq!(cel.y_position, 4);
    assert_eq!(cel.cel, Cel::RawCel { width: 2, height: 1, pixels: Pixels::Grayscale(vec![]) });

    let payload: Vec<u8> =
        vec![2, 0, 0xFD, 0xFF, 4, 0, 200, 0, 0, 0, 0, 0, 0, 0, 0, 0, 2, 0, 1, 0, 5, 6, 7, 8, 9, 9];
    let mut read = Reader::new(payload.clone());
    let got = CelChunk::from_read(&mut read, 24, &header(ColorDepth::Grayscale)).unwrap();
    assert_eq!(read.position(), 24);
    assert_eq!(got.opacity_level, 200);
    assert_eq!(
        got.cel,
        Cel::RawCel {
            width: 2,
            height: 1,
            pixels: Pixels::Grayscale(vec![
                ase::color::Grayscale256 { v: 5, a: 6 },
                ase::color::Grayscale256 { v: 7, a: 8 }
            ])
        }
    );
    let mut out: Vec<u8> = Vec::new();
    got.write(&mut out).unwrap();
    assert_eq!(out, payload[..24].to_vec());

    let mut read = Reader::new(payload.clone());
    assert_eq!(
        CelChunk::from_read(&mut read, 23, &header(ColorDepth::Grayscale)),
        Err(Error::PixelSizeMismatch(2))
    );
    let mut read = Reader::new(payload.clone());
    assert_eq!(
        CelChunk::from_read(&mut read, 22, &header(ColorDepth::RGBA)),
        Err(Error::PixelSizeMismatch(4))
    );
    let mut read = Reader::new(payload.clone());
    assert_eq!(
        CelChunk::from_read(&mut read, 19, &header(ColorDepth::Indexed)),
        Err(Error::InvalidChunkSize)
    );
    let mut read = Reader::new(payload.clone());
    assert_eq!(
        CelChunk::from_read(&mut read, 28, &header(ColorDepth::Indexed)),
        Err(Error::UnexpectedEof)
    );
    let mut read = Reader::new(payload.clone());
    let got = CelChunk::from_read(&mut read, 20, &header(ColorDepth::RGBA)).unwrap();
    assert_eq!(got.cel, Cel::RawCel { width: 2, height: 1, pixels: Pixels::RGBA(vec![]) });

    let mut zipped = payload.clone();
    zipped[7] = 2;
    let mut read = Reader::new(zipped.clone());
    let got = CelChunk::from_read(&mut read, 25, &header(ColorDepth::RGBA)).unwrap();
    assert_eq!(
        got.cel,
        Cel::CompressedImage { width: 2, height: 1, zlib_compressed_data: vec![5, 6, 7, 8, 9] }
    );
    let mut read = Reader::new(zipped.clone());
    assert_eq!(
        CelChunk::from_read(&mut read, 12, &header(ColorDepth::RGBA)),
        Err(Error::InvalidChunkSize)
    );

    let mut linked = payload.clone();
    linked[7] = 1;
    let mut read = Reader::new(linked);
    let got = CelChunk::from_read(&mut read, 18, &header(ColorDepth::RGBA)).unwrap();
    assert_eq!(got.cel, Cel::LinkedCel { frame_position: 2 });
    assert_eq!(read.position(), 18);

    let mut odd = payload.clone();
    odd[7] = 3;
    let mut read = Reader::new(odd);
    assert_eq!(
        CelChunk::from_read(&mut read, 24, &header(ColorDepth::RGBA)),
        Err(Error::InvalidDiscriminant(Discriminant::CelType, 3))
    );
    let mut read = Reader::new(payload[..15].to_vec());
    assert_eq!(
        CelChunk::from_read(&mut read, 24, &header(ColorDepth::RGBA)),
        Err(Error::UnexpectedEof)
    );
}

#[test]
fn cel_chunks_of_each_kind_come_back_from_the_wire() {
    let raw = CelChunk::new(0, 1, -1, 2, 2, Pixels::Indexed(vec![1, 2, 3, 4]));
    assert_eq!(
        through_the_wire(ChunkData::CelChunk(raw.clone()), ColorDepth::Indexed),
        ChunkData::CelChunk(raw)
    );
    let rgba = CelChunk::new(
        0,
        i16::MIN,
        i16::MAX,
        1,
        2,
        Pixels::RGBA(vec![RGBA256 { r: 1, g: 2, b: 3, a: 4 }, RGBA256 { r: 5, g: 6, b: 7, a: 8 }]),
    );
    assert_eq!(
        through_the_wire(ChunkData::CelChunk(rgba.clone()), ColorDepth::RGBA),
        ChunkData::CelChunk(rgba)
    );
    let linked = CelChunk {
        layer_index: 0xFFFF,
        x_position: 0,
        y_position: 0,
        opacity_level: 0,
        cel: Cel::LinkedCel { frame_position: 9 },
    };
    assert_eq!(
        through_the_wire(ChunkData::CelChunk(linked.clone()), ColorDepth::Grayscale),
        ChunkData::CelChunk(linked)
    );
    let image = CelChunk {
        layer_index: 3,
        x_position: 0,
        y_position: 0,
        opacity_level: 1,
        cel: Cel::CompressedImage { width: 1, height: 1, zlib_compressed_data: vec![9, 8, 7] },
    };
    assert_eq!(
        through_the_wire(ChunkData::CelChunk(image.clone()), ColorDepth::Grayscale),
        ChunkData::CelChunk(image)
    );
}

#[test]
fn cel_extra_chunk_keeps_the_bits_of_its_numbers() {
    let extra = CelExtraChunk {
        flags: cel_extra_chunk::Flags { bits: cel_extra_chunk::Flags::PRECISE_BOUNDS },
        precise_x_position: 1.5f32.to_bits(),
        precise_y_position: (-1.0f32).to_bits(),
        width: 0x7FC0_0001,
        height: 0,
    };
    let mut out: Vec<u8> = Vec::new();
    extra.write(&mut out).unwrap();
    assert_eq!(out.len(), 36);
    assert_eq!(&out[..12], &[1, 0, 0, 0, 0, 0, 0xC0, 0x3F, 0, 0, 0x80, 0xBF]);
    assert_eq!(&out[20..], &[0; 16]);
    let mut read = Reader::new(out.clone());
    let got = CelExtraChunk::from_read(&mut read).unwrap();
    assert_eq!(got, extra);
    assert_eq!(f32::from_bits(got.precise_x_position), 1.5);
    let mut read = Reader::new(out[..35].to_vec());
    assert_eq!(CelExtraChunk::from_read(&mut read), Err(Error::UnexpectedEof));
    assert_eq!(
        through_the_wire(ChunkData::CelExtraChunk(extra), ColorDepth::RGBA),
        ChunkData::CelExtraChunk(extra)
    );
    assert_eq!(cel_extra_chunk::Flags::from_bits_truncate(3).bits, 1);
    assert!(cel_extra_chunk::Flags { bits: 1 }.contains(cel_extra_chunk::Flags::PRECISE_BOUNDS));
}

#[test]
fn color_profile_chunk_carries_icc_data_for_embedded_profiles_only() {
    let srgb = ColorProfileChunk {
        profile_type: ProfileType::SRgb,
        flags: color_profile_chunk::Flags { bits: color_profile_chunk::Flags::SPECIAL_FIXED_GAMMA },
        fixed_gamma: 0x0002_3333,
        icc_profile: vec![],
    };
    let mut out: Vec<u8> = Vec::new();
    srgb.write(&mut out).unwrap();
    assert_eq!(out, vec![1, 0, 1, 0, 0x33, 0x33, 2, 0, 0, 0, 0, 0, 0, 0, 0, 0]);
    assert_eq!(
        through_the_wire(ChunkData::ColorProfileChunk(srgb.clone()), ColorDepth::RGBA),
        ChunkData::ColorProfileChunk(srgb)
    );
    let icc = ColorProfileChunk {
        profile_type: ProfileType::EmbeddedIccProfile,
        flags: color_profile_chunk::Flags { bits: 0 },
        fixed_gamma: 0,
        icc_profile: vec![7, 8, 9],
    };
    let mut out: Vec<u8> = Vec::new();
    icc.write(&mut out).unwrap();
    assert_eq!(out, vec![2, 0, 0, 0, 0, 0, 0, 0, 0, 0, 0, 0, 0, 0, 0, 0, 3, 0, 0, 0, 7, 8, 9]);
    assert_eq!(
        through_the_wire(ChunkData::ColorProfileChunk(icc.clone()), ColorDepth::RGBA),
        ChunkData::ColorProfileChunk(icc)
    );
    let mut read = Reader::new(out[..22].to_vec());
    assert_eq!(ColorProfileChunk::from_read(&mut read), Err(Error::UnexpectedEof));
    let mut read = Reader::new(out[..18].to_vec());
    assert_eq!(ColorProfileChunk::from_read(&mut read), Err(Error::UnexpectedEof));
    let mut bad = out.clone();
    bad[0] = 3;
    let mut read = Reader::new(bad);
    assert_eq!(
        ColorProfileChunk::from_read(&mut read),
        Err(Error::InvalidDiscriminant(Discriminant::ProfileType, 3))
    );
    assert!(color_profile_chunk::Flags::from_bits_truncate(0xFFFF).contains(color_profile_chunk::Flags::SPECIAL_FIXED_GAMMA));
}

#[test]
fn frame_tags_chunk_layout() {
    let chunk = FrameTagsChunk {
        number_of_tags: 2,
        tags: vec![
            Tag {
                from_tag: 1,
                to_tag: 0x0203,
                loop_animation_direction: LoopAnimationDirection::PingPong,
                tag_color: RGB256 { r: 4, g: 5, b: 6 },
                tag_name: "ab".to_string(),
            },
            Tag {
                from_tag: 0,
                to_tag: 0,
                loop_animation_direction: LoopAnimationDirection::Reverse,
                tag_color: RGB256 { r: 0, g: 0, b: 0 },
                tag_name: String::new(),
            },
        ],
    };
    let mut out: Vec<u8> = Vec::new();
    chunk.write(&mut out).unwrap();
    let mut expected: Vec<u8> = vec![2, 0, 1, 0, 3, 2, 2];
    expected.extend_from_slice(&[0; 8]);
    expected.extend_from_slice(&[4, 5, 6, 0, 2, 0, b'a', b'b']);
    expected.extend_from_slice(&[0, 0, 0, 0, 1]);
    expected.extend_from_slice(&[0; 8]);
    expected.extend_from_slice(&[0, 0, 0, 0, 0, 0]);
    assert_eq!(out, expected);
    assert_eq!(
        through_the_wire(ChunkData::FrameTagsChunk(chunk.clone()), ColorDepth::RGBA),
        ChunkData::FrameTagsChunk(chunk.clone())
    );
    let mut bad = expected.clone();
    bad[6] = 3;
    let mut read = Reader::new(bad);
    assert_eq!(
        FrameTagsChunk::from_read(&mut read),
        Err(Error::InvalidDiscriminant(Discriminant::LoopDirection, 3))
    );
    let mut read = Reader::new(expected[..expected.len() - 1].to_vec());
    assert_eq!(FrameTagsChunk::from_read(&mut read), Err(Error::UnexpectedEof));
    let mut long = chunk;
    long.tags[1].tag_name = "t".repeat(65536);
    let mut out: Vec<u8> = vec![3];
    assert_eq!(long.write(&mut out), Err(Error::TooLarge));
    assert_eq!(long.check(), Err(Error::TooLarge));
    assert_eq!(out, vec![3]);
}

#[test]
fn mask_chunk_bitmap_length_follows_from_its_size() {
    let mask = MaskChunk {
        x_position: -2,
        y_position: 3,
        width: 9,
        height: 2,
        mask_name: "m".to_string(),
        bitmap_data: vec![1, 2, 3, 4],
    };
    let mut out: Vec<u8> = Vec::new();
    mask.write(&mut out).unwrap();
    assert_eq!(
        out,
        vec![0xFE, 0xFF, 3, 0, 9, 0, 2, 0, 0, 0, 0, 0, 0, 0, 0, 0, 1, 0, b'm', 1, 2, 3, 4]
    );
    assert_eq!(
        through_the_wire(ChunkData::MaskChunk(mask.clone()), ColorDepth::RGBA),
        ChunkData::MaskChunk(mask)
    );
    let mut read = Reader::new(out[..22].to_vec());
    assert_eq!(MaskChunk::from_read(&mut read), Err(Error::UnexpectedEof));
    // 3 rows of 1 pixel: 3 * (1 + 7) / 8 = 3 bytes; 1 row of 3 pixels: 10 / 8 = 1 byte
    let mut three: Vec<u8> = vec![0, 0, 0, 0, 1, 0, 3, 0, 0, 0, 0, 0, 0, 0, 0, 0, 0, 0, 7, 8, 9, 10];
    let mut read = Reader::new(three.clone());
    assert_eq!(MaskChunk::from_read(&mut read).map(|m| m.bitmap_data), Ok(vec![7, 8, 9]));
    three[4] = 3;
    three[6] = 1;
    let mut read = Reader::new(three.clone());
    assert_eq!(MaskChunk::from_read(&mut read).map(|m| m.bitmap_data), Ok(vec![7]));
    three[4] = 0;
    three[6] = 0;
    let mut read = Reader::new(three.clone());
    assert_eq!(MaskChunk::from_read(&mut read).map(|m| m.bitmap_data), Ok(vec![]));
    // the size is computed without wrapping: 65535 * 65542 / 8 bytes are not there
    three[4] = 0xFF;
    three[5] = 0xFF;
    three[6] = 0xFF;
    three[7] = 0xFF;
    let mut read = Reader::new(three);
    assert_eq!(MaskChunk::from_read(&mut read), Err(Error::UnexpectedEof));
}

#[test]
fn palette_chunk_names_follow_their_flag() {
    let chunk = PaletteChunk {
        new_palette_size: 2,
        first_color_index_to_change: 0,
        last_color_index_to_change: 1,
        palette_entries: vec![
            PaletteEntry {
                flags: palette_chunk::Flags { bits: palette_chunk::Flags::HAS_NAME },
                color: RGBA256 { r: 1, g: 2, b: 3, a: 4 },
                color_name: Some("red".to_string()),
            },
            PaletteEntry {
                flags: palette_chunk::Flags { bits: 0 },
                color: RGBA256 { r: 5, g: 6, b: 7, a: 8 },
                color_name: None,
            },
        ],
    };
    let mut out: Vec<u8> = Vec::new();
    chunk.write(&mut out).unwrap();
    let mut expected: Vec<u8> = vec![2, 0, 0, 0, 0, 0, 0, 0, 1, 0, 0, 0];
    expected.extend_from_slice(&[0; 8]);
    expected.extend_from_slice(&[1, 0, 1, 2, 3, 4, 3, 0, b'r', b'e', b'd']);
    expected.extend_from_slice(&[0, 0, 5, 6, 7, 8]);
    assert_eq!(out, expected);
    assert_eq!(
        through_the_wire(ChunkData::PaletteChunk(chunk.clone()), ColorDepth::RGBA),
        ChunkData::PaletteChunk(chunk.clone())
    );
    let mut read = Reader::new(expected[..expected.len() - 1].to_vec());
    assert_eq!(PaletteChunk::from_read(&mut read), Err(Error::UnexpectedEof));

    let mut nameless = chunk.clone();
    nameless.palette_entries[0].color_name = None;
    let mut out: Vec<u8> = vec![4];
    assert_eq!(nameless.write(&mut out), Err(Error::FlagDataMismatch(Gated::ColorName)));
    assert_eq!(nameless.check(), Err(Error::FlagDataMismatch(Gated::ColorName)));
    assert_eq!(nameless.palette_entries[0].check(), Err(Error::FlagDataMismatch(Gated::ColorName)));
    assert_eq!(out, vec![4]);
    let mut long = chunk;
    long.palette_entries[1].color_name = Some("c".repeat(65536));
    assert_eq!(long.write(&mut out), Err(Error::TooLarge));
    assert_eq!(out, vec![4]);
    assert_eq!(palette_chunk::Flags::from_bits_truncate(0xFFFE).bits, 0);
}

#[test]
fn slice_chunk_keys_hold_what_the_flags_announce() {
    let nine = NinePatchesInfo { x_position: 1, y_position: -2, width: 3, height: 4 };
    let pivot = PivotInfo { x_position: -5, y_position: 6 };
    let key = SliceKey {
        frame_number: 7,
        x_origin: -1,
        y_origin: 2,
        width: 10,
        height: 11,
        nine_patches_info: Some(nine),
        pivot_info: Some(pivot),
    };
    let chunk = SliceChunk {
        number_of_slice_keys: 1,
        flags: slice_chunk::Flags { bits: 3 },
        name: "s".to_string(),
        keys: vec![key],
    };
    let mut out: Vec<u8> = Vec::new();
    chunk.write(&mut out).unwrap();
    let expected: Vec<u8> = vec![
        1, 0, 0, 0, 3, 0, 0, 0, 0, 0, 0, 0, 1, 0, b's', 7, 0, 0, 0, 0xFF, 0xFF, 0xFF, 0xFF, 2, 0,
        0, 0, 10, 0, 0, 0, 11, 0, 0, 0, 1, 0, 0, 0, 0xFE, 0xFF, 0xFF, 0xFF, 3, 0, 0, 0, 4, 0, 0,
        0, 0xFB, 0xFF, 0xFF, 0xFF, 6, 0, 0, 0,
    ];
    assert_eq!(out, expected);
    assert_eq!(
        through_the_wire(ChunkData::SliceChunk(chunk.clone()), ColorDepth::RGBA),
        ChunkData::SliceChunk(chunk.clone())
    );
    for bits in 0u32..4 {
        let mut part = chunk.clone();
        part.flags = slice_chunk::Flags { bits };
        part.keys[0].nine_patches_info = if bits & 1 == 1 { Some(nine) } else { None };
        part.keys[0].pivot_info = if bits & 2 == 2 { Some(pivot) } else { None };
        part.keys.push(part.keys[0]);
        part.number_of_slice_keys = 2;
        let mut out: Vec<u8> = Vec::new();
        part.write(&mut out).unwrap();
        let key_len = 20 + if bits & 1 == 1 { 16 } else { 0 } + if bits & 2 == 2 { 8 } else { 0 };
        assert_eq!(out.len(), 15 + 2 * key_len);
        assert_eq!(
            through_the_wire(ChunkData::SliceChunk(part.clone()), ColorDepth::RGBA),
            ChunkData::SliceChunk(part)
        );
        let mut read = Reader::new(out[..out.len() - 1].to_vec());
        assert_eq!(SliceChunk::from_read(&mut read), Err(Error::UnexpectedEof));
    }

    let mut no_nine = chunk.clone();
    no_nine.keys[0].nine_patches_info = None;
    let mut out: Vec<u8> = vec![8];
    assert_eq!(no_nine.write(&mut out), Err(Error::FlagDataMismatch(Gated::NinePatches)));
    assert_eq!(out, vec![8]);
    no_nine.keys[0].pivot_info = None;
    assert_eq!(no_nine.check(), Err(Error::FlagDataMismatch(Gated::NinePatches)));
    let mut no_pivot = chunk.clone();
    no_pivot.keys.push(SliceKey { pivot_info: None, ..key });
    assert_eq!(no_pivot.write(&mut out), Err(Error::FlagDataMismatch(Gated::Pivot)));
    assert_eq!(no_pivot.keys[1].check(no_pivot.flags), Err(Error::FlagDataMismatch(Gated::Pivot)));
    assert_eq!(no_pivot.keys[1].check(slice_chunk::Flags { bits: 1 }), Ok(()));
    assert_eq!(out, vec![8]);
    let mut long = no_pivot;
    long.name = "s".repeat(65536);
    assert_eq!(long.write(&mut out), Err(Error::TooLarge));
    assert_eq!(out, vec![8]);
    // a part whose flag is clear is not written
    let mut quiet = chunk;
    quiet.flags = slice_chunk::Flags { bits: 0 };
    let mut out: Vec<u8> = Vec::new();
    quiet.write(&mut out).unwrap();
    assert_eq!(out, expected_without_parts());
    assert!(slice_chunk::Flags::from_bits_truncate(0xFF).contains(slice_chunk::Flags::IS_NINE_PATCHES_SLICE));
    assert_eq!(slice_chunk::Flags::from_bits_truncate(0xFF).bits, 3);
}

fn expected_without_parts() -> Vec<u8> {
    vec![
        1, 0, 0, 0, 0, 0, 0, 0, 0, 0, 0, 0, 1, 0, b's', 7, 0, 0, 0, 0xFF, 0xFF, 0xFF, 0xFF, 2, 0,
        0, 0, 10, 0, 0, 0, 11, 0, 0, 0,
    ]
}

#[test]
fn header_layout() {
    let h = Header::new(0x0102, 0x0304);
    assert_eq!(h.width_in_pixels, 0x0102);
    assert_eq!(h.height_in_pixels, 0x0304);
    assert_eq!(h.color_depth, ColorDepth::RGBA);
    assert_eq!(h.flags.bits, 1);
    assert_eq!(h.speed, 100);
    assert_eq!(h.number_of_colors, 32);
    assert_eq!(h.pixel_width, 1);
    assert_eq!(h.pixel_height, 1);
    assert_eq!(h.file_size, 0);
    assert_eq!(h.frames, 0);
    assert_eq!(h.transparent_palette_entry, 0);
    assert_eq!(Header::default(), Header::new(0, 0));
    assert_eq!(ase::header::Flags::default().bits, 1);
    let mut out: Vec<u8> = Vec::new();
    h.write(&mut out, 0x0A0B_0C0D, 0x0506).unwrap();
    let mut expected: Vec<u8> = vec![
        0x8D, 0x0C, 0x0B, 0x0A, 0xE0, 0xA5, 6, 5, 2, 1, 4, 3, 32, 0, 1, 0, 0, 0, 100, 0, 0, 0, 0,
        0, 0, 0, 0, 0, 0, 0, 0, 0, 32, 0, 1, 1,
    ];
    expected.extend_from_slice(&[0; 92]);
    assert_eq!(out, expected);
    let mut read = Reader::new(out.clone());
    let got = Header::from_read(&mut read).unwrap();
    assert_eq!(read.position(), 128);
    assert_eq!(got, Header { file_size: 0x0A0B_0C8D, frames: 0x0506, ..h });
    let mut read = Reader::new(out[..127].to_vec());
    assert_eq!(Header::from_read(&mut read), Err(Error::UnexpectedEof));
    let mut bad = out.clone();
    bad[12] = 24;
    let mut read = Reader::new(bad);
    assert_eq!(
        Header::from_read(&mut read),
        Err(Error::InvalidDiscriminant(Discriminant::ColorDepth, 24))
    );
    let mut out: Vec<u8> = vec![1];
    assert_eq!(h.write(&mut out, u32::MAX - 127, 0), Err(Error::TooLarge));
    assert_eq!(out, vec![1]);
    assert_eq!(h.write(&mut out, u32::MAX - 128, 0), Ok(()));
    assert_eq!(&out[1..5], &[0xFF, 0xFF, 0xFF, 0xFF]);
    assert_eq!(ase::header::Flags::from_bits_truncate(0xFFFF_FFFE).bits, 0);
    assert!(ase::header::Flags { bits: 1 }.contains(ase::header::Flags::HAS_OPACITY));
}

#[test]
fn palette_chunk_holds_one_entry_for_each_index_of_its_range() {
    let bytes: Vec<u8> = vec![
        4, 0, 0, 0, 1, 0, 0, 0, 2, 0, 0, 0, 0, 0, 0, 0, 0, 0, 0, 0, 0, 0, 1, 2, 3, 4, 0, 0, 5, 6,
        7, 8,
    ];
    let mut read = Reader::new(bytes.clone());
    let chunk = PaletteChunk::from_read(&mut read).unwrap();
    assert_eq!(read.position(), 32);
    assert_eq!(chunk.new_palette_size, 4);
    assert_eq!(chunk.first_color_index_to_change, 1);
    assert_eq!(chunk.last_color_index_to_change, 2);
    assert_eq!(chunk.palette_entries.len(), 2);
    assert_eq!(chunk.palette_entries[0].color, RGBA256 { r: 1, g: 2, b: 3, a: 4 });
    assert_eq!(chunk.palette_entries[1].color, RGBA256 { r: 5, g: 6, b: 7, a: 8 });
    assert_eq!(chunk.palette_entries[0].color_name, None);
    assert_eq!(chunk.palette_entries[1].color_name, None);
    let mut out: Vec<u8> = Vec::new();
    chunk.write(&mut out).unwrap();
    assert_eq!(out, bytes);
    assert_eq!(
        through_the_wire(ChunkData::PaletteChunk(chunk.clone()), ColorDepth::Indexed),
        ChunkData::PaletteChunk(chunk)
    );

    // the palette size does not count the entries: a range of one index holds one entry
    let mut one = bytes.clone();
    one[0] = 0;
    one[8] = 1;
    let mut read = Reader::new(one);
    let chunk = PaletteChunk::from_read(&mut read).unwrap();
    assert_eq!(chunk.new_palette_size, 0);
    assert_eq!(chunk.palette_entries.len(), 1);
    assert_eq!(read.position(), 26);

    // a range of three indices needs three entries
    let mut three = bytes.clone();
    three[8] = 3;
    let mut read = Reader::new(three);
    assert_eq!(PaletteChunk::from_read(&mut read), Err(Error::UnexpectedEof));
}

#[test]
fn palette_chunk_with_its_first_index_behind_its_last_is_refused() {
    let mut bytes: Vec<u8> = vec![
        4, 0, 0, 0, 3, 0, 0, 0, 2, 0, 0, 0, 0, 0, 0, 0, 0, 0, 0, 0, 0, 0, 1, 2, 3, 4, 0, 0, 5, 6,
        7, 8,
    ];
    let mut read = Reader::new(bytes.clone());
    assert_eq!(PaletteChunk::from_read(&mut read), Err(Error::InvalidRange));
    bytes[4] = 0xFF;
    bytes[5] = 0xFF;
    bytes[6] = 0xFF;
    bytes[7] = 0xFF;
    let mut read = Reader::new(bytes.clone());
    assert_eq!(PaletteChunk::from_read(&mut read), Err(Error::InvalidRange));
    // the fixed fields come first: too few bytes for them is the failure
    let mut read = Reader::new(bytes[..19].to_vec());
    assert_eq!(PaletteChunk::from_read(&mut read), Err(Error::UnexpectedEof));
    // the widest range asks for more entries than any input holds
    bytes[4] = 0;
    bytes[5] = 0;
    bytes[6] = 0;
    bytes[7] = 0;
    bytes[8] = 0xFF;
    bytes[9] = 0xFF;
    bytes[10] = 0xFF;
    bytes[11] = 0xFF;
    let mut read = Reader::new(bytes);
    assert_eq!(PaletteChunk::from_read(&mut read), Err(Error::UnexpectedEof));
}

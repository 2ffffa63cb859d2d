use ase::chunk::cel_chunk::{Cel, CelChunk};
use ase::chunk::cel_extra_chunk;
use ase::chunk::cel_extra_chunk::CelExtraChunk;
use ase::chunk::color_profile_chunk;
use ase::chunk::color_profile_chunk::{ColorProfileChunk, ProfileType};
use ase::chunk::frame_tags_chunk::{FrameTagsChunk, LoopAnimationDirection, Tag};
use ase::chunk::layer_chunk;
use ase::chunk::layer_chunk::{BlendMode, LayerChunk, LayerType};
use ase::chunk::mask_chunk::MaskChunk;
use ase::chunk::old_palette_chunk11;
use ase::chunk::old_palette_chunk11::OldPaletteChunk11;
use ase::chunk::old_palette_chunk4;
use ase::chunk::old_palette_chunk4::OldPaletteChunk4;
use ase::chunk::palette_chunk;
use ase::chunk::palette_chunk::{PaletteChunk, PaletteEntry};
use ase::chunk::path_chunk::PathChunk;
use ase::chunk::slice_chunk;
use ase::chunk::slice_chunk::{NinePatchesInfo, PivotInfo, SliceChunk, SliceKey};
use ase::chunk::user_data_chunk;
use ase::chunk::user_data_chunk::UserDataChunk;
use ase::color::{Grayscale256, Pixels, RGB256, RGB64, RGBA256};
use ase::{Aseprite, Chunk, ChunkData, ColorDepth, Frame, Header, Reader};

/// A small deterministic source of numbers.
struct Numbers {
    state: u64,
}

impl Numbers {
    fn next(&mut self) -> u64 {
        self.state = self.state.wrapping_mul(6364136223846793005).wrapping_add(1442695040888963407);
        self.state >> 33
    }

    fn below(&mut self, n: u64) -> u64 {
        self.next() % n
    }

    fn byte(&mut self) -> u8 {
        self.next() as u8
    }

    fn word(&mut self) -> u16 {
        self.next() as u16
    }

    fn long(&mut self) -> u32 {
        (self.next() as u32) ^ ((self.next() as u32) << 16)
    }

    fn bytes(&mut self, max: u64) -> Vec<u8> {
        let n = self.below(max + 1);
        (0..n).map(|_| self.byte()).collect()
    }

    fn text(&mut self) -> String {
        let pool = ['a', 'Z', ' ', '\u{e9}', '\u{4e2d}', '\u{1F600}', '0', '_'];
        let n = self.below(12);
        (0..n).map(|_| pool[self.below(pool.len() as u64) as usize]).collect()
    }
}

fn pixels(g: &mut Numbers, depth: ColorDepth) -> Pixels {
    let n = g.below(20);
    match depth {
        ColorDepth::RGBA => Pixels::RGBA(
            (0..n).map(|_| RGBA256 { r: g.byte(), g: g.byte(), b: g.byte(), a: g.byte() }).collect(),
        ),
        ColorDepth::Grayscale => {
            Pixels::Grayscale((0..n).map(|_| Grayscale256 { v: g.byte(), a: g.byte() }).collect())
        }
        ColorDepth::Indexed => Pixels::Indexed((0..n).map(|_| g.byte()).collect()),
    }
}

fn chunk_data(g: &mut Numbers, depth: ColorDepth) -> ChunkData {
    match g.below(12) {
        0 => {
            let packets = (0..g.below(4))
                .map(|_| {
                    let most: u64 = if g.below(4) == 0 { 256 } else { 5 };
                    let count: u64 = 1 + g.below(most);
                    old_palette_chunk4::Packet {
                        palette_entries_to_skip: g.byte(),
                        colors: (0..count)
                            .map(|_| RGB256 { r: g.byte(), g: g.byte(), b: g.byte() })
                            .collect(),
                    }
                })
                .collect::<Vec<_>>();
            ChunkData::OldPaletteChunk4(OldPaletteChunk4 {
                number_of_packets: packets.len() as u16,
                packets,
            })
        }
        1 => {
            let packets = (0..g.below(4))
                .map(|_| {
                    let most: u64 = if g.below(4) == 0 { 256 } else { 5 };
                    let count: u64 = 1 + g.below(most);
                    old_palette_chunk11::Packet {
                        palette_entries_to_skip: g.byte(),
                        colors: (0..count)
                            .map(|_| RGB64 { r: g.byte(), g: g.byte(), b: g.byte() })
                            .collect(),
                    }
                })
                .collect::<Vec<_>>();
            ChunkData::OldPaletteChunk11(OldPaletteChunk11 {
                number_of_packets: packets.len() as u16,
                packets,
            })
        }
        2 => ChunkData::LayerChunk(LayerChunk {
            flags: layer_chunk::Flags::from_bits_truncate(g.word()),
            layer_type: LayerType::from_code(g.below(2) as u16).unwrap(),
            layer_child_level: g.word(),
            blend_mode: BlendMode::from_code(g.below(19) as u16).unwrap(),
            opacity: g.byte(),
            layer_name: g.text(),
        }),
        3 => {
            let cel = match g.below(3) {
                0 => Cel::RawCel { width: g.word(), height: g.word(), pixels: pixels(g, depth) },
                1 => Cel::LinkedCel { frame_position: g.word() },
                _ => Cel::CompressedImage {
                    width: g.word(),
                    height: g.word(),
                    zlib_compressed_data: g.bytes(30),
                },
            };
            ChunkData::CelChunk(CelChunk {
                layer_index: g.word(),
                x_position: g.word() as i16,
                y_position: g.word() as i16,
                opacity_level: g.byte(),
                cel,
            })
        }
        4 => ChunkData::CelExtraChunk(CelExtraChunk {
            flags: cel_extra_chunk::Flags::from_bits_truncate(g.long()),
            precise_x_position: g.long(),
            precise_y_position: g.long(),
            width: g.long(),
            height: g.long(),
        }),
        5 => {
            let profile_type = ProfileType::from_code(g.below(3) as u16).unwrap();
            ChunkData::ColorProfileChunk(ColorProfileChunk {
                profile_type,
                flags: color_profile_chunk::Flags::from_bits_truncate(g.word()),
                fixed_gamma: g.long(),
                icc_profile: if profile_type == ProfileType::EmbeddedIccProfile {
                    g.bytes(40)
                } else {
                    Vec::new()
                },
            })
        }
        6 => {
            let width = g.below(40) as u16;
            let height = g.below(10) as u16;
            let size = (height as usize) * (width as usize + 7) / 8;
            ChunkData::MaskChunk(MaskChunk {
                x_position: g.word() as i16,
                y_position: g.word() as i16,
                width,
                height,
                mask_name: g.text(),
                bitmap_data: (0..size).map(|_| g.byte()).collect(),
            })
        }
        7 => ChunkData::PathChunk(PathChunk {}),
        8 => {
            let tags = (0..g.below(4))
                .map(|_| Tag {
                    from_tag: g.word(),
                    to_tag: g.word(),
                    loop_animation_direction: LoopAnimationDirection::from_code(g.below(3) as u8)
                        .unwrap(),
                    tag_color: RGB256 { r: g.byte(), g: g.byte(), b: g.byte() },
                    tag_name: g.text(),
                })
                .collect::<Vec<_>>();
            ChunkData::FrameTagsChunk(FrameTagsChunk { number_of_tags: tags.len() as u16, tags })
        }
        9 => {
            let entries = (0..1 + g.below(6))
                .map(|_| {
                    let named = g.below(2) == 1;
                    PaletteEntry {
                        flags: palette_chunk::Flags { bits: if named { 1 } else { 0 } },
                        color: RGBA256 { r: g.byte(), g: g.byte(), b: g.byte(), a: g.byte() },
                        color_name: if named { Some(g.text()) } else { None },
                    }
                })
                .collect::<Vec<_>>();
            let first: u32 = g.long() % 0xFFFF_0000;
            ChunkData::PaletteChunk(PaletteChunk {
                new_palette_size: g.long(),
                first_color_index_to_change: first,
                last_color_index_to_change: first + entries.len() as u32 - 1,
                palette_entries: entries,
            })
        }
        10 => {
            let bits = g.below(4) as u32;
            ChunkData::UserDataChunk(UserDataChunk {
                flags: user_data_chunk::Flags { bits },
                text: if bits & 1 == 1 { Some(g.text()) } else { None },
                color: if bits & 2 == 2 {
                    Some(RGBA256 { r: g.byte(), g: g.byte(), b: g.byte(), a: g.byte() })
                } else {
                    None
                },
            })
        }
        _ => {
            let bits = g.below(4) as u32;
            let keys = (0..g.below(4))
                .map(|_| SliceKey {
                    frame_number: g.long(),
                    x_origin: g.long() as i32,
                    y_origin: g.long() as i32,
                    width: g.long(),
                    height: g.long(),
                    nine_patches_info: if bits & 1 == 1 {
                        Some(NinePatchesInfo {
                            x_position: g.long() as i32,
                            y_position: g.long() as i32,
                            width: g.long(),
                            height: g.long(),
                        })
                    } else {
                        None
                    },
                    pivot_info: if bits & 2 == 2 {
                        Some(PivotInfo { x_position: g.long() as i32, y_position: g.long() as i32 })
                    } else {
                        None
                    },
                })
                .collect::<Vec<_>>();
            ChunkData::SliceChunk(SliceChunk {
                number_of_slice_keys: keys.len() as u32,
                flags: slice_chunk::Flags { bits },
                name: g.text(),
                keys,
            })
        }
    }
}

fn varied_document(g: &mut Numbers) -> Aseprite {
    let depth = ColorDepth::from_code([8u16, 16, 32][g.below(3) as usize]).unwrap();
    let mut header = Header::new(g.word(), g.word());
    header.color_depth = depth;
    header.flags = ase::header::Flags::from_bits_truncate(g.long());
    header.speed = g.word();
    header.transparent_palette_entry = g.byte();
    header.number_of_colors = g.word();
    header.pixel_width = g.byte();
    header.pixel_height = g.byte();
    let frames = (0..g.below(4))
        .map(|_| {
            let mut frame = Frame::new();
            frame.frame_duration_milliseconds = g.word();
            for _ in 0..g.below(8) {
                frame.add_chunk(Chunk::new(chunk_data(g, depth)));
            }
            frame
        })
        .collect();
    Aseprite { header, frames }
}

#[test]
fn varied_documents_come_back_from_their_bytes() {
    let mut g = Numbers { state: 2024 };
    for _ in 0..300 {
        let doc = varied_document(&mut g);
        let mut bytes: Vec<u8> = Vec::new();
        doc.write(&mut bytes).unwrap();
        let mut read = Reader::new(bytes.clone());
        let back = Aseprite::from_read(&mut read).unwrap();
        assert_eq!(read.remaining(), 0);
        // the decoded document is the one that was written, with its sizes filled in
        assert_eq!(back.header.file_size as usize, bytes.len());
        assert_eq!(back.header.frames as usize, doc.frames.len());
        assert_eq!(
            Header { file_size: 0, frames: 0, ..back.header },
            Header { file_size: 0, frames: 0, ..doc.header }
        );
        assert_eq!(back.frames.len(), doc.frames.len());
        for (got, was) in back.frames.iter().zip(doc.frames.iter()) {
            assert_eq!(got.frame_duration_milliseconds, was.frame_duration_milliseconds);
            assert_eq!(got.number_of_chunks as usize, was.chunks.len());
            assert_eq!(got.chunks.len(), was.chunks.len());
            for (c, d) in got.chunks.iter().zip(was.chunks.iter()) {
                assert_eq!(c.chunk_data, d.chunk_data);
            }
        }
        // and it encodes to the same bytes again
        let mut again: Vec<u8> = Vec::new();
        back.write(&mut again).unwrap();
        assert_eq!(again, bytes);
    }
}

#[test]
fn altered_bytes_decode_or_fail_without_panic() {
    let mut g = Numbers { state: 7 };
    let mut seed = Vec::new();
    varied_document(&mut g).write(&mut seed).unwrap();
    for round in 0..2000u64 {
        let mut bytes = seed.clone();
        if bytes.len() > 128 {
            for _ in 0..1 + round % 4 {
                let at = g.below(bytes.len() as u64) as usize;
                bytes[at] = g.byte();
            }
        }
        let mut read = Reader::new(bytes);
        match Aseprite::from_read(&mut read) {
            Ok(doc) => {
                assert_eq!(doc.frames.len(), doc.header.frames as usize);
                let mut out: Vec<u8> = Vec::new();
                if doc.write(&mut out).is_ok() {
                    // decoding is stable under encoding again
                    let mut read = Reader::new(out.clone());
                    let back = Aseprite::from_read(&mut read).unwrap();
                    let mut again: Vec<u8> = Vec::new();
                    back.write(&mut again).unwrap();
                    assert_eq!(again, out);
                }
            }
            Err(_) => {}
        }
        if round % 50 == 0 {
            seed.clear();
            varied_document(&mut g).write(&mut seed).unwrap();
        }
    }
}

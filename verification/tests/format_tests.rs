use spf::format::{
    layout_from_data, layout_to_data, try_layout_from_data, try_layout_to_data, ByteReader,
    ByteReaderImpl, ByteWriter, Character, CharacterTable, CharacterTableConfigurationFlags,
    CharacterTableLinkFlags, CharacterTableModifierFlags, Color, ColorTable,
    ColorTableConfigurationFlags, ColorTableModifierFlags, ColorType, DeserializeEngine,
    DeserializeError, Font, FontTable, FontTableLinkFlags, FontType, Layout, Pixmap, PixmapTable,
    PixmapTableConfigurationFlags, PixmapTableLinkFlags, SerializeError, Version,
    deserialize_with_engine,
};

const HEADER: [u8; 6] = [127, 102, 115, 70, 0, 0];

fn with_header(body: &[u8]) -> Vec<u8> {
    let mut v = HEADER.to_vec();
    v.extend_from_slice(body);
    v
}

fn character_table() -> CharacterTable {
    CharacterTable {
        modifier_flags: CharacterTableModifierFlags::use_advance_x(),
        configuration_flags: CharacterTableConfigurationFlags::empty(),
        constant_code_point_count: None,
        link_flags: CharacterTableLinkFlags::empty(),
        pixmap_table_indexes: None,
        characters: vec![Character {
            advance_x: Some(4),
            pixmap_index: None,
            pixmap_table_index: None,
            code_points: "a".to_string(),
        }],
    }
}

fn pixmap_table() -> PixmapTable {
    PixmapTable {
        configuration_flags: PixmapTableConfigurationFlags::empty(),
        constant_width: Some(2),
        constant_height: Some(2),
        constant_bits_per_pixel: Some(8),
        link_flags: PixmapTableLinkFlags::empty(),
        color_table_indexes: None,
        pixmaps: vec![Pixmap {
            custom_width: None,
            custom_height: None,
            custom_bits_per_pixel: None,
            data: vec![1, 2, 3, 4],
        }],
    }
}

fn color_table() -> ColorTable {
    ColorTable {
        modifier_flags: ColorTableModifierFlags::empty(),
        configuration_flags: ColorTableConfigurationFlags::empty(),
        constant_alpha: Some(255),
        colors: vec![Color { color_type: None, custom_alpha: None, red: 10, green: 20, blue: 30 }],
    }
}

fn font_table() -> FontTable {
    FontTable {
        link_flags: FontTableLinkFlags::empty(),
        character_table_indexes: Some(vec![0]),
        fonts: vec![Font {
            name: "A".to_string(),
            author: "B".to_string(),
            version: 1,
            font_type: FontType::Regular,
            linked_character_table_indexes: vec![0],
        }],
    }
}

fn full_layout() -> Layout {
    let mut layout = Layout::empty();
    layout.character_tables.push(character_table());
    layout.pixmap_tables.push(pixmap_table());
    layout.color_tables.push(color_table());
    layout.font_tables.push(font_table());
    layout
}

#[test]
fn empty_layout_encodes_as_signature_and_header() {
    assert_eq!(layout_to_data(&Layout::empty()).unwrap(), HEADER.to_vec());
}

#[test]
fn empty_layout_decodes_from_signature_and_header() {
    assert_eq!(layout_from_data(&HEADER).unwrap(), Layout::empty());
}

#[test]
fn character_table_bytes() {
    let mut layout = Layout::empty();
    layout.character_tables.push(character_table());
    assert_eq!(layout_to_data(&layout).unwrap(), with_header(&[1, 1, 0, 0, 1, 4, 97, 0]));
}

#[test]
fn pixmap_table_bytes() {
    let mut layout = Layout::empty();
    layout.pixmap_tables.push(pixmap_table());
    assert_eq!(
        layout_to_data(&layout).unwrap(),
        with_header(&[2, 0, 7, 2, 2, 8, 0, 1, 1, 2, 3, 4])
    );
}

#[test]
fn color_table_bytes() {
    let mut layout = Layout::empty();
    layout.color_tables.push(color_table());
    assert_eq!(layout_to_data(&layout).unwrap(), with_header(&[3, 0, 1, 255, 0, 1, 10, 20, 30]));
}

#[test]
fn font_table_bytes() {
    let mut layout = Layout::empty();
    layout.font_tables.push(font_table());
    assert_eq!(
        layout_to_data(&layout).unwrap(),
        with_header(&[4, 0, 0, 1, 1, 0, 1, 65, 0, 66, 0, 1, 0, 1, 0])
    );
}

#[test]
fn representable_layout_reads_back_as_written() {
    let layout = full_layout();
    let data = layout_to_data(&layout).unwrap();
    assert_eq!(layout_from_data(&data).unwrap(), layout);
}

#[test]
fn multibyte_code_points_read_back() {
    let mut table = character_table();
    table.characters[0].code_points = "é€😀".to_string();
    let mut layout = Layout::empty();
    layout.character_tables.push(table);
    let data = layout_to_data(&layout).unwrap();
    let read = layout_from_data(&data).unwrap();
    assert_eq!(read.character_tables[0].characters[0].code_points, "é€😀".to_string());
}

#[test]
fn constant_code_point_count_reads_exactly_that_many() {
    let mut table = character_table();
    table.constant_code_point_count = Some(2);
    table.configuration_flags = CharacterTableConfigurationFlags::constant_code_point_count();
    table.characters[0].code_points = "ab".to_string();
    let mut layout = Layout::empty();
    layout.character_tables.push(table.clone());
    let data = layout_to_data(&layout).unwrap();
    assert_eq!(data, with_header(&[1, 1, 1, 2, 0, 1, 4, 97, 98]));
    assert_eq!(layout_from_data(&data).unwrap().character_tables[0], table);
}

#[test]
fn compact_pixmaps_pack_pixels_into_bits() {
    let mut layout = Layout::empty();
    layout.compact = true;
    layout.pixmap_tables.push(PixmapTable {
        configuration_flags: PixmapTableConfigurationFlags::empty(),
        constant_width: Some(3),
        constant_height: Some(1),
        constant_bits_per_pixel: Some(1),
        link_flags: PixmapTableLinkFlags::empty(),
        color_table_indexes: None,
        pixmaps: vec![Pixmap {
            custom_width: None,
            custom_height: None,
            custom_bits_per_pixel: None,
            data: vec![1, 0, 1],
        }],
    });
    let data = layout_to_data(&layout).unwrap();
    assert_eq!(data, vec![127, 102, 115, 70, 0, 1, 2, 0, 7, 3, 1, 1, 0, 1, 5]);
    let read = layout_from_data(&data).unwrap();
    assert_eq!(read.pixmap_tables[0].pixmaps[0].data, vec![5]);
}

#[test]
fn padded_pixmaps_fill_the_last_byte() {
    let mut layout = Layout::empty();
    layout.pixmap_tables.push(PixmapTable {
        configuration_flags: PixmapTableConfigurationFlags::empty(),
        constant_width: None,
        constant_height: None,
        constant_bits_per_pixel: None,
        link_flags: PixmapTableLinkFlags::empty(),
        color_table_indexes: None,
        pixmaps: vec![Pixmap {
            custom_width: Some(3),
            custom_height: Some(1),
            custom_bits_per_pixel: Some(2),
            data: vec![1, 2, 3],
        }],
    });
    let data = layout_to_data(&layout).unwrap();
    assert_eq!(data, with_header(&[2, 0, 0, 0, 1, 3, 1, 2, 57]));
}

#[test]
fn decoding_nothing_is_unexpected_end_of_file() {
    assert_eq!(layout_from_data(&[]), Err(DeserializeError::UnexpectedEndOfFile));
}

#[test]
fn decoding_a_truncated_table_is_unexpected_end_of_file() {
    assert_eq!(
        layout_from_data(&with_header(&[1, 0])),
        Err(DeserializeError::UnexpectedEndOfFile)
    );
}

#[test]
fn decoding_a_wrong_signature_is_invalid_signature() {
    assert_eq!(layout_from_data(&[1, 2, 3, 4, 0, 0]), Err(DeserializeError::InvalidSignature));
}

#[test]
fn decoding_an_unknown_version_is_unsupported_version() {
    assert_eq!(
        layout_from_data(&[127, 102, 115, 70, 9, 0]),
        Err(DeserializeError::UnsupportedVersion)
    );
}

#[test]
fn decoding_an_unknown_table_is_unsupported_table_identifier() {
    assert_eq!(
        layout_from_data(&with_header(&[9, 0])),
        Err(DeserializeError::UnsupportedTableIdentifier)
    );
}

#[test]
fn decoding_an_unknown_font_type_is_unsupported_font_type() {
    assert_eq!(
        layout_from_data(&with_header(&[4, 0, 0, 0, 1, 65, 0, 66, 0, 1, 7, 0])),
        Err(DeserializeError::UnsupportedFontType)
    );
}

#[test]
fn color_type_bytes() {
    assert_eq!(ColorType::try_from(0), Ok(ColorType::Dynamic));
    assert_eq!(ColorType::try_from(1), Ok(ColorType::Absolute));
    assert_eq!(ColorType::try_from(2), Err(DeserializeError::UnsupportedColorType));
}

#[test]
fn version_and_font_type_bytes() {
    assert_eq!(Version::try_from(0), Ok(Version::FV0));
    assert_eq!(Version::FV0.to_u8(), 0);
    assert_eq!(FontType::try_from(2), Ok(FontType::Italic));
    assert_eq!(FontType::Bold.to_u8(), 1);
    assert_eq!(FontType::try_from(3), Err(DeserializeError::UnsupportedFontType));
}

#[test]
fn invalid_utf8_cannot_be_decoded() {
    assert_eq!(try_layout_from_data(&with_header(&[1, 0, 0, 0, 1, 0xC3, 0x28, 0])), None);
}

#[test]
fn try_decoding_reports_format_errors() {
    assert_eq!(
        try_layout_from_data(&[1, 2, 3, 4, 0, 0]),
        Some(Err(DeserializeError::InvalidSignature))
    );
    assert_eq!(try_layout_from_data(&HEADER), Some(Ok(Layout::empty())));
}

#[test]
fn too_many_characters_is_static_vector_too_large() {
    let mut table = character_table();
    let one = table.characters[0].clone();
    table.characters = vec![one; 256];
    let mut layout = Layout::empty();
    layout.character_tables.push(table);
    assert_eq!(layout_to_data(&layout), Err(SerializeError::StaticVectorTooLarge));
}

#[test]
fn too_much_pixel_data_is_static_vector_too_large() {
    let mut table = pixmap_table();
    table.pixmaps[0].data = vec![0; 5];
    let mut layout = Layout::empty();
    layout.pixmap_tables.push(table);
    assert_eq!(layout_to_data(&layout), Err(SerializeError::StaticVectorTooLarge));
}

#[test]
fn a_missing_flagged_value_cannot_be_encoded() {
    let mut table = character_table();
    table.characters[0].advance_x = None;
    let mut layout = Layout::empty();
    layout.character_tables.push(table);
    assert_eq!(try_layout_to_data(&layout), None);
}

#[test]
fn engine_decodes_into_its_layout() {
    let data = layout_to_data(&full_layout()).unwrap();
    let mut engine = DeserializeEngine::from_data(&data);
    assert_eq!(deserialize_with_engine(&mut engine), Ok(()));
    assert_eq!(engine.layout, full_layout());
}

#[test]
fn writer_packs_bits_least_significant_first() {
    let mut writer = ByteWriter::new();
    writer.incomplete_push(1, 3);
    writer.push(0xFF);
    assert_eq!(writer.bytes, vec![0xF9, 0x07]);
    assert_eq!(writer.pointer, 3);
}

#[test]
fn reader_reads_back_what_the_writer_packed() {
    let data = [0xF9u8, 0x07];
    let mut reader = ByteReaderImpl::from(&data);
    assert_eq!(reader.incomplete_next(3), 1);
    assert_eq!(reader.next(), 0xFF);
    assert_eq!(reader.index(), 1);
    assert_eq!(reader.len(), 2);
    assert!(!reader.is_empty());
}

#[test]
fn flags_keep_every_bit() {
    let flags = CharacterTableModifierFlags::from_bits_retain(0b1000_0101);
    assert_eq!(flags.bits(), 0b1000_0101);
    assert!(flags.contains(CharacterTableModifierFlags::use_advance_x()));
    assert!(!flags.contains(CharacterTableModifierFlags::use_pixmap_index()));
    assert!(flags.contains(CharacterTableModifierFlags::use_pixmap_table_index()));
    assert_eq!(PixmapTableConfigurationFlags::constant_bits_per_pixel().bits(), 4);
}

#[test]
fn padded_pixmaps_read_back_packed_and_keep_what_follows() {
    let mut layout = Layout::empty();
    layout.pixmap_tables.push(PixmapTable {
        configuration_flags: PixmapTableConfigurationFlags::empty(),
        constant_width: None,
        constant_height: Some(1),
        constant_bits_per_pixel: Some(3),
        link_flags: PixmapTableLinkFlags::empty(),
        color_table_indexes: None,
        pixmaps: vec![
            Pixmap {
                custom_width: Some(2),
                custom_height: None,
                custom_bits_per_pixel: None,
                data: vec![5, 2],
            },
            Pixmap {
                custom_width: Some(1),
                custom_height: None,
                custom_bits_per_pixel: None,
                data: vec![7],
            },
        ],
    });
    let data = layout_to_data(&layout).unwrap();
    let read = layout_from_data(&data).unwrap();
    let pixmaps = &read.pixmap_tables[0].pixmaps;
    assert_eq!(pixmaps.len(), 2);
    assert_eq!(pixmaps[0].custom_width, Some(2));
    assert_eq!(pixmaps[0].data, vec![21]);
    assert_eq!(pixmaps[1].custom_width, Some(1));
    assert_eq!(pixmaps[1].data, vec![7]);
}

#[test]
fn compact_pixmaps_continue_mid_byte() {
    let mut layout = Layout::empty();
    layout.compact = true;
    layout.pixmap_tables.push(PixmapTable {
        configuration_flags: PixmapTableConfigurationFlags::empty(),
        constant_width: None,
        constant_height: Some(1),
        constant_bits_per_pixel: Some(1),
        link_flags: PixmapTableLinkFlags::empty(),
        color_table_indexes: None,
        pixmaps: vec![
            Pixmap {
                custom_width: Some(3),
                custom_height: None,
                custom_bits_per_pixel: None,
                data: vec![1, 0, 1],
            },
            Pixmap {
                custom_width: Some(2),
                custom_height: None,
                custom_bits_per_pixel: None,
                data: vec![0, 1],
            },
        ],
    });
    layout.color_tables.push(color_table());
    let data = layout_to_data(&layout).unwrap();
    let read = layout_from_data(&data).unwrap();
    let pixmaps = &read.pixmap_tables[0].pixmaps;
    assert_eq!(pixmaps[0].custom_width, Some(3));
    assert_eq!(pixmaps[0].data, vec![5]);
    assert_eq!(pixmaps[1].custom_width, Some(2));
    assert_eq!(pixmaps[1].data, vec![2]);
    assert_eq!(read.color_tables[0], color_table());
}

#[test]
fn version_names_itself() {
    assert_eq!(Version::FV0.to_string(), "FV0");
}

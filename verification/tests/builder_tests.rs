use spf::ergonomics::{
    CharacterBuilder, CharacterTableBuilder, ColorBuilder, ColorTableBuilder, LayoutBuilder,
    PixmapBuilder, PixmapIndex, PixmapTableBuilder, TableBuilder, TableBuilderIdentifier,
    TableBuilderResult, MAGIC_BYTES,
};
use spf::format::{layout_from_data, layout_to_data, Version};

#[test]
fn magic_bytes_are_the_signature() {
    assert_eq!(MAGIC_BYTES, [127, 102, 115, 70]);
}

#[test]
fn color_builder_channels() {
    let mut color = ColorBuilder::default();
    color.rgba(1, 2, 3, 4);
    assert_eq!((color.r, color.g, color.b, color.custom_alpha), (1, 2, 3, Some(4)));
    color.rgb(5, 6, 7);
    assert_eq!((color.r, color.g, color.b, color.custom_alpha), (5, 6, 7, None));
    color.a(9).r(10).g(11).b(12);
    assert_eq!((color.r, color.g, color.b, color.custom_alpha), (10, 11, 12, Some(9)));
}

#[test]
fn named_colors() {
    let black = ColorBuilder::black();
    assert_eq!((black.r, black.g, black.b, black.custom_alpha), (0, 0, 0, Some(255)));
    let white = ColorBuilder::white();
    assert_eq!((white.r, white.g, white.b, white.custom_alpha), (255, 255, 255, Some(255)));
    let clear = ColorBuilder::transparent();
    assert_eq!((clear.r, clear.g, clear.b, clear.custom_alpha), (0, 0, 0, Some(0)));
}

#[test]
fn color_from_bytes_fills_missing_channels_with_zero() {
    let full = ColorBuilder::from(&[1, 2, 3, 4]);
    assert_eq!((full.r, full.g, full.b, full.custom_alpha), (1, 2, 3, Some(4)));
    let short = ColorBuilder::from(&[7]);
    assert_eq!((short.r, short.g, short.b, short.custom_alpha), (7, 0, 0, Some(0)));
}

#[test]
fn color_table_resolve_clears_alphas_under_a_constant_alpha() {
    let mut table = ColorTableBuilder::default();
    table.constant_alpha(200).color(ColorBuilder::white());
    table.resolve();
    assert_eq!(table.colors[0].custom_alpha, None);
    match table.build() {
        TableBuilderResult::Color(built) => {
            assert_eq!(built.constant_alpha, Some(200));
            assert_eq!(built.colors[0].red, 255);
            assert_eq!(built.colors[0].custom_alpha, None);
        },
        _ => panic!("not a color table"),
    }
}

#[test]
fn character_builder_fields() {
    let mut character = CharacterBuilder::from("ab");
    assert_eq!(character.grapheme_cluster, "ab".to_string());
    character.advance_x(3).grapheme_cluster("c".to_string());
    assert_eq!(character.advance_x, Some(3));
    assert_eq!(character.grapheme_cluster, "c".to_string());
}

#[test]
fn character_table_resolve_clears_unused_fields() {
    let mut table = CharacterTableBuilder::default();
    let mut character = CharacterBuilder::from("a");
    character.advance_x(5);
    table.character(character);
    table.resolve();
    assert_eq!(table.characters[0].advance_x, None);
}

#[test]
fn character_process_pushes_the_processed_character() {
    let mut table = CharacterTableBuilder::default();
    table.character_process(CharacterBuilder::from("x"), |mut c: CharacterBuilder| {
        c.advance_x = Some(8);
        c
    });
    assert_eq!(table.characters[0].advance_x, Some(8));
}

#[test]
fn pixmap_builder_fields() {
    let mut pixmap = PixmapBuilder::from(&[1, 2]);
    pixmap.custom_width(2).custom_height(1).custom_bits_per_pixel(8).data(&[3, 4]);
    assert_eq!(pixmap.custom_width, Some(2));
    assert_eq!(pixmap.custom_height, Some(1));
    assert_eq!(pixmap.custom_bits_per_pixel, Some(8));
    assert_eq!(pixmap.data, vec![3, 4]);
}

#[test]
fn layout_builder_links_tables_by_position() {
    let mut pixmaps = PixmapTableBuilder::default();
    pixmaps.constant_width(2).constant_height(1).constant_bits_per_pixel(8);
    let mut colors = ColorTableBuilder::default();
    colors.constant_alpha(255).color(ColorBuilder::black());
    let color_link = colors.link();
    pixmaps.color_table_indexes(&[color_link]);
    let first = pixmaps.bind_pixmap(PixmapBuilder::from(&[1, 2]));
    let mut second = first.clone();
    pixmaps.pixmap_bind(PixmapBuilder::from(&[3, 4]), &mut second);
    let pixmap_link = pixmaps.link();

    let mut characters = CharacterTableBuilder::default();
    characters.advance_x(true).pixmap_index(true).pixmap_table_indexes(&[pixmap_link]);
    let mut a = CharacterBuilder::from("a");
    a.advance_x(3).pixmap_index(&first);
    let mut b = CharacterBuilder::from("b");
    b.advance_x(4).pixmap_index(&second);
    characters.character(a).character(b);

    let mut spare = ColorTableBuilder::default();
    spare.constant_alpha(1);

    let mut builder = LayoutBuilder::default();
    builder.version(Version::FV0).compact(false);
    builder.table(TableBuilderIdentifier::from(characters));
    builder.table(TableBuilderIdentifier::from(spare));
    builder.table(TableBuilderIdentifier::from(colors));
    builder.table(TableBuilderIdentifier::from(pixmaps));
    let layout = builder.build();

    assert_eq!(layout.character_tables.len(), 1);
    assert_eq!(layout.color_tables.len(), 2);
    assert_eq!(layout.pixmap_tables.len(), 1);
    assert_eq!(layout.character_tables[0].pixmap_table_indexes, Some(vec![0]));
    assert_eq!(layout.character_tables[0].characters[0].pixmap_index, Some(0));
    assert_eq!(layout.character_tables[0].characters[1].pixmap_index, Some(1));
    assert_eq!(layout.character_tables[0].characters[1].advance_x, Some(4));
    assert_eq!(layout.pixmap_tables[0].color_table_indexes, Some(vec![1]));
    assert_eq!(layout.pixmap_tables[0].pixmaps[1].data, vec![3, 4]);

    let data = layout_to_data(&layout).unwrap();
    assert_eq!(layout_from_data(&data).unwrap(), layout);
}

#[test]
fn pixmap_process_pushes_the_processed_pixmap() {
    let mut table = PixmapTableBuilder::default();
    table.pixmap_process(PixmapBuilder::from(&[9]), |mut p: PixmapBuilder| {
        p.custom_width = Some(1);
        p
    });
    assert_eq!(table.pixmaps[0].custom_width, Some(1));
    assert_eq!(table.pixmaps[0].data, vec![9]);
}

#[test]
fn pixmap_handles_name_their_table() {
    let mut table = PixmapTableBuilder::default();
    let handle: PixmapIndex = table.bind_pixmap(PixmapBuilder::from(&[0]));
    assert_eq!(handle.get(), 0);
    assert_eq!(handle.table().get(), table.link().get());
}

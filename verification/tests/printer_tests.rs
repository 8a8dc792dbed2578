use spf::cache::CharacterCache;
use spf::glyphs::{Body, Character, ConfigurationFlags, Header, Layout, ModifierFlags, RequiredValues};
use spf::printer::{Printer, Surface};

#[test]
fn blank_surfaces_hold_zeros() {
    let surface = Surface::blank(4, 2);
    assert_eq!(surface.data, vec![0, 0, 0, 0, 0, 0, 0, 0]);
}

#[test]
fn new_surfaces_hold_their_data() {
    let surface = Surface::new(2, 3, &[0, 0, 1, 1, 2, 2]);
    assert_eq!((surface.width, surface.height), (2, 3));
    assert_eq!(surface.data, vec![0, 0, 1, 1, 2, 2]);
}

#[test]
fn get_pixel_reads_existing_points_only() {
    let surface = Surface::new(2, 2, &[0, 1, 2, 3]);
    assert_eq!(surface.get_pixel(1, 0).unwrap(), 1);
    assert_eq!(surface.get_pixel(0, 1).unwrap(), 2);
    assert_eq!(surface.get_pixel(3, 1).is_none(), true);
    assert_eq!(surface.get_pixel(2, 0).is_none(), true);
    assert_eq!(surface.get_pixel(0, 2).is_none(), true);
}

#[test]
fn blit_copies_overlapping_points() {
    let mut surface1 = Surface::new(3, 3, &[0, 1, 1, 1, 1, 1, 1, 1, 1]);
    let surface2 = Surface::new(2, 2, &[2, 2, 2, 3]);
    surface1.blit(&surface2, 1, 1);
    assert_eq!(surface1.data, vec![0, 1, 1, 1, 2, 2, 1, 2, 3]);
}

#[test]
fn blit_ignores_points_outside_the_surface() {
    let mut surface1 = Surface::new(2, 2, &[0, 0, 0, 0]);
    let surface2 = Surface::new(2, 2, &[1, 2, 3, 4]);
    surface1.blit(&surface2, 1, 1);
    assert_eq!(surface1.data, vec![0, 0, 0, 1]);
}

#[test]
fn replace_maps_values() {
    let surface = Surface::blank(3, 1);
    assert_eq!(surface.replace(&['a']), vec!['a', 'a', 'a']);
}

#[test]
fn flatten_replace_concatenates_values() {
    let surface = Surface::new(3, 1, &[0, 1, 0]);
    assert_eq!(surface.flatten_replace(&[vec![7], vec![8, 9]]), vec![7, 8, 9, 7]);
}

#[test]
fn flip_vertical_reverses_rows() {
    let surface = Surface::new(5, 5, &[
        2, 1, 2, 3, 1,
        5, 3, 1, 3, 1,
        2, 1, 4, 3, 4,
        4, 2, 1, 2, 5,
        5, 2, 1, 3, 4,
    ]);
    let flipped = surface.flip_vertical();
    assert_eq!(flipped.data, vec![
        5, 2, 1, 3, 4,
        4, 2, 1, 2, 5,
        2, 1, 4, 3, 4,
        5, 3, 1, 3, 1,
        2, 1, 2, 3, 1,
    ]);
}

#[test]
fn flip_horizontal_reverses_each_row() {
    let surface = Surface::new(5, 5, &[
        2, 1, 2, 3, 1,
        5, 3, 1, 3, 1,
        2, 1, 4, 3, 4,
        4, 2, 1, 2, 5,
        5, 2, 1, 3, 4,
    ]);
    let flipped = surface.flip_horizontal();
    assert_eq!(flipped.data, vec![
        1, 3, 2, 1, 2,
        1, 3, 1, 3, 5,
        4, 3, 4, 1, 2,
        5, 2, 1, 2, 4,
        4, 3, 1, 2, 5,
    ]);
}

fn font() -> Layout {
    Layout::new(
        Header {
            configuration_flags: ConfigurationFlags { alignment: true },
            modifier_flags: ModifierFlags { compact: false },
            required_values: RequiredValues { constant_size: 2 },
        },
        Body {
            characters: vec![
                Character::new('i', 1, vec![1, 1]),
                Character::new('o', 2, vec![1, 1, 1, 1]),
            ],
        },
    )
}

#[test]
fn printer_places_characters_side_by_side() {
    let printer = Printer::from_font(font());
    assert_eq!(printer.letter_spacing, 1);
    let surface = printer.print("io".to_string());
    assert_eq!((surface.width, surface.height), (4, 2));
    assert_eq!(surface.data, vec![1, 0, 1, 1, 1, 0, 1, 1]);
}

#[test]
fn cache_maps_each_character_to_its_position() {
    let cache = CharacterCache::from_characters(&font().body.characters);
    assert_eq!(cache.len(), 2);
    assert_eq!(cache.get(&"o".to_string()), Some(1));
    assert_eq!(cache.get(&"x".to_string()), None);
    assert_eq!(CharacterCache::empty().len(), 0);
}

#[test]
fn cache_keeps_the_last_position_of_repeated_characters() {
    let characters = vec![
        Character::new('a', 1, vec![]),
        Character::new('a', 1, vec![]),
    ];
    let cache = CharacterCache::from_characters(&characters);
    assert_eq!(cache.len(), 1);
    assert_eq!(cache.get(&"a".to_string()), Some(1));
}

#[test]
fn glyph_layout_add_character_appends() {
    let mut layout = font();
    assert_eq!(layout.add_character(Character::new('x', 1, vec![0, 0])), Ok(()));
    assert_eq!(layout.body.characters.len(), 3);
    assert_eq!(layout.body.characters[2].utf8, 'x');
}

#[test]
fn flipping_twice_restores_the_surface() {
    let surface = Surface::new(3, 2, &[1, 2, 3, 4, 5, 6]);
    let twice = surface.flip_vertical().flip_vertical();
    assert_eq!(twice.data, vec![1, 2, 3, 4, 5, 6]);
    let mirrored_twice = surface.flip_horizontal().flip_horizontal();
    assert_eq!(mirrored_twice.data, vec![1, 2, 3, 4, 5, 6]);
}

#[test]
fn glyph_fonts_encode_and_decode() {
    let layout = Layout::new(
        Header {
            configuration_flags: ConfigurationFlags { alignment: true },
            modifier_flags: ModifierFlags { compact: false },
            required_values: RequiredValues { constant_size: 2 },
        },
        Body { characters: vec![Character::new('o', 2, vec![1, 0, 0, 1])] },
    );
    let data = layout.to_data();
    assert_eq!(data, vec![102, 115, 70, 1, 2, 111, 2, 9]);
    let read = Layout::from_data(data);
    assert_eq!(read.header.required_values.constant_size, 2);
    assert_eq!(read.body.characters[0].utf8, 'o');
    assert_eq!(read.body.characters[0].byte_map, vec![1, 0, 0, 1]);
}

#[test]
fn glyph_fonts_decode_ignoring_unused_bits() {
    let read = Layout::from_data(vec![102, 115, 70, 2, 2, 111, 2, 249]);
    assert_eq!(read.header.configuration_flags.alignment, false);
    assert_eq!(read.header.modifier_flags.compact, false);
    assert_eq!(read.body.characters[0].byte_map, vec![1, 0, 0, 1]);
    assert!(Layout::try_from_data(vec![102, 115, 70, 0, 2, 111]).is_none());
    assert!(Layout::try_from_data(vec![0, 0, 0]).is_none());
}

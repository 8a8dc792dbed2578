use spf::bitmap_font::{
    Bitmap, Character, ConfigurationFlags, ModifierFlags, SimplePixelFont, ALIGNMENT_HEIGHT,
};

#[test]
fn bitmap_new_checks_its_dimensions() {
    let bitmap = Bitmap::new(2, 2, vec![false, true, true, false]).unwrap();
    assert_eq!(bitmap.is_inferred(), false);
    assert_eq!(
        Bitmap::new(2, 2, vec![false]).unwrap_err(),
        "Bitmap width*height does not equal data.len()!".to_string()
    );
}

#[test]
fn inferred_bitmaps_have_no_dimensions() {
    let bitmap = Bitmap::inferred(&[true, false]);
    assert!(bitmap.is_inferred());
    assert_eq!((bitmap.width, bitmap.height), (0, 0));
}

#[test]
fn character_new_refuses_inferred_bitmaps() {
    assert_eq!(
        Character::new('a', 1, Bitmap::inferred(&[true])).unwrap_err(),
        "Bitmap provided is inferred, use Character::inferred() instead!".to_string()
    );
    assert_eq!(Character::new('a', 1, Bitmap::new(1, 1, vec![true]).unwrap()).unwrap().size, 1);
}

#[test]
fn font_derives_the_width_of_inferred_characters() {
    let mut font = SimplePixelFont::new(
        ConfigurationFlags { alignment: ALIGNMENT_HEIGHT },
        ModifierFlags { compact: false },
        2,
    );
    let bitmap = Bitmap::inferred(&[false, true, true, false, true, true]);
    assert_eq!(font.add_character(Character::inferred('o', bitmap)), Ok(()));
    assert_eq!(font.characters[0].size, 3);
    assert_eq!(font.characters[0].bitmap.width, 3);
    assert_eq!(font.characters[0].bitmap.height, 2);
    assert!(!font.characters[0].bitmap.is_inferred());
}

#[test]
fn font_refuses_inferred_characters_that_do_not_fill_columns() {
    let mut font = SimplePixelFont::new(
        ConfigurationFlags { alignment: ALIGNMENT_HEIGHT },
        ModifierFlags { compact: false },
        2,
    );
    let bitmap = Bitmap::inferred(&[false, true, true]);
    assert_eq!(
        font.add_character(Character::inferred('o', bitmap)),
        Err("Character's bitmap dimensions cannot be inffered.".to_string())
    );
    assert_eq!(font.characters.len(), 0);
}

#[test]
fn font_keeps_the_width_of_sized_characters() {
    let mut font = SimplePixelFont::new(
        ConfigurationFlags { alignment: ALIGNMENT_HEIGHT },
        ModifierFlags { compact: true },
        1,
    );
    let character = Character::new('i', 9, Bitmap::new(1, 1, vec![true]).unwrap()).unwrap();
    assert_eq!(font.add_character(character), Ok(()));
    assert_eq!(font.characters[0].size, 1);
}

fn font_of(compact: bool, size: u8, chars: Vec<(char, u8, Vec<bool>)>) -> SimplePixelFont {
    let mut font = SimplePixelFont::new(
        ConfigurationFlags { alignment: ALIGNMENT_HEIGHT },
        ModifierFlags { compact },
        size,
    );
    for (c, s, data) in chars {
        let bitmap = Bitmap::new(s, size, data).unwrap();
        font.add_character(Character::new(c, s, bitmap).unwrap()).unwrap();
    }
    font
}

#[test]
fn fonts_encode_to_signature_header_and_padded_records() {
    let font = font_of(false, 2, vec![('o', 2, vec![true, false, false, true])]);
    assert_eq!(font.to_vec_u8(), vec![102, 115, 70, 1, 2, 111, 2, 9]);
}

#[test]
fn compact_fonts_pack_records_to_the_bit() {
    let font = font_of(true, 2, vec![('a', 1, vec![true, true]), ('b', 1, vec![false, true])]);
    assert_eq!(font.to_vec_u8(), vec![102, 115, 70, 17, 2, 97, 1, 139, 5, 8]);
}

#[test]
fn fonts_decode_from_their_encoding() {
    for compact in [false, true] {
        let font = font_of(compact, 2, vec![('a', 1, vec![true, true]), ('é', 3, vec![true, false, true, false, false, true])]);
        let read = SimplePixelFont::from_vec_u8(font.to_vec_u8());
        assert_eq!(read.configurations.alignment, ALIGNMENT_HEIGHT);
        assert_eq!(read.modifiers.compact, compact);
        assert_eq!(read.size, 2);
        assert_eq!(read.characters.len(), 2);
        assert_eq!(read.characters[1].utf8, 'é');
        assert_eq!(read.characters[1].size, 3);
        assert_eq!((read.characters[1].bitmap.width, read.characters[1].bitmap.height), (3, 2));
        assert_eq!(read.characters[1].bitmap.data, vec![true, false, true, false, false, true]);
        assert!(!read.characters[0].bitmap.is_inferred());
        assert_eq!(read.to_vec_u8(), font.to_vec_u8());
    }
}

#[test]
fn decoding_reads_only_the_flag_bits_and_skips_padding() {
    let read = SimplePixelFont::from_vec_u8(vec![102, 115, 70, 227, 2, 111, 2, 249]);
    assert_eq!(read.configurations.alignment, true);
    assert_eq!(read.modifiers.compact, false);
    assert_eq!(read.size, 2);
    assert_eq!(read.characters.len(), 1);
    assert_eq!(read.characters[0].utf8, 'o');
    assert_eq!(read.characters[0].bitmap.data, vec![true, false, false, true]);
    let plain = SimplePixelFont::from_vec_u8(vec![102, 115, 70, 2, 2, 111, 2, 9]);
    assert_eq!(plain.configurations.alignment, false);
    assert_eq!(plain.modifiers.compact, false);
    assert_eq!((plain.characters[0].bitmap.width, plain.characters[0].bitmap.height), (2, 2));
}

#[test]
fn decoding_refuses_what_holds_no_font() {
    assert!(SimplePixelFont::try_from_vec_u8(vec![1, 2, 3, 0, 2]).is_none());
    assert!(SimplePixelFont::try_from_vec_u8(vec![102, 115]).is_none());
    assert!(SimplePixelFont::try_from_vec_u8(vec![102, 115, 70, 0, 2, 111]).is_none());
    assert!(SimplePixelFont::try_from_vec_u8(vec![102, 115, 70, 0, 2, 111, 2]).is_none());
    assert!(SimplePixelFont::try_from_vec_u8(vec![102, 115, 70, 0, 2, 0xC3, 0x28, 1, 0]).is_none());
}

#[test]
fn short_fonts_decode_with_no_characters() {
    let read = SimplePixelFont::try_from_vec_u8(vec![102, 115, 70]).unwrap();
    assert_eq!(read.size, 0);
    assert!(read.characters.is_empty());
    let sized = SimplePixelFont::try_from_vec_u8(vec![102, 115, 70, 17, 4]).unwrap();
    assert_eq!(sized.modifiers.compact, true);
    assert_eq!(sized.size, 4);
    assert!(sized.characters.is_empty());
}

use spf::ffi::{
    ConversionError, SPFColorType, SPFFontType, SPFStatus, SPFVersion,
    SPF_CHARACTER_TABLE_MODIFIER_FLAGS_USE_PIXMAP_TABLE_INDEX,
    SPF_PIXMAP_TABLE_CONFIGURATION_FLAGS_CONSTANT_BITS_PER_PIXEL,
};
use spf::format::{layout_from_data, DeserializeError, SerializeError};

#[test]
fn status_codes_match_c_numbers() {
    assert_eq!(SPFStatus::Success.code(), 0);
    assert_eq!(SPFStatus::ErrUnexpectedEndOfFile.code(), 1);
    assert_eq!(SPFStatus::ErrUnsupportedFontType.code(), 6);
    assert_eq!(SPFStatus::ErrStaticVectorTooLarge.code(), 10);
    assert_eq!(SPFStatus::ErrInvalidPixmapData.code(), 11);
    assert_eq!(SPFStatus::ErrConversionNulError.code(), 20);
    assert_eq!(SPFStatus::ErrConversionUtf8Error.code(), 21);
}

#[test]
fn deserialize_errors_map_to_statuses() {
    assert_eq!(
        SPFStatus::from(DeserializeError::InvalidSignature),
        SPFStatus::ErrInvalidSignature
    );
    assert_eq!(
        SPFStatus::from(DeserializeError::UnsupportedTableIdentifier),
        SPFStatus::ErrUnsupportedTableIdentifier
    );
    let err = layout_from_data(&[1, 2, 3, 4]).unwrap_err();
    assert_eq!(SPFStatus::from(err).code(), 2);
}

#[test]
fn serialize_and_conversion_errors_map_to_statuses() {
    assert_eq!(
        SPFStatus::from(SerializeError::StaticVectorTooLarge),
        SPFStatus::ErrStaticVectorTooLarge
    );
    assert_eq!(
        SPFStatus::from(ConversionError::NulError(3)),
        SPFStatus::ErrConversionNulError
    );
    assert_eq!(
        SPFStatus::from(ConversionError::UnsupportedColorType).code(),
        4
    );
}

#[test]
fn named_constants_have_their_numbers() {
    assert_eq!(SPFVersion::FV0.code(), 0);
    assert_eq!(SPFColorType::Absolute.code(), 1);
    assert_eq!(SPFFontType::Italic.code(), 2);
    assert_eq!(SPF_CHARACTER_TABLE_MODIFIER_FLAGS_USE_PIXMAP_TABLE_INDEX, 4);
    assert_eq!(SPF_PIXMAP_TABLE_CONFIGURATION_FLAGS_CONSTANT_BITS_PER_PIXEL, 4);
}

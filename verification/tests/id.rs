use oro_kernel::id::{try_to_buffer, AnyId, Id, IdType, ParseIdError};

const MODULE: u8 = 1;
const PORT_TYPE: u8 = 2;

#[test]
fn tag_conversions_are_exact() {
    assert_eq!(IdType::try_from_u8(1), Some(IdType::Module));
    assert_eq!(IdType::try_from_u8(2), Some(IdType::PortType));
    assert_eq!(IdType::try_from_u8(0), None);
    assert_eq!(IdType::try_from_u8(3), None);
    assert_eq!(IdType::try_from_char('M'), Some(IdType::Module));
    assert_eq!(IdType::try_from_char('P'), Some(IdType::PortType));
    assert_eq!(IdType::try_from_char('m'), None);
    assert_eq!(IdType::try_from_bchar(b'M'), Some(IdType::Module));
    assert_eq!(IdType::try_from_bchar(b'P'), Some(IdType::PortType));
    assert_eq!(IdType::try_from_bchar(1), None);
    assert_eq!(IdType::Module.id_u8(), 1);
    assert_eq!(IdType::PortType.id_u8(), 2);
    assert_eq!(IdType::Module.id_char(), 'M');
    assert_eq!(IdType::PortType.id_char(), 'P');
    assert_eq!(IdType::Module.id_bchar(), b'M');
    assert_eq!(IdType::PortType.id_bchar(), b'P');
}

#[test]
fn zero_module_id_formats_as_all_zero_digits() {
    let id = Id::<MODULE>::new([0; 16]);
    assert_eq!(id.as_bytes()[0], 0x20);
    let mut buf = [0u8; 27];
    id.to_str(&mut buf);
    assert_eq!(&buf, b"M-0000000000000000000000000");
}

#[test]
fn first_digit_lands_in_the_first_byte() {
    // Digit value 30 ('Z') sits right below the 3 tag bits: the first byte
    // reads tag << 5 | 30.
    let parsed = try_to_buffer("M-Z000000000000000000000000").unwrap();
    assert_eq!(parsed[0], 0x3E);
    assert_eq!(&parsed[1..], &[0u8; 15]);
    // Digit value 1 in the same place.
    let parsed = try_to_buffer("M-1000000000000000000000000").unwrap();
    assert_eq!(parsed[0], 0x21);
}

#[test]
fn last_digit_lands_in_the_last_byte() {
    let parsed = try_to_buffer("P-000000000000000000000000Z").unwrap();
    assert_eq!(parsed[0], 0x40);
    assert_eq!(parsed[15], 30);
}

#[test]
fn parsing_is_case_insensitive_and_tolerant() {
    let canonical = try_to_buffer("M-0158ACDEFGHJKMNPQRTUVWXYZ").unwrap();
    // O reads as 0, I as 1, s as 5, b as 8, and lower case folds up.
    let tolerant = try_to_buffer("M-OIsbacdefghjkmnpqrtuvwxyZ").unwrap();
    assert_eq!(tolerant, canonical);
    let underscore = try_to_buffer("M-_000000000000000000000000").unwrap();
    let hyphen = try_to_buffer("M--000000000000000000000000").unwrap();
    assert_eq!(underscore, hyphen);
}

#[test]
fn malformed_strings_are_rejected() {
    assert_eq!(
        try_to_buffer("M-00"),
        Err(ParseIdError::Malformed),
        "wrong length"
    );
    assert_eq!(
        try_to_buffer("M_0000000000000000000000000"),
        Err(ParseIdError::Malformed),
        "missing hyphen"
    );
    assert_eq!(
        try_to_buffer("X-0000000000000000000000000"),
        Err(ParseIdError::Malformed),
        "unknown tag letter"
    );
    assert_eq!(
        try_to_buffer("M-00000000000000000000000!0"),
        Err(ParseIdError::Malformed),
        "character outside the alphabet"
    );
}

#[test]
fn typed_parse_checks_the_tag() {
    assert!(Id::<MODULE>::from_str("M-0000000000000000000000000").is_ok());
    assert_eq!(
        Id::<MODULE>::from_str("P-0000000000000000000000000"),
        Err(ParseIdError::InvalidType)
    );
    assert_eq!(
        Id::<PORT_TYPE>::from_str("M-0000000000000000000000000"),
        Err(ParseIdError::InvalidType)
    );
    assert_eq!(
        Id::<MODULE>::from_str("M-bad"),
        Err(ParseIdError::Malformed)
    );
}

#[test]
fn round_trip_through_text_is_identity() {
    let data: [u8; 16] = [
        0x2A, 0x01, 0xFF, 0x80, 0x55, 0xAA, 0x00, 0x13, 0x37, 0xC0, 0xDE, 0x99, 0x42, 0x07, 0x6B,
        0x1F,
    ];
    let id = Id::<MODULE>::new(data);
    let mut buf = [0u8; 27];
    id.to_str(&mut buf);
    let text = std::str::from_utf8(&buf).unwrap();
    let reparsed = Id::<MODULE>::from_str(text).unwrap();
    assert_eq!(reparsed, id);
}

#[test]
fn round_trip_of_text_is_identity() {
    let text = "P-0158ACDEFGHJKMNPQRTUVWXYZ";
    let any = AnyId::from_str(text).unwrap();
    let mut buf = [0u8; 27];
    assert!(any.try_to_str(&mut buf));
    assert_eq!(std::str::from_utf8(&buf).unwrap(), text);
}

#[test]
fn typed_constructors_check_or_stamp_the_tag() {
    let mut data = [0u8; 16];
    data[0] = 0xFF;
    let id = Id::<MODULE>::new(data);
    assert_eq!(id.as_bytes()[0], 0x20 | 0x1F);
    assert!(Id::<MODULE>::try_new(data).is_none());
    data[0] = 0x20;
    let id2 = Id::<MODULE>::try_new(data).unwrap();
    assert_eq!(id2.as_bytes(), &data);
    let id3 = Id::<MODULE>::new_unchecked(data);
    assert_eq!(id3.as_bytes(), &data);
}

#[test]
fn any_id_reports_its_type() {
    let mut data = [0u8; 16];
    data[0] = 0x20;
    assert_eq!(AnyId::new(data).ty(), Some(IdType::Module));
    data[0] = 0x40;
    assert_eq!(AnyId::new(data).ty(), Some(IdType::PortType));
    data[0] = 0x60;
    assert_eq!(AnyId::new(data).ty(), None);
    let mut buf = [9u8; 27];
    assert!(!AnyId::new(data).try_to_str(&mut buf));
    assert_eq!(buf, [9u8; 27]);
}

#[test]
fn typed_and_untyped_ids_convert_both_ways() {
    let mut data = [0u8; 16];
    data[0] = 0x40;
    data[5] = 0xAB;
    let any = AnyId::new(data);
    let typed = Id::<PORT_TYPE>::try_from(any).unwrap();
    assert_eq!(typed.as_bytes(), &data);
    let back = AnyId::from(typed);
    assert_eq!(back.as_bytes(), &data);
    let any2 = AnyId::new(data);
    assert!(Id::<MODULE>::try_from(any2).is_err());
}

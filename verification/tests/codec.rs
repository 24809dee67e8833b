use verter::PageHeader;

#[test]
fn encode_exact_words() {
    assert_eq!(PageHeader::NextPage(152).to_u64(), 152);
    assert_eq!(PageHeader::FinalPage(5).to_u64(), 0x4000_0000_0000_0005);
    assert_eq!(PageHeader::DeletedPage(0).to_u64(), 0x8000_0000_0000_0000);
    assert_eq!(PageHeader::DeletedPage(280).to_u64(), 0x8000_0000_0000_0118);
}

#[test]
fn decode_exact_words() {
    assert_eq!(PageHeader::from_u64(0), PageHeader::NextPage(0));
    assert_eq!(PageHeader::from_u64(152), PageHeader::NextPage(152));
    assert_eq!(PageHeader::from_u64(0x4000_0000_0000_0078), PageHeader::FinalPage(120));
    assert_eq!(PageHeader::from_u64(0x8000_0000_0000_0018), PageHeader::DeletedPage(24));
}

#[test]
fn reserved_tag_decodes_as_deleted() {
    assert_eq!(PageHeader::from_u64(0xC000_0000_0000_0007), PageHeader::DeletedPage(7));
    assert_eq!(PageHeader::from_u64(u64::MAX), PageHeader::DeletedPage(0x3FFF_FFFF_FFFF_FFFF));
}

#[test]
fn encoding_never_gives_the_reserved_tag() {
    for value in [0u64, 1, 0x3FFF_FFFF_FFFF_FFFF, 0x4000_0000_0000_0000, u64::MAX] {
        for header in [
            PageHeader::NextPage(value),
            PageHeader::FinalPage(value),
            PageHeader::DeletedPage(value),
        ] {
            assert_ne!(header.to_u64() >> 62, 3);
        }
    }
}

#[test]
fn value_is_cut_to_62_bits() {
    assert_eq!(PageHeader::NextPage(u64::MAX).to_u64(), 0x3FFF_FFFF_FFFF_FFFF);
    assert_eq!(PageHeader::FinalPage(0x4000_0000_0000_0001).to_u64(), 0x4000_0000_0000_0001);
}

#[test]
fn header_round_trip() {
    for value in [0u64, 1, 24, 152, 0x3FFF_FFFF_FFFF_FFFF] {
        for header in [
            PageHeader::NextPage(value),
            PageHeader::FinalPage(value),
            PageHeader::DeletedPage(value),
        ] {
            assert_eq!(PageHeader::from_u64(header.to_u64()), header);
        }
    }
}

use pallet_uniques::{metadata_sections, MetadataSections, PalletPart};

#[test]
fn pallet_without_its_pallet_part_is_left_out() {
    assert_eq!(metadata_sections(&vec![PalletPart::Call, PalletPart::Storage]), None);
    assert_eq!(metadata_sections(&vec![]), None);
}

#[test]
fn sections_follow_the_declared_parts() {
    assert_eq!(
        metadata_sections(&vec![PalletPart::Pallet, PalletPart::Call, PalletPart::Event]),
        Some(MetadataSections { storage: false, calls: true, event: true })
    );
    assert_eq!(
        metadata_sections(&vec![PalletPart::Storage, PalletPart::Config, PalletPart::Pallet]),
        Some(MetadataSections { storage: true, calls: false, event: false })
    );
    assert_eq!(
        metadata_sections(&vec![PalletPart::Pallet]),
        Some(MetadataSections { storage: false, calls: false, event: false })
    );
}

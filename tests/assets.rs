use lottery_pool::assets::{
    AssetIdLocationConvert, AssetIdLocationMap, AssetIdType, AssetMetadata, AssetRegistryMetadata,
    AssetStorageMetadata, LocationType,
};

fn metadata() -> AssetStorageMetadata {
    AssetStorageMetadata { name: b"Kusama".to_vec(), symbol: b"KSM".to_vec(), decimals: 12, is_frozen: false }
}

#[test]
fn registry_metadata_exposes_its_fields() {
    let m = AssetRegistryMetadata { metadata: metadata(), evm_address: None, min_balance: 7u128, is_sufficient: true };
    assert_eq!(*m.min_balance(), 7);
    assert!(m.is_sufficient());
    assert_eq!(m.into_storage_metadata(), metadata());
}

struct Registry;

impl AssetIdType for Registry {
    type AssetId = u32;
}

impl LocationType for Registry {
    type Location = u64;
}

impl AssetIdLocationMap for Registry {
    fn location(asset_id: &u32) -> Option<u64> {
        if *asset_id == 8 { Some(2084) } else { None }
    }

    fn asset_id(location: &u64) -> Option<u32> {
        if *location == 2084 { Some(8) } else { None }
    }
}

#[test]
fn asset_id_location_convert_goes_both_ways() {
    assert_eq!(AssetIdLocationConvert::<Registry>::convert_ref(&2084), Ok(8));
    assert_eq!(AssetIdLocationConvert::<Registry>::convert_ref(&2104), Err(()));
    assert_eq!(AssetIdLocationConvert::<Registry>::reverse_ref(&8), Ok(2084));
    assert_eq!(AssetIdLocationConvert::<Registry>::reverse_ref(&9), Err(()));
}

//! Asset registry primitives: asset ids, locations and metadata.
use vstd::prelude::*;

verus! {

/// Asset Id
pub trait AssetIdType {
    /// Asset Id Type
    type AssetId;
}

/// Balance
pub trait BalanceType {
    /// Balance Type
    type Balance;
}

/// Location
pub trait LocationType {
    /// Location Type
    type Location;
}

/// Asset Metadata
pub trait AssetMetadata: BalanceType {
    /// Returns the minimum balance to hold this asset.
    fn min_balance(&self) -> &Self::Balance;

    /// Returns a boolean value indicating whether this asset needs an existential deposit.
    fn is_sufficient(&self) -> bool;
}

/// Maps asset ids to locations and back; implemented by the runtime that registers assets.
pub trait AssetIdLocationMap: AssetIdType + LocationType {
    /// Returns the location of `asset_id`.
    fn location(asset_id: &Self::AssetId) -> Option<Self::Location>;

    /// Returns the asset id located at `location`.
    fn asset_id(location: &Self::Location) -> Option<Self::AssetId>;
}

/// Defines the units per second charged given an asset id.
pub trait UnitsPerSecond: AssetIdType {
    /// Returns the units per second for `asset_id`.
    fn units_per_second(asset_id: &Self::AssetId) -> Option<u128>;
}

/// Asset Storage Metadata
#[derive(Clone, Debug, PartialEq, Eq)]
pub struct AssetStorageMetadata {
    /// Asset Name
    pub name: Vec<u8>,
    /// Asset Symbol
    pub symbol: Vec<u8>,
    /// Number of Decimals
    pub decimals: u8,
    /// Whether or not transfers of the asset are allowed.
    pub is_frozen: bool,
}

/// Asset Registry Metadata
#[derive(Clone, Debug, PartialEq, Eq)]
pub struct AssetRegistryMetadata<B> {
    /// Asset Storage Metadata
    pub metadata: AssetStorageMetadata,
    /// Optional EVM address of the asset, as its twenty bytes.
    pub evm_address: Option<[u8; 20]>,
    /// Minimum Balance
    pub min_balance: B,
    /// Whether a non-zero balance of this asset is deposit of sufficient value to account for the
    /// state bloat associated with its balance storage.
    pub is_sufficient: bool,
}

impl<B> AssetRegistryMetadata<B> {
    /// The storage metadata that this registry metadata carries.
    pub fn into_storage_metadata(self) -> (r: AssetStorageMetadata)
        ensures
            r == self.metadata,
    {
        self.metadata
    }
}

impl<B> BalanceType for AssetRegistryMetadata<B> {
    type Balance = B;
}

impl<B> AssetMetadata for AssetRegistryMetadata<B> {
    fn min_balance(&self) -> &B {
        &self.min_balance
    }

    fn is_sufficient(&self) -> bool {
        self.is_sufficient
    }
}

/// Converts between locations and asset ids through an `AssetIdLocationMap`.
pub struct AssetIdLocationConvert<M> {
    map: std::marker::PhantomData<M>,
}

impl<M: AssetIdLocationMap> AssetIdLocationConvert<M> {
    /// The asset id located at `location`, or `Err(())` where none is.
    pub fn convert_ref(location: &M::Location) -> (r: Result<M::AssetId, ()>) {
        match M::asset_id(location) {
            Some(id) => Ok(id),
            None => Err(()),
        }
    }

    /// The location of `asset_id`, or `Err(())` where it has none.
    pub fn reverse_ref(asset_id: &M::AssetId) -> (r: Result<M::Location, ()>) {
        match M::location(asset_id) {
            Some(location) => Ok(location),
            None => Err(()),
        }
    }
}

} // verus!

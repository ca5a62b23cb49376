//! Stored records rendered for observers. Payloads are decoded by the
//! caller's decoder of the chain's value encoding.
use crate::types::{
    DataMapDeleteFormattedValue, DataMapEventFormattedValue, DataMapEventStoredValue,
    DataMapInsertFormattedValue, DataMapUpdateFormattedValue, DataVarSetEventFormattedValue,
    DataVarStoredValue, FTBurnEventFormattedValue, FTEventFormattedValue, FTEventStoredValue,
    FTMintEventFormattedValue, FTTransferEventFormattedValue, NFTBurnEventFormattedValue,
    NFTEventFormattedValue, NFTEventStoredValue, NFTMintEventFormattedValue,
    NFTTransferEventFormattedValue,
};
use vstd::prelude::*;

verus! {

/// A data map event rendered: key and value decoded, position kept.
pub open spec fn map_event_formatted<F: Fn(&String) -> String>(
    decode: &F,
    stored: DataMapEventStoredValue,
    block_index: u64,
    event_index: u64,
    r: DataMapEventFormattedValue,
) -> bool {
    match (stored, r) {
        (DataMapEventStoredValue::Insert(d), DataMapEventFormattedValue::Insert(f)) => {
            &&& decode.ensures((&d.hex_inserted_key,), f.inserted_key)
            &&& decode.ensures((&d.hex_inserted_value,), f.inserted_value)
            &&& f.block_index == block_index
            &&& f.event_index == event_index
        },
        (DataMapEventStoredValue::Update(d), DataMapEventFormattedValue::Update(f)) => {
            &&& decode.ensures((&d.hex_key,), f.key)
            &&& decode.ensures((&d.hex_updated_value,), f.updated_value)
            &&& f.block_index == block_index
            &&& f.event_index == event_index
        },
        (DataMapEventStoredValue::Delete(d), DataMapEventFormattedValue::Delete(f)) => {
            &&& decode.ensures((&d.hex_deleted_key,), f.deleted_key)
            &&& f.block_index == block_index
            &&& f.event_index == event_index
        },
        _ => false,
    }
}

/// A token event rendered: token id decoded, principals and position kept.
pub open spec fn nft_event_formatted<F: Fn(&String) -> String>(
    decode: &F,
    stored: NFTEventStoredValue,
    block_index: u64,
    event_index: u64,
    r: NFTEventFormattedValue,
) -> bool {
    match (stored, r) {
        (NFTEventStoredValue::Mint(d), NFTEventFormattedValue::Mint(f)) => {
            &&& decode.ensures((&d.hex_asset_identifier,), f.asset_identifier)
            &&& f.recipient@ == d.recipient@
            &&& f.block_index == block_index
            &&& f.event_index == event_index
        },
        (NFTEventStoredValue::Transfer(d), NFTEventFormattedValue::Transfer(f)) => {
            &&& decode.ensures((&d.hex_asset_identifier,), f.asset_identifier)
            &&& f.sender@ == d.sender@
            &&& f.recipient@ == d.recipient@
            &&& f.block_index == block_index
            &&& f.event_index == event_index
        },
        (NFTEventStoredValue::Burn(d), NFTEventFormattedValue::Burn(f)) => {
            &&& decode.ensures((&d.hex_asset_identifier,), f.asset_identifier)
            &&& f.sender@ == d.sender@
            &&& f.block_index == block_index
            &&& f.event_index == event_index
        },
        _ => false,
    }
}

/// A fungible-token event rendered: amounts, principals and position kept.
pub open spec fn ft_event_formatted(
    stored: FTEventStoredValue,
    block_index: u64,
    event_index: u64,
    r: FTEventFormattedValue,
) -> bool {
    match (stored, r) {
        (FTEventStoredValue::Mint(d), FTEventFormattedValue::Mint(f)) => {
            &&& f.amount@ == d.amount@
            &&& f.recipient@ == d.recipient@
            &&& f.block_index == block_index
            &&& f.event_index == event_index
        },
        (FTEventStoredValue::Transfer(d), FTEventFormattedValue::Transfer(f)) => {
            &&& f.amount@ == d.amount@
            &&& f.sender@ == d.sender@
            &&& f.recipient@ == d.recipient@
            &&& f.block_index == block_index
            &&& f.event_index == event_index
        },
        (FTEventStoredValue::Burn(d), FTEventFormattedValue::Burn(f)) => {
            &&& f.amount@ == d.amount@
            &&& f.sender@ == d.sender@
            &&& f.block_index == block_index
            &&& f.event_index == event_index
        },
        _ => false,
    }
}

impl DataVarStoredValue {
    /// The value, decoded.
    pub fn get_formatted_decoded_value<F: Fn(&String) -> String>(&self, decode: &F) -> (r: String)
        requires
            forall|s: &String| #[trigger] decode.requires((s,)),
        ensures
            decode.ensures((&self.hex_value,), r),
    {
        decode(&self.hex_value)
    }

    /// An assignment of the variable as an observer sees it.
    pub fn get_formatted_decoded_event<F: Fn(&String) -> String>(
        &self,
        block_index: u64,
        event_index: u64,
        decode: &F,
    ) -> (r: DataVarSetEventFormattedValue)
        requires
            forall|s: &String| #[trigger] decode.requires((s,)),
        ensures
            decode.ensures((&self.hex_value,), r.value),
            r.block_index == block_index,
            r.event_index == event_index,
    {
        DataVarSetEventFormattedValue { value: decode(&self.hex_value), block_index, event_index }
    }
}

impl DataMapEventStoredValue {
    /// A data map event as an observer sees it: key and value decoded.
    pub fn get_formatted_decoded_event<F: Fn(&String) -> String>(
        &self,
        block_index: u64,
        event_index: u64,
        decode: &F,
    ) -> (r: DataMapEventFormattedValue)
        requires
            forall|s: &String| #[trigger] decode.requires((s,)),
        ensures
            map_event_formatted(decode, *self, block_index, event_index, r),
    {
        match self {
            DataMapEventStoredValue::Insert(data) => {
                let inserted_key = decode(&data.hex_inserted_key);
                let inserted_value = decode(&data.hex_inserted_value);
                DataMapEventFormattedValue::Insert(
                    DataMapInsertFormattedValue { inserted_key, inserted_value, block_index, event_index },
                )
            },
            DataMapEventStoredValue::Update(data) => {
                let key = decode(&data.hex_key);
                let updated_value = decode(&data.hex_updated_value);
                DataMapEventFormattedValue::Update(
                    DataMapUpdateFormattedValue { key, updated_value, block_index, event_index },
                )
            },
            DataMapEventStoredValue::Delete(data) => {
                let deleted_key = decode(&data.hex_deleted_key);
                DataMapEventFormattedValue::Delete(
                    DataMapDeleteFormattedValue { deleted_key, block_index, event_index },
                )
            },
        }
    }
}

impl NFTEventStoredValue {
    /// A token event as an observer sees it: the token id decoded.
    pub fn get_formatted_decoded_event<F: Fn(&String) -> String>(
        &self,
        block_index: u64,
        event_index: u64,
        decode: &F,
    ) -> (r: NFTEventFormattedValue)
        requires
            forall|s: &String| #[trigger] decode.requires((s,)),
        ensures
            nft_event_formatted(decode, *self, block_index, event_index, r),
    {
        match self {
            NFTEventStoredValue::Mint(data) => {
                let asset_identifier = decode(&data.hex_asset_identifier);
                NFTEventFormattedValue::Mint(
                    NFTMintEventFormattedValue {
                        asset_identifier,
                        recipient: data.recipient.clone(),
                        block_index,
                        event_index,
                    },
                )
            },
            NFTEventStoredValue::Transfer(data) => {
                let asset_identifier = decode(&data.hex_asset_identifier);
                NFTEventFormattedValue::Transfer(
                    NFTTransferEventFormattedValue {
                        asset_identifier,
                        recipient: data.recipient.clone(),
                        sender: data.sender.clone(),
                        block_index,
                        event_index,
                    },
                )
            },
            NFTEventStoredValue::Burn(data) => {
                let asset_identifier = decode(&data.hex_asset_identifier);
                NFTEventFormattedValue::Burn(
                    NFTBurnEventFormattedValue {
                        asset_identifier,
                        sender: data.sender.clone(),
                        block_index,
                        event_index,
                    },
                )
            },
        }
    }
}

impl FTEventStoredValue {
    /// A fungible-token event as an observer sees it; amounts and principals
    /// are already text.
    pub fn get_formatted_decoded_event(&self, block_index: u64, event_index: u64) -> (r:
        FTEventFormattedValue)
        ensures
            ft_event_formatted(*self, block_index, event_index, r),
    {
        match self {
            FTEventStoredValue::Mint(data) => FTEventFormattedValue::Mint(
                FTMintEventFormattedValue {
                    amount: data.amount.clone(),
                    recipient: data.recipient.clone(),
                    block_index,
                    event_index,
                },
            ),
            FTEventStoredValue::Transfer(data) => FTEventFormattedValue::Transfer(
                FTTransferEventFormattedValue {
                    amount: data.amount.clone(),
                    recipient: data.recipient.clone(),
                    sender: data.sender.clone(),
                    block_index,
                    event_index,
                },
            ),
            FTEventStoredValue::Burn(data) => FTEventFormattedValue::Burn(
                FTBurnEventFormattedValue {
                    amount: data.amount.clone(),
                    sender: data.sender.clone(),
                    block_index,
                    event_index,
                },
            ),
        }
    }
}

} // verus!

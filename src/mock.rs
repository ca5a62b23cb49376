//! A sample contract-call transaction that exercises every kind of state
//! event: variables, maps, fungible and non-fungible tokens.
use crate::processor::{mutates, recorded};
use crate::types::{
    DataMapDeleteEventData, DataMapInsertEventData, DataMapUpdateEventData, DataVarSetEventData,
    FTBurnEventData, FTMintEventData, FTTransferEventData, NFTBurnEventData, NFTMintEventData,
    NFTTransferEventData, StacksTransactionData, StacksTransactionEvent, StacksTransactionKind,
    StacksTransactionReceipt, TransactionIdentifier,
};
use vstd::prelude::*;
use vstd::string::StringExecFns;

verus! {

fn text(s: &str) -> (r: String)
    ensures
        r@ == s@,
{
    String::from_str(s)
}

/// The asset class `<contract>::<name>`.
fn asset(contract: &str, name: &str) -> (r: String)
    ensures
        r@ == contract@ + seq![':', ':'] + name@,
{
    let mut r = String::from_str(contract);
    r.append("::");
    r.append(name);
    proof {
        reveal_strlit("::");
    }
    r
}

proof fn lemma_asset_is_owned(contract: Seq<char>, name: Seq<char>)
    ensures
        crate::processor::owns_asset(contract, contract + seq![':', ':'] + name),
{
    let a = contract + seq![':', ':'] + name;
    assert(a.subrange(0, contract.len() as int) =~= contract);
}

fn var_set(contract: &str, var: &str, hex: &str) -> (r: StacksTransactionEvent)
    ensures
        recorded(contract@, r).len() > 0,
{
    StacksTransactionEvent::DataVarSetEvent(
        DataVarSetEventData { contract_identifier: text(contract), var: text(var), hex_new_value: text(hex) },
    )
}

fn map_insert(contract: &str, map: &str, key: &str, value: &str) -> (r: StacksTransactionEvent)
    ensures
        recorded(contract@, r).len() > 0,
{
    StacksTransactionEvent::DataMapInsertEvent(
        DataMapInsertEventData {
            contract_identifier: text(contract),
            map: text(map),
            hex_inserted_key: text(key),
            hex_inserted_value: text(value),
        },
    )
}

fn map_update(contract: &str, map: &str, key: &str, value: &str) -> (r: StacksTransactionEvent)
    ensures
        recorded(contract@, r).len() > 0,
{
    StacksTransactionEvent::DataMapUpdateEvent(
        DataMapUpdateEventData {
            contract_identifier: text(contract),
            map: text(map),
            hex_key: text(key),
            hex_new_value: text(value),
        },
    )
}

fn map_delete(contract: &str, map: &str, key: &str) -> (r: StacksTransactionEvent)
    ensures
        recorded(contract@, r).len() > 0,
{
    StacksTransactionEvent::DataMapDeleteEvent(
        DataMapDeleteEventData { contract_identifier: text(contract), map: text(map), hex_deleted_key: text(key) },
    )
}

fn ft_mint(contract: &str, name: &str, recipient: &str, amount: &str) -> (r: StacksTransactionEvent)
    ensures
        recorded(contract@, r).len() > 0,
{
    proof {
        lemma_asset_is_owned(contract@, name@);
    }
    StacksTransactionEvent::FTMintEvent(
        FTMintEventData {
            asset_class_identifier: asset(contract, name),
            recipient: text(recipient),
            amount: text(amount),
        },
    )
}

fn ft_burn(contract: &str, name: &str, sender: &str, amount: &str) -> (r: StacksTransactionEvent)
    ensures
        recorded(contract@, r).len() > 0,
{
    proof {
        lemma_asset_is_owned(contract@, name@);
    }
    StacksTransactionEvent::FTBurnEvent(
        FTBurnEventData { asset_class_identifier: asset(contract, name), sender: text(sender), amount: text(amount) },
    )
}

fn ft_transfer(contract: &str, name: &str, sender: &str, recipient: &str, amount: &str) -> (r:
    StacksTransactionEvent)
    ensures
        recorded(contract@, r).len() > 0,
{
    proof {
        lemma_asset_is_owned(contract@, name@);
    }
    StacksTransactionEvent::FTTransferEvent(
        FTTransferEventData {
            asset_class_identifier: asset(contract, name),
            sender: text(sender),
            recipient: text(recipient),
            amount: text(amount),
        },
    )
}

fn nft_mint(contract: &str, name: &str, recipient: &str, id: &str) -> (r: StacksTransactionEvent)
    ensures
        recorded(contract@, r).len() > 0,
{
    proof {
        lemma_asset_is_owned(contract@, name@);
    }
    StacksTransactionEvent::NFTMintEvent(
        NFTMintEventData {
            asset_class_identifier: asset(contract, name),
            recipient: text(recipient),
            hex_asset_identifier: text(id),
        },
    )
}

fn nft_burn(contract: &str, name: &str, sender: &str, id: &str) -> (r: StacksTransactionEvent)
    ensures
        recorded(contract@, r).len() > 0,
{
    proof {
        lemma_asset_is_owned(contract@, name@);
    }
    StacksTransactionEvent::NFTBurnEvent(
        NFTBurnEventData {
            asset_class_identifier: asset(contract, name),
            sender: text(sender),
            hex_asset_identifier: text(id),
        },
    )
}

fn nft_transfer(contract: &str, name: &str, sender: &str, recipient: &str, id: &str) -> (r:
    StacksTransactionEvent)
    ensures
        recorded(contract@, r).len() > 0,
{
    proof {
        lemma_asset_is_owned(contract@, name@);
    }
    StacksTransactionEvent::NFTTransferEvent(
        NFTTransferEventData {
            asset_class_identifier: asset(contract, name),
            sender: text(sender),
            recipient: text(recipient),
            hex_asset_identifier: text(id),
        },
    )
}

/// A successful contract call that touches `contract` only and whose
/// twenty-four events all concern `contract`.
pub fn mock_transaction(contract: &str) -> (r: StacksTransactionData)
    ensures
        r.success,
        r.receipt.mutated_contracts_radius.len() == 1,
        r.receipt.mutated_contracts_radius@[0]@ == contract@,
        mutates(contract@, r),
        r.receipt.events.len() == 24,
        forall|i: int| 0 <= i < r.receipt.events.len() ==> recorded(contract@, #[trigger] r.receipt.events@[i]).len() > 0,
{
    let mut events: Vec<StacksTransactionEvent> = Vec::new();
    let e = var_set(contract, "counter", "0100000000000000000000000000000065");
    events.push(e);
    let e = map_insert(contract, "simple-kv", "0100000000000000000000000000000001", "01000000000000000000000000000f4240");
    events.push(e);
    let e = map_insert(contract, "simple-kv", "0100000000000000000000000000000003", "01000000000000000000000000000f4240");
    events.push(e);
    let e = map_insert(contract, "simple-kv", "0100000000000000000000000000000002", "01000000000000000000000000001e8480");
    events.push(e);
    let e = map_update(contract, "simple-kv", "0100000000000000000000000000000002", "01000000000000000000000000002e8480");
    events.push(e);
    let e = map_delete(contract, "simple-kv", "0100000000000000000000000000000002");
    events.push(e);
    let e = map_insert(contract, "simple-kv", "0100000000000000000000000000000003", "01000000000000000000000000001e8480");
    events.push(e);
    let e = map_insert(contract, "simple-kv", "0100000000000000000000000000000004", "01000000000000000000000000001e8480");
    events.push(e);
    let e = map_insert(contract, "multi-kv", "0c00000002046b657931010000000000000000000000000000000b046b657932010000000000000000000000000000000c", "0c000000030676616c75653101000000000000000000000000000003e90676616c75653201000000000000000000000000000003ea0676616c75653301000000000000000000000000000003eb");
    events.push(e);
    let e = map_insert(contract, "multi-kv", "0c00000002046b6579310100000000000000000000000000000015046b6579320100000000000000000000000000000016", "0c000000030676616c75653101000000000000000000000000000007d10676616c75653201000000000000000000000000000007d20676616c75653301000000000000000000000000000007d3");
    events.push(e);
    let e = map_insert(contract, "multi-kv", "0c00000002046b657931010000000000000000000000000000001f046b6579320100000000000000000000000000000020", "0c000000030676616c7565310100000000000000000000000000000bb90676616c7565320100000000000000000000000000000bba0676616c7565330100000000000000000000000000000bbb");
    events.push(e);
    let e = map_insert(contract, "multi-kv", "0c00000002046b6579310100000000000000000000000000000029046b657932010000000000000000000000000000002a", "0c000000030676616c7565310100000000000000000000000000000fa10676616c7565320100000000000000000000000000000fa20676616c7565330100000000000000000000000000000fa3");
    events.push(e);
    let e = ft_mint(contract, "token-name", "ST1PQHQKV0RJXZFY1DGX8MNSNYVE3VGZJSRTPGZGM", "15000");
    events.push(e);
    let e = ft_mint(contract, "token-name", "SM2PQHQKV0RJXZFY1DGX8MNSNYVE3VGZJSRTPGZGM", "40000");
    events.push(e);
    let e = ft_transfer(contract, "token-name", "ST1PQHQKV0RJXZFY1DGX8MNSNYVE3VGZJSRTPGZGM", "ST1PQHQKV0RJXZFY1DGX8MNSNYVE3VGZJSRTP0000", "4000");
    events.push(e);
    let e = ft_burn(contract, "token-name", "ST1PQHQKV0RJXZFY1DGX8MNSNYVE3VGZJSRTPGZGM", "1");
    events.push(e);
    let e = nft_mint(contract, "nft-name", "ST1PQHQKV0RJXZFY1DGX8MNSNYVE3VGZJSRTPGZGM", "01000000000000000000000000000061a8");
    events.push(e);
    let e = nft_mint(contract, "nft-name", "ST2PQHQKV0RJXZFY1DGX8MNSNYVE3VGZJSRTPGZGN", "01000000000000000000000000000061a9");
    events.push(e);
    let e = nft_mint(contract, "nft-name", "SM2PQHQKV0RJXZFY1DGX8MNSNYVE3VGZJSRTPGZGM", "0100000000000000000000000000013880");
    events.push(e);
    let e = nft_transfer(contract, "nft-name", "ST1PQHQKV0RJXZFY1DGX8MNSNYVE3VGZJSRTPGZGM", "ST1PQHQKV0RJXZFY1DGX8MNSNYVE3VGZJSRTP0000", "0100000000000000000000000000001f40");
    events.push(e);
    let e = nft_burn(contract, "nft-name", "ST1PQHQKV0RJXZFY1DGX8MNSNYVE3VGZJSRTPGZGM", "01000000000000000000000000000061a9");
    events.push(e);
    let e = nft_mint(contract, "domain", "ST1PQHQKV0RJXZFY1DGX8MNSNYVE3VGZJSRTPGZGM", "0c000000020269640100000000000000000000000000000001046e616d650d0000000a6c75646f7669632e6964");
    events.push(e);
    let e = nft_mint(contract, "domain", "SM2PQHQKV0RJXZFY1DGX8MNSNYVE3VGZJSRTPGZGM", "0c000000020269640100000000000000000000000000000002046e616d650d0000000b6c75646f7669632e627463");
    events.push(e);
    let e = nft_transfer(contract, "domain", "ST1PQHQKV0RJXZFY1DGX8MNSNYVE3VGZJSRTPGZGM", "ST1PQHQKV0RJXZFY1DGX8MNSNYVE3VGZJSRTP0000", "0c000000020269640100000000000000000000000000000002046e616d650d0000000b6c75646f7669632e627463");
    events.push(e);
    assert(forall|i: int| 0 <= i < events.len() ==> recorded(contract@, #[trigger] events@[i]).len() > 0);
    let mut radius: Vec<String> = Vec::new();
    radius.push(text(contract));
    let r = StacksTransactionData {
        transaction_identifier: TransactionIdentifier { hash: text("0") },
        success: true,
        sender: text("ST1PQHQKV0RJXZFY1DGX8MNSNYVE3VGZJSRTPGZGM"),
        fee: 1,
        kind: StacksTransactionKind::ContractCall,
        receipt: StacksTransactionReceipt {
            mutated_contracts_radius: radius,
            mutated_assets_radius: Vec::new(),
            events,
        },
    };
    assert(r.receipt.mutated_contracts_radius@[0]@ == contract@);
    r
}

} // verus!

//! One contract's processor: it filters the events of transaction batches,
//! keeps the event log and the materialized view, and rolls them back.
use crate::codec::parse_amount;
use crate::ledger::{burned, ft_party, lemma_supply_conserved, minted, total_balance, replay, step, empty_ledger, balance_of, credit, debit, release, assign, lemma_replay_prefix_ok, lemma_replay_split, FieldEvent, LedgerView, ProcessorError};
use crate::block_store::ChainArchive;
use crate::keys::{bytes_lt, event_suffix, lemma_event_keys_ordered};
use crate::table::Table;
use crate::types::{
    BlockIdentifier, StacksBlockData, DataMapDeleteEventValue, DataMapEventStoredValue, DataMapInsertEventValue,
    DataMapUpdateEventValue, DataVarSetEventValue, FTBurnEventValue, FTEventStoredValue,
    FTMintEventValue, FTTransferEventValue, NFTBurnEventValue, NFTEventStoredValue,
    NFTMintEventValue, NFTTransferEventValue, SmartContractEventData, StacksTransactionData,
    StacksTransactionEvent, TransactionIdentifier,
};
use vstd::prelude::*;
use vstd::string::StrSliceExecFns;

verus! {

/// An event of the log, with what the store keeps of it.
#[allow(inconsistent_fields)]
pub enum RecordedEvent {
    DataVar { var: String, value: DataVarSetEventValue },
    DataMap { map: String, value: DataMapEventStoredValue },
    FungibleToken { asset_class_identifier: String, value: FTEventStoredValue },
    NonFungibleToken { asset_class_identifier: String, value: NFTEventStoredValue },
}

impl RecordedEvent {
    pub open spec fn field_event(&self) -> FieldEvent {
        match self {
            RecordedEvent::DataVar { var, value } => FieldEvent::VarSet { var: var@, value: value.hex_value@ },
            RecordedEvent::DataMap { map, value } => match value {
                DataMapEventStoredValue::Insert(v) => FieldEvent::MapInsert {
                    map: map@,
                    key: v.hex_inserted_key@,
                    value: v.hex_inserted_value@,
                },
                DataMapEventStoredValue::Update(v) => FieldEvent::MapUpdate {
                    map: map@,
                    key: v.hex_key@,
                    value: v.hex_updated_value@,
                },
                DataMapEventStoredValue::Delete(v) => FieldEvent::MapDelete {
                    map: map@,
                    key: v.hex_deleted_key@,
                },
            },
            RecordedEvent::FungibleToken { asset_class_identifier, value } => match value {
                FTEventStoredValue::Mint(v) => FieldEvent::FtMint {
                    asset: asset_class_identifier@,
                    recipient: v.recipient@,
                    amount: v.amount@,
                },
                FTEventStoredValue::Burn(v) => FieldEvent::FtBurn {
                    asset: asset_class_identifier@,
                    sender: v.sender@,
                    amount: v.amount@,
                },
                FTEventStoredValue::Transfer(v) => FieldEvent::FtTransfer {
                    asset: asset_class_identifier@,
                    sender: v.sender@,
                    recipient: v.recipient@,
                    amount: v.amount@,
                },
            },
            RecordedEvent::NonFungibleToken { asset_class_identifier, value } => match value {
                NFTEventStoredValue::Mint(v) => FieldEvent::NftMint {
                    asset: asset_class_identifier@,
                    id: v.hex_asset_identifier@,
                    recipient: v.recipient@,
                },
                NFTEventStoredValue::Burn(v) => FieldEvent::NftBurn {
                    asset: asset_class_identifier@,
                    id: v.hex_asset_identifier@,
                    sender: v.sender@,
                },
                NFTEventStoredValue::Transfer(v) => FieldEvent::NftTransfer {
                    asset: asset_class_identifier@,
                    id: v.hex_asset_identifier@,
                    sender: v.sender@,
                    recipient: v.recipient@,
                },
            },
        }
    }

    pub fn duplicate(&self) -> (r: Self)
        ensures
            r.field_event() == self.field_event(),
    {
        match self {
            RecordedEvent::DataVar { var, value } => RecordedEvent::DataVar {
                var: var.clone(),
                value: DataVarSetEventValue { hex_value: value.hex_value.clone() },
            },
            RecordedEvent::DataMap { map, value } => RecordedEvent::DataMap {
                map: map.clone(),
                value: match value {
                    DataMapEventStoredValue::Insert(v) => DataMapEventStoredValue::Insert(
                        DataMapInsertEventValue {
                            hex_inserted_key: v.hex_inserted_key.clone(),
                            hex_inserted_value: v.hex_inserted_value.clone(),
                        },
                    ),
                    DataMapEventStoredValue::Update(v) => DataMapEventStoredValue::Update(
                        DataMapUpdateEventValue {
                            hex_key: v.hex_key.clone(),
                            hex_updated_value: v.hex_updated_value.clone(),
                        },
                    ),
                    DataMapEventStoredValue::Delete(v) => DataMapEventStoredValue::Delete(
                        DataMapDeleteEventValue { hex_deleted_key: v.hex_deleted_key.clone() },
                    ),
                },
            },
            RecordedEvent::FungibleToken { asset_class_identifier, value } => RecordedEvent::FungibleToken {
                asset_class_identifier: asset_class_identifier.clone(),
                value: match value {
                    FTEventStoredValue::Mint(v) => FTEventStoredValue::Mint(
                        FTMintEventValue { recipient: v.recipient.clone(), amount: v.amount.clone() },
                    ),
                    FTEventStoredValue::Burn(v) => FTEventStoredValue::Burn(
                        FTBurnEventValue { sender: v.sender.clone(), amount: v.amount.clone() },
                    ),
                    FTEventStoredValue::Transfer(v) => FTEventStoredValue::Transfer(
                        FTTransferEventValue {
                            sender: v.sender.clone(),
                            recipient: v.recipient.clone(),
                            amount: v.amount.clone(),
                        },
                    ),
                },
            },
            RecordedEvent::NonFungibleToken { asset_class_identifier, value } => RecordedEvent::NonFungibleToken {
                asset_class_identifier: asset_class_identifier.clone(),
                value: match value {
                    NFTEventStoredValue::Mint(v) => NFTEventStoredValue::Mint(
                        NFTMintEventValue {
                            hex_asset_identifier: v.hex_asset_identifier.clone(),
                            recipient: v.recipient.clone(),
                        },
                    ),
                    NFTEventStoredValue::Burn(v) => NFTEventStoredValue::Burn(
                        NFTBurnEventValue {
                            hex_asset_identifier: v.hex_asset_identifier.clone(),
                            sender: v.sender.clone(),
                        },
                    ),
                    NFTEventStoredValue::Transfer(v) => NFTEventStoredValue::Transfer(
                        NFTTransferEventValue {
                            hex_asset_identifier: v.hex_asset_identifier.clone(),
                            sender: v.sender.clone(),
                            recipient: v.recipient.clone(),
                        },
                    ),
                },
            },
        }
    }
}

/// One entry of a contract's event log.
pub struct EventRecord {
    pub block_index: u64,
    pub event_index: u64,
    pub event: RecordedEvent,
}

/// `a` comes strictly before `b` in (block index, event index) order.
pub open spec fn precedes(a: EventRecord, b: EventRecord) -> bool {
    a.block_index < b.block_index || (a.block_index == b.block_index && a.event_index
        < b.event_index)
}

/// Strictly increasing by (block index, event index): no two entries share a position.
pub open spec fn log_sorted(log: Seq<EventRecord>) -> bool {
    forall|i: int, j: int| 0 <= i < j < log.len() ==> precedes(#[trigger] log[i], #[trigger] log[j])
}

pub open spec fn log_events(log: Seq<EventRecord>) -> Seq<FieldEvent> {
    log.map_values(|r: EventRecord| r.event.field_event())
}

/// The asset class belongs to the contract: it reads `<contract>::<name>`.
pub open spec fn owns_asset(contract: Seq<char>, asset: Seq<char>) -> bool {
    &&& asset.len() >= contract.len() + 2
    &&& asset.subrange(0, contract.len() as int) == contract
    &&& asset[contract.len() as int] == ':'
    &&& asset[contract.len() + 1int] == ':'
}

/// What the log records of an event of a receipt, for the given contract:
/// one entry, or for a transfer two, its sending side then its receiving
/// side; nothing for events of other contracts and for native-token events.
pub open spec fn recorded(contract: Seq<char>, e: StacksTransactionEvent) -> Seq<FieldEvent> {
    match e {
        StacksTransactionEvent::DataVarSetEvent(d) => if d.contract_identifier@ == contract {
            seq![FieldEvent::VarSet { var: d.var@, value: d.hex_new_value@ }]
        } else {
            Seq::empty()
        },
        StacksTransactionEvent::DataMapInsertEvent(d) => if d.contract_identifier@ == contract {
            seq![FieldEvent::MapInsert {
                    map: d.map@,
                    key: d.hex_inserted_key@,
                    value: d.hex_inserted_value@,
                }]
        } else {
            Seq::empty()
        },
        StacksTransactionEvent::DataMapUpdateEvent(d) => if d.contract_identifier@ == contract {
            seq![FieldEvent::MapUpdate { map: d.map@, key: d.hex_key@, value: d.hex_new_value@ }]
        } else {
            Seq::empty()
        },
        StacksTransactionEvent::DataMapDeleteEvent(d) => if d.contract_identifier@ == contract {
            seq![FieldEvent::MapDelete { map: d.map@, key: d.hex_deleted_key@ }]
        } else {
            Seq::empty()
        },
        StacksTransactionEvent::FTMintEvent(d) => if owns_asset(contract, d.asset_class_identifier@) {
            seq![FieldEvent::FtMint {
                    asset: d.asset_class_identifier@,
                    recipient: d.recipient@,
                    amount: d.amount@,
                }]
        } else {
            Seq::empty()
        },
        StacksTransactionEvent::FTBurnEvent(d) => if owns_asset(contract, d.asset_class_identifier@) {
            seq![FieldEvent::FtBurn {
                    asset: d.asset_class_identifier@,
                    sender: d.sender@,
                    amount: d.amount@,
                }]
        } else {
            Seq::empty()
        },
        StacksTransactionEvent::FTTransferEvent(d) => if owns_asset(
            contract,
            d.asset_class_identifier@,
        ) {
            seq![
                FieldEvent::FtBurn { asset: d.asset_class_identifier@, sender: d.sender@, amount: d.amount@ },
                FieldEvent::FtMint {
                    asset: d.asset_class_identifier@,
                    recipient: d.recipient@,
                    amount: d.amount@,
                },
            ]
        } else {
            Seq::empty()
        },
        StacksTransactionEvent::NFTMintEvent(d) => if owns_asset(contract, d.asset_class_identifier@) {
            seq![FieldEvent::NftMint {
                    asset: d.asset_class_identifier@,
                    id: d.hex_asset_identifier@,
                    recipient: d.recipient@,
                }]
        } else {
            Seq::empty()
        },
        StacksTransactionEvent::NFTBurnEvent(d) => if owns_asset(contract, d.asset_class_identifier@) {
            seq![FieldEvent::NftBurn {
                    asset: d.asset_class_identifier@,
                    id: d.hex_asset_identifier@,
                    sender: d.sender@,
                }]
        } else {
            Seq::empty()
        },
        StacksTransactionEvent::NFTTransferEvent(d) => if owns_asset(
            contract,
            d.asset_class_identifier@,
        ) {
            seq![
                FieldEvent::NftBurn {
                    asset: d.asset_class_identifier@,
                    id: d.hex_asset_identifier@,
                    sender: d.sender@,
                },
                FieldEvent::NftMint {
                    asset: d.asset_class_identifier@,
                    id: d.hex_asset_identifier@,
                    recipient: d.recipient@,
                },
            ]
        } else {
            Seq::empty()
        },
        _ => Seq::empty(),
    }
}

/// A notification for observers: (transaction hash, topic, hex value).
pub open spec fn notification(contract: Seq<char>, tx_hash: Seq<char>, e: StacksTransactionEvent) -> Option<
    (Seq<char>, Seq<char>, Seq<char>),
> {
    match e {
        StacksTransactionEvent::SmartContractEvent(d) => if d.contract_identifier@ == contract {
            Some((tx_hash, d.topic@, d.hex_value@))
        } else {
            None
        },
        _ => None,
    }
}

pub open spec fn option_seq<T>(o: Option<T>) -> Seq<T> {
    match o {
        Some(x) => seq![x],
        None => Seq::empty(),
    }
}

/// The recorded events of a receipt, in receipt order.
pub open spec fn events_recorded(contract: Seq<char>, es: Seq<StacksTransactionEvent>) -> Seq<FieldEvent>
    decreases es.len(),
{
    if es.len() == 0 {
        Seq::empty()
    } else {
        events_recorded(contract, es.drop_last()) + recorded(contract, es.last())
    }
}

/// The recorded events of a batch: transactions in order, and in each its receipt in order.
pub open spec fn batch_recorded(contract: Seq<char>, txs: Seq<StacksTransactionData>) -> Seq<FieldEvent>
    decreases txs.len(),
{
    if txs.len() == 0 {
        Seq::empty()
    } else {
        batch_recorded(contract, txs.drop_last()) + events_recorded(
            contract,
            txs.last().receipt.events@,
        )
    }
}

pub open spec fn events_notifications(
    contract: Seq<char>,
    tx_hash: Seq<char>,
    es: Seq<StacksTransactionEvent>,
) -> Seq<(Seq<char>, Seq<char>, Seq<char>)>
    decreases es.len(),
{
    if es.len() == 0 {
        Seq::empty()
    } else {
        events_notifications(contract, tx_hash, es.drop_last()) + option_seq(
            notification(contract, tx_hash, es.last()),
        )
    }
}

/// The contract's own custom events in a batch, in order.
pub open spec fn batch_notifications(contract: Seq<char>, txs: Seq<StacksTransactionData>) -> Seq<
    (Seq<char>, Seq<char>, Seq<char>),
>
    decreases txs.len(),
{
    if txs.len() == 0 {
        Seq::empty()
    } else {
        batch_notifications(contract, txs.drop_last()) + events_notifications(
            contract,
            txs.last().transaction_identifier.hash@,
            txs.last().receipt.events@,
        )
    }
}

pub open spec fn notification_view(n: (TransactionIdentifier, SmartContractEventData)) -> (
    Seq<char>,
    Seq<char>,
    Seq<char>,
) {
    (n.0.hash@, n.1.topic@, n.1.hex_value@)
}

pub open spec fn record_events(s: Seq<RecordedEvent>) -> Seq<FieldEvent> {
    s.map_values(|e: RecordedEvent| e.field_event())
}

pub open spec fn notification_views(s: Seq<(TransactionIdentifier, SmartContractEventData)>) -> Seq<
    (Seq<char>, Seq<char>, Seq<char>),
> {
    s.map_values(|n: (TransactionIdentifier, SmartContractEventData)| notification_view(n))
}

/// Whether an asset class identifier names an asset of the contract.
pub fn asset_belongs_to(contract_id: &String, asset: &String) -> (r: bool)
    ensures
        r == owns_asset(contract_id@, asset@),
{
    let c = contract_id.as_str();
    let a = asset.as_str();
    let cl = c.unicode_len();
    let al = a.unicode_len();
    if al < 2 || al - 2 < cl {
        return false;
    }
    let mut i: usize = 0;
    while i < cl
        invariant
            cl == c@.len(),
            al == a@.len(),
            al >= cl + 2,
            c@ == contract_id@,
            a@ == asset@,
            i <= cl,
            forall|j: int| 0 <= j < i ==> a@[j] == c@[j],
        decreases cl - i,
    {
        if a.get_char(i) != c.get_char(i) {
            assert(a@.subrange(0, cl as int)[i as int] != c@[i as int]);
            return false;
        }
        i += 1;
    }
    assert(a@.subrange(0, cl as int) =~= c@);
    a.get_char(cl) == ':' && a.get_char(cl + 1) == ':'
}

fn ft_record(asset: &String, value: FTEventStoredValue) -> (r: RecordedEvent)
    ensures
        match r {
            RecordedEvent::FungibleToken { asset_class_identifier: a, value: v } => a@ == asset@ && v == value,
            _ => false,
        },
{
    RecordedEvent::FungibleToken { asset_class_identifier: asset.clone(), value }
}

fn nft_record(asset: &String, value: NFTEventStoredValue) -> (r: RecordedEvent)
    ensures
        match r {
            RecordedEvent::NonFungibleToken { asset_class_identifier: a, value: v } => a@ == asset@ && v == value,
            _ => false,
        },
{
    RecordedEvent::NonFungibleToken { asset_class_identifier: asset.clone(), value }
}

/// Appends what the log keeps of one event of a receipt, if it concerns the
/// contract: one entry, or for a transfer its sending then its receiving side.
pub fn record_event(contract_id: &String, e: &StacksTransactionEvent, out: &mut Vec<RecordedEvent>)
    ensures
        record_events(final(out)@) == record_events(old(out)@) + recorded(contract_id@, *e),
{
    let ghost before = out@;
    match e {
        StacksTransactionEvent::DataVarSetEvent(d) => {
            if d.contract_identifier.eq(contract_id) {
                out.push(
                    RecordedEvent::DataVar {
                        var: d.var.clone(),
                        value: DataVarSetEventValue { hex_value: d.hex_new_value.clone() },
                    },
                );
            }
        },
        StacksTransactionEvent::DataMapInsertEvent(d) => {
            if d.contract_identifier.eq(contract_id) {
                out.push(
                    RecordedEvent::DataMap {
                        map: d.map.clone(),
                        value: DataMapEventStoredValue::Insert(
                            DataMapInsertEventValue {
                                hex_inserted_key: d.hex_inserted_key.clone(),
                                hex_inserted_value: d.hex_inserted_value.clone(),
                            },
                        ),
                    },
                );
            }
        },
        StacksTransactionEvent::DataMapUpdateEvent(d) => {
            if d.contract_identifier.eq(contract_id) {
                out.push(
                    RecordedEvent::DataMap {
                        map: d.map.clone(),
                        value: DataMapEventStoredValue::Update(
                            DataMapUpdateEventValue {
                                hex_key: d.hex_key.clone(),
                                hex_updated_value: d.hex_new_value.clone(),
                            },
                        ),
                    },
                );
            }
        },
        StacksTransactionEvent::DataMapDeleteEvent(d) => {
            if d.contract_identifier.eq(contract_id) {
                out.push(
                    RecordedEvent::DataMap {
                        map: d.map.clone(),
                        value: DataMapEventStoredValue::Delete(
                            DataMapDeleteEventValue { hex_deleted_key: d.hex_deleted_key.clone() },
                        ),
                    },
                );
            }
        },
        StacksTransactionEvent::FTMintEvent(d) => {
            if asset_belongs_to(contract_id, &d.asset_class_identifier) {
                out.push(
                    ft_record(
                        &d.asset_class_identifier,
                        FTEventStoredValue::Mint(
                            FTMintEventValue { recipient: d.recipient.clone(), amount: d.amount.clone() },
                        ),
                    ),
                );
            }
        },
        StacksTransactionEvent::FTBurnEvent(d) => {
            if asset_belongs_to(contract_id, &d.asset_class_identifier) {
                out.push(
                    ft_record(
                        &d.asset_class_identifier,
                        FTEventStoredValue::Burn(
                            FTBurnEventValue { sender: d.sender.clone(), amount: d.amount.clone() },
                        ),
                    ),
                );
            }
        },
        StacksTransactionEvent::FTTransferEvent(d) => {
            if asset_belongs_to(contract_id, &d.asset_class_identifier) {
                out.push(
                    ft_record(
                        &d.asset_class_identifier,
                        FTEventStoredValue::Burn(
                            FTBurnEventValue { sender: d.sender.clone(), amount: d.amount.clone() },
                        ),
                    ),
                );
                out.push(
                    ft_record(
                        &d.asset_class_identifier,
                        FTEventStoredValue::Mint(
                            FTMintEventValue { recipient: d.recipient.clone(), amount: d.amount.clone() },
                        ),
                    ),
                );
            }
        },
        StacksTransactionEvent::NFTMintEvent(d) => {
            if asset_belongs_to(contract_id, &d.asset_class_identifier) {
                out.push(
                    nft_record(
                        &d.asset_class_identifier,
                        NFTEventStoredValue::Mint(
                            NFTMintEventValue {
                                hex_asset_identifier: d.hex_asset_identifier.clone(),
                                recipient: d.recipient.clone(),
                            },
                        ),
                    ),
                );
            }
        },
        StacksTransactionEvent::NFTBurnEvent(d) => {
            if asset_belongs_to(contract_id, &d.asset_class_identifier) {
                out.push(
                    nft_record(
                        &d.asset_class_identifier,
                        NFTEventStoredValue::Burn(
                            NFTBurnEventValue {
                                hex_asset_identifier: d.hex_asset_identifier.clone(),
                                sender: d.sender.clone(),
                            },
                        ),
                    ),
                );
            }
        },
        StacksTransactionEvent::NFTTransferEvent(d) => {
            if asset_belongs_to(contract_id, &d.asset_class_identifier) {
                out.push(
                    nft_record(
                        &d.asset_class_identifier,
                        NFTEventStoredValue::Burn(
                            NFTBurnEventValue {
                                hex_asset_identifier: d.hex_asset_identifier.clone(),
                                sender: d.sender.clone(),
                            },
                        ),
                    ),
                );
                out.push(
                    nft_record(
                        &d.asset_class_identifier,
                        NFTEventStoredValue::Mint(
                            NFTMintEventValue {
                                hex_asset_identifier: d.hex_asset_identifier.clone(),
                                recipient: d.recipient.clone(),
                            },
                        ),
                    ),
                );
            }
        },
        _ => {},
    }
    assert(record_events(out@) =~= record_events(before) + recorded(contract_id@, *e));
}

/// The transaction lists the contract among those whose state it touches.
pub open spec fn mutates(contract: Seq<char>, tx: StacksTransactionData) -> bool {
    exists|i: int|
        0 <= i < tx.receipt.mutated_contracts_radius.len()
            && #[trigger] tx.receipt.mutated_contracts_radius@[i]@ == contract
}

/// The transactions that touch the contract, in order.
pub open spec fn mutating(contract: Seq<char>, txs: Seq<StacksTransactionData>) -> Seq<StacksTransactionData>
    decreases txs.len(),
{
    if txs.len() == 0 {
        Seq::empty()
    } else if mutates(contract, txs.last()) {
        mutating(contract, txs.drop_last()).push(txs.last())
    } else {
        mutating(contract, txs.drop_last())
    }
}

/// All the transactions, or only those that touch the contract.
pub open spec fn selected(contract: Seq<char>, txs: Seq<StacksTransactionData>, radius_only: bool) -> Seq<
    StacksTransactionData,
> {
    if radius_only {
        mutating(contract, txs)
    } else {
        txs
    }
}

/// Whether a transaction lists the contract among those it touches.
pub fn touches(contract_id: &String, tx: &StacksTransactionData) -> (r: bool)
    ensures
        r == mutates(contract_id@, *tx),
{
    let radius = &tx.receipt.mutated_contracts_radius;
    let mut i: usize = 0;
    while i < radius.len()
        invariant
            i <= radius.len(),
            radius == tx.receipt.mutated_contracts_radius,
            forall|j: int| 0 <= j < i ==> radius@[j]@ != contract_id@,
        decreases radius.len() - i,
    {
        if radius[i].eq(contract_id) {
            return true;
        }
        i += 1;
    }
    false
}

/// Splits a batch into the events that the contract's log records and the
/// contract's custom events, each in batch order. With `radius_only`, the
/// transactions that do not list the contract as touched are passed over.
pub fn collect_batch(
    contract_id: &String,
    transactions: &Vec<StacksTransactionData>,
    radius_only: bool,
) -> (r: (Vec<RecordedEvent>, Vec<(TransactionIdentifier, SmartContractEventData)>))
    ensures
        record_events(r.0@) == batch_recorded(
            contract_id@,
            selected(contract_id@, transactions@, radius_only),
        ),
        notification_views(r.1@) == batch_notifications(
            contract_id@,
            selected(contract_id@, transactions@, radius_only),
        ),
{
    let ghost c = contract_id@;
    let mut records: Vec<RecordedEvent> = Vec::new();
    let mut notes: Vec<(TransactionIdentifier, SmartContractEventData)> = Vec::new();
    let mut i: usize = 0;
    while i < transactions.len()
        invariant
            c == contract_id@,
            i <= transactions.len(),
            record_events(records@) == batch_recorded(
                c,
                selected(c, transactions@.take(i as int), radius_only),
            ),
            notification_views(notes@) == batch_notifications(
                c,
                selected(c, transactions@.take(i as int), radius_only),
            ),
        decreases transactions.len() - i,
    {
        let tx = &transactions[i];
        let ghost prev = selected(c, transactions@.take(i as int), radius_only);
        assert(transactions@.take(i + 1).drop_last() =~= transactions@.take(i as int));
        assert(transactions@.take(i + 1).last() == *tx);
        if radius_only && !touches(contract_id, tx) {
            assert(selected(c, transactions@.take(i + 1), radius_only) == prev);
            i += 1;
            continue;
        }
        assert(selected(c, transactions@.take(i + 1), radius_only) == prev.push(*tx));
        assert(prev.push(*tx).drop_last() =~= prev);
        let events = &tx.receipt.events;
        let ghost records_before = record_events(records@);
        let ghost notes_before = notification_views(notes@);
        let mut j: usize = 0;
        while j < events.len()
            invariant
                c == contract_id@,
                record_events(records@) == records_before
                    + events_recorded(c, events@.take(j as int)),
                notification_views(notes@)
                    == notes_before + events_notifications(
                    c,
                    tx.transaction_identifier.hash@,
                    events@.take(j as int),
                ),
                j <= events.len(),
            decreases events.len() - j,
        {
            let e = &events[j];
            assert(events@.take(j + 1).drop_last() =~= events@.take(j as int));
            assert(events@.take(j + 1).last() == *e);
            let ghost r0 = records@;
            let ghost n0 = notes@;
            assert(events_recorded(c, events@.take(j + 1)) == events_recorded(c, events@.take(j as int))
                + recorded(c, *e));
            assert(events_notifications(c, tx.transaction_identifier.hash@, events@.take(j + 1))
                == events_notifications(c, tx.transaction_identifier.hash@, events@.take(j as int))
                + option_seq(notification(c, tx.transaction_identifier.hash@, *e)));
            record_event(contract_id, e, &mut records);
            assert(record_events(records@) =~= records_before
                + events_recorded(c, events@.take(j + 1)));
            match e {
                StacksTransactionEvent::SmartContractEvent(d) => {
                    if d.contract_identifier.eq(contract_id) {
                        let n = (tx.transaction_identifier.duplicate(), d.duplicate());
                        notes.push(n);
                        assert(notification_views(notes@) =~= notification_views(n0).push(notification_view(n)));
                    }
                },
                _ => {},
            }
            assert(notification_views(notes@) =~= notes_before + events_notifications(
                c,
                tx.transaction_identifier.hash@,
                events@.take(j + 1),
            ));
            j += 1;
        }
        assert(events@.take(j as int) =~= events@);
        assert(record_events(records@) =~= batch_recorded(c, prev.push(*tx)));
        assert(notification_views(notes@) =~= batch_notifications(c, prev.push(*tx)));
        i += 1;
    }
    assert(transactions@.take(i as int) =~= transactions@);
    (records, notes)
}

/// The current-value cells of a contract, held in tables.
pub struct Ledger {
    vars: Table<String, String>,
    entries: Table<(String, String), String>,
    balances: Table<(String, String), u128>,
    owners: Table<(String, String), String>,
}

impl View for Ledger {
    type V = LedgerView;

    closed spec fn view(&self) -> LedgerView {
        LedgerView {
            vars: self.vars@,
            entries: self.entries@,
            balances: self.balances@,
            owners: self.owners@,
        }
    }
}

impl Ledger {
    pub closed spec fn wf(&self) -> bool {
        self.vars.wf() && self.entries.wf() && self.balances.wf() && self.owners.wf()
    }

    pub fn new() -> (r: Self)
        ensures
            r.wf(),
            r@ == empty_ledger(),
    {
        Ledger { vars: Table::new(), entries: Table::new(), balances: Table::new(), owners: Table::new() }
    }

    pub fn duplicate(&self) -> (r: Self)
        requires
            self.wf(),
        ensures
            r.wf(),
            r@ == self@,
    {
        Ledger {
            vars: self.vars.duplicate(),
            entries: self.entries.duplicate(),
            balances: self.balances.duplicate(),
            owners: self.owners.duplicate(),
        }
    }

    /// The hex value of a variable, if it was ever set.
    pub fn var_value(&self, var: &String) -> (r: Option<&String>)
        requires
            self.wf(),
        ensures
            r.is_some() == self@.vars.contains_key(var@),
            r.is_some() ==> r.unwrap()@ == self@.vars[var@],
    {
        self.vars.get(var)
    }

    /// The balance of an owner in an asset class; zero when never written.
    pub fn balance(&self, asset: &String, owner: &String) -> (r: u128)
        requires
            self.wf(),
        ensures
            r == balance_of(self@, asset@, owner@),
    {
        match self.balances.get(&(asset.clone(), owner.clone())) {
            Some(b) => *b,
            None => 0,
        }
    }

    /// The owner of a token, if it has one.
    pub fn owner(&self, asset: &String, id: &String) -> (r: Option<&String>)
        requires
            self.wf(),
        ensures
            r.is_some() == self@.owners.contains_key((asset@, id@)),
            r.is_some() ==> r.unwrap()@ == self@.owners[(asset@, id@)],
    {
        self.owners.get(&(asset.clone(), id.clone()))
    }

    /// The current entry of a data map under a hex key, if any.
    pub fn entry(&self, map: &String, key: &String) -> (r: Option<&String>)
        requires
            self.wf(),
        ensures
            r.is_some() == self@.entries.contains_key((map@, key@)),
            r.is_some() ==> r.unwrap()@ == self@.entries[(map@, key@)],
    {
        self.entries.get(&(map.clone(), key.clone()))
    }

    pub closed spec fn map_entry_seq(&self) -> Seq<((String, String), String)> {
        self.entries.entry_seq()
    }

    pub closed spec fn balance_seq(&self) -> Seq<((String, String), u128)> {
        self.balances.entry_seq()
    }

    pub closed spec fn owner_seq(&self) -> Seq<((String, String), String)> {
        self.owners.entry_seq()
    }

    /// The variables with their hex values.
    pub fn var_entries(&self) -> (r: &Vec<(String, String)>)
        requires
            self.wf(),
        ensures
            forall|i: int| 0 <= i < r.len() ==> {
                &&& #[trigger] self@.vars.contains_key(r@[i].0@)
                &&& self@.vars[r@[i].0@] == r@[i].1@
            },
            forall|k| #[trigger] self@.vars.contains_key(k) ==> exists|i: int|
                0 <= i < r.len() && #[trigger] r@[i].0@ == k,
    {
        self.vars.entries()
    }

    /// The data map entries: ((map name, hex key), hex value).
    pub fn map_entries(&self) -> (r: &Vec<((String, String), String)>)
        requires
            self.wf(),
        ensures
            r@ == self.map_entry_seq(),
            forall|i: int| 0 <= i < r.len() ==> {
                &&& #[trigger] self@.entries.contains_key(r@[i].0@)
                &&& self@.entries[r@[i].0@] == r@[i].1@
            },
            forall|k| #[trigger] self@.entries.contains_key(k) ==> exists|i: int|
                0 <= i < r.len() && #[trigger] r@[i].0@ == k,
    {
        self.entries.entries()
    }

    /// The balances: ((asset class, owner), balance).
    pub fn balance_entries(&self) -> (r: &Vec<((String, String), u128)>)
        requires
            self.wf(),
        ensures
            r@ == self.balance_seq(),
            forall|i: int| 0 <= i < r.len() ==> {
                &&& #[trigger] self@.balances.contains_key(r@[i].0@)
                &&& self@.balances[r@[i].0@] == r@[i].1@
            },
            forall|k| #[trigger] self@.balances.contains_key(k) ==> exists|i: int|
                0 <= i < r.len() && #[trigger] r@[i].0@ == k,
    {
        self.balances.entries()
    }

    /// The token owners: ((asset class, hex token id), owner).
    pub fn owner_entries(&self) -> (r: &Vec<((String, String), String)>)
        requires
            self.wf(),
        ensures
            r@ == self.owner_seq(),
            forall|i: int| 0 <= i < r.len() ==> {
                &&& #[trigger] self@.owners.contains_key(r@[i].0@)
                &&& self@.owners[r@[i].0@] == r@[i].1@
            },
            forall|k| #[trigger] self@.owners.contains_key(k) ==> exists|i: int|
                0 <= i < r.len() && #[trigger] r@[i].0@ == k,
    {
        self.owners.entries()
    }

    fn credit(&mut self, asset: &String, owner: &String, amount: u128) -> (r: Result<(), ProcessorError>)
        requires
            old(self).wf(),
        ensures
            final(self).wf(),
            match credit(old(self)@, asset@, owner@, amount) {
                Ok(v) => r is Ok && final(self)@ == v,
                Err(e) => r == Err::<(), ProcessorError>(e),
            },
    {
        let b = self.balance(asset, owner);
        match b.checked_add(amount) {
            Some(n) => {
                self.balances.put((asset.clone(), owner.clone()), n);
                Ok(())
            },
            None => Err(ProcessorError::BalanceOverflow),
        }
    }

    fn debit(&mut self, asset: &String, owner: &String, amount: u128) -> (r: Result<(), ProcessorError>)
        requires
            old(self).wf(),
        ensures
            final(self).wf(),
            match debit(old(self)@, asset@, owner@, amount) {
                Ok(v) => r is Ok && final(self)@ == v,
                Err(e) => r == Err::<(), ProcessorError>(e),
            },
    {
        let b = self.balance(asset, owner);
        if b < amount {
            return Err(ProcessorError::InsufficientBalance);
        }
        self.balances.put((asset.clone(), owner.clone()), b - amount);
        Ok(())
    }

    fn release(&mut self, asset: &String, id: &String, sender: &String) -> (r: Result<(), ProcessorError>)
        requires
            old(self).wf(),
        ensures
            final(self).wf(),
            match release(old(self)@, asset@, id@, sender@) {
                Ok(v) => r is Ok && final(self)@ == v,
                Err(e) => r == Err::<(), ProcessorError>(e),
            },
    {
        let owned = match self.owner(asset, id) {
            Some(o) => o.eq(sender),
            None => false,
        };
        if !owned {
            return Err(ProcessorError::TokenNotOwned);
        }
        self.owners.remove(&(asset.clone(), id.clone()));
        Ok(())
    }

    fn assign(&mut self, asset: &String, id: &String, recipient: &String)
        requires
            old(self).wf(),
        ensures
            final(self).wf(),
            final(self)@ == assign(old(self)@, asset@, id@, recipient@),
    {
        self.owners.put((asset.clone(), id.clone()), recipient.clone());
    }

    /// Applies the state transition of one logged event.
    pub fn apply(&mut self, e: &RecordedEvent) -> (r: Result<(), ProcessorError>)
        requires
            old(self).wf(),
        ensures
            final(self).wf(),
            match step(old(self)@, e.field_event()) {
                Ok(v) => r is Ok && final(self)@ == v,
                Err(err) => r == Err::<(), ProcessorError>(err),
            },
    {
        match e {
            RecordedEvent::DataVar { var, value } => {
                self.vars.put(var.clone(), value.hex_value.clone());
                Ok(())
            },
            RecordedEvent::DataMap { map, value } => match value {
                DataMapEventStoredValue::Insert(v) => {
                    self.entries.put((map.clone(), v.hex_inserted_key.clone()), v.hex_inserted_value.clone());
                    Ok(())
                },
                DataMapEventStoredValue::Update(v) => {
                    self.entries.put((map.clone(), v.hex_key.clone()), v.hex_updated_value.clone());
                    Ok(())
                },
                DataMapEventStoredValue::Delete(v) => {
                    self.entries.remove(&(map.clone(), v.hex_deleted_key.clone()));
                    Ok(())
                },
            },
            RecordedEvent::FungibleToken { asset_class_identifier, value } => match value {
                FTEventStoredValue::Mint(v) => match parse_amount(&v.amount) {
                    Some(a) => self.credit(asset_class_identifier, &v.recipient, a),
                    None => Err(ProcessorError::MalformedAmount),
                },
                FTEventStoredValue::Burn(v) => match parse_amount(&v.amount) {
                    Some(a) => self.debit(asset_class_identifier, &v.sender, a),
                    None => Err(ProcessorError::MalformedAmount),
                },
                FTEventStoredValue::Transfer(v) => match parse_amount(&v.amount) {
                    Some(a) => {
                        let sent = self.debit(asset_class_identifier, &v.sender, a);
                        match sent {
                            Ok(()) => self.credit(asset_class_identifier, &v.recipient, a),
                            Err(err) => Err(err),
                        }
                    },
                    None => Err(ProcessorError::MalformedAmount),
                },
            },
            RecordedEvent::NonFungibleToken { asset_class_identifier, value } => match value {
                NFTEventStoredValue::Mint(v) => {
                    self.assign(asset_class_identifier, &v.hex_asset_identifier, &v.recipient);
                    Ok(())
                },
                NFTEventStoredValue::Burn(v) => self.release(
                    asset_class_identifier,
                    &v.hex_asset_identifier,
                    &v.sender,
                ),
                NFTEventStoredValue::Transfer(v) => {
                    let released = self.release(asset_class_identifier, &v.hex_asset_identifier, &v.sender);
                    match released {
                        Ok(()) => {
                            self.assign(asset_class_identifier, &v.hex_asset_identifier, &v.recipient);
                            Ok(())
                        },
                        Err(err) => Err(err),
                    }
                },
            },
        }
    }
}

/// Records from `start` on all belong to `block` and are numbered 1, 2, ... in order.
pub open spec fn numbered_from(log: Seq<EventRecord>, start: int, block: u64) -> bool {
    forall|k: int|
        start <= k < log.len() ==> (#[trigger] log[k]).block_index == block && log[k].event_index
            == k - start + 1
}

/// Folds the events into a copy of the ledger; the ledger itself is untouched.
pub fn apply_all(ledger: &Ledger, records: &Vec<EventRecord>) -> (r: Result<Ledger, ProcessorError>)
    requires
        ledger.wf(),
    ensures
        match replay(ledger@, log_events(records@)) {
            Ok(v) => r is Ok && r->Ok_0.wf() && r->Ok_0@ == v,
            Err(e) => r is Err && r->Err_0 == e,
        },
{
    let ghost recs = log_events(records@);
    let ghost start = ledger@;
    let mut working = ledger.duplicate();
    let n = records.len();
    let mut k: usize = 0;
    while k < n
        invariant
            n == records.len(),
            recs == log_events(records@),
            start == ledger@,
            k <= n,
            working.wf(),
            replay(start, recs.take(k as int)) == Ok::<LedgerView, ProcessorError>(working@),
        decreases n - k,
    {
        assert(recs.take(k + 1).drop_last() =~= recs.take(k as int));
        assert(recs.take(k + 1).last() == records@[k as int].event.field_event());
        let applied = working.apply(&records[k].event);
        match applied {
            Ok(()) => {},
            Err(e) => {
                proof {
                    lemma_replay_split(start, recs.take(k + 1), recs.skip(k + 1));
                    assert(recs.take(k + 1) + recs.skip(k + 1) =~= recs);
                }
                return Err(e);
            },
        }
        k += 1;
    }
    assert(recs.take(n as int) =~= recs);
    Ok(working)
}

/// Appends the events to the log under one block, numbered from 1.
pub fn append_numbered(log: &mut Vec<EventRecord>, block_index: u64, records: &Vec<RecordedEvent>)
    ensures
        final(log)@.len() == old(log)@.len() + records@.len(),
        final(log)@.take(old(log)@.len() as int) == old(log)@,
        log_events(final(log)@) == log_events(old(log)@) + record_events(records@),
        forall|k: int| 0 <= k < old(log)@.len() ==> #[trigger] final(log)@[k] == old(log)@[k],
        numbered_from(final(log)@, old(log)@.len() as int, block_index),
{
    let ghost recs = record_events(records@);
    let ghost old_log = log@;
    let n = records.len();
    let mut k: usize = 0;
    while k < n
        invariant
            n == records.len(),
            recs == record_events(records@),
            k <= n,
            log@.len() == old_log.len() + k,
            log@.take(old_log.len() as int) == old_log,
            forall|i: int| 0 <= i < old_log.len() ==> #[trigger] log@[i] == old_log[i],
            log_events(log@) == log_events(old_log) + recs.take(k as int),
            numbered_from(log@, old_log.len() as int, block_index),
        decreases n - k,
    {
        let rec = EventRecord {
            block_index: block_index,
            event_index: k as u64 + 1,
            event: records[k].duplicate(),
        };
        let ghost log0 = log@;
        log.push(rec);
        assert(log@.take(old_log.len() as int) =~= log0.take(old_log.len() as int));
        assert(log_events(log@) =~= log_events(log0).push(rec.event.field_event()));
        assert(recs.take(k + 1) =~= recs.take(k as int).push(recs[k as int]));
        k += 1;
    }
    assert(recs.take(n as int) =~= recs);
}

/// The events that a rebuild logs for the heights `from` through `upto`:
/// for each height, the recorded events of the transactions of its archived
/// block that touch the contract; `None` when a height has no archived block.
pub open spec fn rebuilt_events(
    contract: Seq<char>,
    store: ChainArchive<StacksBlockData>,
    from: u64,
    upto: int,
) -> Option<Seq<FieldEvent>>
    decreases upto - from + 1,
{
    if upto < from {
        Some(Seq::empty())
    } else {
        match rebuilt_events(contract, store, from, upto - 1) {
            None => None,
            Some(prev) => if store.hashes_view().contains_key(upto as u64) {
                Some(
                    prev + batch_recorded(
                        contract,
                        mutating(
                            contract,
                            store.blocks_view()[store.hashes_view()[upto as u64]].transactions@,
                        ),
                    ),
                )
            } else {
                None
            },
        }
    }
}

proof fn lemma_rebuilt_missing_stays(
    contract: Seq<char>,
    store: ChainArchive<StacksBlockData>,
    from: u64,
    upto: int,
    later: int,
)
    requires
        upto <= later,
        rebuilt_events(contract, store, from, upto) is None,
    ensures
        rebuilt_events(contract, store, from, later) is None,
    decreases later - upto,
{
    if upto < later {
        lemma_rebuilt_missing_stays(contract, store, from, upto, later - 1);
    }
}

/// Appending a numbered block above every logged block keeps the log ordered.
proof fn lemma_append_block_sorted(before: Seq<EventRecord>, after: Seq<EventRecord>, block: u64)
    requires
        log_sorted(before),
        forall|i: int| 0 <= i < before.len() ==> (#[trigger] before[i]).block_index < block,
        after.len() >= before.len(),
        after.take(before.len() as int) == before,
        numbered_from(after, before.len() as int, block),
    ensures
        log_sorted(after),
{
    assert forall|i: int, j: int| 0 <= i < j < after.len() implies precedes(
        #[trigger] after[i],
        #[trigger] after[j],
    ) by {
        if j < before.len() {
            assert(after[i] == after.take(before.len() as int)[i]);
            assert(after[j] == after.take(before.len() as int)[j]);
        } else if i < before.len() {
            assert(after[i] == after.take(before.len() as int)[i]);
        }
    }
}

/// The processor of one observed contract: its event log and the
/// materialized view that the log folds to.
pub struct ContractProcessor {
    contract_id: String,
    deployment: BlockIdentifier,
    ledger: Ledger,
    log: Vec<EventRecord>,
}

impl ContractProcessor {
    /// The view is the fold of the log, and the log is strictly ordered.
    pub closed spec fn wf(&self) -> bool {
        &&& self.ledger.wf()
        &&& log_sorted(self.log@)
        &&& replay(empty_ledger(), log_events(self.log@)) == Ok::<LedgerView, ProcessorError>(
            self.ledger@,
        )
    }

    pub closed spec fn contract(&self) -> Seq<char> {
        self.contract_id@
    }

    pub closed spec fn deployment_index(&self) -> u64 {
        self.deployment.index
    }

    pub closed spec fn ledger_view(&self) -> LedgerView {
        self.ledger@
    }

    pub closed spec fn log_view(&self) -> Seq<EventRecord> {
        self.log@
    }

    pub closed spec fn ledger_state(&self) -> Ledger {
        self.ledger
    }

    /// The materialized view is the left fold of the event log from the empty
    /// state: every current value is what replaying the log gives.
    pub proof fn lemma_view_is_fold_of_log(&self)
        requires
            self.wf(),
        ensures
            replay(empty_ledger(), log_events(self.log_view())) == Ok::<LedgerView, ProcessorError>(
                self.ledger_view(),
            ),
    {
    }

    /// A contract's token supply is conserved: over distinct owners that
    /// include everyone named in the asset class's logged events, balances add
    /// up to the logged mints minus the logged burns.
    pub proof fn lemma_supply_conserved(&self, asset: Seq<char>, owners: Seq<Seq<char>>)
        requires
            self.wf(),
            owners.no_duplicates(),
            forall|i: int, o: Seq<char>|
                0 <= i < self.log_view().len() && #[trigger] ft_party(
                    log_events(self.log_view())[i],
                    asset,
                    o,
                ) ==> owners.contains(o),
        ensures
            total_balance(self.ledger_view(), asset, owners) == minted(log_events(self.log_view()), asset)
                - burned(log_events(self.log_view()), asset),
    {
        lemma_supply_conserved(log_events(self.log_view()), asset, owners);
    }

    /// Two processors whose logs record the same events hold the same view:
    /// the view depends on the history alone.
    pub proof fn lemma_same_history_same_view(&self, other: &ContractProcessor)
        requires
            self.wf(),
            other.wf(),
            log_events(self.log_view()) == log_events(other.log_view()),
        ensures
            self.ledger_view() == other.ledger_view(),
    {
    }

    /// The event log is strictly increasing by (block index, event index), so
    /// no two entries share a position.
    pub proof fn lemma_log_ordered(&self)
        requires
            self.wf(),
        ensures
            log_sorted(self.log_view()),
    {
    }

    /// Under any scan prefix, the keys of two log entries sort in log order
    /// and never coincide.
    pub proof fn lemma_log_keys_ordered(&self, prefix: Seq<u8>, i: int, j: int)
        requires
            self.wf(),
            0 <= i < j < self.log_view().len(),
        ensures
            bytes_lt(
                prefix + event_suffix(self.log_view()[i].block_index, self.log_view()[i].event_index),
                prefix + event_suffix(self.log_view()[j].block_index, self.log_view()[j].event_index),
            ),
            prefix + event_suffix(self.log_view()[i].block_index, self.log_view()[i].event_index)
                != prefix + event_suffix(self.log_view()[j].block_index, self.log_view()[j].event_index),
    {
        let a = self.log_view()[i];
        let b = self.log_view()[j];
        assert(precedes(a, b));
        lemma_event_keys_ordered(prefix, a.block_index, a.event_index, b.block_index, b.event_index);
    }

    /// A processor for a contract deployed at `block_identifier`, with an
    /// empty log and an empty view.
    pub fn new(contract_id: String, block_identifier: BlockIdentifier) -> (r: Self)
        ensures
            r.wf(),
            r.contract() == contract_id@,
            r.deployment_index() == block_identifier.index,
            r.log_view().len() == 0,
            r.ledger_view() == empty_ledger(),
    {
        let r = ContractProcessor {
            contract_id,
            deployment: block_identifier,
            ledger: Ledger::new(),
            log: Vec::new(),
        };
        assert(log_events(r.log@) =~= Seq::<FieldEvent>::empty());
        r
    }

    pub fn contract_id(&self) -> (r: &String)
        ensures
            r@ == self.contract(),
    {
        &self.contract_id
    }

    pub fn deployment(&self) -> (r: &BlockIdentifier)
        ensures
            r.index == self.deployment_index(),
    {
        &self.deployment
    }

    pub fn ledger(&self) -> (r: &Ledger)
        requires
            self.wf(),
        ensures
            *r == self.ledger_state(),
            r.wf(),
            r@ == self.ledger_view(),
    {
        &self.ledger
    }

    pub fn event_log(&self) -> (r: &Vec<EventRecord>)
        ensures
            r@ == self.log_view(),
    {
        &self.log
    }

    /// Rebuilds the log and the view from the archived execution blocks: for
    /// every height from the deployment up to the tip, the transactions of the
    /// block there that touch the contract are handled as one batch. No tip,
    /// a tip below the deployment, a height without a block, or a batch that
    /// cannot be applied is an error and leaves the processor as it was.
    pub fn build_state(&mut self, store: &ChainArchive<StacksBlockData>) -> (r: Result<(), ProcessorError>)
        requires
            old(self).wf(),
            store.wf(),
        ensures
            final(self).wf(),
            final(self).contract() == old(self).contract(),
            final(self).deployment_index() == old(self).deployment_index(),
            match store.tip_view() {
                Some(t) if t >= old(self).deployment_index() => match rebuilt_events(
                    old(self).contract(),
                    *store,
                    old(self).deployment_index(),
                    t as int,
                ) {
                    None => {
                        &&& r == Err::<(), ProcessorError>(ProcessorError::MissingBlock)
                        &&& final(self).log_view() == old(self).log_view()
                        &&& final(self).ledger_view() == old(self).ledger_view()
                    },
                    Some(es) => match replay(empty_ledger(), es) {
                        Ok(v) => {
                            &&& r is Ok
                            &&& log_events(final(self).log_view()) == es
                            &&& final(self).ledger_view() == v
                        },
                        Err(e) => {
                            &&& r == Err::<(), ProcessorError>(e)
                            &&& final(self).log_view() == old(self).log_view()
                            &&& final(self).ledger_view() == old(self).ledger_view()
                        },
                    },
                },
                _ => {
                    &&& r == Err::<(), ProcessorError>(ProcessorError::MissingBlock)
                    &&& final(self).log_view() == old(self).log_view()
                    &&& final(self).ledger_view() == old(self).ledger_view()
                },
            },
    {
        let ghost c = self.contract_id@;
        let t = match store.chain_tip() {
            Some(t) => t,
            None => {
                return Err(ProcessorError::MissingBlock);
            },
        };
        let from = self.deployment.index;
        if t < from {
            return Err(ProcessorError::MissingBlock);
        }
        let mut records: Vec<EventRecord> = Vec::new();
        let mut index: u64 = from;
        let mut done: bool = from > t;
        assert(log_events(records@) =~= Seq::<FieldEvent>::empty());
        while !done
            invariant
                c == self.contract_id@,
                from == self.deployment.index,
                self.wf(),
                self.contract_id == old(self).contract_id,
                self.deployment == old(self).deployment,
                self.log == old(self).log,
                self.ledger == old(self).ledger,
                store.wf(),
                store.tip_view() == Some(t),
                !done ==> from <= index <= t,
                !done ==> rebuilt_events(c, *store, from, index - 1) == Some(log_events(records@)),
                done ==> rebuilt_events(c, *store, from, t as int) == Some(log_events(records@)),
                log_sorted(records@),
                !done ==> forall|i: int| 0 <= i < records@.len() ==> (#[trigger] records@[i]).block_index
                    < index,
            decreases (t - index) as int + if done { 0int } else { 1int },
        {
            let block = match store.block_at(index) {
                Some(b) => b,
                None => {
                    proof {
                        lemma_rebuilt_missing_stays(c, *store, from, index as int, t as int);
                    }
                    return Err(ProcessorError::MissingBlock);
                },
            };
            let (recs, _notes) = collect_batch(&self.contract_id, &block.transactions, true);
            let ghost before = records@;
            append_numbered(&mut records, index, &recs);
            proof {
                lemma_append_block_sorted(before, records@, index);
                assert(log_events(records@) == log_events(before) + record_events(recs@));
            }
            if index == t {
                done = true;
            } else {
                index = index + 1;
            }
        }
        let ghost es = log_events(records@);
        let fresh = Ledger::new();
        match apply_all(&fresh, &records) {
            Ok(l) => {
                self.ledger = l;
                self.log = records;
                Ok(())
            },
            Err(e) => Err(e),
        }
    }

    /// Applies the batch of one block: the contract's events are logged under
    /// that block, numbered from 1 across the whole batch, and folded into the
    /// view; the contract's custom events are returned in order. On an error
    /// nothing changes.
    pub fn handle_transactions_batch(
        &mut self,
        block_identifier: &BlockIdentifier,
        transactions: &Vec<StacksTransactionData>,
    ) -> (r: Result<Vec<(TransactionIdentifier, SmartContractEventData)>, ProcessorError>)
        requires
            old(self).wf(),
        ensures
            final(self).wf(),
            final(self).contract() == old(self).contract(),
            final(self).deployment_index() == old(self).deployment_index(),
            ({
                let recs = batch_recorded(old(self).contract(), transactions@);
                let old_log = old(self).log_view();
                if old_log.len() > 0 && block_identifier.index <= old_log.last().block_index {
                    &&& r == Err::<Vec<(TransactionIdentifier, SmartContractEventData)>, ProcessorError>(
                        ProcessorError::BlockOutOfOrder,
                    )
                    &&& final(self).log_view() == old_log
                    &&& final(self).ledger_view() == old(self).ledger_view()
                } else {
                    match replay(old(self).ledger_view(), recs) {
                        Ok(v) => {
                            &&& r is Ok
                            &&& notification_views(r->Ok_0@) == batch_notifications(
                                old(self).contract(),
                                transactions@,
                            )
                            &&& final(self).ledger_view() == v
                            &&& final(self).log_view().take(old_log.len() as int) == old_log
                            &&& log_events(final(self).log_view()) == log_events(old_log) + recs
                            &&& numbered_from(
                                final(self).log_view(),
                                old_log.len() as int,
                                block_identifier.index,
                            )
                        },
                        Err(e) => {
                            &&& r == Err::<Vec<(TransactionIdentifier, SmartContractEventData)>, ProcessorError>(e)
                            &&& final(self).log_view() == old_log
                            &&& final(self).ledger_view() == old(self).ledger_view()
                        },
                    }
                }
            }),
    {
        let n_log = self.log.len();
        if n_log > 0 && block_identifier.index <= self.log[n_log - 1].block_index {
            return Err(ProcessorError::BlockOutOfOrder);
        }
        let (records, notes) = collect_batch(&self.contract_id, transactions, false);
        let ghost recs = record_events(records@);
        let mut fresh: Vec<EventRecord> = Vec::new();
        append_numbered(&mut fresh, block_identifier.index, &records);
        assert(log_events(Seq::<EventRecord>::empty()) =~= Seq::<FieldEvent>::empty());
        assert(log_events(fresh@) =~= recs);
        let working = match apply_all(&self.ledger, &fresh) {
            Ok(w) => w,
            Err(e) => {
                return Err(e);
            },
        };
        let ghost old_log = self.log@;
        let ghost fresh_log = fresh@;
        self.log.append(&mut fresh);
        proof {
            assert(self.log@ =~= old_log + fresh_log);
            assert(log_events(self.log@) =~= log_events(old_log) + log_events(fresh_log));
            assert(self.log@.take(old_log.len() as int) =~= old_log);
            assert forall|k: int| old_log.len() <= k < self.log@.len() implies (#[trigger] self.log@[k]).block_index
                == block_identifier.index && self.log@[k].event_index == k - old_log.len() + 1 by {
                assert(self.log@[k] == fresh_log[k - old_log.len()]);
            }
        }
        self.ledger = working;
        proof {
            lemma_replay_split(empty_ledger(), log_events(old_log), recs);
            assert forall|i: int, j: int|
                0 <= i < j < self.log@.len() implies precedes(
                #[trigger] self.log@[i],
                #[trigger] self.log@[j],
            ) by {
                if j < old_log.len() {
                    assert(self.log@[i] == self.log@.take(old_log.len() as int)[i]);
                    assert(self.log@[j] == self.log@.take(old_log.len() as int)[j]);
                } else if i < old_log.len() {
                    assert(self.log@[i] == self.log@.take(old_log.len() as int)[i]);
                    if i < old_log.len() - 1 {
                        assert(precedes(old_log[i], old_log[old_log.len() - 1]));
                    }
                }
            }
        }
        Ok(notes)
    }

    /// Takes back every block at or above `block_identifier`: their log
    /// entries are dropped and the view is rebuilt by replaying what remains.
    pub fn rollback_transactions_batch(&mut self, block_identifier: &BlockIdentifier)
        requires
            old(self).wf(),
        ensures
            final(self).wf(),
            final(self).contract() == old(self).contract(),
            final(self).deployment_index() == old(self).deployment_index(),
            final(self).log_view() == old(self).log_view().take(final(self).log_view().len() as int),
            forall|i: int|
                0 <= i < final(self).log_view().len() ==> (#[trigger] final(self).log_view()[i]).block_index
                    < block_identifier.index,
            forall|i: int|
                final(self).log_view().len() <= i < old(self).log_view().len() ==> (
                #[trigger] old(self).log_view()[i]).block_index >= block_identifier.index,
    {
        let n = self.log.len();
        let mut k: usize = 0;
        while k < n && self.log[k].block_index < block_identifier.index
            invariant
                n == self.log.len(),
                k <= n,
                forall|i: int| 0 <= i < k ==> (#[trigger] self.log@[i]).block_index < block_identifier.index,
            decreases n - k,
        {
            k += 1;
        }
        let ghost old_log = self.log@;
        let ghost events = log_events(old_log);
        proof {
            assert forall|i: int| k <= i < n implies (#[trigger] old_log[i]).block_index
                >= block_identifier.index by {
                if i > k {
                    assert(precedes(old_log[k as int], old_log[i]));
                }
            }
            lemma_replay_prefix_ok(empty_ledger(), events, k as int);
        }
        self.log.truncate(k);
        assert(log_events(self.log@) =~= events.take(k as int));
        let mut working = Ledger::new();
        let mut i: usize = 0;
        while i < k
            invariant
                k == self.log.len(),
                i <= k,
                working.wf(),
                replay(empty_ledger(), log_events(self.log@)) is Ok,
                replay(empty_ledger(), log_events(self.log@).take(i as int)) == Ok::<
                    LedgerView,
                    ProcessorError,
                >(working@),
            decreases k - i,
        {
            let ghost es = log_events(self.log@);
            proof {
                lemma_replay_prefix_ok(empty_ledger(), es, i + 1);
                assert(es.take(i + 1).drop_last() =~= es.take(i as int));
                assert(es.take(i + 1).last() == self.log@[i as int].event.field_event());
            }
            let _ = working.apply(&self.log[i].event);
            i += 1;
        }
        assert(log_events(self.log@).take(k as int) =~= log_events(self.log@));
        self.ledger = working;
    }
}

} // verus!

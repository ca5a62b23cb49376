use orchestra::block_store::{BlockStoreManager, BlockStoreManagerMessage};
use orchestra::predicates::StacksChainPredicates;
use orchestra::protocol::{blocks_since, order_contracts, DependencyCollector, QueryError};
use orchestra::storage::{bitcoin_blocks_db_path, contract_db_path, stacks_blocks_db_path, StorageDriver};
use orchestra::supervisor::{group_transactions_by_contract, OrchestraSupervisor, SupervisorError};
use orchestra::table::Table;
use orchestra::types::{
    BitcoinBlockData, BitcoinChainEvent, BlockIdentifier, ContractSettings, DataMapEventFormattedValue,
    DataMapEventStoredValue, DataMapInsertEventValue, FTEventFormattedValue, FTEventStoredValue,
    FTTransferEventValue, OrchestraPid, ProjectMetadata, ProtocolObserverConfig, ProtocolObserverId,
    StacksBlockData, StacksBlockMetadata, StacksChainEvent, StacksChainUpdatedWithBlockData,
    StacksChainUpdatedWithMicroblockData, StacksChainUpdatedWithMicroblockReorgData,
    StacksChainUpdatedWithReorgData, StacksMicroblocksTrail, StacksTransactionData, StacksTransactionKind,
    StacksTransactionReceipt, TransactionIdentifier, TriggerId,
};

fn block_id(index: u64) -> BlockIdentifier {
    BlockIdentifier { index, hash: format!("h{}", index) }
}

fn touching(contracts: &[&str], success: bool) -> StacksTransactionData {
    StacksTransactionData {
        transaction_identifier: TransactionIdentifier { hash: "0".to_string() },
        success,
        sender: "S".to_string(),
        fee: 0,
        kind: StacksTransactionKind::ContractCall,
        receipt: StacksTransactionReceipt {
            mutated_contracts_radius: contracts.iter().map(|c| c.to_string()).collect(),
            mutated_assets_radius: vec![],
            events: vec![],
        },
    }
}

fn block(index: u64, transactions: Vec<StacksTransactionData>) -> StacksBlockData {
    StacksBlockData {
        block_identifier: block_id(index),
        parent_block_identifier: block_id(index.saturating_sub(1)),
        timestamp: 0,
        transactions,
        metadata: StacksBlockMetadata {
            bitcoin_anchor_block_identifier: block_id(0),
            pox_cycle_index: 0,
            pox_cycle_position: 0,
            pox_cycle_length: 0,
        },
    }
}

fn config(id: u64, contracts: &[&str]) -> ProtocolObserverConfig {
    ProtocolObserverConfig {
        identifier: ProtocolObserverId(id),
        project: ProjectMetadata {
            name: "test".to_string(),
            authors: vec![],
            homepage: String::new(),
            license: String::new(),
            description: String::new(),
        },
        lambdas: vec![],
        contracts: contracts
            .iter()
            .map(|c| (c.to_string(), ContractSettings { state_explorer_enabled: true, api_generator_enabled: vec![] }))
            .collect(),
        manifest_path: String::new(),
    }
}

#[test]
fn transactions_are_grouped_by_registered_contract() {
    let registered = vec!["C".to_string(), "D".to_string()];
    let txs = vec![touching(&["C"], true), touching(&["D", "C"], true), touching(&["X"], true)];
    let groups = group_transactions_by_contract(&registered, &txs);
    assert_eq!(groups, vec![("C".to_string(), vec![0, 1]), ("D".to_string(), vec![1])]);
}

#[test]
fn protocols_register_once_and_subscribe_contracts() {
    let mut s = OrchestraSupervisor::new();
    assert!(s.register_protocol_observer(&ProtocolObserverId(1)));
    assert!(!s.register_protocol_observer(&ProtocolObserverId(1)));
    assert!(s.is_observed(&ProtocolObserverId(1)));
    let first = s.handle_contracts_analyzed(&ProtocolObserverId(1), &vec!["C".to_string(), "D".to_string()]);
    assert_eq!(first, vec!["C".to_string(), "D".to_string()]);
    let second = s.handle_contracts_analyzed(&ProtocolObserverId(2), &vec!["D".to_string(), "E".to_string()]);
    assert_eq!(second, vec!["E".to_string()]);
    assert_eq!(s.subscribers(&"D".to_string()), Some(&vec![1, 2]));
    assert_eq!(s.subscribers(&"Z".to_string()), None);
}

#[test]
fn execution_chain_events_plan_archival_and_batches() {
    let mut s = OrchestraSupervisor::new();
    s.handle_contracts_analyzed(&ProtocolObserverId(1), &vec!["C".to_string()]);
    let event = StacksChainEvent::ChainUpdatedWithBlock(StacksChainUpdatedWithBlockData {
        new_block: block(1, vec![touching(&["C"], true), touching(&["Y"], true)]),
        anchored_trail: None,
    });
    let plan = s.handle_stacks_chain_event(&event).unwrap();
    assert!(plan.start_block_store);
    assert!(plan.rollback.is_empty());
    assert_eq!(plan.batches, vec![vec![("C".to_string(), vec![0])]]);
    let reorg = StacksChainEvent::ChainUpdatedWithReorg(StacksChainUpdatedWithReorgData {
        old_blocks: vec![(None, block(2, vec![])), (None, block(3, vec![]))],
        new_blocks: vec![(None, block(2, vec![])), (None, block(3, vec![touching(&["C"], true)])), (None, block(4, vec![]))],
    });
    let plan = s.handle_stacks_chain_event(&reorg).unwrap();
    assert!(!plan.start_block_store);
    let rolled: Vec<u64> = plan.rollback.iter().map(|b| b.index).collect();
    assert_eq!(rolled, vec![2, 3]);
    assert_eq!(plan.batches.len(), 3);
    assert_eq!(plan.batches[1], vec![("C".to_string(), vec![0])]);
}

#[test]
fn microblock_reorgs_and_empty_trails_are_refused() {
    let mut s = OrchestraSupervisor::new();
    let reorg = StacksChainEvent::ChainUpdatedWithMicroblockReorg(StacksChainUpdatedWithMicroblockReorgData {
        old_trail: StacksMicroblocksTrail { microblocks: vec![] },
        new_trail: StacksMicroblocksTrail { microblocks: vec![] },
    });
    assert!(matches!(s.handle_stacks_chain_event(&reorg), Err(SupervisorError::MicroblockReorgUnsupported)));
    let empty = StacksChainEvent::ChainUpdatedWithMicroblock(StacksChainUpdatedWithMicroblockData {
        anchored_block: block_id(1),
        current_trail: StacksMicroblocksTrail { microblocks: vec![] },
    });
    assert!(matches!(s.handle_stacks_chain_event(&empty), Err(SupervisorError::EmptyMicroblockTrail)));
}

#[test]
fn anchor_chain_reorg_rolls_back_the_old_segment() {
    let mut s = OrchestraSupervisor::new();
    let anchor = |i: u64| BitcoinBlockData {
        block_identifier: block_id(i),
        parent_block_identifier: block_id(i.saturating_sub(1)),
        timestamp: 0,
        transactions: vec![],
    };
    let plan = s.handle_bitcoin_chain_event(&BitcoinChainEvent::ChainUpdatedWithReorg(vec![anchor(5)], vec![anchor(5), anchor(6)]));
    assert!(plan.start_block_store);
    assert_eq!(plan.rollback.len(), 1);
    assert_eq!(plan.rollback[0].hash, "h5");
    let plan = s.handle_bitcoin_chain_event(&BitcoinChainEvent::ChainUpdatedWithBlock(anchor(7)));
    assert!(!plan.start_block_store);
    assert!(plan.rollback.is_empty());
}

#[test]
fn triggers_fire_on_any_block_and_on_watched_contracts() {
    let trigger = |n: u64| TriggerId { pid: OrchestraPid(1), lambda_id: n };
    let mut registered = StacksChainPredicates::new();
    let mut added = StacksChainPredicates::new();
    let mut watched: Table<String, Vec<TriggerId>> = Table::new();
    watched.put("C".to_string(), vec![trigger(2)]);
    added.watching_contract_id_activity = watched;
    added.watching_any_block_activity = vec![trigger(1)];
    registered.register_predicates(&added);
    let fired = registered.handle_new_stacks_block(&block(1, vec![touching(&["C"], true), touching(&["C"], false)]));
    assert_eq!(fired, vec![trigger(1), trigger(2)]);
    let fired = registered.handle_new_stacks_block(&block(2, vec![touching(&["D"], true)]));
    assert_eq!(fired, vec![trigger(1)]);
}

#[test]
fn stores_live_under_the_working_directory() {
    let driver = StorageDriver::filesystem("/data".to_string());
    assert_eq!(bitcoin_blocks_db_path(&driver), "/data/bitcoin");
    assert_eq!(stacks_blocks_db_path(&driver), "/data/stacks");
    assert_eq!(contract_db_path(&driver, "S1.test"), "/data/contracts/S1.test");
}

#[test]
fn discovery_follows_dependencies_until_drained() {
    let mut collector = DependencyCollector::new(&config(1, &["A", "C"]));
    let mut seen = vec![];
    while let Some(c) = collector.next_pending() {
        let deps = match c.as_str() {
            "A" => vec!["B".to_string()],
            "C" => vec!["A".to_string()],
            _ => vec![],
        };
        seen.push(c.clone());
        collector.record(c, deps);
    }
    assert_eq!(seen, vec!["A".to_string(), "C".to_string(), "B".to_string()]);
    let order = order_contracts(collector.dependencies()).unwrap();
    assert_eq!(order, vec!["B".to_string(), "A".to_string(), "C".to_string()]);
}

#[test]
fn blocks_since_a_known_height() {
    let mut store = BlockStoreManager::new();
    for i in 0..4u64 {
        store.store_stacks_block(block(i, vec![]), None).unwrap();
    }
    let blocks = blocks_since(store.stacks_blocks(), 1).unwrap();
    let heights: Vec<u64> = blocks.iter().map(|b| b.block_identifier.index).collect();
    assert_eq!(heights, vec![2, 3]);
    assert!(blocks_since(store.stacks_blocks(), 3).unwrap().is_empty());
    let mut gap = BlockStoreManager::new();
    gap.store_stacks_block(block(0, vec![]), None).unwrap();
    gap.store_stacks_block(block(2, vec![]), None).unwrap();
    assert!(matches!(blocks_since(gap.stacks_blocks(), 0), Err(QueryError::MissingBlock)));
}

#[test]
fn stored_events_are_formatted_for_observers() {
    let decode = |h: &String| format!("decoded({})", h);
    let insert = DataMapEventStoredValue::Insert(DataMapInsertEventValue {
        hex_inserted_key: "0x01".to_string(),
        hex_inserted_value: "0x02".to_string(),
    });
    match insert.get_formatted_decoded_event(3, 4, &decode) {
        DataMapEventFormattedValue::Insert(f) => {
            assert_eq!(f.inserted_key, "decoded(0x01)");
            assert_eq!(f.inserted_value, "decoded(0x02)");
            assert_eq!((f.block_index, f.event_index), (3, 4));
        }
        _ => panic!("expected an insert"),
    }
    let transfer = FTEventStoredValue::Transfer(FTTransferEventValue {
        sender: "A".to_string(),
        recipient: "B".to_string(),
        amount: "5".to_string(),
    });
    match transfer.get_formatted_decoded_event(1, 2) {
        FTEventFormattedValue::Transfer(f) => {
            assert_eq!((f.sender.as_str(), f.recipient.as_str(), f.amount.as_str()), ("A", "B", "5"));
        }
        _ => panic!("expected a transfer"),
    }
}

#[test]
fn block_store_serves_requests_in_order() {
    let mut store = BlockStoreManager::new();
    let anchor = BitcoinBlockData {
        block_identifier: block_id(3),
        parent_block_identifier: block_id(2),
        timestamp: 0,
        transactions: vec![],
    };
    store.handle_message(BlockStoreManagerMessage::ArchiveBitcoinBlock(anchor)).unwrap();
    assert_eq!(store.bitcoin_blocks().chain_tip(), Some(3));
    assert!(store.bitcoin_blocks().block_at(3).is_some());
    store.handle_message(BlockStoreManagerMessage::RollbackBitcoinBlocks(vec![block_id(3)])).unwrap();
    assert!(store.bitcoin_blocks().block_at(3).is_none());
    assert!(store.bitcoin_blocks().block_by_hash(&"h3".to_string()).is_none());
    store.handle_message(BlockStoreManagerMessage::ArchiveStacksBlock(block(1, vec![]), None)).unwrap();
    assert_eq!(store.stacks_blocks().chain_tip(), Some(1));
    store.handle_message(BlockStoreManagerMessage::Exit).unwrap();
}

use vstd::prelude::*;

verus! {

// ---------------------------------------------------------------------------
// Chain data, as delivered by the ingestion side
// ---------------------------------------------------------------------------

/// Identifies a block on either chain by its height and its hash.
#[derive(Clone, Debug)]
pub struct BlockIdentifier {
    pub index: u64,
    pub hash: String,
}

impl BlockIdentifier {
    pub fn duplicate(&self) -> (r: Self)
        ensures
            r.index == self.index,
            r.hash@ == self.hash@,
    {
        BlockIdentifier { index: self.index, hash: self.hash.clone() }
    }
}

#[derive(Clone, Debug)]
pub struct TransactionIdentifier {
    pub hash: String,
}

impl TransactionIdentifier {
    pub fn duplicate(&self) -> (r: Self)
        ensures
            r.hash@ == self.hash@,
    {
        TransactionIdentifier { hash: self.hash.clone() }
    }
}

#[derive(Clone, Debug)]
pub struct DataVarSetEventData {
    pub contract_identifier: String,
    pub var: String,
    pub hex_new_value: String,
}

#[derive(Clone, Debug)]
pub struct DataMapInsertEventData {
    pub contract_identifier: String,
    pub map: String,
    pub hex_inserted_key: String,
    pub hex_inserted_value: String,
}

#[derive(Clone, Debug)]
pub struct DataMapUpdateEventData {
    pub contract_identifier: String,
    pub map: String,
    pub hex_key: String,
    pub hex_new_value: String,
}

#[derive(Clone, Debug)]
pub struct DataMapDeleteEventData {
    pub contract_identifier: String,
    pub map: String,
    pub hex_deleted_key: String,
}

#[derive(Clone, Debug)]
pub struct FTMintEventData {
    pub asset_class_identifier: String,
    pub recipient: String,
    pub amount: String,
}

#[derive(Clone, Debug)]
pub struct FTBurnEventData {
    pub asset_class_identifier: String,
    pub sender: String,
    pub amount: String,
}

#[derive(Clone, Debug)]
pub struct FTTransferEventData {
    pub asset_class_identifier: String,
    pub sender: String,
    pub recipient: String,
    pub amount: String,
}

#[derive(Clone, Debug)]
pub struct NFTMintEventData {
    pub asset_class_identifier: String,
    pub recipient: String,
    pub hex_asset_identifier: String,
}

#[derive(Clone, Debug)]
pub struct NFTBurnEventData {
    pub asset_class_identifier: String,
    pub sender: String,
    pub hex_asset_identifier: String,
}

#[derive(Clone, Debug)]
pub struct NFTTransferEventData {
    pub asset_class_identifier: String,
    pub sender: String,
    pub recipient: String,
    pub hex_asset_identifier: String,
}

#[derive(Clone, Debug)]
pub struct SmartContractEventData {
    pub contract_identifier: String,
    pub topic: String,
    pub hex_value: String,
}

impl SmartContractEventData {
    pub fn duplicate(&self) -> (r: Self)
        ensures
            r.contract_identifier@ == self.contract_identifier@,
            r.topic@ == self.topic@,
            r.hex_value@ == self.hex_value@,
    {
        SmartContractEventData {
            contract_identifier: self.contract_identifier.clone(),
            topic: self.topic.clone(),
            hex_value: self.hex_value.clone(),
        }
    }
}

#[derive(Clone, Debug)]
pub struct STXTransferEventValue {
    pub sender: String,
    pub recipient: String,
    pub amount: String,
}

#[derive(Clone, Debug)]
pub struct STXMintEventValue {
    pub recipient: String,
    pub amount: String,
}

#[derive(Clone, Debug)]
pub struct STXLockEventValue {
    pub locked_amount: String,
    pub unlock_height: String,
    pub locked_address: String,
}

#[derive(Clone, Debug)]
pub struct STXBurnEventValue {
    pub sender: String,
    pub amount: String,
}

/// One event of a transaction receipt, in receipt order.
#[derive(Clone, Debug)]
pub enum StacksTransactionEvent {
    STXTransferEvent(STXTransferEventValue),
    STXMintEvent(STXMintEventValue),
    STXLockEvent(STXLockEventValue),
    STXBurnEvent(STXBurnEventValue),
    NFTTransferEvent(NFTTransferEventData),
    NFTMintEvent(NFTMintEventData),
    NFTBurnEvent(NFTBurnEventData),
    FTTransferEvent(FTTransferEventData),
    FTMintEvent(FTMintEventData),
    FTBurnEvent(FTBurnEventData),
    DataVarSetEvent(DataVarSetEventData),
    DataMapInsertEvent(DataMapInsertEventData),
    DataMapUpdateEvent(DataMapUpdateEventData),
    DataMapDeleteEvent(DataMapDeleteEventData),
    SmartContractEvent(SmartContractEventData),
}

#[derive(Clone, Debug)]
pub struct StacksContractDeploymentData {
    pub contract_identifier: String,
    pub code: String,
}

#[derive(Clone, Debug)]
pub enum StacksTransactionKind {
    ContractCall,
    ContractDeployment(StacksContractDeploymentData),
    NativeTokenTransfer,
    Coinbase,
    Other,
}

#[derive(Clone, Debug)]
pub struct StacksTransactionReceipt {
    /// Contracts whose state the transaction's events touch (a set: order is irrelevant).
    pub mutated_contracts_radius: Vec<String>,
    /// Asset classes that the transaction's events touch.
    pub mutated_assets_radius: Vec<String>,
    pub events: Vec<StacksTransactionEvent>,
}

#[derive(Clone, Debug)]
pub struct StacksTransactionData {
    pub transaction_identifier: TransactionIdentifier,
    pub success: bool,
    pub sender: String,
    pub fee: u64,
    pub kind: StacksTransactionKind,
    pub receipt: StacksTransactionReceipt,
}

#[derive(Clone, Debug)]
pub struct StacksBlockMetadata {
    pub bitcoin_anchor_block_identifier: BlockIdentifier,
    pub pox_cycle_index: u32,
    pub pox_cycle_position: u32,
    pub pox_cycle_length: u32,
}

#[derive(Clone, Debug)]
pub struct StacksBlockData {
    pub block_identifier: BlockIdentifier,
    pub parent_block_identifier: BlockIdentifier,
    pub timestamp: i64,
    pub transactions: Vec<StacksTransactionData>,
    pub metadata: StacksBlockMetadata,
}

#[derive(Clone, Debug)]
pub struct StacksMicroblockData {
    pub block_identifier: BlockIdentifier,
    pub parent_block_identifier: BlockIdentifier,
    pub timestamp: i64,
    pub transactions: Vec<StacksTransactionData>,
}

/// The microblocks streamed after an execution block, in order.
#[derive(Clone, Debug)]
pub struct StacksMicroblocksTrail {
    pub microblocks: Vec<StacksMicroblockData>,
}

#[derive(Clone, Debug)]
pub struct BitcoinTransactionData {
    pub transaction_identifier: TransactionIdentifier,
}

#[derive(Clone, Debug)]
pub struct BitcoinBlockData {
    pub block_identifier: BlockIdentifier,
    pub parent_block_identifier: BlockIdentifier,
    pub timestamp: u32,
    pub transactions: Vec<BitcoinTransactionData>,
}

// ---------------------------------------------------------------------------
// Records kept in a contract's store
// ---------------------------------------------------------------------------

#[derive(Clone, Debug)]
pub struct NFTTransferEventValue {
    pub hex_asset_identifier: String,
    pub sender: String,
    pub recipient: String,
}

#[derive(Clone, Debug)]
pub struct NFTMintEventValue {
    pub hex_asset_identifier: String,
    pub recipient: String,
}

#[derive(Clone, Debug)]
pub struct NFTBurnEventValue {
    pub hex_asset_identifier: String,
    pub sender: String,
}

#[derive(Clone, Debug)]
pub struct FTTransferEventValue {
    pub sender: String,
    pub recipient: String,
    pub amount: String,
}

#[derive(Clone, Debug)]
pub struct FTMintEventValue {
    pub recipient: String,
    pub amount: String,
}

#[derive(Clone, Debug)]
pub struct FTBurnEventValue {
    pub sender: String,
    pub amount: String,
}

#[derive(Clone, Debug)]
pub enum DataMapEventStoredValue {
    Insert(DataMapInsertEventValue),
    Update(DataMapUpdateEventValue),
    Delete(DataMapDeleteEventValue),
}

#[derive(Clone, Debug)]
pub enum NFTEventStoredValue {
    Mint(NFTMintEventValue),
    Transfer(NFTTransferEventValue),
    Burn(NFTBurnEventValue),
}

#[derive(Clone, Debug)]
pub enum FTEventStoredValue {
    Mint(FTMintEventValue),
    Transfer(FTTransferEventValue),
    Burn(FTBurnEventValue),
}

#[derive(Clone, Debug)]
pub struct DataMapInsertEventValue {
    pub hex_inserted_key: String,
    pub hex_inserted_value: String,
}

#[derive(Clone, Debug)]
pub struct DataMapUpdateEventValue {
    pub hex_key: String,
    pub hex_updated_value: String,
}

#[derive(Clone, Debug)]
pub struct DataMapDeleteEventValue {
    pub hex_deleted_key: String,
}

#[derive(Clone, Debug)]
pub struct SmartContractEventValue {
    pub topic: String,
    pub hex_value: String,
}

/// The current entry of a data map under one key.
#[derive(Clone, Debug)]
pub struct DataMapStoredEntry {
    pub hex_key: String,
    pub hex_value: String,
}

/// The current owner of one non-fungible token.
#[derive(Clone, Debug)]
pub struct NFTStoredEntry {
    pub hex_asset_identifier: String,
    pub owner: String,
}

/// The current value of a data variable.
#[derive(Clone, Debug)]
pub struct DataVarStoredValue {
    pub hex_value: String,
}

/// One recorded assignment of a data variable.
#[derive(Clone, Debug)]
pub struct DataVarSetEventValue {
    pub hex_value: String,
}

// ---------------------------------------------------------------------------
// Records handed to observers, with values rendered as text
// ---------------------------------------------------------------------------

#[derive(Clone, Debug)]
pub struct DataVarSetEventFormattedValue {
    pub value: String,
    pub block_index: u64,
    pub event_index: u64,
}

#[derive(Clone, Debug)]
pub enum DataMapEventFormattedValue {
    Insert(DataMapInsertFormattedValue),
    Update(DataMapUpdateFormattedValue),
    Delete(DataMapDeleteFormattedValue),
}

#[derive(Clone, Debug)]
pub struct DataMapInsertFormattedValue {
    pub inserted_key: String,
    pub inserted_value: String,
    pub block_index: u64,
    pub event_index: u64,
}

#[derive(Clone, Debug)]
pub struct DataMapUpdateFormattedValue {
    pub key: String,
    pub updated_value: String,
    pub block_index: u64,
    pub event_index: u64,
}

#[derive(Clone, Debug)]
pub struct DataMapDeleteFormattedValue {
    pub deleted_key: String,
    pub block_index: u64,
    pub event_index: u64,
}

#[derive(Clone, Debug)]
pub enum NFTEventFormattedValue {
    Mint(NFTMintEventFormattedValue),
    Transfer(NFTTransferEventFormattedValue),
    Burn(NFTBurnEventFormattedValue),
}

#[derive(Clone, Debug)]
pub struct NFTMintEventFormattedValue {
    pub recipient: String,
    pub asset_identifier: String,
    pub block_index: u64,
    pub event_index: u64,
}

#[derive(Clone, Debug)]
pub struct NFTTransferEventFormattedValue {
    pub sender: String,
    pub recipient: String,
    pub asset_identifier: String,
    pub block_index: u64,
    pub event_index: u64,
}

#[derive(Clone, Debug)]
pub struct NFTBurnEventFormattedValue {
    pub sender: String,
    pub asset_identifier: String,
    pub block_index: u64,
    pub event_index: u64,
}

#[derive(Clone, Debug)]
pub enum FTEventFormattedValue {
    Mint(FTMintEventFormattedValue),
    Transfer(FTTransferEventFormattedValue),
    Burn(FTBurnEventFormattedValue),
}

#[derive(Clone, Debug)]
pub struct FTMintEventFormattedValue {
    pub recipient: String,
    pub amount: String,
    pub block_index: u64,
    pub event_index: u64,
}

#[derive(Clone, Debug)]
pub struct FTTransferEventFormattedValue {
    pub sender: String,
    pub recipient: String,
    pub amount: String,
    pub block_index: u64,
    pub event_index: u64,
}

#[derive(Clone, Debug)]
pub struct FTBurnEventFormattedValue {
    pub sender: String,
    pub amount: String,
    pub block_index: u64,
    pub event_index: u64,
}

// ---------------------------------------------------------------------------
// Protocols and their configuration
// ---------------------------------------------------------------------------

#[derive(PartialEq, Eq, Structural, Clone, Copy, Debug)]
pub struct OrchestraPid(pub u64);

#[derive(PartialEq, Eq, Structural, Clone, Copy, Debug)]
pub struct TriggerId {
    pub pid: OrchestraPid,
    pub lambda_id: u64,
}

#[derive(PartialEq, Eq, Structural, Clone, Copy, Debug)]
pub struct ProtocolObserverId(pub u64);

#[derive(Clone, Debug)]
pub struct ProjectMetadata {
    pub name: String,
    pub authors: Vec<String>,
    pub homepage: String,
    pub license: String,
    pub description: String,
}

#[derive(Clone, Debug)]
pub struct ContractSettings {
    pub state_explorer_enabled: bool,
    pub api_generator_enabled: Vec<String>,
}

#[derive(PartialEq, Eq, Structural, Clone, Copy, Debug)]
pub enum Action {
    User,
    Platform,
}

#[derive(Clone, Debug)]
pub enum User {
    HTTPPost(String),
    CodeExecution(String),
}

#[derive(PartialEq, Eq, Structural, Clone, Copy, Debug)]
pub enum Platform {
    StateExplorer,
    ApiGenerator,
}

#[derive(PartialEq, Eq, Structural, Clone, Copy, Debug)]
pub enum Predicate {
    BitcoinPredicate,
    StacksPredicate,
}

#[derive(PartialEq, Eq, Structural, Clone, Copy, Debug)]
pub enum CrossStacksChainOperation {
    Any,
    MineBlock,
    TransferSTX,
    StacksSTX,
}

#[derive(PartialEq, Eq, Structural, Clone, Copy, Debug)]
pub enum StacksPredicate {
    BitcoinPredicate,
    StacksContractPredicate,
}

#[derive(Clone, Debug)]
pub struct Lambda {
    pub lambda_id: u64,
    pub name: String,
    pub predicate: Predicate,
    pub action: Action,
}

/// A protocol to observe: a named bundle of contracts, each with its settings.
#[derive(Clone, Debug)]
pub struct ProtocolObserverConfig {
    pub identifier: ProtocolObserverId,
    pub project: ProjectMetadata,
    pub lambdas: Vec<Lambda>,
    /// Contract identifiers with their settings, in the order they were declared.
    pub contracts: Vec<(String, ContractSettings)>,
    pub manifest_path: String,
}

// ---------------------------------------------------------------------------
// Chain events, as the ingestion side delivers them
// ---------------------------------------------------------------------------

#[derive(Clone, Debug)]
pub struct StacksChainUpdatedWithBlockData {
    pub new_block: StacksBlockData,
    /// The microblocks that the new block confirms, if any.
    pub anchored_trail: Option<StacksMicroblocksTrail>,
}

#[derive(Clone, Debug)]
pub struct StacksChainUpdatedWithReorgData {
    pub old_blocks: Vec<(Option<StacksMicroblocksTrail>, StacksBlockData)>,
    pub new_blocks: Vec<(Option<StacksMicroblocksTrail>, StacksBlockData)>,
}

#[derive(Clone, Debug)]
pub struct StacksChainUpdatedWithMicroblockData {
    pub anchored_block: BlockIdentifier,
    pub current_trail: StacksMicroblocksTrail,
}

#[derive(Clone, Debug)]
pub struct StacksChainUpdatedWithMicroblockReorgData {
    pub old_trail: StacksMicroblocksTrail,
    pub new_trail: StacksMicroblocksTrail,
}

#[derive(Clone, Debug)]
pub enum StacksChainEvent {
    ChainUpdatedWithBlock(StacksChainUpdatedWithBlockData),
    ChainUpdatedWithReorg(StacksChainUpdatedWithReorgData),
    ChainUpdatedWithMicroblock(StacksChainUpdatedWithMicroblockData),
    ChainUpdatedWithMicroblockReorg(StacksChainUpdatedWithMicroblockReorgData),
}

#[derive(Clone, Debug)]
pub enum BitcoinChainEvent {
    ChainUpdatedWithBlock(BitcoinBlockData),
    /// The old segment, then the new one.
    ChainUpdatedWithReorg(Vec<BitcoinBlockData>, Vec<BitcoinBlockData>),
}

} // verus!

//! The materialized view of one contract's state and the transitions that
//! events make on it.
use crate::codec::amount_of;
use vstd::prelude::*;

verus! {

/// Why a batch of events could not be applied.
#[derive(PartialEq, Eq, Structural, Clone, Copy, Debug)]
pub enum ProcessorError {
    /// A token amount is not a decimal number that fits in 128 bits.
    MalformedAmount,
    /// A burn or a transfer takes more tokens than the sender holds.
    InsufficientBalance,
    /// A mint or a transfer would take a balance past what 128 bits hold.
    BalanceOverflow,
    /// A burn or a transfer names a sender that does not own the token.
    TokenNotOwned,
    /// A batch for a block that is not above every block already applied.
    BlockOutOfOrder,
    /// No block is archived at a height between the deployment and the tip.
    MissingBlock,
}

/// A state mutation of one contract, as the event log records it.
pub enum FieldEvent {
    VarSet { var: Seq<char>, value: Seq<char> },
    MapInsert { map: Seq<char>, key: Seq<char>, value: Seq<char> },
    MapUpdate { map: Seq<char>, key: Seq<char>, value: Seq<char> },
    MapDelete { map: Seq<char>, key: Seq<char> },
    FtMint { asset: Seq<char>, recipient: Seq<char>, amount: Seq<char> },
    FtBurn { asset: Seq<char>, sender: Seq<char>, amount: Seq<char> },
    FtTransfer { asset: Seq<char>, sender: Seq<char>, recipient: Seq<char>, amount: Seq<char> },
    NftMint { asset: Seq<char>, id: Seq<char>, recipient: Seq<char> },
    NftBurn { asset: Seq<char>, id: Seq<char>, sender: Seq<char> },
    NftTransfer { asset: Seq<char>, id: Seq<char>, sender: Seq<char>, recipient: Seq<char> },
}

/// The current-value cells of a contract.
pub struct LedgerView {
    /// Variable name to hex value.
    pub vars: Map<Seq<char>, Seq<char>>,
    /// (map name, hex key) to hex value.
    pub entries: Map<(Seq<char>, Seq<char>), Seq<char>>,
    /// (asset class, owner) to balance.
    pub balances: Map<(Seq<char>, Seq<char>), u128>,
    /// (asset class, hex token id) to owner.
    pub owners: Map<(Seq<char>, Seq<char>), Seq<char>>,
}

pub open spec fn empty_ledger() -> LedgerView {
    LedgerView {
        vars: Map::empty(),
        entries: Map::empty(),
        balances: Map::empty(),
        owners: Map::empty(),
    }
}

/// A balance that was never written is zero.
pub open spec fn balance_of(v: LedgerView, asset: Seq<char>, owner: Seq<char>) -> u128 {
    if v.balances.contains_key((asset, owner)) {
        v.balances[(asset, owner)]
    } else {
        0
    }
}

pub open spec fn credit(v: LedgerView, asset: Seq<char>, owner: Seq<char>, amount: u128) -> Result<
    LedgerView,
    ProcessorError,
> {
    let b = balance_of(v, asset, owner);
    if b + amount > u128::MAX {
        Err(ProcessorError::BalanceOverflow)
    } else {
        Ok(LedgerView { balances: v.balances.insert((asset, owner), (b + amount) as u128), ..v })
    }
}

pub open spec fn debit(v: LedgerView, asset: Seq<char>, owner: Seq<char>, amount: u128) -> Result<
    LedgerView,
    ProcessorError,
> {
    let b = balance_of(v, asset, owner);
    if b < amount {
        Err(ProcessorError::InsufficientBalance)
    } else {
        Ok(LedgerView { balances: v.balances.insert((asset, owner), (b - amount) as u128), ..v })
    }
}

/// Takes a token away from its owner; only the owner can give it up.
pub open spec fn release(v: LedgerView, asset: Seq<char>, id: Seq<char>, sender: Seq<char>) -> Result<
    LedgerView,
    ProcessorError,
> {
    if v.owners.contains_key((asset, id)) && v.owners[(asset, id)] == sender {
        Ok(LedgerView { owners: v.owners.remove((asset, id)), ..v })
    } else {
        Err(ProcessorError::TokenNotOwned)
    }
}

pub open spec fn assign(v: LedgerView, asset: Seq<char>, id: Seq<char>, recipient: Seq<char>) -> LedgerView {
    LedgerView { owners: v.owners.insert((asset, id), recipient), ..v }
}

/// The state transition of one event.
pub open spec fn step(v: LedgerView, e: FieldEvent) -> Result<LedgerView, ProcessorError> {
    match e {
        FieldEvent::VarSet { var, value } => Ok(LedgerView { vars: v.vars.insert(var, value), ..v }),
        FieldEvent::MapInsert { map, key, value } => Ok(
            LedgerView { entries: v.entries.insert((map, key), value), ..v },
        ),
        FieldEvent::MapUpdate { map, key, value } => Ok(
            LedgerView { entries: v.entries.insert((map, key), value), ..v },
        ),
        FieldEvent::MapDelete { map, key } => Ok(
            LedgerView { entries: v.entries.remove((map, key)), ..v },
        ),
        FieldEvent::FtMint { asset, recipient, amount } => match amount_of(amount) {
            Some(a) => credit(v, asset, recipient, a),
            None => Err(ProcessorError::MalformedAmount),
        },
        FieldEvent::FtBurn { asset, sender, amount } => match amount_of(amount) {
            Some(a) => debit(v, asset, sender, a),
            None => Err(ProcessorError::MalformedAmount),
        },
        FieldEvent::FtTransfer { asset, sender, recipient, amount } => match amount_of(amount) {
            Some(a) => match debit(v, asset, sender, a) {
                Ok(w) => credit(w, asset, recipient, a),
                Err(err) => Err(err),
            },
            None => Err(ProcessorError::MalformedAmount),
        },
        FieldEvent::NftMint { asset, id, recipient } => Ok(assign(v, asset, id, recipient)),
        FieldEvent::NftBurn { asset, id, sender } => release(v, asset, id, sender),
        FieldEvent::NftTransfer { asset, id, sender, recipient } => match release(
            v,
            asset,
            id,
            sender,
        ) {
            Ok(w) => Ok(assign(w, asset, id, recipient)),
            Err(err) => Err(err),
        },
    }
}

/// The left fold of `step` over a sequence of events; the first failure stops it.
pub open spec fn replay(v: LedgerView, es: Seq<FieldEvent>) -> Result<LedgerView, ProcessorError>
    decreases es.len(),
{
    if es.len() == 0 {
        Ok(v)
    } else {
        match replay(v, es.drop_last()) {
            Ok(w) => step(w, es.last()),
            Err(err) => Err(err),
        }
    }
}

/// Replaying a stream in two parts, the second on the state the first left,
/// gives what replaying the whole stream at once gives.
pub proof fn lemma_replay_split(v: LedgerView, prefix: Seq<FieldEvent>, suffix: Seq<FieldEvent>)
    ensures
        replay(v, prefix + suffix) == match replay(v, prefix) {
            Ok(w) => replay(w, suffix),
            Err(err) => Err(err),
        },
    decreases suffix.len(),
{
    if suffix.len() == 0 {
        assert(prefix + suffix =~= prefix);
    } else {
        lemma_replay_split(v, prefix, suffix.drop_last());
        assert((prefix + suffix).drop_last() =~= prefix + suffix.drop_last());
        assert((prefix + suffix).last() == suffix.last());
    }
}

/// A stream that replays without failure replays without failure up to any point.
pub proof fn lemma_replay_prefix_ok(v: LedgerView, es: Seq<FieldEvent>, n: int)
    requires
        0 <= n <= es.len(),
        replay(v, es) is Ok,
    ensures
        replay(v, es.take(n)) is Ok,
{
    lemma_replay_split(v, es.take(n), es.skip(n));
    assert(es.take(n) + es.skip(n) =~= es);
}

/// The last value that the stream assigns to a variable, if it assigns one.
pub open spec fn last_var_set(es: Seq<FieldEvent>, var: Seq<char>) -> Option<Seq<char>>
    decreases es.len(),
{
    if es.len() == 0 {
        None
    } else {
        match es.last() {
            FieldEvent::VarSet { var: x, value } if x == var => Some(value),
            _ => last_var_set(es.drop_last(), var),
        }
    }
}

/// A variable holds the value of its most recent assignment in the stream,
/// and is absent when the stream never assigns it.
pub proof fn lemma_var_is_last_set(es: Seq<FieldEvent>, var: Seq<char>)
    requires
        replay(empty_ledger(), es) is Ok,
    ensures
        ({
            let v = replay(empty_ledger(), es)->Ok_0;
            match last_var_set(es, var) {
                Some(value) => v.vars.contains_key(var) && v.vars[var] == value,
                None => !v.vars.contains_key(var),
            }
        }),
    decreases es.len(),
{
    if es.len() > 0 {
        lemma_replay_prefix_ok(empty_ledger(), es, es.len() - 1);
        assert(es.take(es.len() - 1) =~= es.drop_last());
        lemma_var_is_last_set(es.drop_last(), var);
    }
}

/// The owner that the stream leaves on a token: the recipient of its most
/// recent mint or transfer, or none when a burn came last or nothing did.
pub open spec fn last_owner(es: Seq<FieldEvent>, asset: Seq<char>, id: Seq<char>) -> Option<Seq<char>>
    decreases es.len(),
{
    if es.len() == 0 {
        None
    } else {
        match es.last() {
            FieldEvent::NftMint { asset: a, id: i, recipient } if a == asset && i == id => Some(recipient),
            FieldEvent::NftTransfer { asset: a, id: i, recipient, .. } if a == asset && i == id => Some(
                recipient,
            ),
            FieldEvent::NftBurn { asset: a, id: i, .. } if a == asset && i == id => None,
            _ => last_owner(es.drop_last(), asset, id),
        }
    }
}

/// Each token is owned by the recipient of its most recent mint or transfer,
/// and a burnt token has no owner.
pub proof fn lemma_owner_is_last_recipient(es: Seq<FieldEvent>, asset: Seq<char>, id: Seq<char>)
    requires
        replay(empty_ledger(), es) is Ok,
    ensures
        ({
            let v = replay(empty_ledger(), es)->Ok_0;
            match last_owner(es, asset, id) {
                Some(owner) => v.owners.contains_key((asset, id)) && v.owners[(asset, id)] == owner,
                None => !v.owners.contains_key((asset, id)),
            }
        }),
    decreases es.len(),
{
    if es.len() > 0 {
        lemma_replay_prefix_ok(empty_ledger(), es, es.len() - 1);
        assert(es.take(es.len() - 1) =~= es.drop_last());
        lemma_owner_is_last_recipient(es.drop_last(), asset, id);
    }
}

/// What the stream moved into an owner's balance of an asset class, minus
/// what it moved out: mints and incoming transfers count for, burns and
/// outgoing transfers against.
pub open spec fn net_received(es: Seq<FieldEvent>, asset: Seq<char>, owner: Seq<char>) -> int
    decreases es.len(),
{
    if es.len() == 0 {
        0
    } else {
        net_received(es.drop_last(), asset, owner) + match es.last() {
            FieldEvent::FtMint { asset: a, recipient, amount } => if a == asset && recipient == owner {
                amount_of(amount).unwrap_or(0) as int
            } else {
                0
            },
            FieldEvent::FtBurn { asset: a, sender, amount } => if a == asset && sender == owner {
                -(amount_of(amount).unwrap_or(0) as int)
            } else {
                0
            },
            FieldEvent::FtTransfer { asset: a, sender, recipient, amount } => if a == asset {
                (if recipient == owner {
                    amount_of(amount).unwrap_or(0) as int
                } else {
                    0
                }) - (if sender == owner {
                    amount_of(amount).unwrap_or(0) as int
                } else {
                    0
                })
            } else {
                0
            },
            _ => 0,
        }
    }
}

/// Every balance is what the stream minted and transferred to the owner,
/// minus what it burnt and transferred from the owner.
pub proof fn lemma_balance_is_net_received(es: Seq<FieldEvent>, asset: Seq<char>, owner: Seq<char>)
    requires
        replay(empty_ledger(), es) is Ok,
    ensures
        balance_of(replay(empty_ledger(), es)->Ok_0, asset, owner) == net_received(es, asset, owner),
    decreases es.len(),
{
    if es.len() > 0 {
        lemma_replay_prefix_ok(empty_ledger(), es, es.len() - 1);
        assert(es.take(es.len() - 1) =~= es.drop_last());
        lemma_balance_is_net_received(es.drop_last(), asset, owner);
    }
}

/// The amounts that the stream mints of an asset class.
pub open spec fn minted(es: Seq<FieldEvent>, asset: Seq<char>) -> int
    decreases es.len(),
{
    if es.len() == 0 {
        0
    } else {
        minted(es.drop_last(), asset) + match es.last() {
            FieldEvent::FtMint { asset: a, amount, .. } => if a == asset {
                amount_of(amount).unwrap_or(0) as int
            } else {
                0
            },
            _ => 0,
        }
    }
}

/// The amounts that the stream burns of an asset class.
pub open spec fn burned(es: Seq<FieldEvent>, asset: Seq<char>) -> int
    decreases es.len(),
{
    if es.len() == 0 {
        0
    } else {
        burned(es.drop_last(), asset) + match es.last() {
            FieldEvent::FtBurn { asset: a, amount, .. } => if a == asset {
                amount_of(amount).unwrap_or(0) as int
            } else {
                0
            },
            _ => 0,
        }
    }
}

/// The owner takes part in a fungible-token event of the asset class.
pub open spec fn ft_party(e: FieldEvent, asset: Seq<char>, owner: Seq<char>) -> bool {
    match e {
        FieldEvent::FtMint { asset: a, recipient, .. } => a == asset && recipient == owner,
        FieldEvent::FtBurn { asset: a, sender, .. } => a == asset && sender == owner,
        FieldEvent::FtTransfer { asset: a, sender, recipient, .. } => a == asset && (sender == owner
            || recipient == owner),
        _ => false,
    }
}

/// The sum of the balances of the listed owners in an asset class.
pub open spec fn total_balance(v: LedgerView, asset: Seq<char>, owners: Seq<Seq<char>>) -> int
    decreases owners.len(),
{
    if owners.len() == 0 {
        0
    } else {
        total_balance(v, asset, owners.drop_last()) + balance_of(v, asset, owners.last()) as int
    }
}

proof fn lemma_total_update(
    v1: LedgerView,
    v2: LedgerView,
    asset: Seq<char>,
    x: Seq<char>,
    d: int,
    owners: Seq<Seq<char>>,
)
    requires
        owners.no_duplicates(),
        forall|o: Seq<char>| o != x ==> balance_of(v2, asset, o) == balance_of(v1, asset, o),
        balance_of(v2, asset, x) == balance_of(v1, asset, x) + d,
    ensures
        total_balance(v2, asset, owners) == total_balance(v1, asset, owners) + if owners.contains(x) {
            d
        } else {
            0
        },
    decreases owners.len(),
{
    if owners.len() > 0 {
        let rest = owners.drop_last();
        assert(rest.no_duplicates());
        lemma_total_update(v1, v2, asset, x, d, rest);
        if owners.last() == x {
            assert(!rest.contains(x)) by {
                if rest.contains(x) {
                    let i = choose|i: int| 0 <= i < rest.len() && rest[i] == x;
                    assert(owners[i] == owners[owners.len() - 1]);
                }
            }
            assert(owners.contains(x)) by {
                assert(owners[owners.len() - 1] == x);
            }
        } else {
            if owners.contains(x) {
                let i = choose|i: int| 0 <= i < owners.len() && owners[i] == x;
                assert(rest[i] == x);
            }
            if rest.contains(x) {
                let i = choose|i: int| 0 <= i < rest.len() && rest[i] == x;
                assert(owners[i] == x);
            }
        }
    }
}

proof fn lemma_total_same(v1: LedgerView, v2: LedgerView, asset: Seq<char>, owners: Seq<Seq<char>>)
    requires
        forall|o: Seq<char>| balance_of(v2, asset, o) == balance_of(v1, asset, o),
    ensures
        total_balance(v2, asset, owners) == total_balance(v1, asset, owners),
    decreases owners.len(),
{
    if owners.len() > 0 {
        lemma_total_same(v1, v2, asset, owners.drop_last());
    }
}

proof fn lemma_total_empty(asset: Seq<char>, owners: Seq<Seq<char>>)
    ensures
        total_balance(empty_ledger(), asset, owners) == 0,
    decreases owners.len(),
{
    if owners.len() > 0 {
        lemma_total_empty(asset, owners.drop_last());
    }
}

/// What a stream of events does to a supply: over any list of distinct
/// owners that includes everyone who takes part in the asset class's events,
/// the balances after the stream add up to those before, plus what the
/// stream mints, minus what it burns; transfers move tokens without changing
/// the total.
pub proof fn lemma_supply_change(v: LedgerView, es: Seq<FieldEvent>, asset: Seq<char>, owners: Seq<Seq<char>>)
    requires
        replay(v, es) is Ok,
        owners.no_duplicates(),
        forall|i: int, o: Seq<char>|
            0 <= i < es.len() && #[trigger] ft_party(es[i], asset, o) ==> owners.contains(o),
    ensures
        total_balance(replay(v, es)->Ok_0, asset, owners) == total_balance(v, asset, owners) + minted(
            es,
            asset,
        ) - burned(es, asset),
    decreases es.len(),
{
    if es.len() > 0 {
        let prev = es.drop_last();
        lemma_replay_split(v, prev, seq![es.last()]);
        assert(prev + seq![es.last()] =~= es);
        assert(seq![es.last()].drop_last() =~= Seq::<FieldEvent>::empty());
        assert forall|i: int, o: Seq<char>|
            0 <= i < prev.len() && #[trigger] ft_party(prev[i], asset, o) implies owners.contains(o) by {
            assert(prev[i] == es[i]);
        }
        lemma_supply_change(v, prev, asset, owners);
        let v1 = replay(v, prev)->Ok_0;
        let v2 = replay(v, es)->Ok_0;
        let last = es.last();
        assert(step(v1, last) == Ok::<LedgerView, ProcessorError>(v2));
        match last {
            FieldEvent::FtMint { asset: a, recipient, amount } => {
                let amt = amount_of(amount).unwrap();
                if a == asset {
                    assert(ft_party(es[es.len() - 1], asset, recipient));
                    lemma_total_update(v1, v2, asset, recipient, amt as int, owners);
                } else {
                    lemma_total_same(v1, v2, asset, owners);
                }
            },
            FieldEvent::FtBurn { asset: a, sender, amount } => {
                let amt = amount_of(amount).unwrap();
                if a == asset {
                    assert(ft_party(es[es.len() - 1], asset, sender));
                    lemma_total_update(v1, v2, asset, sender, -(amt as int), owners);
                } else {
                    lemma_total_same(v1, v2, asset, owners);
                }
            },
            FieldEvent::FtTransfer { asset: a, sender, recipient, amount } => {
                let amt = amount_of(amount).unwrap();
                let w = debit(v1, a, sender, amt)->Ok_0;
                if a == asset {
                    assert(ft_party(es[es.len() - 1], asset, sender));
                    assert(ft_party(es[es.len() - 1], asset, recipient));
                    lemma_total_update(v1, w, asset, sender, -(amt as int), owners);
                    lemma_total_update(w, v2, asset, recipient, amt as int, owners);
                } else {
                    lemma_total_same(v1, w, asset, owners);
                    lemma_total_same(w, v2, asset, owners);
                }
            },
            _ => {
                lemma_total_same(v1, v2, asset, owners);
            },
        }
    }
}

/// Supply is conserved: over any list of distinct owners that includes
/// everyone who took part in the asset class's events, the balances add up
/// to what was minted minus what was burnt.
pub proof fn lemma_supply_conserved(es: Seq<FieldEvent>, asset: Seq<char>, owners: Seq<Seq<char>>)
    requires
        replay(empty_ledger(), es) is Ok,
        owners.no_duplicates(),
        forall|i: int, o: Seq<char>|
            0 <= i < es.len() && #[trigger] ft_party(es[i], asset, o) ==> owners.contains(o),
    ensures
        total_balance(replay(empty_ledger(), es)->Ok_0, asset, owners) == minted(es, asset) - burned(
            es,
            asset,
        ),
{
    lemma_supply_change(empty_ledger(), es, asset, owners);
    lemma_total_empty(asset, owners);
}

/// The owner that a stream leaves on a token, starting from `v`: the
/// recipient of its most recent mint or transfer, none after a burn, and the
/// owner in `v` when the stream never names the token.
pub open spec fn owner_after(v: LedgerView, es: Seq<FieldEvent>, asset: Seq<char>, id: Seq<char>) -> Option<
    Seq<char>,
>
    decreases es.len(),
{
    if es.len() == 0 {
        if v.owners.contains_key((asset, id)) {
            Some(v.owners[(asset, id)])
        } else {
            None
        }
    } else {
        match es.last() {
            FieldEvent::NftMint { asset: a, id: i, recipient } if a == asset && i == id => Some(recipient),
            FieldEvent::NftTransfer { asset: a, id: i, recipient, .. } if a == asset && i == id => Some(
                recipient,
            ),
            FieldEvent::NftBurn { asset: a, id: i, .. } if a == asset && i == id => None,
            _ => owner_after(v, es.drop_last(), asset, id),
        }
    }
}

/// Tokens on record after a stream are those it minted or transferred last,
/// or that were on record before and that it never names; burnt tokens are
/// gone.
pub proof fn lemma_owner_after_replay(v: LedgerView, es: Seq<FieldEvent>, asset: Seq<char>, id: Seq<char>)
    requires
        replay(v, es) is Ok,
    ensures
        ({
            let w = replay(v, es)->Ok_0;
            match owner_after(v, es, asset, id) {
                Some(owner) => w.owners.contains_key((asset, id)) && w.owners[(asset, id)] == owner,
                None => !w.owners.contains_key((asset, id)),
            }
        }),
    decreases es.len(),
{
    if es.len() > 0 {
        lemma_replay_split(v, es.drop_last(), seq![es.last()]);
        assert(es.drop_last() + seq![es.last()] =~= es);
        assert(seq![es.last()].drop_last() =~= Seq::<FieldEvent>::empty());
        lemma_owner_after_replay(v, es.drop_last(), asset, id);
    }
}

} // verus!

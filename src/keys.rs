//! The key schema of the stores: which bytes name each record.
//!
//! Block and event indexes in event keys are written as twenty decimal
//! digits, zero-padded, so that the byte order of keys is the numeric order
//! of (block index, event index).
use crate::codec::{hex_bytes, hex_decode};
use vstd::prelude::*;
use vstd::string::StringSliceAdditionalSpecFns;

verus! {

/// The width of a padded index: a u64 has at most twenty decimal digits.
pub const INDEX_WIDTH: usize = 20;

pub open spec fn pow10(w: nat) -> nat
    decreases w,
{
    if w == 0 {
        1
    } else {
        10 * pow10((w - 1) as nat)
    }
}

/// `n` in `width` decimal digits (ASCII), most significant first, zero-padded.
pub open spec fn padded(n: nat, width: nat) -> Seq<u8>
    decreases width,
{
    if width == 0 {
        Seq::empty()
    } else {
        padded(n / 10, (width - 1) as nat).push((48 + n % 10) as u8)
    }
}

/// The ordering suffix of an event key: `<block>/<event>`, both padded.
pub open spec fn event_suffix(block_index: u64, event_index: u64) -> Seq<u8> {
    padded(block_index as nat, INDEX_WIDTH as nat).push(47u8) + padded(
        event_index as nat,
        INDEX_WIDTH as nat,
    )
}

/// Byte sequence `a` sorts strictly before `b`.
pub open spec fn bytes_lt(a: Seq<u8>, b: Seq<u8>) -> bool {
    exists|i: int|
        0 <= i < a.len() && i < b.len() && a.take(i) == b.take(i) && #[trigger] a[i] < #[trigger] b[i]
}

/// The records of a store, named by what they hold.
pub enum DBKey<'a> {
    FullAnalysis,
    Interface,
    Var(&'a str),
    VarEvent(&'a str, u64, u64),
    VarEventScanBlock(&'a str, u64),
    VarEventScan(&'a str),
    MapEntry(&'a str, &'a str),
    MapScan(&'a str),
    MapEvent(&'a str, u64, u64),
    MapEventScanBlock(&'a str, u64),
    MapEventScan(&'a str),
    FT(&'a str, &'a str),
    FTScan(&'a str),
    FTEvent(&'a str, u64, u64),
    FTEventScanBlock(&'a str, u64),
    FTEventScan(&'a str),
    NFT(&'a str, &'a str),
    NFTScan(&'a str),
    NFTEvent(&'a str, u64, u64),
    NFTEventScan(&'a str),
    NFTEventScanBlock(&'a str, u64),
}

pub open spec fn utf8(s: &str) -> Seq<u8> {
    s.spec_bytes()
}

/// The bytes of the key of a record of the contract `contract`; `None` when
/// a hex key or token id does not decode.
pub open spec fn key_bytes(key: DBKey, contract: &str) -> Option<Seq<u8>> {
    let c = utf8(contract);
    let events = utf8("#events::");
    match key {
        DBKey::FullAnalysis => Some(c + utf8("::#analysis")),
        DBKey::Interface => Some(c + utf8("::#interface")),
        DBKey::Var(v) => Some(utf8("var::") + c + utf8("::") + utf8(v)),
        DBKey::VarEvent(v, b, e) => Some(
            utf8("var::") + c + utf8("::") + utf8(v) + events + event_suffix(b, e),
        ),
        DBKey::VarEventScanBlock(v, b) => Some(
            utf8("var::") + c + utf8("::") + utf8(v) + events + padded(b as nat, INDEX_WIDTH as nat).push(
                47u8,
            ),
        ),
        DBKey::VarEventScan(v) => Some(utf8("var::") + c + utf8("::") + utf8(v) + events),
        DBKey::MapEntry(m, k) => match hex_decode(k@) {
            Some(kb) => Some(utf8("map::") + c + utf8("::") + utf8(m) + utf8("@") + kb),
            None => None,
        },
        DBKey::MapScan(m) => Some(utf8("map::") + c + utf8("::") + utf8(m) + utf8("@")),
        DBKey::MapEvent(m, b, e) => Some(
            utf8("map::") + c + utf8("::") + utf8(m) + events + event_suffix(b, e),
        ),
        DBKey::MapEventScanBlock(m, b) => Some(
            utf8("map::") + c + utf8("::") + utf8(m) + events + padded(b as nat, INDEX_WIDTH as nat).push(
                47u8,
            ),
        ),
        DBKey::MapEventScan(m) => Some(utf8("map::") + c + utf8("::") + utf8(m) + events),
        DBKey::FT(a, o) => Some(utf8("ft::") + utf8(a) + utf8("@") + utf8(o)),
        DBKey::FTScan(a) => Some(utf8("ft::") + utf8(a) + utf8("@")),
        DBKey::FTEvent(a, b, e) => Some(utf8("ft::") + utf8(a) + events + event_suffix(b, e)),
        DBKey::FTEventScanBlock(a, b) => Some(
            utf8("ft::") + utf8(a) + events + padded(b as nat, INDEX_WIDTH as nat).push(47u8),
        ),
        DBKey::FTEventScan(a) => Some(utf8("ft::") + utf8(a) + events),
        DBKey::NFT(a, k) => match hex_decode(k@) {
            Some(kb) => Some(utf8("nft::") + utf8(a) + utf8("::id@") + kb),
            None => None,
        },
        DBKey::NFTScan(a) => Some(utf8("nft::") + utf8(a) + utf8("::id@")),
        DBKey::NFTEvent(a, b, e) => Some(utf8("nft::") + utf8(a) + events + event_suffix(b, e)),
        DBKey::NFTEventScan(a) => Some(utf8("nft::") + utf8(a) + events),
        DBKey::NFTEventScanBlock(a, b) => Some(
            utf8("nft::") + utf8(a) + events + padded(b as nat, INDEX_WIDTH as nat).push(47u8),
        ),
    }
}

fn push_str(out: &mut Vec<u8>, s: &str)
    ensures
        final(out)@ == old(out)@ + utf8(s),
{
    let b = s.as_bytes();
    let ghost start = out@;
    let mut i: usize = 0;
    while i < b.len()
        invariant
            i <= b@.len(),
            b@ == utf8(s),
            out@ == start + b@.take(i as int),
        decreases b@.len() - i,
    {
        out.push(b[i]);
        assert(b@.take(i + 1) =~= b@.take(i as int).push(b@[i as int]));
        i += 1;
    }
    assert(b@.take(i as int) =~= b@);
}

fn push_bytes(out: &mut Vec<u8>, b: &Vec<u8>)
    ensures
        final(out)@ == old(out)@ + b@,
{
    let ghost start = out@;
    let mut i: usize = 0;
    while i < b.len()
        invariant
            i <= b@.len(),
            out@ == start + b@.take(i as int),
        decreases b@.len() - i,
    {
        out.push(b[i]);
        assert(b@.take(i + 1) =~= b@.take(i as int).push(b@[i as int]));
        i += 1;
    }
    assert(b@.take(i as int) =~= b@);
}

fn push_padded(out: &mut Vec<u8>, n: u64, width: usize)
    ensures
        final(out)@ == old(out)@ + padded(n as nat, width as nat),
    decreases width,
{
    if width > 0 {
        push_padded(out, n / 10, width - 1);
        out.push(48 + (n % 10) as u8);
        assert(padded(n as nat, width as nat) == padded((n / 10) as nat, (width - 1) as nat).push(
            (48 + n % 10) as u8,
        ));
    } else {
        assert(padded(n as nat, 0) =~= Seq::<u8>::empty());
    }
}

fn push_event_suffix(out: &mut Vec<u8>, block_index: u64, event_index: u64)
    ensures
        final(out)@ == old(out)@ + event_suffix(block_index, event_index),
{
    push_padded(out, block_index, INDEX_WIDTH);
    out.push(47u8);
    push_padded(out, event_index, INDEX_WIDTH);
}

/// Starts a key with a tag, the contract, a separator and a field name.
fn field_key(tag: &str, contract_id: &str, name: &str) -> (r: Vec<u8>)
    ensures
        r@ == utf8(tag) + utf8(contract_id) + utf8("::") + utf8(name),
{
    let mut out: Vec<u8> = Vec::new();
    push_str(&mut out, tag);
    push_str(&mut out, contract_id);
    push_str(&mut out, "::");
    push_str(&mut out, name);
    out
}

/// Starts a key with a tag and an asset class.
fn asset_key(tag: &str, asset: &str) -> (r: Vec<u8>)
    ensures
        r@ == utf8(tag) + utf8(asset),
{
    let mut out: Vec<u8> = Vec::new();
    push_str(&mut out, tag);
    push_str(&mut out, asset);
    out
}

/// The bytes of the key of a record of the contract `contract_id`; `None`
/// when a hex key or token id does not decode.
pub fn db_key(key: DBKey, contract_id: &str) -> (r: Option<Vec<u8>>)
    ensures
        match key_bytes(key, contract_id) {
            Some(k) => r is Some && r->Some_0@ == k,
            None => r is None,
        },
{
    let ghost c = utf8(contract_id);
    match key {
        DBKey::FullAnalysis => {
            let mut out = Vec::new();
            push_str(&mut out, contract_id);
            push_str(&mut out, "::#analysis");
            Some(out)
        },
        DBKey::Interface => {
            let mut out = Vec::new();
            push_str(&mut out, contract_id);
            push_str(&mut out, "::#interface");
            Some(out)
        },
        DBKey::Var(v) => Some(field_key("var::", contract_id, v)),
        DBKey::VarEvent(v, b, e) => {
            let mut out = field_key("var::", contract_id, v);
            push_str(&mut out, "#events::");
            push_event_suffix(&mut out, b, e);
            Some(out)
        },
        DBKey::VarEventScanBlock(v, b) => {
            let mut out = field_key("var::", contract_id, v);
            push_str(&mut out, "#events::");
            push_padded(&mut out, b, INDEX_WIDTH);
            out.push(47u8);
            Some(out)
        },
        DBKey::VarEventScan(v) => {
            let mut out = field_key("var::", contract_id, v);
            push_str(&mut out, "#events::");
            Some(out)
        },
        DBKey::MapEntry(m, k) => match hex_bytes(k) {
            Some(kb) => {
                let mut out = field_key("map::", contract_id, m);
                push_str(&mut out, "@");
                push_bytes(&mut out, &kb);
                Some(out)
            },
            None => None,
        },
        DBKey::MapScan(m) => {
            let mut out = field_key("map::", contract_id, m);
            push_str(&mut out, "@");
            Some(out)
        },
        DBKey::MapEvent(m, b, e) => {
            let mut out = field_key("map::", contract_id, m);
            push_str(&mut out, "#events::");
            push_event_suffix(&mut out, b, e);
            Some(out)
        },
        DBKey::MapEventScanBlock(m, b) => {
            let mut out = field_key("map::", contract_id, m);
            push_str(&mut out, "#events::");
            push_padded(&mut out, b, INDEX_WIDTH);
            out.push(47u8);
            Some(out)
        },
        DBKey::MapEventScan(m) => {
            let mut out = field_key("map::", contract_id, m);
            push_str(&mut out, "#events::");
            Some(out)
        },
        DBKey::FT(a, o) => {
            let mut out = asset_key("ft::", a);
            push_str(&mut out, "@");
            push_str(&mut out, o);
            Some(out)
        },
        DBKey::FTScan(a) => {
            let mut out = asset_key("ft::", a);
            push_str(&mut out, "@");
            Some(out)
        },
        DBKey::FTEvent(a, b, e) => {
            let mut out = asset_key("ft::", a);
            push_str(&mut out, "#events::");
            push_event_suffix(&mut out, b, e);
            Some(out)
        },
        DBKey::FTEventScanBlock(a, b) => {
            let mut out = asset_key("ft::", a);
            push_str(&mut out, "#events::");
            push_padded(&mut out, b, INDEX_WIDTH);
            out.push(47u8);
            Some(out)
        },
        DBKey::FTEventScan(a) => {
            let mut out = asset_key("ft::", a);
            push_str(&mut out, "#events::");
            Some(out)
        },
        DBKey::NFT(a, k) => match hex_bytes(k) {
            Some(kb) => {
                let mut out = asset_key("nft::", a);
                push_str(&mut out, "::id@");
                push_bytes(&mut out, &kb);
                Some(out)
            },
            None => None,
        },
        DBKey::NFTScan(a) => {
            let mut out = asset_key("nft::", a);
            push_str(&mut out, "::id@");
            Some(out)
        },
        DBKey::NFTEvent(a, b, e) => {
            let mut out = asset_key("nft::", a);
            push_str(&mut out, "#events::");
            push_event_suffix(&mut out, b, e);
            Some(out)
        },
        DBKey::NFTEventScan(a) => {
            let mut out = asset_key("nft::", a);
            push_str(&mut out, "#events::");
            Some(out)
        },
        DBKey::NFTEventScanBlock(a, b) => {
            let mut out = asset_key("nft::", a);
            push_str(&mut out, "#events::");
            push_padded(&mut out, b, INDEX_WIDTH);
            out.push(47u8);
            Some(out)
        },
    }
}

proof fn lemma_padded_len(n: nat, w: nat)
    ensures
        padded(n, w).len() == w,
    decreases w,
{
    if w > 0 {
        lemma_padded_len(n / 10, (w - 1) as nat);
    }
}

/// Below `10^w`, a smaller number has the smaller padded form: the first
/// digit where the two differ is smaller.
proof fn lemma_padded_lt(n: nat, m: nat, w: nat) -> (i: int)
    requires
        n < m < pow10(w),
    ensures
        0 <= i < w,
        padded(n, w).len() == w,
        padded(m, w).len() == w,
        padded(n, w).take(i) == padded(m, w).take(i),
        padded(n, w)[i] < padded(m, w)[i],
    decreases w,
{
    lemma_padded_len(n, w);
    lemma_padded_len(m, w);
    let w1 = (w - 1) as nat;
    assert(w > 0);
    assert(pow10(w) == 10 * pow10(w1));
    assert(n / 10 <= m / 10) by (nonlinear_arith)
        requires
            n < m,
    ;
    assert(m / 10 < pow10(w1)) by (nonlinear_arith)
        requires
            m < 10 * pow10(w1),
    ;
    lemma_padded_len(n / 10, w1);
    lemma_padded_len(m / 10, w1);
    let pn = padded(n / 10, w1);
    let pm = padded(m / 10, w1);
    if n / 10 == m / 10 {
        assert(n % 10 < m % 10) by (nonlinear_arith)
            requires
                n < m,
                n / 10 == m / 10,
        ;
        assert(padded(n, w).take(w1 as int) =~= pn);
        assert(padded(m, w).take(w1 as int) =~= pm);
        w1 as int
    } else {
        let i = lemma_padded_lt(n / 10, m / 10, w1);
        assert(padded(n, w).take(i) =~= pn.take(i));
        assert(padded(m, w).take(i) =~= pm.take(i));
        i
    }
}

proof fn lemma_u64_fits_index_width(n: u64)
    ensures
        (n as nat) < pow10(INDEX_WIDTH as nat),
{
    reveal_with_fuel(pow10, 21);
    assert(pow10(20) == 100000000000000000000nat);
}

/// Event keys of one field sort as their (block index, event index) pairs
/// do, so a prefix scan yields them in log order, and two positions never
/// share a key.
pub proof fn lemma_event_keys_ordered(prefix: Seq<u8>, b1: u64, e1: u64, b2: u64, e2: u64)
    requires
        b1 < b2 || (b1 == b2 && e1 < e2),
    ensures
        bytes_lt(prefix + event_suffix(b1, e1), prefix + event_suffix(b2, e2)),
        prefix + event_suffix(b1, e1) != prefix + event_suffix(b2, e2),
{
    let w = INDEX_WIDTH as nat;
    let k1 = prefix + event_suffix(b1, e1);
    let k2 = prefix + event_suffix(b2, e2);
    let p = prefix.len() as int;
    lemma_padded_len(b1 as nat, w);
    lemma_padded_len(b2 as nat, w);
    lemma_padded_len(e1 as nat, w);
    lemma_padded_len(e2 as nat, w);
    if b1 < b2 {
        lemma_u64_fits_index_width(b2);
        let i = lemma_padded_lt(b1 as nat, b2 as nat, w);
        assert(k1.take(p + i) =~= prefix + padded(b1 as nat, w).take(i));
        assert(k2.take(p + i) =~= prefix + padded(b2 as nat, w).take(i));
        assert(k1[p + i] == padded(b1 as nat, w)[i]);
        assert(k2[p + i] == padded(b2 as nat, w)[i]);
        assert(k1[p + i] < k2[p + i]);
    } else {
        lemma_u64_fits_index_width(e2);
        let i = lemma_padded_lt(e1 as nat, e2 as nat, w);
        let j = p + w + 1 + i;
        assert(k1.take(j) =~= prefix + padded(b1 as nat, w).push(47u8) + padded(e1 as nat, w).take(i));
        assert(k2.take(j) =~= prefix + padded(b2 as nat, w).push(47u8) + padded(e2 as nat, w).take(i));
        assert(k1[j] == padded(e1 as nat, w)[i]);
        assert(k2[j] == padded(e2 as nat, w)[i]);
        assert(k1[j] < k2[j]);
    }
}

/// Each event key is its field's scan prefix followed by the ordering
/// suffix, so a prefix scan finds exactly the field's events.
pub proof fn lemma_event_key_extends_scan(field: &str, contract: &str, block_index: u64, event_index: u64)
    ensures
        key_bytes(DBKey::VarEvent(field, block_index, event_index), contract)->Some_0 == key_bytes(
            DBKey::VarEventScan(field),
            contract,
        )->Some_0 + event_suffix(block_index, event_index),
        key_bytes(DBKey::MapEvent(field, block_index, event_index), contract)->Some_0 == key_bytes(
            DBKey::MapEventScan(field),
            contract,
        )->Some_0 + event_suffix(block_index, event_index),
        key_bytes(DBKey::FTEvent(field, block_index, event_index), contract)->Some_0 == key_bytes(
            DBKey::FTEventScan(field),
            contract,
        )->Some_0 + event_suffix(block_index, event_index),
        key_bytes(DBKey::NFTEvent(field, block_index, event_index), contract)->Some_0 == key_bytes(
            DBKey::NFTEventScan(field),
            contract,
        )->Some_0 + event_suffix(block_index, event_index),
{
}

} // verus!

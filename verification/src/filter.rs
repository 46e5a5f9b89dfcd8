//! Claim extraction: fishes every elementary claim out of one ledger
//! close — classic offer and path-payment outcomes of successful
//! transactions, and the AMM router's swap events — and hands each claim
//! to the classifier.

use vstd::prelude::*;

use crate::asset::{contract_strkey_of, hash_to_strkey, Registry};
use crate::model::{ContractEventIn, ElementaryClaim, EventMapEntry, EventValue, LedgerClose,
    OperationOutcome, TransactionOutcome, ClaimAsset};
use crate::swap::{lemma_classify_congruent, same_claim, spec_classify, Swap, SwapView};
use crate::text::{make_string, string_eq};

verus! {

/// The views of a sequence of swaps.
pub open spec fn swap_views(s: Seq<Swap>) -> Seq<SwapView> {
    s.map_values(|x: Swap| x@)
}

/// The swaps one claim contributes: one when it qualifies, none else.
pub open spec fn classify_one(registry: Registry, claim: ElementaryClaim) -> Seq<SwapView> {
    match spec_classify(registry, claim) {
        Some(v) => seq![v],
        None => Seq::empty(),
    }
}

/// The swaps a sequence of claims contributes, in claim order.
pub open spec fn classify_all(registry: Registry, claims: Seq<ElementaryClaim>) -> Seq<SwapView>
    decreases claims.len(),
{
    if claims.len() == 0 {
        Seq::empty()
    } else {
        classify_all(registry, claims.drop_last()) + classify_one(registry, claims.last())
    }
}

/// Classification distributes over concatenation of claim batches.
pub proof fn lemma_classify_all_concat(
    registry: Registry,
    a: Seq<ElementaryClaim>,
    b: Seq<ElementaryClaim>,
)
    ensures
        classify_all(registry, a + b) == classify_all(registry, a) + classify_all(registry, b),
    decreases b.len(),
{
    if b.len() == 0 {
        assert(a + b =~= a);
        assert(classify_all(registry, a) + Seq::<SwapView>::empty() =~= classify_all(registry, a));
    } else {
        lemma_classify_all_concat(registry, a, b.drop_last());
        assert((a + b).drop_last() =~= a + b.drop_last());
        assert((a + b).last() == b.last());
        assert(classify_all(registry, a) + classify_all(registry, b.drop_last()) + classify_one(
            registry,
            b.last(),
        ) =~= classify_all(registry, a) + (classify_all(registry, b.drop_last()) + classify_one(
            registry,
            b.last(),
        )));
    }
}

/// The claims one operation outcome carries.
pub open spec fn claims_of_operation(op: OperationOutcome) -> Seq<ElementaryClaim> {
    match op {
        OperationOutcome::Offer { fill: Some(c) } => seq![c],
        OperationOutcome::Offer { fill: None } => Seq::empty(),
        OperationOutcome::PathPayment { fills } => fills@,
        OperationOutcome::Other => Seq::empty(),
    }
}

/// The claims a sequence of operation outcomes carries, in order.
pub open spec fn claims_of_operations(ops: Seq<OperationOutcome>) -> Seq<ElementaryClaim>
    decreases ops.len(),
{
    if ops.len() == 0 {
        Seq::empty()
    } else {
        claims_of_operations(ops.drop_last()) + claims_of_operation(ops.last())
    }
}

/// The claims one transaction carries: none unless it succeeded.
pub open spec fn claims_of_transaction(tx: TransactionOutcome) -> Seq<ElementaryClaim> {
    if tx.successful {
        claims_of_operations(tx.operations@)
    } else {
        Seq::empty()
    }
}

/// The claims a block's transactions carry, in order.
pub open spec fn claims_of_transactions(txs: Seq<TransactionOutcome>) -> Seq<ElementaryClaim>
    decreases txs.len(),
{
    if txs.len() == 0 {
        Seq::empty()
    } else {
        claims_of_transactions(txs.drop_last()) + claims_of_transaction(txs.last())
    }
}

/// Pushes the swap a claim classifies to, if any.
fn classify_into(out: &mut Vec<Swap>, claim: &ElementaryClaim, registry: &Registry)
    requires
        forall|k: int|
            0 <= k < old(out)@.len() ==> (#[trigger] old(out)@[k]).valid()
                && old(out)@[k].created_at is None,
    ensures
        swap_views(final(out)@) == swap_views(old(out)@) + classify_one(*registry, *claim),
        forall|k: int|
            0 <= k < final(out)@.len() ==> (#[trigger] final(out)@[k]).valid()
                && final(out)@[k].created_at is None,
{
    match crate::swap::classify_claim(claim, registry) {
        Some(swap) => {
            out.push(swap);
            proof {
                assert(swap_views(out@) =~= swap_views(old(out)@) + classify_one(
                    *registry,
                    *claim,
                ));
            }
        },
        None => {
            proof {
                assert(swap_views(out@) =~= swap_views(old(out)@) + classify_one(
                    *registry,
                    *claim,
                ));
            }
        },
    }
}

/// Extracts and classifies the claims of a slice of path-payment fills.
fn classify_fills(out: &mut Vec<Swap>, fills: &Vec<ElementaryClaim>, registry: &Registry)
    requires
        forall|k: int|
            0 <= k < old(out)@.len() ==> (#[trigger] old(out)@[k]).valid()
                && old(out)@[k].created_at is None,
    ensures
        swap_views(final(out)@) == swap_views(old(out)@) + classify_all(*registry, fills@),
        forall|k: int|
            0 <= k < final(out)@.len() ==> (#[trigger] final(out)@[k]).valid()
                && final(out)@[k].created_at is None,
{
    let mut i: usize = 0;
    proof {
        assert(fills@.take(0) =~= Seq::<ElementaryClaim>::empty());
        assert(swap_views(out@) =~= swap_views(out@) + classify_all(*registry, fills@.take(0)));
    }
    while i < fills.len()
        invariant
            i <= fills.len(),
            swap_views(out@) == swap_views(old(out)@) + classify_all(
                *registry,
                fills@.take(i as int),
            ),
            forall|k: int|
                0 <= k < out@.len() ==> (#[trigger] out@[k]).valid()
                    && out@[k].created_at is None,
        decreases fills.len() - i,
    {
        proof {
            assert(fills@.take(i + 1).drop_last() =~= fills@.take(i as int));
            assert(fills@.take(i + 1).last() == fills@[i as int]);
        }
        classify_into(out, &fills[i], registry);
        proof {
            assert(swap_views(old(out)@) + classify_all(*registry, fills@.take(i as int))
                + classify_one(*registry, fills@[i as int]) =~= swap_views(old(out)@)
                + classify_all(*registry, fills@.take(i + 1)));
        }
        i = i + 1;
    }
    proof {
        assert(fills@.take(fills@.len() as int) =~= fills@);
    }
}

/// Fishes every classic swap out of a block's transaction outcomes:
/// successful transactions only, every claim of every operation, each
/// classified in order.
pub fn swaps(transaction_results: &Vec<TransactionOutcome>, registry: &Registry) -> (r: Vec<Swap>)
    ensures
        swap_views(r@) == classify_all(*registry, claims_of_transactions(transaction_results@)),
        forall|k: int|
            0 <= k < r@.len() ==> (#[trigger] r@[k]).valid() && r@[k].created_at is None,
{
    let mut out: Vec<Swap> = Vec::new();
    let mut i: usize = 0;
    proof {
        assert(transaction_results@.take(0) =~= Seq::<TransactionOutcome>::empty());
        assert(swap_views(out@) =~= classify_all(
            *registry,
            claims_of_transactions(transaction_results@.take(0)),
        ));
    }
    while i < transaction_results.len()
        invariant
            i <= transaction_results.len(),
            swap_views(out@) == classify_all(
                *registry,
                claims_of_transactions(transaction_results@.take(i as int)),
            ),
            forall|k: int|
                0 <= k < out@.len() ==> (#[trigger] out@[k]).valid() && out@[k].created_at is None,
        decreases transaction_results.len() - i,
    {
        let ghost pre = claims_of_transactions(transaction_results@.take(i as int));
        proof {
            assert(transaction_results@.take(i + 1).drop_last() =~= transaction_results@.take(
                i as int,
            ));
            assert(transaction_results@.take(i + 1).last() == transaction_results@[i as int]);
        }
        let tx = &transaction_results[i];
        if tx.successful {
            let ghost ops_seq = tx.operations@;
            let mut j: usize = 0;
            proof {
                assert(ops_seq.take(0) =~= Seq::<OperationOutcome>::empty());
                lemma_classify_all_concat(*registry, pre, claims_of_operations(ops_seq.take(0)));
                assert(pre + claims_of_operations(ops_seq.take(0)) =~= pre);
            }
            while j < tx.operations.len()
                invariant
                    j <= tx.operations.len(),
                    ops_seq == tx.operations@,
                    swap_views(out@) == classify_all(*registry, pre) + classify_all(
                        *registry,
                        claims_of_operations(ops_seq.take(j as int)),
                    ),
                    forall|k: int|
                        0 <= k < out@.len() ==> (#[trigger] out@[k]).valid()
                            && out@[k].created_at is None,
                decreases tx.operations.len() - j,
            {
                let ghost ops_pre = claims_of_operations(ops_seq.take(j as int));
                proof {
                    assert(ops_seq.take(j + 1).drop_last() =~= ops_seq.take(j as int));
                    assert(ops_seq.take(j + 1).last() == ops_seq[j as int]);
                }
                match &tx.operations[j] {
                    OperationOutcome::Offer { fill: Some(c) } => {
                        classify_into(&mut out, c, registry);
                        proof {
                            assert(claims_of_operation(ops_seq[j as int]) =~= seq![*c]);
                            assert(seq![*c].drop_last() =~= Seq::<ElementaryClaim>::empty());
                            assert(classify_all(*registry, Seq::<ElementaryClaim>::empty()) =~= Seq::<
                                SwapView,
                            >::empty());
                            assert(classify_all(*registry, seq![*c]) =~= classify_one(
                                *registry,
                                *c,
                            ));
                            lemma_classify_all_concat(
                                *registry,
                                ops_pre,
                                claims_of_operation(ops_seq[j as int]),
                            );
                        }
                    },
                    OperationOutcome::Offer { fill: None } => {
                        proof {
                            assert(claims_of_operation(ops_seq[j as int]) =~= Seq::<
                                ElementaryClaim,
                            >::empty());
                            lemma_classify_all_concat(
                                *registry,
                                ops_pre,
                                claims_of_operation(ops_seq[j as int]),
                            );
                            assert(classify_all(*registry, ops_pre) + classify_all(
                                *registry,
                                Seq::<ElementaryClaim>::empty(),
                            ) =~= classify_all(*registry, ops_pre));
                        }
                    },
                    OperationOutcome::PathPayment { fills } => {
                        classify_fills(&mut out, fills, registry);
                        proof {
                            assert(claims_of_operation(ops_seq[j as int]) == fills@);
                            lemma_classify_all_concat(*registry, ops_pre, fills@);
                        }
                    },
                    OperationOutcome::Other => {
                        proof {
                            assert(claims_of_operation(ops_seq[j as int]) =~= Seq::<
                                ElementaryClaim,
                            >::empty());
                            lemma_classify_all_concat(
                                *registry,
                                ops_pre,
                                claims_of_operation(ops_seq[j as int]),
                            );
                            assert(classify_all(*registry, ops_pre) + classify_all(
                                *registry,
                                Seq::<ElementaryClaim>::empty(),
                            ) =~= classify_all(*registry, ops_pre));
                        }
                    },
                }
                proof {
                    assert(claims_of_operations(ops_seq.take(j + 1)) == claims_of_operations(
                        ops_seq.take(j as int),
                    ) + claims_of_operation(ops_seq[j as int]));
                    assert(classify_all(*registry, pre) + (classify_all(*registry, ops_pre)
                        + classify_all(*registry, claims_of_operation(ops_seq[j as int])))
                        =~= classify_all(*registry, pre) + classify_all(
                        *registry,
                        claims_of_operations(ops_seq.take(j + 1)),
                    ));
                }
                j = j + 1;
            }
            proof {
                assert(ops_seq.take(ops_seq.len() as int) =~= ops_seq);
                assert(claims_of_transaction(transaction_results@[i as int])
                    == claims_of_operations(ops_seq));
                lemma_classify_all_concat(
                    *registry,
                    pre,
                    claims_of_transaction(transaction_results@[i as int]),
                );
            }
        } else {
            proof {
                assert(claims_of_transaction(transaction_results@[i as int]) =~= Seq::<
                    ElementaryClaim,
                >::empty());
                lemma_classify_all_concat(
                    *registry,
                    pre,
                    claims_of_transaction(transaction_results@[i as int]),
                );
                assert(pre + Seq::<ElementaryClaim>::empty() =~= pre);
            }
        }
        i = i + 1;
    }
    proof {
        assert(transaction_results@.take(transaction_results@.len() as int)
            =~= transaction_results@);
    }
    out
}

/// Whether an event topic is the AMM swap marker symbol.
pub open spec fn topic_is_swap(t: EventValue) -> bool {
    match t {
        EventValue::Symbol(s) => s@ == "swap"@,
        _ => false,
    }
}

/// Whether any topic of the event is the swap marker.
pub open spec fn has_swap_topic(topics: Seq<EventValue>) -> bool {
    exists|i: int| 0 <= i < topics.len() && topic_is_swap(topics[i])
}

/// Whether an event is one of the router's swap events: emitted by the
/// router contract and marked with the swap topic.
pub open spec fn event_selected(registry: Registry, e: ContractEventIn) -> bool {
    e.contract_id@.len() == 32 && contract_strkey_of(e.contract_id@) == registry.router@
        && has_swap_topic(e.topics@)
}

/// The list under the first entry with this key, if that entry holds one.
pub open spec fn find_map_list(entries: Seq<EventMapEntry>, key: Seq<char>) -> Option<
    Vec<EventValue>,
>
    decreases entries.len(),
{
    if entries.len() == 0 {
        None
    } else if entries[0].key@ == key {
        match entries[0].val {
            EventValue::List(items) => Some(items),
            _ => None,
        }
    } else {
        find_map_list(entries.drop_first(), key)
    }
}

/// The signed 128-bit integer split into a high and a low half.
pub open spec fn i128_value(hi: i64, lo: u64) -> int {
    hi * 0x1_0000_0000_0000_0000 + lo
}

/// Whether a mathematical integer fits a 64-bit signed amount.
pub open spec fn fits_i64(v: int) -> bool {
    i64::MIN <= v <= i64::MAX
}

/// The claim one consecutive asset/amount pair of an AMM route decodes
/// to: both amounts must be 128-bit integers in 64-bit range and both
/// assets contract addresses; anything else is malformed and ignored.
pub open spec fn claim_of_pair(
    a0: EventValue,
    a1: EventValue,
    m0: EventValue,
    m1: EventValue,
) -> Option<ElementaryClaim> {
    match (m0, m1) {
        (EventValue::I128 { hi: h0, lo: l0 }, EventValue::I128 { hi: h1, lo: l1 }) => {
            if fits_i64(i128_value(h0, l0)) && fits_i64(i128_value(h1, l1)) {
                match (a0, a1) {
                    (EventValue::Address(c0), EventValue::Address(c1)) => Some(
                        ElementaryClaim {
                            asset_sold: ClaimAsset::Pool { contract: c0 },
                            amount_sold: i128_value(h0, l0) as i64,
                            asset_bought: ClaimAsset::Pool { contract: c1 },
                            amount_bought: i128_value(h1, l1) as i64,
                        },
                    ),
                    _ => None,
                }
            } else {
                None
            }
        },
        _ => None,
    }
}

/// The claims of a claim, as a sequence of zero or one.
pub open spec fn opt_claim_seq(c: Option<ElementaryClaim>) -> Seq<ElementaryClaim> {
    match c {
        Some(claim) => seq![claim],
        None => Seq::empty(),
    }
}

/// The claims of the first `n` consecutive pairs of an AMM route.
pub open spec fn claims_of_path_prefix(
    path: Seq<EventValue>,
    amounts: Seq<EventValue>,
    n: int,
) -> Seq<ElementaryClaim>
    decreases n,
{
    if n <= 0 {
        Seq::empty()
    } else {
        claims_of_path_prefix(path, amounts, n - 1) + opt_claim_seq(
            claim_of_pair(path[n - 1], path[n], amounts[n - 1], amounts[n]),
        )
    }
}

/// How many consecutive pairs a route of these lengths yields: one less
/// than the shorter of the two lists, and none for empty lists.
pub open spec fn pair_count(path_len: int, amounts_len: int) -> int {
    let m = if path_len <= amounts_len {
        path_len
    } else {
        amounts_len
    };
    if m >= 1 {
        m - 1
    } else {
        0
    }
}

/// All claims an AMM route yields: a path of length `n` gives `n - 1`
/// claims from consecutive asset/amount pairs.
pub open spec fn claims_of_amm_path(path: Seq<EventValue>, amounts: Seq<EventValue>) -> Seq<
    ElementaryClaim,
> {
    claims_of_path_prefix(path, amounts, pair_count(path.len() as int, amounts.len() as int))
}

/// The claims one contract event yields: nothing unless it is a selected
/// router swap event whose payload is a map; then the claims of its path
/// and amounts lists, either list defaulting to empty when missing.
pub open spec fn claims_of_event(registry: Registry, e: ContractEventIn) -> Seq<ElementaryClaim> {
    if event_selected(registry, e) {
        match e.data {
            EventValue::MapEntries(entries) => {
                let path = match find_map_list(entries@, "path"@) {
                    Some(p) => p@,
                    None => Seq::empty(),
                };
                let amounts = match find_map_list(entries@, "amounts"@) {
                    Some(a) => a@,
                    None => Seq::empty(),
                };
                claims_of_amm_path(path, amounts)
            },
            _ => Seq::empty(),
        }
    } else {
        Seq::empty()
    }
}

/// The claims a block's events yield, in order.
pub open spec fn claims_of_events(registry: Registry, events: Seq<ContractEventIn>) -> Seq<
    ElementaryClaim,
>
    decreases events.len(),
{
    if events.len() == 0 {
        Seq::empty()
    } else {
        claims_of_events(registry, events.drop_last()) + claims_of_event(registry, events.last())
    }
}

/// Finds the list stored under a key of an event-value map, taking the
/// first entry with that key.
pub fn scmap_get<'a>(entries: &'a Vec<EventMapEntry>, key: &String) -> (r: Option<
    &'a Vec<EventValue>,
>)
    ensures
        match r {
            Some(items) => find_map_list(entries@, key@) == Some(*items),
            None => find_map_list(entries@, key@) is None,
        },
{
    proof {
        assert(entries@.skip(0) =~= entries@);
    }
    let mut i: usize = 0;
    while i < entries.len()
        invariant
            i <= entries.len(),
            find_map_list(entries@, key@) == find_map_list(entries@.skip(i as int), key@),
        decreases entries.len() - i,
    {
        proof {
            assert(entries@.skip(i as int).drop_first() =~= entries@.skip(i + 1));
            assert(entries@.skip(i as int)[0] == entries@[i as int]);
        }
        if string_eq(&entries[i].key, key) {
            match &entries[i].val {
                EventValue::List(items) => {
                    return Some(items);
                },
                _ => {
                    return None;
                },
            }
        }
        i = i + 1;
    }
    proof {
        assert(entries@.skip(entries@.len() as int) =~= Seq::<EventMapEntry>::empty());
    }
    None
}

/// Reports whether one topic value is the swap marker symbol.
fn is_swap_marker(t: &EventValue, marker: &String) -> (r: bool)
    requires
        marker@ == "swap"@,
    ensures
        r == topic_is_swap(*t),
{
    match t {
        EventValue::Symbol(s) => string_eq(s, marker),
        _ => false,
    }
}

/// Reports whether any topic carries the swap marker symbol.
fn topics_have_swap_marker(topics: &Vec<EventValue>) -> (r: bool)
    ensures
        r == has_swap_topic(topics@),
{
    let marker = make_string("swap");
    let mut i: usize = 0;
    while i < topics.len()
        invariant
            i <= topics.len(),
            marker@ == "swap"@,
            forall|j: int| 0 <= j < i ==> !topic_is_swap(topics@[j]),
        decreases topics.len() - i,
    {
        if is_swap_marker(&topics[i], &marker) {
            return true;
        }
        i = i + 1;
    }
    false
}

/// Selects the router's swap events: the event must come from the router
/// contract and carry the swap topic; its payload is handed back.
pub fn soroswap_event<'a>(event: &'a ContractEventIn, registry: &Registry) -> (r: Option<
    &'a EventValue,
>)
    ensures
        r is Some <==> event_selected(*registry, *event),
        r is Some ==> *r->0 == event.data,
{
    if event.contract_id.len() != 32 {
        return None;
    }
    let address = hash_to_strkey(&event.contract_id);
    if !string_eq(&address, &registry.router) {
        return None;
    }
    if topics_have_swap_marker(&event.topics) {
        Some(&event.data)
    } else {
        None
    }
}

/// Decodes a split 128-bit amount, rejecting values outside 64-bit range.
fn decode_amount(value: &EventValue) -> (r: Option<i64>)
    ensures
        match (r, *value) {
            (Some(v), EventValue::I128 { hi, lo }) => fits_i64(i128_value(hi, lo)) && v
                == i128_value(hi, lo) as i64,
            (None, EventValue::I128 { hi, lo }) => !fits_i64(i128_value(hi, lo)),
            (Some(_), _) => false,
            (None, _) => true,
        },
{
    match value {
        EventValue::I128 { hi, lo } => {
            let wide: i128 = (*hi as i128) * 0x1_0000_0000_0000_0000i128 + (*lo as i128);
            if i64::MIN as i128 <= wide && wide <= i64::MAX as i128 {
                Some(wide as i64)
            } else {
                None
            }
        },
        _ => None,
    }
}

/// Builds and classifies the claims of an AMM route's consecutive
/// asset/amount pairs.
fn classify_amm_path(
    out: &mut Vec<Swap>,
    path: &Vec<EventValue>,
    amounts: &Vec<EventValue>,
    registry: &Registry,
)
    requires
        forall|k: int|
            0 <= k < old(out)@.len() ==> (#[trigger] old(out)@[k]).valid()
                && old(out)@[k].created_at is None,
    ensures
        swap_views(final(out)@) == swap_views(old(out)@) + classify_all(
            *registry,
            claims_of_amm_path(path@, amounts@),
        ),
        forall|k: int|
            0 <= k < final(out)@.len() ==> (#[trigger] final(out)@[k]).valid()
                && final(out)@[k].created_at is None,
{
    let shorter: usize = if path.len() <= amounts.len() {
        path.len()
    } else {
        amounts.len()
    };
    let count: usize = if shorter >= 1 {
        shorter - 1
    } else {
        0
    };
    proof {
        assert(count as int == pair_count(path@.len() as int, amounts@.len() as int));
    }
    let mut k: usize = 0;
    proof {
        assert(swap_views(out@) =~= swap_views(out@) + classify_all(
            *registry,
            claims_of_path_prefix(path@, amounts@, 0),
        ));
    }
    while k < count
        invariant
            k <= count,
            count == 0 || (count + 1 <= path@.len() && count + 1 <= amounts@.len()),
            swap_views(out@) == swap_views(old(out)@) + classify_all(
                *registry,
                claims_of_path_prefix(path@, amounts@, k as int),
            ),
            forall|j: int|
                0 <= j < out@.len() ==> (#[trigger] out@[j]).valid()
                    && out@[j].created_at is None,
        decreases count - k,
    {
        let ghost prefix = claims_of_path_prefix(path@, amounts@, k as int);
        let pair_claim: Option<ElementaryClaim> = match (
            decode_amount(&amounts[k]),
            decode_amount(&amounts[k + 1]),
        ) {
            (Some(sold), Some(bought)) => {
                match (&path[k], &path[k + 1]) {
                    (EventValue::Address(c0), EventValue::Address(c1)) => Some(
                        ElementaryClaim {
                            asset_sold: ClaimAsset::Pool { contract: c0.clone() },
                            amount_sold: sold,
                            asset_bought: ClaimAsset::Pool { contract: c1.clone() },
                            amount_bought: bought,
                        },
                    ),
                    _ => None,
                }
            },
            _ => None,
        };
        let ghost spec_pair = claim_of_pair(
            path@[k as int],
            path@[k + 1],
            amounts@[k as int],
            amounts@[k + 1],
        );
        proof {
            assert(pair_claim is Some <==> spec_pair is Some);
            if pair_claim is Some {
                assert(same_claim(pair_claim->0, spec_pair->0));
                lemma_classify_congruent(*registry, pair_claim->0, spec_pair->0);
            }
        }
        match &pair_claim {
            Some(claim) => {
                classify_into(out, claim, registry);
                proof {
                    assert(claims_of_path_prefix(path@, amounts@, k + 1) == prefix + opt_claim_seq(
                        spec_pair,
                    ));
                    lemma_classify_all_concat(*registry, prefix, opt_claim_seq(spec_pair));
                    assert(seq![spec_pair->0].drop_last() =~= Seq::<ElementaryClaim>::empty());
                    assert(classify_all(*registry, Seq::<ElementaryClaim>::empty()) =~= Seq::<
                        SwapView,
                    >::empty());
                    assert(classify_all(*registry, opt_claim_seq(spec_pair)) =~= classify_one(
                        *registry,
                        spec_pair->0,
                    ));
                    assert(classify_one(*registry, *claim) == classify_one(*registry, spec_pair->0));
                    assert(swap_views(out@) =~= swap_views(old(out)@) + classify_all(
                        *registry,
                        claims_of_path_prefix(path@, amounts@, k + 1),
                    ));
                }
            },
            None => {
                proof {
                    assert(claims_of_path_prefix(path@, amounts@, k + 1) == prefix + opt_claim_seq(
                        spec_pair,
                    ));
                    assert(prefix + opt_claim_seq(spec_pair) =~= prefix);
                }
            },
        }
        k = k + 1;
    }
}

/// Fishes every AMM swap out of a block's contract events: the router's
/// swap events are decoded and their route claims classified in order.
pub fn soroswap_swaps(soroban_events: &Vec<ContractEventIn>, registry: &Registry) -> (r: Vec<Swap>)
    ensures
        swap_views(r@) == classify_all(*registry, claims_of_events(*registry, soroban_events@)),
        forall|k: int|
            0 <= k < r@.len() ==> (#[trigger] r@[k]).valid() && r@[k].created_at is None,
{
    let mut out: Vec<Swap> = Vec::new();
    let mut i: usize = 0;
    proof {
        assert(soroban_events@.take(0) =~= Seq::<ContractEventIn>::empty());
        assert(swap_views(out@) =~= classify_all(
            *registry,
            claims_of_events(*registry, soroban_events@.take(0)),
        ));
    }
    while i < soroban_events.len()
        invariant
            i <= soroban_events.len(),
            swap_views(out@) == classify_all(
                *registry,
                claims_of_events(*registry, soroban_events@.take(i as int)),
            ),
            forall|k: int|
                0 <= k < out@.len() ==> (#[trigger] out@[k]).valid()
                    && out@[k].created_at is None,
        decreases soroban_events.len() - i,
    {
        let ghost pre = claims_of_events(*registry, soroban_events@.take(i as int));
        proof {
            assert(soroban_events@.take(i + 1).drop_last() =~= soroban_events@.take(i as int));
            assert(soroban_events@.take(i + 1).last() == soroban_events@[i as int]);
        }
        let event = &soroban_events[i];
        let ghost this_claims = claims_of_event(*registry, soroban_events@[i as int]);
        match soroswap_event(event, registry) {
            Some(data) => {
                match data {
                    EventValue::MapEntries(entries) => {
                        let path_key = make_string("path");
                        let amounts_key = make_string("amounts");
                        let empty_list: Vec<EventValue> = Vec::new();
                        let path = match scmap_get(entries, &path_key) {
                            Some(items) => items,
                            None => &empty_list,
                        };
                        let amounts = match scmap_get(entries, &amounts_key) {
                            Some(items) => items,
                            None => &empty_list,
                        };
                        classify_amm_path(&mut out, path, amounts, registry);
                        proof {
                            assert(this_claims == claims_of_amm_path(path@, amounts@));
                            lemma_classify_all_concat(*registry, pre, this_claims);
                        }
                    },
                    _ => {
                        proof {
                            assert(this_claims =~= Seq::<ElementaryClaim>::empty());
                            lemma_classify_all_concat(*registry, pre, this_claims);
                            assert(pre + Seq::<ElementaryClaim>::empty() =~= pre);
                        }
                    },
                }
            },
            None => {
                proof {
                    assert(this_claims =~= Seq::<ElementaryClaim>::empty());
                    lemma_classify_all_concat(*registry, pre, this_claims);
                    assert(pre + Seq::<ElementaryClaim>::empty() =~= pre);
                }
            },
        }
        i = i + 1;
    }
    proof {
        assert(soroban_events@.take(soroban_events@.len() as int) =~= soroban_events@);
    }
    out
}

/// Every claim a block yields: the transactions' claims followed by the
/// events' claims.
pub open spec fn claims_of_block(registry: Registry, block: LedgerClose) -> Seq<ElementaryClaim> {
    claims_of_transactions(block.transactions@) + claims_of_events(registry, block.events@)
}

/// Every swap a block yields, in claim order.
pub open spec fn spec_block_swaps(registry: Registry, block: LedgerClose) -> Seq<SwapView> {
    classify_all(registry, claims_of_block(registry, block))
}

/// Extracts and classifies every swap of one ledger close: classic swaps
/// first, then the AMM router's swaps.
pub fn extract_swaps(block: &LedgerClose, registry: &Registry) -> (r: Vec<Swap>)
    ensures
        swap_views(r@) == spec_block_swaps(*registry, *block),
        forall|k: int|
            0 <= k < r@.len() ==> (#[trigger] r@[k]).valid() && r@[k].created_at is None,
{
    let mut all = swaps(&block.transactions, registry);
    let mut amm = soroswap_swaps(&block.events, registry);
    let ghost classic_views = swap_views(all@);
    let ghost amm_views = swap_views(amm@);
    all.append(&mut amm);
    proof {
        assert(swap_views(all@) =~= classic_views + amm_views);
        lemma_classify_all_concat(
            *registry,
            claims_of_transactions(block.transactions@),
            claims_of_events(*registry, block.events@),
        );
    }
    all
}

} // verus!

use vstd::prelude::*;

use crate::seqs::lemma_prefix;

use multiversx_sc::contract_base::CryptoWrapper;
use multiversx_sc::types::ManagedBuffer;
use multiversx_sc_scenario::api::StaticApi;

use crate::config::{Amount, Payment};
use crate::proposal::Action;

verus! {

pub const KECCAK256_RESULT_LEN: usize = 32;

/// Byte that separates the fields of a serialized action.
pub const ACTION_FIELDS_SEPARATOR: u8 = 124;

/// The Keccak-256 digest of `data`.
pub uninterp spec fn keccak256_of(data: Seq<u8>) -> Seq<u8>;

/// Relies on multiversx_sc's `CryptoWrapper::keccak256`, run on the
/// off-chain `StaticApi`: the 32-byte Keccak-256 digest of `data`.
#[verifier::external_body]
pub(crate) fn keccak256(data: &Vec<u8>) -> (r: Vec<u8>)
    ensures
        r@ == keccak256_of(data@),
        r@.len() == KECCAK256_RESULT_LEN,
{
    let buffer = ManagedBuffer::<StaticApi>::new_from_bytes(data.as_slice());
    CryptoWrapper::<StaticApi>::new().keccak256(&buffer).to_byte_array().to_vec()
}

/// The eight big-endian bytes of `n`.
pub open spec fn u64_be(n: u64) -> Seq<u8> {
    seq![
        (n >> 56u64) as u8,
        (n >> 48u64) as u8,
        (n >> 40u64) as u8,
        (n >> 32u64) as u8,
        (n >> 24u64) as u8,
        (n >> 16u64) as u8,
        (n >> 8u64) as u8,
        n as u8,
    ]
}

/// The shortest big-endian bytes of `n`: none for zero.
pub open spec fn biguint_be(n: nat) -> Seq<u8>
    decreases n,
{
    if n == 0 {
        seq![]
    } else {
        biguint_be(n / 256).push((n % 256) as u8)
    }
}

pub open spec fn serialize_payment(p: Payment) -> Seq<u8> {
    p.token@ + u64_be(p.nonce) + biguint_be(p.amount as nat)
}

pub open spec fn serialize_payments(ps: Seq<Payment>) -> Seq<u8>
    decreases ps.len(),
{
    if ps.len() == 0 {
        seq![]
    } else {
        serialize_payments(ps.drop_last()) + serialize_payment(ps.last())
    }
}

pub open spec fn concat_bytes(args: Seq<Vec<u8>>) -> Seq<u8>
    decreases args.len(),
{
    if args.len() == 0 {
        seq![]
    } else {
        concat_bytes(args.drop_last()) + args.last()@
    }
}

/// Destination, endpoint, value, payments and arguments, with a separator
/// after each of the first four.
pub open spec fn serialize_action(a: Action) -> Seq<u8> {
    a.destination@ + seq![ACTION_FIELDS_SEPARATOR] + a.endpoint@ + seq![ACTION_FIELDS_SEPARATOR]
        + biguint_be(a.value as nat) + seq![ACTION_FIELDS_SEPARATOR] + serialize_payments(a.payments@)
        + seq![ACTION_FIELDS_SEPARATOR] + concat_bytes(a.arguments@)
}

pub open spec fn serialize_actions(actions: Seq<Action>) -> Seq<u8>
    decreases actions.len(),
{
    if actions.len() == 0 {
        seq![]
    } else {
        serialize_actions(actions.drop_last()) + serialize_action(actions.last())
    }
}

/// The digest a proposal pins for its actions.
pub open spec fn actions_hash_spec(actions: Seq<Action>) -> Seq<u8> {
    keccak256_of(serialize_actions(actions))
}

fn append_u64_be(out: &mut Vec<u8>, n: u64)
    ensures
        final(out)@ == old(out)@ + u64_be(n),
{
    let ghost start = out@;
    out.push((n >> 56u64) as u8);
    out.push((n >> 48u64) as u8);
    out.push((n >> 40u64) as u8);
    out.push((n >> 32u64) as u8);
    out.push((n >> 24u64) as u8);
    out.push((n >> 16u64) as u8);
    out.push((n >> 8u64) as u8);
    out.push(n as u8);
    assert(out@ =~= start + u64_be(n));
}

fn append_biguint_be(out: &mut Vec<u8>, n: Amount)
    ensures
        final(out)@ == old(out)@ + biguint_be(n as nat),
    decreases n,
{
    if n == 0 {
        assert(old(out)@ + biguint_be(0) =~= old(out)@);
        return;
    }
    let ghost start = out@;
    append_biguint_be(out, n / 256);
    out.push((n % 256) as u8);
    assert(out@ =~= start + biguint_be(n as nat));
}


fn append_action(out: &mut Vec<u8>, a: &Action)
    ensures
        final(out)@ == old(out)@ + serialize_action(*a),
{
    let ghost start = out@;
    crate::bytes::append_bytes(out, &a.destination);
    out.push(ACTION_FIELDS_SEPARATOR);
    crate::bytes::append_bytes(out, &a.endpoint);
    out.push(ACTION_FIELDS_SEPARATOR);
    append_biguint_be(out, a.value);
    out.push(ACTION_FIELDS_SEPARATOR);
    let ghost before_payments = out@;
    let mut i: usize = 0;
    while i < a.payments.len()
        invariant
            0 <= i <= a.payments.len(),
            out@ == before_payments + serialize_payments(a.payments@.subrange(0, i as int)),
        decreases a.payments.len() - i,
    {
        proof {
            lemma_prefix(a.payments@, i as int);
        }
        let p = &a.payments[i];
        crate::bytes::append_bytes(out, &p.token);
        append_u64_be(out, p.nonce);
        append_biguint_be(out, p.amount);
        assert(out@ =~= before_payments + serialize_payments(a.payments@.subrange(0, i + 1)));
        i = i + 1;
    }
    assert(a.payments@.subrange(0, a.payments@.len() as int) =~= a.payments@);
    out.push(ACTION_FIELDS_SEPARATOR);
    let ghost before_args = out@;
    let mut j: usize = 0;
    while j < a.arguments.len()
        invariant
            0 <= j <= a.arguments.len(),
            out@ == before_args + concat_bytes(a.arguments@.subrange(0, j as int)),
        decreases a.arguments.len() - j,
    {
        proof {
            lemma_prefix(a.arguments@, j as int);
        }
        crate::bytes::append_bytes(out, &a.arguments[j]);
        assert(out@ =~= before_args + concat_bytes(a.arguments@.subrange(0, j + 1)));
        j = j + 1;
    }
    assert(a.arguments@.subrange(0, a.arguments@.len() as int) =~= a.arguments@);
    assert(out@ =~= start + serialize_action(*a));
}

/// The bytes that the actions hash is taken over.
pub fn serialize_action_list(actions: &Vec<Action>) -> (r: Vec<u8>)
    ensures
        r@ == serialize_actions(actions@),
{
    let mut out: Vec<u8> = Vec::new();
    let mut i: usize = 0;
    while i < actions.len()
        invariant
            0 <= i <= actions.len(),
            out@ == serialize_actions(actions@.subrange(0, i as int)),
        decreases actions.len() - i,
    {
        proof {
            lemma_prefix(actions@, i as int);
        }
        append_action(&mut out, &actions[i]);
        i = i + 1;
    }
    assert(actions@.subrange(0, actions@.len() as int) =~= actions@);
    out
}

/// The digest of the serialized actions.
pub fn calculate_actions_hash(actions: &Vec<Action>) -> (r: Vec<u8>)
    ensures
        r@ == actions_hash_spec(actions@),
        r@.len() == KECCAK256_RESULT_LEN,
{
    let serialized = serialize_action_list(actions);
    keccak256(&serialized)
}

/// A one-action list whose endpoint is replaced by a different one of the
/// same length serializes to different bytes, so its digest can only stay
/// the same through a Keccak-256 collision.
pub proof fn endpoint_change_alters_serialization(a: Action, b: Action)
    requires
        b.destination@ == a.destination@,
        b.value == a.value,
        b.payments@ == a.payments@,
        b.arguments@ == a.arguments@,
        b.endpoint@.len() == a.endpoint@.len(),
        b.endpoint@ != a.endpoint@,
    ensures
        serialize_actions(seq![a]) != serialize_actions(seq![b]),
{
    assert(seq![a].drop_last() =~= Seq::<Action>::empty());
    assert(seq![b].drop_last() =~= Seq::<Action>::empty());
    assert(seq![a].last() == a);
    assert(seq![b].last() == b);
    assert(serialize_actions(Seq::<Action>::empty()) == Seq::<u8>::empty());
    let sa = serialize_action(a);
    let sb = serialize_action(b);
    assert(serialize_actions(seq![a]) =~= sa);
    assert(serialize_actions(seq![b]) =~= sb);
    if forall|i: int| 0 <= i < a.endpoint@.len() ==> a.endpoint@[i] == b.endpoint@[i] {
        assert(a.endpoint@ =~= b.endpoint@);
    }
    let i = choose|i: int| 0 <= i < a.endpoint@.len() && a.endpoint@[i] != b.endpoint@[i];
    let head_a = a.destination@ + seq![ACTION_FIELDS_SEPARATOR] + a.endpoint@;
    let head_b = b.destination@ + seq![ACTION_FIELDS_SEPARATOR] + b.endpoint@;
    let pos = a.destination@.len() + 1 + i;
    assert(head_a[pos] == a.endpoint@[i]);
    assert(head_b[pos] == b.endpoint@[i]);
    assert(sa =~= head_a + (seq![ACTION_FIELDS_SEPARATOR] + biguint_be(a.value as nat) + seq![ACTION_FIELDS_SEPARATOR]
        + serialize_payments(a.payments@) + seq![ACTION_FIELDS_SEPARATOR] + concat_bytes(a.arguments@)));
    assert(sb =~= head_b + (seq![ACTION_FIELDS_SEPARATOR] + biguint_be(b.value as nat) + seq![ACTION_FIELDS_SEPARATOR]
        + serialize_payments(b.payments@) + seq![ACTION_FIELDS_SEPARATOR] + concat_bytes(b.arguments@)));
    assert(sa[pos] == head_a[pos]);
    assert(sb[pos] == head_b[pos]);
}

} // verus!

//! The price schedule: scaling costs, step-cost ladders, and the table of
//! every chargeable event, selected by network version.

use vstd::prelude::*;

use crate::gas::{sat_add, sat_mul, sat_sub, Gas, GasCharge};
use crate::wasm_gas::WasmGasPrices;

verus! {

/// A cost of the form `flat + scale * n`, all arithmetic saturating.
#[derive(Clone, Copy, Debug, PartialEq, Eq, Structural)]
pub struct ScalingCost {
    pub flat: Gas,
    pub scale: Gas,
}

impl ScalingCost {
    /// Milligas of `flat + scale * value`, saturating.
    pub open spec fn apply_mg(self, value: u64) -> u64 {
        sat_add(self.flat.mg(), sat_mul(self.scale.mg(), value))
    }

    /// Computes the scaled cost for the given value, or saturates.
    pub fn apply(&self, value: u64) -> (r: Gas)
        ensures
            r.mg() == self.apply_mg(value),
    {
        self.flat.saturating_add(self.scale.saturating_mul(value))
    }

    /// A cost that does not scale with its input.
    pub fn fixed(g: Gas) -> (r: ScalingCost)
        ensures
            r.flat == g,
            r.scale.mg() == 0,
    {
        ScalingCost { flat: g, scale: Gas::zero() }
    }

    /// A cost of zero whatever the input.
    pub fn zero() -> (r: ScalingCost)
        ensures
            r.flat.mg() == 0,
            r.scale.mg() == 0,
    {
        ScalingCost { flat: Gas::zero(), scale: Gas::zero() }
    }
}

/// One rung of a step-cost ladder: from `start` upward the cost is `cost`.
#[derive(Clone, Copy, Debug, PartialEq, Eq, Structural)]
pub struct Step {
    pub start: u64,
    pub cost: Gas,
}

/// A piecewise-constant cost ladder: `lookup(x)` is the cost of the rung
/// with the greatest `start` at or below `x`, or zero below the first rung.
#[derive(Clone, Debug)]
pub struct StepCost(pub Vec<Step>);

/// The cost the ladder `s` assigns to `x`: the cost of the last rung whose
/// start is at or below `x`, or zero if there is none.
pub open spec fn step_lookup(s: Seq<Step>, x: u64) -> u64
    decreases s.len(),
{
    if s.len() == 0 {
        0
    } else if s.last().start <= x {
        s.last().cost.mg()
    } else {
        step_lookup(s.drop_last(), x)
    }
}

/// A well-formed ladder: starts strictly increasing, costs non-decreasing.
pub open spec fn step_ladder_wf(s: Seq<Step>) -> bool {
    forall|i: int, j: int|
        0 <= i < j < s.len() ==> s[i].start < s[j].start && s[i].cost.mg() <= s[j].cost.mg()
}

impl StepCost {
    pub open spec fn wf(self) -> bool {
        step_ladder_wf(self.0@)
    }

    /// The cost of the highest rung whose start is at or below `x`; zero
    /// when `x` lies below the whole ladder.
    pub fn lookup(&self, x: u64) -> (r: Gas)
        ensures
            r.mg() == step_lookup(self.0@, x),
    {
        let ghost full = self.0@;
        let mut i: usize = self.0.len();
        proof {
            assert(full.take(i as int) =~= full);
        }
        while i > 0
            invariant
                i <= self.0.len(),
                self.0@ == full,
                step_lookup(full, x) == step_lookup(full.take(i as int), x),
            decreases i,
        {
            let step = self.0[i - 1];
            proof {
                assert(full.take(i as int).last() == full[i - 1]);
                assert(full.take(i as int).drop_last() =~= full.take(i - 1));
            }
            if step.start <= x {
                return step.cost;
            }
            i = i - 1;
        }
        proof {
            assert(full.take(0) =~= Seq::<Step>::empty());
        }
        Gas::zero()
    }
}

/// Dropping the top rung keeps a ladder well-formed.
proof fn lemma_wf_drop_last(s: Seq<Step>)
    requires
        step_ladder_wf(s),
        s.len() > 0,
    ensures
        step_ladder_wf(s.drop_last()),
{
    assert forall|i: int, j: int| 0 <= i < j < s.drop_last().len() implies s.drop_last()[i].start
        < s.drop_last()[j].start && s.drop_last()[i].cost.mg() <= s.drop_last()[j].cost.mg() by {
        assert(s.drop_last()[i] == s[i]);
        assert(s.drop_last()[j] == s[j]);
    }
}

/// On a well-formed ladder every assigned cost is at most the top rung's.
proof fn lemma_step_lookup_below_last(s: Seq<Step>, x: u64)
    requires
        step_ladder_wf(s),
        s.len() > 0,
    ensures
        step_lookup(s, x) <= s.last().cost.mg(),
    decreases s.len(),
{
    if s.last().start <= x {
    } else if s.len() > 1 {
        lemma_wf_drop_last(s);
        lemma_step_lookup_below_last(s.drop_last(), x);
        assert(step_lookup(s, x) == step_lookup(s.drop_last(), x));
        assert(s.drop_last().last() == s[s.len() - 2]);
        assert(s.last() == s[s.len() - 1]);
        assert(s[s.len() - 2].cost.mg() <= s[s.len() - 1].cost.mg());
    } else {
        assert(s.drop_last() =~= Seq::<Step>::empty());
        assert(step_lookup(s, x) == 0);
    }
}

/// Step-cost monotonicity: on a well-formed ladder, a larger input is never
/// assigned a smaller cost.
pub proof fn lemma_step_lookup_monotonic(s: Seq<Step>, x: u64, y: u64)
    requires
        step_ladder_wf(s),
        x <= y,
    ensures
        step_lookup(s, x) <= step_lookup(s, y),
    decreases s.len(),
{
    if s.len() == 0 {
    } else if s.last().start <= x {
    } else if s.last().start <= y {
        assert(step_lookup(s, y) == s.last().cost.mg());
        assert(step_lookup(s, x) == step_lookup(s.drop_last(), x));
        if s.len() > 1 {
            lemma_wf_drop_last(s);
            lemma_step_lookup_below_last(s.drop_last(), x);
            assert(s.drop_last().last() == s[s.len() - 2]);
            assert(s.last() == s[s.len() - 1]);
            assert(s[s.len() - 2].cost.mg() <= s[s.len() - 1].cost.mg());
        } else {
            assert(s.drop_last() =~= Seq::<Step>::empty());
            assert(step_lookup(s.drop_last(), x) == 0);
        }
    } else {
        lemma_wf_drop_last(s);
        lemma_step_lookup_monotonic(s.drop_last(), x, y);
    }
}

/// The maximum overhead in bytes of a single event once encoded into CBOR:
/// a two-field tuple header, a nine-byte emitter id, and a two-byte
/// entry-array header.
pub const EVENT_OVERHEAD: u64 = 12;

/// The maximum overhead in bytes of a single event entry once encoded into
/// CBOR: a tuple header, one flags byte, two key-length bytes, two codec
/// bytes and three value-length bytes.
pub const EVENT_ENTRY_OVERHEAD: u64 = 9;

/// Every table element reserves one pointer, so table operations are priced
/// at eight bytes per element.
pub const TABLE_ELEMENT_SIZE: u32 = 8;

/// The hash algorithms whose host calls carry a price.
#[derive(Clone, Copy, Debug, PartialEq, Eq, Structural, Hash)]
pub enum SupportedHashes {
    Sha2_256,
    Blake2b256,
    Blake2b512,
    Keccak256,
    Ripemd160,
}

/// The priced signature schemes.
#[derive(Clone, Copy, Debug, PartialEq, Eq, Structural, Hash)]
pub enum SignatureType {
    Secp256k1,
    BLS,
}

/// Seal proof types. Unknown entries in the price tables fall back to the
/// 32 GiB V1P1 entry.
#[derive(Clone, Copy, Debug, PartialEq, Eq, Structural, Hash)]
#[allow(non_camel_case_types)]
pub enum RegisteredSealProof {
    StackedDRG2KiBV1,
    StackedDRG512MiBV1,
    StackedDRG8MiBV1,
    StackedDRG32GiBV1,
    StackedDRG64GiBV1,
    StackedDRG2KiBV1P1,
    StackedDRG512MiBV1P1,
    StackedDRG8MiBV1P1,
    StackedDRG32GiBV1P1,
    StackedDRG64GiBV1P1,
    StackedDRG2KiBV1P1_Feat_SyntheticPoRep,
    StackedDRG512MiBV1P1_Feat_SyntheticPoRep,
    StackedDRG8MiBV1P1_Feat_SyntheticPoRep,
    StackedDRG32GiBV1P1_Feat_SyntheticPoRep,
    StackedDRG64GiBV1P1_Feat_SyntheticPoRep,
    StackedDRG2KiBV1P2_Feat_NiPoRep,
    StackedDRG512MiBV1P2_Feat_NiPoRep,
    StackedDRG8MiBV1P2_Feat_NiPoRep,
    StackedDRG32GiBV1P2_Feat_NiPoRep,
    StackedDRG64GiBV1P2_Feat_NiPoRep,
    Invalid(i64),
}

/// Proof-of-spacetime proof types. Unknown entries in the price table fall
/// back to the window 512 MiB V1P1 entry.
#[derive(Clone, Copy, Debug, PartialEq, Eq, Structural, Hash)]
pub enum RegisteredPoStProof {
    StackedDRGWinning2KiBV1,
    StackedDRGWinning8MiBV1,
    StackedDRGWinning512MiBV1,
    StackedDRGWinning32GiBV1,
    StackedDRGWinning64GiBV1,
    StackedDRGWindow2KiBV1P1,
    StackedDRGWindow8MiBV1P1,
    StackedDRGWindow512MiBV1P1,
    StackedDRGWindow32GiBV1P1,
    StackedDRGWindow64GiBV1P1,
    Invalid(i64),
}

/// The network versions a schedule can be asked for. Only versions twenty
/// one through twenty six carry a price list; all others are rejected.
#[derive(Clone, Copy, Debug, PartialEq, Eq, Structural, Hash)]
pub enum NetworkVersion {
    V18,
    V19,
    V20,
    V21,
    V22,
    V23,
    V24,
    V25,
    V26,
    V27,
}

/// Signature verification cost per scheme: a total mapping, so a new scheme
/// forces an explicit price decision.
#[derive(Clone, Copy, Debug, PartialEq, Eq, Structural)]
pub struct SigCosts {
    pub secp256k1: ScalingCost,
    pub bls: ScalingCost,
}

impl SigCosts {
    pub open spec fn spec_cost_of(self, t: SignatureType) -> ScalingCost {
        match t {
            SignatureType::Secp256k1 => self.secp256k1,
            SignatureType::BLS => self.bls,
        }
    }

    pub fn cost_of(&self, t: SignatureType) -> (r: ScalingCost)
        ensures
            r == self.spec_cost_of(t),
    {
        match t {
            SignatureType::Secp256k1 => self.secp256k1,
            SignatureType::BLS => self.bls,
        }
    }
}

/// Hashing cost per algorithm: a total mapping.
#[derive(Clone, Copy, Debug, PartialEq, Eq, Structural)]
pub struct HashingCosts {
    pub sha2_256: ScalingCost,
    pub blake2b_256: ScalingCost,
    pub blake2b_512: ScalingCost,
    pub keccak_256: ScalingCost,
    pub ripemd_160: ScalingCost,
}

impl HashingCosts {
    pub open spec fn spec_cost_of(self, h: SupportedHashes) -> ScalingCost {
        match h {
            SupportedHashes::Sha2_256 => self.sha2_256,
            SupportedHashes::Blake2b256 => self.blake2b_256,
            SupportedHashes::Blake2b512 => self.blake2b_512,
            SupportedHashes::Keccak256 => self.keccak_256,
            SupportedHashes::Ripemd160 => self.ripemd_160,
        }
    }

    pub fn cost_of(&self, h: SupportedHashes) -> (r: ScalingCost)
        ensures
            r == self.spec_cost_of(h),
    {
        match h {
            SupportedHashes::Sha2_256 => self.sha2_256,
            SupportedHashes::Blake2b256 => self.blake2b_256,
            SupportedHashes::Blake2b512 => self.blake2b_512,
            SupportedHashes::Keccak256 => self.keccak_256,
            SupportedHashes::Ripemd160 => self.ripemd_160,
        }
    }
}

/// First match for a seal proof key in an association table of gas values.
pub open spec fn seal_gas_get(s: Seq<(RegisteredSealProof, Gas)>, k: RegisteredSealProof) -> Option<
    Gas,
>
    decreases s.len(),
{
    if s.len() == 0 {
        None
    } else if s[0].0 == k {
        Some(s[0].1)
    } else {
        seal_gas_get(s.skip(1), k)
    }
}

/// First match for a seal proof key in an association table of ladders.
pub open spec fn seal_steps_get(s: Seq<(RegisteredSealProof, StepCost)>, k: RegisteredSealProof)
    -> Option<StepCost>
    decreases s.len(),
{
    if s.len() == 0 {
        None
    } else if s[0].0 == k {
        Some(s[0].1)
    } else {
        seal_steps_get(s.skip(1), k)
    }
}

/// First match for a proof-of-spacetime key in an association table.
pub open spec fn post_cost_get(s: Seq<(RegisteredPoStProof, ScalingCost)>, k: RegisteredPoStProof)
    -> Option<ScalingCost>
    decreases s.len(),
{
    if s.len() == 0 {
        None
    } else if s[0].0 == k {
        Some(s[0].1)
    } else {
        post_cost_get(s.skip(1), k)
    }
}

fn seal_gas_lookup(table: &Vec<(RegisteredSealProof, Gas)>, k: RegisteredSealProof) -> (r: Option<
    Gas,
>)
    ensures
        r == seal_gas_get(table@, k),
{
    let ghost full = table@;
    let mut i: usize = 0;
    proof {
        assert(full.skip(0) =~= full);
    }
    while i < table.len()
        invariant
            i <= table.len(),
            table@ == full,
            seal_gas_get(full, k) == seal_gas_get(full.skip(i as int), k),
        decreases table.len() - i,
    {
        proof {
            assert(full.skip(i as int)[0] == full[i as int]);
            assert(full.skip(i as int).skip(1) =~= full.skip(i + 1));
        }
        if table[i].0 == k {
            return Some(table[i].1);
        }
        i = i + 1;
    }
    proof {
        assert(full.skip(i as int) =~= Seq::<(RegisteredSealProof, Gas)>::empty());
    }
    None
}

fn seal_steps_index(table: &Vec<(RegisteredSealProof, StepCost)>, k: RegisteredSealProof) -> (r:
    Option<usize>)
    ensures
        match r {
            Some(i) => i < table@.len() && seal_steps_get(table@, k) == Some(table@[i as int].1),
            None => seal_steps_get(table@, k) is None,
        },
{
    let ghost full = table@;
    let mut i: usize = 0;
    proof {
        assert(full.skip(0) =~= full);
    }
    while i < table.len()
        invariant
            i <= table.len(),
            table@ == full,
            seal_steps_get(full, k) == seal_steps_get(full.skip(i as int), k),
        decreases table.len() - i,
    {
        proof {
            assert(full.skip(i as int)[0] == full[i as int]);
            assert(full.skip(i as int).skip(1) =~= full.skip(i + 1));
        }
        if table[i].0 == k {
            return Some(i);
        }
        i = i + 1;
    }
    proof {
        assert(full.skip(i as int) =~= Seq::<(RegisteredSealProof, StepCost)>::empty());
    }
    None
}

fn post_cost_lookup(table: &Vec<(RegisteredPoStProof, ScalingCost)>, k: RegisteredPoStProof) -> (r:
    Option<ScalingCost>)
    ensures
        r == post_cost_get(table@, k),
{
    let ghost full = table@;
    let mut i: usize = 0;
    proof {
        assert(full.skip(0) =~= full);
    }
    while i < table.len()
        invariant
            i <= table.len(),
            table@ == full,
            post_cost_get(full, k) == post_cost_get(full.skip(i as int), k),
        decreases table.len() - i,
    {
        proof {
            assert(full.skip(i as int)[0] == full[i as int]);
            assert(full.skip(i as int).skip(1) =~= full.skip(i + 1));
        }
        if table[i].0 == k {
            return Some(table[i].1);
        }
        i = i + 1;
    }
    proof {
        assert(full.skip(i as int) =~= Seq::<(RegisteredPoStProof, ScalingCost)>::empty());
    }
    None
}

/// The price list: one immutable table of every chargeable event for one
/// network version. All amounts are in milligas.
#[derive(Clone, Debug)]
pub struct PriceList {
    /// Charged to the originator of an on-chain message, covering
    /// propagation and validation up to (but excluding) processing.
    pub on_chain_message_compute: ScalingCost,
    pub on_chain_message_storage: ScalingCost,
    /// Charged to the originator of a non-empty return value at depth one.
    pub on_chain_return_compute: ScalingCost,
    pub on_chain_return_storage: ScalingCost,
    /// Transferring funds to an actor (compute only).
    pub send_transfer_funds: Gas,
    /// Invoking a method on an actor (compute only).
    pub send_invoke_method: Gas,
    /// Looking an actor up by address in the init actor's table.
    pub address_lookup: Gas,
    /// Assigning an address to an actor in the init actor's table.
    pub address_assignment: Gas,
    /// Looking an actor up in the common state tree.
    pub actor_lookup: Gas,
    /// Storing an updated actor in the common state tree.
    pub actor_update: Gas,
    /// Storage for adding a new actor to the state tree.
    pub actor_create_storage: Gas,
    /// Verifying a cryptographic signature, by scheme.
    pub sig_cost: SigCosts,
    /// Recovering a secp256k1 signer public key.
    pub secp256k1_recover_cost: Gas,
    pub bls_pairing_cost: Gas,
    pub bls_hashing_cost: ScalingCost,
    pub hashing_cost: HashingCosts,
    /// Walking up the chain, applied per epoch of lookback.
    pub lookback_cost: ScalingCost,
    pub compute_unsealed_sector_cid_base: Gas,
    pub verify_seal_base: Gas,
    pub verify_aggregate_seal_per: Vec<(RegisteredSealProof, Gas)>,
    pub verify_aggregate_seal_steps: Vec<(RegisteredSealProof, StepCost)>,
    pub verify_post_lookup: Vec<(RegisteredPoStProof, ScalingCost)>,
    pub verify_consensus_fault: Gas,
    pub verify_replica_update: Gas,
    /// Per byte copied.
    pub block_memcpy: ScalingCost,
    /// Per byte allocated.
    pub block_allocate: ScalingCost,
    /// The floor charged for every byte of a block retained in memory, so
    /// that no message can retain an unbounded amount of block data.
    pub block_memory_retention_minimum: ScalingCost,
    /// Opening a block.
    pub block_open: ScalingCost,
    /// Persisting a block over time.
    pub block_persist_storage: ScalingCost,
    /// Flushing a block.
    pub block_persist_compute: Gas,
    /// The bytecode instruction schedule.
    pub wasm_rules: WasmGasPrices,
    /// Validating an actor event as received, before parsing.
    pub event_per_entry: ScalingCost,
    /// Lookups in the builtin actor mappings.
    pub builtin_actor_manifest_lookup: Gas,
    /// UTF-8 validation, per byte.
    pub utf8_validation: ScalingCost,
    pub network_context: Gas,
    pub message_context: Gas,
    /// Compiling a bytecode module during install, per byte.
    pub install_wasm_per_byte_cost: Gas,
    /// Actor ids that can be updated for free.
    pub preloaded_actors: Vec<u64>,
    /// Per field encountered when scanning CBOR.
    pub ipld_cbor_scan_per_field: Gas,
    /// Per content identifier encountered when scanning CBOR.
    pub ipld_cbor_scan_per_cid: Gas,
    /// Tracking a newly reachable link.
    pub ipld_link_tracked: Gas,
    /// Checking that a link is reachable.
    pub ipld_link_checked: Gas,
}

impl PriceList {
    /// The aggregate-seal tables always price the 32 GiB V1P1 proof (the
    /// fallback for unknown proof types), the proof-of-spacetime table
    /// always prices the window 512 MiB V1P1 proof, and every ladder in the
    /// step table is well-formed.
    pub open spec fn wf(self) -> bool {
        &&& seal_gas_get(
            self.verify_aggregate_seal_per@,
            RegisteredSealProof::StackedDRG32GiBV1P1,
        ) is Some
        &&& seal_steps_get(
            self.verify_aggregate_seal_steps@,
            RegisteredSealProof::StackedDRG32GiBV1P1,
        ) is Some
        &&& post_cost_get(
            self.verify_post_lookup@,
            RegisteredPoStProof::StackedDRGWindow512MiBV1P1,
        ) is Some
        &&& forall|i: int|
            0 <= i < self.verify_aggregate_seal_steps@.len() ==> (
            #[trigger] self.verify_aggregate_seal_steps@[i]).1.wf()
    }

    /// The per-proof gas an aggregate seal of type `p` is priced at, with
    /// the fall-back to the 32 GiB V1P1 entry on an unknown type.
    pub open spec fn spec_agg_seal_per(self, p: RegisteredSealProof) -> Gas {
        match seal_gas_get(self.verify_aggregate_seal_per@, p) {
            Some(g) => g,
            None => seal_gas_get(
                self.verify_aggregate_seal_per@,
                RegisteredSealProof::StackedDRG32GiBV1P1,
            )->Some_0,
        }
    }

    /// The step ladder an aggregate seal of type `p` is priced by, with the
    /// fall-back to the 32 GiB V1P1 entry on an unknown type.
    pub open spec fn spec_agg_seal_ladder(self, p: RegisteredSealProof) -> Seq<Step> {
        match seal_steps_get(self.verify_aggregate_seal_steps@, p) {
            Some(s) => s.0@,
            None => seal_steps_get(
                self.verify_aggregate_seal_steps@,
                RegisteredSealProof::StackedDRG32GiBV1P1,
            )->Some_0.0@,
        }
    }

    /// The scaling cost a window proof-of-spacetime of type `p` is priced
    /// at, with the fall-back to the window 512 MiB V1P1 entry.
    pub open spec fn spec_post_cost(self, p: RegisteredPoStProof) -> ScalingCost {
        match post_cost_get(self.verify_post_lookup@, p) {
            Some(c) => c,
            None => post_cost_get(
                self.verify_post_lookup@,
                RegisteredPoStProof::StackedDRGWindow512MiBV1P1,
            )->Some_0,
        }
    }

    /// Storing a message of the given size on chain, plus the cost of
    /// updating the sending actor's nonce and balance in the state tree.
    pub fn on_chain_message(&self, msg_size: usize) -> (r: GasCharge)
        ensures
            r.compute_gas.mg() == self.on_chain_message_compute.apply_mg(msg_size as u64),
            r.other_gas.mg() == sat_add(
                self.actor_update.mg(),
                self.on_chain_message_storage.apply_mg(msg_size as u64),
            ),
    {
        GasCharge::new(
            "OnChainMessage",
            self.on_chain_message_compute.apply(msg_size as u64),
            self.actor_update.saturating_add(self.on_chain_message_storage.apply(msg_size as u64)),
        )
    }

    /// Transferring value to an actor.
    pub fn on_value_transfer(&self) -> (r: GasCharge)
        ensures
            r.compute_gas == self.send_transfer_funds,
            r.other_gas.mg() == 0,
    {
        GasCharge::new("OnValueTransfer", self.send_transfer_funds, Gas::zero())
    }

    /// Invoking a method, scaled by the count of links in the parameters.
    pub fn on_method_invocation(&self, _param_size: u32, param_links: usize) -> (r: GasCharge)
        ensures
            r.compute_gas.mg() == sat_add(
                self.send_invoke_method.mg(),
                sat_mul(self.ipld_link_tracked.mg(), param_links as u64),
            ),
            r.other_gas.mg() == 0,
    {
        let charge = self.send_invoke_method.saturating_add(
            self.ipld_link_tracked.saturating_mul(param_links as u64),
        );
        GasCharge::new("OnMethodInvocation", charge, Gas::zero())
    }

    /// Returning a value from a method: at call depth one this charges for
    /// storing the block on chain, elsewhere for tracking links.
    pub fn on_method_return(&self, call_depth: u32, return_size: u32, return_links: usize) -> (r:
        GasCharge)
        ensures
            call_depth == 1 ==> r.compute_gas.mg() == self.on_chain_return_compute.apply_mg(
                return_size as u64,
            ) && r.other_gas.mg() == self.on_chain_return_storage.apply_mg(return_size as u64),
            call_depth != 1 ==> r.compute_gas.mg() == sat_mul(
                self.ipld_link_tracked.mg(),
                return_links as u64,
            ) && r.other_gas.mg() == 0,
    {
        if call_depth == 1 {
            GasCharge::new(
                "OnChainReturnValue",
                self.on_chain_return_compute.apply(return_size as u64),
                self.on_chain_return_storage.apply(return_size as u64),
            )
        } else {
            GasCharge::new(
                "OnReturnValue",
                self.ipld_link_tracked.saturating_mul(return_links as u64),
                Gas::zero(),
            )
        }
    }

    /// Creating an actor; `new_address` adds the cost of assigning and
    /// looking up a fresh address.
    pub fn on_create_actor(&self, new_address: bool) -> (r: GasCharge)
        ensures
            r.compute_gas.mg() == 0,
            new_address ==> r.other_gas.mg() == sat_add(
                self.actor_create_storage.mg(),
                sat_add(self.address_assignment.mg(), self.address_lookup.mg()),
            ),
            !new_address ==> r.other_gas == self.actor_create_storage,
    {
        let mut gas = self.actor_create_storage;
        if new_address {
            gas = gas.saturating_add(self.address_assignment.saturating_add(self.address_lookup));
        }
        GasCharge::new("OnCreateActor", Gas::zero(), gas)
    }

    /// Deleting an actor is free.
    pub fn on_delete_actor(&self) -> (r: GasCharge)
        ensures
            r.compute_gas.mg() == 0,
            r.other_gas.mg() == 0,
    {
        GasCharge::new("OnDeleteActor", Gas::zero(), Gas::zero())
    }

    /// Verifying a signature of the given scheme over `data_len` bytes.
    pub fn on_verify_signature(&self, sig_type: SignatureType, data_len: usize) -> (r: GasCharge)
        ensures
            r.compute_gas.mg() == self.sig_cost.spec_cost_of(sig_type).apply_mg(data_len as u64),
            r.other_gas.mg() == 0,
    {
        let cost = self.sig_cost.cost_of(sig_type);
        GasCharge::new("OnVerifySignature", cost.apply(data_len as u64), Gas::zero())
    }

    /// Verifying an aggregate of `num_sigs` BLS signatures over `data_len`
    /// bytes in all: one pairing per signature plus one for the aggregate,
    /// plus hashing of the signed data.
    pub fn on_verify_aggregate_signature(&self, num_sigs: usize, data_len: usize) -> (r: GasCharge)
        requires
            num_sigs + 1 <= u64::MAX,
        ensures
            r.compute_gas.mg() == sat_add(
                sat_mul(self.bls_pairing_cost.mg(), (num_sigs + 1) as u64),
                self.bls_hashing_cost.apply_mg(data_len as u64),
            ),
            r.other_gas.mg() == 0,
    {
        let num_pairings: u64 = num_sigs as u64 + 1;
        let gas_pairings = self.bls_pairing_cost.saturating_mul(num_pairings);
        let gas_hashing = self.bls_hashing_cost.apply(data_len as u64);
        GasCharge::new(
            "OnVerifyBlsAggregateSignature",
            gas_pairings.saturating_add(gas_hashing),
            Gas::zero(),
        )
    }

    /// Recovering a signer public key from a secp256k1 signature.
    pub fn on_recover_secp_public_key(&self) -> (r: GasCharge)
        ensures
            r.compute_gas == self.secp256k1_recover_cost,
            r.other_gas.mg() == 0,
    {
        GasCharge::new("OnRecoverSecpPublicKey", self.secp256k1_recover_cost, Gas::zero())
    }

    /// Hashing `data_len` bytes with the given algorithm.
    pub fn on_hashing(&self, hasher: SupportedHashes, data_len: usize) -> (r: GasCharge)
        ensures
            r.compute_gas.mg() == self.hashing_cost.spec_cost_of(hasher).apply_mg(data_len as u64),
            r.other_gas.mg() == 0,
    {
        let cost = self.hashing_cost.cost_of(hasher);
        GasCharge::new("OnHashing", cost.apply(data_len as u64), Gas::zero())
    }

    /// Validating `len` bytes as UTF-8.
    pub fn on_utf8_validation(&self, len: usize) -> (r: GasCharge)
        ensures
            r.compute_gas.mg() == self.utf8_validation.apply_mg(len as u64),
            r.other_gas.mg() == 0,
    {
        GasCharge::new("OnUtf8Validation", self.utf8_validation.apply(len as u64), Gas::zero())
    }

    /// Computing an unsealed sector content identifier.
    pub fn on_compute_unsealed_sector_cid(
        &self,
        _proof: RegisteredSealProof,
        _num_pieces: usize,
    ) -> (r: GasCharge)
        ensures
            r.compute_gas == self.compute_unsealed_sector_cid_base,
            r.other_gas.mg() == 0,
    {
        GasCharge::new(
            "OnComputeUnsealedSectorCid",
            self.compute_unsealed_sector_cid_base,
            Gas::zero(),
        )
    }

    /// Verifying a single seal proof.
    pub fn on_verify_seal(&self) -> (r: GasCharge)
        ensures
            r.compute_gas == self.verify_seal_base,
            r.other_gas.mg() == 0,
    {
        GasCharge::new("OnVerifySeal", self.verify_seal_base, Gas::zero())
    }

    /// Verifying an aggregate of `num_infos` seals of type `proof_type`:
    /// the per-proof cost times the count, plus the ladder cost at the
    /// count. Unknown proof types are priced as 32 GiB V1P1.
    pub fn on_verify_aggregate_seals(
        &self,
        proof_type: RegisteredSealProof,
        num_infos: usize,
    ) -> (r: GasCharge)
        requires
            self.wf(),
        ensures
            r.compute_gas.mg() == sat_add(
                sat_mul(self.spec_agg_seal_per(proof_type).mg(), num_infos as u64),
                step_lookup(self.spec_agg_seal_ladder(proof_type), num_infos as u64),
            ),
            r.other_gas.mg() == 0,
    {
        let per_proof = match seal_gas_lookup(&self.verify_aggregate_seal_per, proof_type) {
            Some(g) => g,
            None => seal_gas_lookup(
                &self.verify_aggregate_seal_per,
                RegisteredSealProof::StackedDRG32GiBV1P1,
            ).unwrap(),
        };
        let step_idx = match seal_steps_index(&self.verify_aggregate_seal_steps, proof_type) {
            Some(i) => i,
            None => seal_steps_index(
                &self.verify_aggregate_seal_steps,
                RegisteredSealProof::StackedDRG32GiBV1P1,
            ).unwrap(),
        };
        let num = num_infos as u64;
        let step = &self.verify_aggregate_seal_steps[step_idx].1;
        GasCharge::new(
            "OnVerifyAggregateSeals",
            per_proof.saturating_mul(num).saturating_add(step.lookup(num)),
            Gas::zero(),
        )
    }

    /// Verifying a replica update.
    pub fn on_verify_replica_update(&self) -> (r: GasCharge)
        ensures
            r.compute_gas == self.verify_replica_update,
            r.other_gas.mg() == 0,
    {
        GasCharge::new("OnVerifyReplicaUpdate", self.verify_replica_update, Gas::zero())
    }

    /// Verifying a window proof-of-spacetime: scaled by the number of
    /// challenged sectors, priced by the first proof's type (or the window
    /// 512 MiB V1P1 entry when there is none or the type is unknown).
    pub fn on_verify_post(
        &self,
        first_proof: Option<RegisteredPoStProof>,
        challenged_sectors: usize,
    ) -> (r: GasCharge)
        requires
            self.wf(),
        ensures
            r.compute_gas.mg() == self.spec_post_cost(
                match first_proof {
                    Some(p) => p,
                    None => RegisteredPoStProof::StackedDRGWindow512MiBV1P1,
                },
            ).apply_mg(challenged_sectors as u64),
            r.other_gas.mg() == 0,
    {
        let p_proof = match first_proof {
            Some(p) => p,
            None => RegisteredPoStProof::StackedDRGWindow512MiBV1P1,
        };
        let cost = match post_cost_lookup(&self.verify_post_lookup, p_proof) {
            Some(c) => c,
            None => post_cost_lookup(
                &self.verify_post_lookup,
                RegisteredPoStProof::StackedDRGWindow512MiBV1P1,
            ).unwrap(),
        };
        let gas_used = cost.apply(challenged_sectors as u64);
        GasCharge::new("OnVerifyPost", gas_used, Gas::zero())
    }

    /// Verifying a consensus fault.
    pub fn on_verify_consensus_fault(
        &self,
        _h1_len: usize,
        _h2_len: usize,
        _extra_len: usize,
    ) -> (r: GasCharge)
        ensures
            r.compute_gas.mg() == 0,
            r.other_gas == self.verify_consensus_fault,
    {
        GasCharge::new("OnVerifyConsensusFault", Gas::zero(), self.verify_consensus_fault)
    }

    /// Getting randomness from the client with the given lookback. A
    /// negative lookback is priced as its two's-complement image, which
    /// saturates the scaling cost.
    pub fn on_get_randomness(&self, lookback: i64) -> (r: GasCharge)
        ensures
            r.compute_gas.mg() == 0,
            r.other_gas.mg() == self.lookback_cost.apply_mg(lookback as u64),
    {
        GasCharge::new(
            "OnGetRandomness",
            Gas::zero(),
            self.lookback_cost.apply(#[verifier::truncate] (lookback as u64)),
        )
    }

    /// The base cost of loading a block, independent of its size.
    pub fn on_block_open_base(&self) -> (r: GasCharge)
        ensures
            r.compute_gas == self.ipld_link_checked,
            r.other_gas == self.block_open.flat,
    {
        GasCharge::new("OnBlockOpenBase", self.ipld_link_checked, self.block_open.flat)
    }

    /// Loading a block of `data_size` bytes holding `links` links: link
    /// tracking as compute, the open fee as other, topped up to the memory
    /// retention floor.
    pub fn on_block_open(&self, data_size: usize, links: usize) -> (r: GasCharge)
        ensures
            r.compute_gas.mg() == sat_mul(self.ipld_link_tracked.mg(), links as u64),
            r.other_gas.mg() == ({
                let compute = sat_mul(self.ipld_link_tracked.mg(), links as u64);
                let block_open = sat_add(
                    sat_add(
                        sat_mul(self.block_open.scale.mg(), data_size as u64),
                        self.block_allocate.apply_mg(data_size as u64),
                    ),
                    self.block_memcpy.apply_mg(data_size as u64),
                );
                let retention_min = self.block_memory_retention_minimum.apply_mg(data_size as u64);
                sat_add(block_open, sat_sub(retention_min, sat_add(compute, block_open)))
            }),
    {
        let compute = self.ipld_link_tracked.saturating_mul(links as u64);
        let block_open = self.block_open.scale.saturating_mul(data_size as u64).saturating_add(
            self.block_allocate.apply(data_size as u64),
        ).saturating_add(self.block_memcpy.apply(data_size as u64));
        let retention_min = self.block_memory_retention_minimum.apply(data_size as u64);
        let retention_surcharge = retention_min.saturating_sub(
            compute.saturating_add(block_open),
        ).max(Gas::zero());
        GasCharge::new("OnBlockOpen", compute, block_open.saturating_add(retention_surcharge))
    }

    /// Reading a loaded block of `data_size` bytes.
    pub fn on_block_read(&self, data_size: usize) -> (r: GasCharge)
        ensures
            r.compute_gas.mg() == self.block_memcpy.apply_mg(data_size as u64),
            r.other_gas.mg() == 0,
    {
        GasCharge::new("OnBlockRead", self.block_memcpy.apply(data_size as u64), Gas::zero())
    }

    /// Creating a block of `data_size` bytes holding `links` links: copy,
    /// allocation and link checking as compute, topped up to the memory
    /// retention floor.
    pub fn on_block_create(&self, data_size: usize, links: usize) -> (r: GasCharge)
        ensures
            r.compute_gas.mg() == sat_add(
                sat_add(
                    self.block_memcpy.apply_mg(data_size as u64),
                    self.block_allocate.apply_mg(data_size as u64),
                ),
                sat_mul(self.ipld_link_checked.mg(), links as u64),
            ),
            r.other_gas.mg() == ({
                let compute = sat_add(
                    sat_add(
                        self.block_memcpy.apply_mg(data_size as u64),
                        self.block_allocate.apply_mg(data_size as u64),
                    ),
                    sat_mul(self.ipld_link_checked.mg(), links as u64),
                );
                let retention_min = self.block_memory_retention_minimum.apply_mg(data_size as u64);
                sat_sub(retention_min, compute)
            }),
    {
        let compute = self.block_memcpy.apply(data_size as u64).saturating_add(
            self.block_allocate.apply(data_size as u64),
        ).saturating_add(self.ipld_link_checked.saturating_mul(links as u64));
        let retention_min = self.block_memory_retention_minimum.apply(data_size as u64);
        let retention_surcharge = retention_min.saturating_sub(compute).max(Gas::zero());
        GasCharge::new("OnBlockCreate", compute, retention_surcharge)
    }

    /// Committing a block of `data_size` bytes to the state blockstore,
    /// hashed with `hash_code`: copy, allocation, hashing and link tracking
    /// now; persistence and flushing deferred.
    pub fn on_block_link(&self, hash_code: SupportedHashes, data_size: usize) -> (r: GasCharge)
        ensures
            r.compute_gas.mg() == sat_add(
                sat_add(
                    sat_add(
                        self.block_memcpy.apply_mg(data_size as u64),
                        self.block_allocate.apply_mg(data_size as u64),
                    ),
                    self.hashing_cost.spec_cost_of(hash_code).apply_mg(data_size as u64),
                ),
                self.ipld_link_tracked.mg(),
            ),
            r.other_gas.mg() == sat_add(
                self.block_persist_compute.mg(),
                self.block_persist_storage.apply_mg(data_size as u64),
            ),
    {
        let memcpy = self.block_memcpy.apply(data_size as u64);
        let alloc = self.block_allocate.apply(data_size as u64);
        let hashing = self.hashing_cost.cost_of(hash_code).apply(data_size as u64);
        let initial_compute = memcpy.saturating_add(alloc).saturating_add(hashing).saturating_add(
            self.ipld_link_tracked,
        );
        let storage = self.block_persist_storage.apply(data_size as u64);
        let deferred_compute = self.block_persist_compute;
        GasCharge::new("OnBlockLink", initial_compute, deferred_compute.saturating_add(storage))
    }

    /// Asking for a block's size and codec is free.
    pub fn on_block_stat(&self) -> (r: GasCharge)
        ensures
            r.compute_gas.mg() == 0,
            r.other_gas.mg() == 0,
    {
        GasCharge::new("OnBlockStat", Gas::zero(), Gas::zero())
    }

    /// Looking an actor up in the state tree.
    pub fn on_actor_lookup(&self) -> (r: GasCharge)
        ensures
            r.compute_gas.mg() == 0,
            r.other_gas == self.actor_lookup,
    {
        GasCharge::new("OnActorLookup", Gas::zero(), self.actor_lookup)
    }

    /// Updating an actor in the state tree; assumes the lookup fee has
    /// already been charged.
    pub fn on_actor_update(&self) -> (r: GasCharge)
        ensures
            r.compute_gas.mg() == 0,
            r.other_gas == self.actor_update,
    {
        GasCharge::new("OnActorUpdate", Gas::zero(), self.actor_update)
    }

    /// Creating a new actor in the state tree; assumes lookup and update
    /// fees have already been charged.
    pub fn on_actor_create(&self) -> (r: GasCharge)
        ensures
            r.compute_gas.mg() == 0,
            r.other_gas == self.actor_create_storage,
    {
        GasCharge::new("OnActorCreate", Gas::zero(), self.actor_create_storage)
    }

    /// Reading the current actor's balance is free.
    pub fn on_self_balance(&self) -> (r: GasCharge)
        ensures
            r.compute_gas.mg() == 0,
            r.other_gas.mg() == 0,
    {
        GasCharge::new("OnSelfBalance", Gas::zero(), Gas::zero())
    }

    /// Reading another actor's balance is free.
    pub fn on_balance_of(&self) -> (r: GasCharge)
        ensures
            r.compute_gas.mg() == 0,
            r.other_gas.mg() == 0,
    {
        GasCharge::new("OnBalanceOf", Gas::zero(), Gas::zero())
    }

    /// Resolving an actor address is free.
    pub fn on_resolve_address(&self) -> (r: GasCharge)
        ensures
            r.compute_gas.mg() == 0,
            r.other_gas.mg() == 0,
    {
        GasCharge::new("OnResolveAddress", Gas::zero(), Gas::zero())
    }

    /// Looking up an actor's delegated address is free.
    pub fn on_lookup_delegated_address(&self) -> (r: GasCharge)
        ensures
            r.compute_gas.mg() == 0,
            r.other_gas.mg() == 0,
    {
        GasCharge::new("OnLookupAddress", Gas::zero(), Gas::zero())
    }

    /// Getting the code content identifier of an actor is free.
    pub fn on_get_actor_code_cid(&self) -> (r: GasCharge)
        ensures
            r.compute_gas.mg() == 0,
            r.other_gas.mg() == 0,
    {
        GasCharge::new("OnGetActorCodeCid", Gas::zero(), Gas::zero())
    }

    /// Looking up the type of a builtin actor by code identifier.
    pub fn on_get_builtin_actor_type(&self) -> (r: GasCharge)
        ensures
            r.compute_gas == self.builtin_actor_manifest_lookup,
            r.other_gas.mg() == 0,
    {
        GasCharge::new("OnGetBuiltinActorType", self.builtin_actor_manifest_lookup, Gas::zero())
    }

    /// Looking up the code identifier of a builtin actor by type.
    pub fn on_get_code_cid_for_type(&self) -> (r: GasCharge)
        ensures
            r.compute_gas == self.builtin_actor_manifest_lookup,
            r.other_gas.mg() == 0,
    {
        GasCharge::new("OnGetCodeCidForType", self.builtin_actor_manifest_lookup, Gas::zero())
    }

    /// Looking up a tipset content identifier with the given lookback.
    pub fn on_tipset_cid(&self, lookback: i64) -> (r: GasCharge)
        ensures
            r.compute_gas.mg() == 0,
            r.other_gas.mg() == self.lookback_cost.apply_mg(lookback as u64),
    {
        GasCharge::new(
            "OnTipsetCid",
            Gas::zero(),
            self.lookback_cost.apply(#[verifier::truncate] (lookback as u64)),
        )
    }

    /// Accessing the network context.
    pub fn on_network_context(&self) -> (r: GasCharge)
        ensures
            r.compute_gas == self.network_context,
            r.other_gas.mg() == 0,
    {
        GasCharge::new("OnNetworkContext", self.network_context, Gas::zero())
    }

    /// Accessing the message context.
    pub fn on_message_context(&self) -> (r: GasCharge)
        ensures
            r.compute_gas == self.message_context,
            r.other_gas.mg() == 0,
    {
        GasCharge::new("OnMessageContext", self.message_context, Gas::zero())
    }

    /// Installing an actor module of `wasm_size` bytes.
    pub fn on_install_actor(&self, wasm_size: usize) -> (r: GasCharge)
        ensures
            r.compute_gas.mg() == sat_mul(self.install_wasm_per_byte_cost.mg(), wasm_size as u64),
            r.other_gas.mg() == 0,
    {
        GasCharge::new(
            "OnInstallActor",
            self.install_wasm_per_byte_cost.saturating_mul(wasm_size as u64),
            Gas::zero(),
        )
    }

    /// The estimated CBOR-encoded size of an event of `entries` entries
    /// with `keysize` key bytes and `valuesize` value bytes in all.
    /// Saturates rather than failing, so pathological inputs produce a
    /// maximal charge instead of an error.
    pub open spec fn spec_event_estimated_size(entries: u64, keysize: u64, valuesize: u64) -> u64 {
        sat_add(
            sat_add(
                sat_add(EVENT_OVERHEAD as u64, sat_mul(EVENT_ENTRY_OVERHEAD as u64, entries)),
                keysize,
            ),
            valuesize,
        )
    }

    /// Emitting an actor event: entry validation and UTF-8 checking, two
    /// copies of the estimated encoded form as compute, and a deferred
    /// hash plus one more copy as other.
    pub fn on_actor_event(&self, entries: usize, keysize: usize, valuesize: usize) -> (r:
        GasCharge)
        ensures
            r.compute_gas.mg() == ({
                let est = Self::spec_event_estimated_size(
                    entries as u64,
                    keysize as u64,
                    valuesize as u64,
                );
                let mem = sat_add(
                    self.block_memcpy.apply_mg(est),
                    self.block_allocate.apply_mg(est),
                );
                sat_add(
                    sat_add(sat_mul(mem, 2), self.event_per_entry.apply_mg(entries as u64)),
                    self.utf8_validation.apply_mg(keysize as u64),
                )
            }),
            r.other_gas.mg() == ({
                let est = Self::spec_event_estimated_size(
                    entries as u64,
                    keysize as u64,
                    valuesize as u64,
                );
                let mem = sat_add(
                    self.block_memcpy.apply_mg(est),
                    self.block_allocate.apply_mg(est),
                );
                sat_add(self.hashing_cost.blake2b_256.apply_mg(est), mem)
            }),
    {
        let validate_entries = self.event_per_entry.apply(entries as u64);
        let validate_utf8 = self.utf8_validation.apply(keysize as u64);
        let estimated_size = crate::gas::sat_add_u64(
            crate::gas::sat_add_u64(
                crate::gas::sat_add_u64(
                    EVENT_OVERHEAD,
                    crate::gas::sat_mul_u64(EVENT_ENTRY_OVERHEAD, entries as u64),
                ),
                keysize as u64,
            ),
            valuesize as u64,
        );
        let mem = self.block_memcpy.apply(estimated_size).saturating_add(
            self.block_allocate.apply(estimated_size),
        );
        let hash = self.hashing_cost.cost_of(SupportedHashes::Blake2b256).apply(estimated_size);
        GasCharge::new(
            "OnActorEvent",
            mem.saturating_mul(2).saturating_add(validate_entries).saturating_add(validate_utf8),
            hash.saturating_add(mem),
        )
    }

    /// Reading the calling actor's state root.
    pub fn on_get_root(&self) -> (r: GasCharge)
        ensures
            r.compute_gas == self.ipld_link_tracked,
            r.other_gas.mg() == 0,
    {
        GasCharge::new("OnActorGetRoot", self.ipld_link_tracked, Gas::zero())
    }

    /// Replacing the calling actor's state root.
    pub fn on_set_root(&self) -> (r: GasCharge)
        ensures
            r.compute_gas == self.ipld_link_checked,
            r.other_gas.mg() == 0,
    {
        GasCharge::new("OnActorSetRoot", self.ipld_link_checked, Gas::zero())
    }
}

} // verus!

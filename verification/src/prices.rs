//! The two concrete price tables and their selection by network version.

use vstd::prelude::*;

use crate::gas::{sat_add, sat_mul, sat_sub, Gas};
use crate::price_list::{
    post_cost_get, seal_gas_get, seal_steps_get, step_ladder_wf, HashingCosts, NetworkVersion,
    PriceList, RegisteredPoStProof, RegisteredSealProof, ScalingCost, SigCosts, Step, StepCost,
};
use crate::wasm_gas::WasmGasPrices;

verus! {

/// The gas value of `g` whole gas units, saturating.
pub open spec fn sg(g: u64) -> Gas {
    Gas::from_mg_spec(sat_mul(g, 1000))
}

/// The gas value of `mg` milligas.
pub open spec fn smg(mg: u64) -> Gas {
    Gas::from_mg_spec(mg)
}

/// One ladder rung of `g` whole gas from `start` upward.
fn gas_step(start: u64, g: u64) -> (r: Step)
    ensures
        r == (Step { start, cost: sg(g) }),
{
    Step { start, cost: Gas::new(g) }
}

/// The aggregate-seal ladder for 32 GiB interactive proofs.
pub open spec fn ladder_32gib() -> Seq<Step> {
    seq![
        Step { start: 4, cost: sg(103994170) },
        Step { start: 7, cost: sg(112356810) },
        Step { start: 13, cost: sg(122912610) },
        Step { start: 26, cost: sg(137559930) },
        Step { start: 52, cost: sg(162039100) },
        Step { start: 103, cost: sg(210960780) },
        Step { start: 205, cost: sg(318351180) },
        Step { start: 410, cost: sg(528274980) },
    ]
}

/// The aggregate-seal ladder for 64 GiB interactive proofs.
pub open spec fn ladder_64gib() -> Seq<Step> {
    seq![
        Step { start: 4, cost: sg(102581240) },
        Step { start: 7, cost: sg(110803030) },
        Step { start: 13, cost: sg(120803700) },
        Step { start: 26, cost: sg(134642130) },
        Step { start: 52, cost: sg(157357890) },
        Step { start: 103, cost: sg(203017690) },
        Step { start: 205, cost: sg(304253590) },
        Step { start: 410, cost: sg(509880640) },
    ]
}

/// The aggregate-seal ladder for 32 GiB non-interactive proofs.
pub open spec fn ladder_32gib_ni() -> Seq<Step> {
    seq![
        Step { start: 1, cost: sg(112356810) },
        Step { start: 2, cost: sg(122912610) },
        Step { start: 3, cost: sg(137559930) },
        Step { start: 5, cost: sg(162039100) },
        Step { start: 9, cost: sg(210960780) },
        Step { start: 17, cost: sg(318351180) },
        Step { start: 33, cost: sg(528274980) },
    ]
}

/// The aggregate-seal ladder for 64 GiB non-interactive proofs.
pub open spec fn ladder_64gib_ni() -> Seq<Step> {
    seq![
        Step { start: 1, cost: sg(110803030) },
        Step { start: 2, cost: sg(120803700) },
        Step { start: 3, cost: sg(134642130) },
        Step { start: 5, cost: sg(157357890) },
        Step { start: 9, cost: sg(203017690) },
        Step { start: 17, cost: sg(304253590) },
        Step { start: 33, cost: sg(509880640) },
    ]
}

fn build_ladder_32gib() -> (r: StepCost)
    ensures
        r.0@ == ladder_32gib(),
{
    let mut v: Vec<Step> = Vec::new();
    v.push(gas_step(4, 103994170));
    v.push(gas_step(7, 112356810));
    v.push(gas_step(13, 122912610));
    v.push(gas_step(26, 137559930));
    v.push(gas_step(52, 162039100));
    v.push(gas_step(103, 210960780));
    v.push(gas_step(205, 318351180));
    v.push(gas_step(410, 528274980));
    proof {
        assert(v@ =~= ladder_32gib());
    }
    StepCost(v)
}

fn build_ladder_64gib() -> (r: StepCost)
    ensures
        r.0@ == ladder_64gib(),
{
    let mut v: Vec<Step> = Vec::new();
    v.push(gas_step(4, 102581240));
    v.push(gas_step(7, 110803030));
    v.push(gas_step(13, 120803700));
    v.push(gas_step(26, 134642130));
    v.push(gas_step(52, 157357890));
    v.push(gas_step(103, 203017690));
    v.push(gas_step(205, 304253590));
    v.push(gas_step(410, 509880640));
    proof {
        assert(v@ =~= ladder_64gib());
    }
    StepCost(v)
}

fn build_ladder_32gib_ni() -> (r: StepCost)
    ensures
        r.0@ == ladder_32gib_ni(),
{
    let mut v: Vec<Step> = Vec::new();
    v.push(gas_step(1, 112356810));
    v.push(gas_step(2, 122912610));
    v.push(gas_step(3, 137559930));
    v.push(gas_step(5, 162039100));
    v.push(gas_step(9, 210960780));
    v.push(gas_step(17, 318351180));
    v.push(gas_step(33, 528274980));
    proof {
        assert(v@ =~= ladder_32gib_ni());
    }
    StepCost(v)
}

fn build_ladder_64gib_ni() -> (r: StepCost)
    ensures
        r.0@ == ladder_64gib_ni(),
{
    let mut v: Vec<Step> = Vec::new();
    v.push(gas_step(1, 110803030));
    v.push(gas_step(2, 120803700));
    v.push(gas_step(3, 134642130));
    v.push(gas_step(5, 157357890));
    v.push(gas_step(9, 203017690));
    v.push(gas_step(17, 304253590));
    v.push(gas_step(33, 509880640));
    proof {
        assert(v@ =~= ladder_64gib_ni());
    }
    StepCost(v)
}

/// The fields shared by every network version's table.
pub open spec fn common_prices(r: PriceList) -> bool {
    &&& r.on_chain_message_compute == ScalingCost { flat: sg(38863), scale: smg(0) }
    &&& r.on_chain_message_storage == ScalingCost { flat: sg(46800), scale: sg(1300) }
    &&& r.on_chain_return_compute == ScalingCost { flat: smg(0), scale: smg(0) }
    &&& r.on_chain_return_storage == ScalingCost { flat: smg(0), scale: sg(1300) }
    &&& r.send_transfer_funds == sg(6000)
    &&& r.send_invoke_method == sg(75000)
    &&& r.actor_lookup == sg(500000)
    &&& r.actor_update == sg(475000)
    &&& r.actor_create_storage == sg(650000)
    &&& r.address_lookup == sg(1050000)
    &&& r.address_assignment == sg(1000000)
    &&& r.sig_cost == SigCosts {
        secp256k1: ScalingCost { flat: sg(1637292), scale: sg(10) },
        bls: ScalingCost { flat: sg(16598605), scale: sg(26) },
    }
    &&& r.secp256k1_recover_cost == sg(1637292)
    &&& r.bls_pairing_cost == sg(8299302)
    &&& r.bls_hashing_cost == ScalingCost { flat: smg(0), scale: sg(7) }
    &&& r.hashing_cost == HashingCosts {
        sha2_256: ScalingCost { flat: smg(0), scale: sg(7) },
        blake2b_256: ScalingCost { flat: smg(0), scale: sg(10) },
        blake2b_512: ScalingCost { flat: smg(0), scale: sg(10) },
        keccak_256: ScalingCost { flat: smg(0), scale: sg(33) },
        ripemd_160: ScalingCost { flat: smg(0), scale: sg(35) },
    }
    &&& r.compute_unsealed_sector_cid_base == sg(98647)
    &&& r.verify_post_lookup@.len() == 3
    &&& r.verify_post_lookup@[0] == (
        RegisteredPoStProof::StackedDRGWindow512MiBV1P1,
        ScalingCost { flat: sg(117680921), scale: sg(43780) },
    )
    &&& r.verify_post_lookup@[1] == (
        RegisteredPoStProof::StackedDRGWindow32GiBV1P1,
        ScalingCost { flat: sg(117680921), scale: sg(43780) },
    )
    &&& r.verify_post_lookup@[2] == (
        RegisteredPoStProof::StackedDRGWindow64GiBV1P1,
        ScalingCost { flat: sg(117680921), scale: sg(43780) },
    )
    &&& r.verify_consensus_fault == sg(516422)
    &&& r.verify_replica_update == sg(36316136)
    &&& r.lookback_cost == ScalingCost { flat: sg(146200), scale: sg(75) }
    &&& r.block_allocate == ScalingCost { flat: smg(0), scale: sg(2) }
    &&& r.block_memcpy == ScalingCost { flat: smg(0), scale: smg(400) }
    &&& r.block_memory_retention_minimum == ScalingCost { flat: smg(0), scale: sg(10) }
    &&& r.block_open == ScalingCost { flat: sg(187440), scale: smg(0) }
    &&& r.block_persist_storage == ScalingCost { flat: sg(334000), scale: sg(3340) }
    &&& r.block_persist_compute == sg(172000)
    &&& r.builtin_actor_manifest_lookup == smg(0)
    &&& r.network_context == smg(0)
    &&& r.message_context == smg(0)
    &&& r.install_wasm_per_byte_cost == smg(0)
    &&& r.wasm_rules == WasmGasPrices {
        instruction_default: sg(4),
        math_default: sg(4),
        jump_unconditional: sg(4),
        jump_conditional: sg(4),
        jump_indirect: sg(4),
        call: smg(0),
        memory_fill_base_cost: smg(0),
        memory_access_cost: smg(0),
        memory_copy_per_byte_cost: smg(400),
        memory_fill_per_byte_cost: smg(400),
        host_call_cost: sg(14000),
    }
    &&& r.event_per_entry == ScalingCost { flat: sg(2000), scale: sg(1400) }
    &&& r.utf8_validation == ScalingCost { flat: sg(500), scale: sg(16) }
    &&& r.preloaded_actors@ == seq![0u64, 1, 2, 3, 4, 5, 6, 7, 10, 99]
    &&& r.ipld_cbor_scan_per_cid == sg(400)
    &&& r.ipld_cbor_scan_per_field == sg(35)
    &&& r.ipld_link_tracked == sg(300)
    &&& r.ipld_link_checked == sg(300)
}

/// The table bound to network versions twenty one to twenty four.
pub open spec fn is_watermelon(r: PriceList) -> bool {
    &&& common_prices(r)
    &&& r.verify_seal_base == sg(2000)
    &&& r.verify_aggregate_seal_per@ == seq![
        (RegisteredSealProof::StackedDRG32GiBV1P1, sg(449900)),
        (RegisteredSealProof::StackedDRG64GiBV1P1, sg(359272)),
    ]
    &&& r.verify_aggregate_seal_steps@.len() == 2
    &&& r.verify_aggregate_seal_steps@[0].0 == RegisteredSealProof::StackedDRG32GiBV1P1
    &&& r.verify_aggregate_seal_steps@[0].1.0@ == ladder_32gib()
    &&& r.verify_aggregate_seal_steps@[1].0 == RegisteredSealProof::StackedDRG64GiBV1P1
    &&& r.verify_aggregate_seal_steps@[1].1.0@ == ladder_64gib()
}

/// The table bound to network versions twenty five and twenty six: the
/// seal-verification base rises steeply, and non-interactive proof types
/// gain their own per-proof prices and ladders.
pub open spec fn is_teep(r: PriceList) -> bool {
    &&& common_prices(r)
    &&& r.verify_seal_base == sg(42000000)
    &&& r.verify_aggregate_seal_per@ == seq![
        (RegisteredSealProof::StackedDRG32GiBV1P1, sg(449900)),
        (RegisteredSealProof::StackedDRG64GiBV1P1, sg(359272)),
        (RegisteredSealProof::StackedDRG32GiBV1P2_Feat_NiPoRep, sg(5668740)),
        (RegisteredSealProof::StackedDRG64GiBV1P2_Feat_NiPoRep, sg(4526928)),
    ]
    &&& r.verify_aggregate_seal_steps@.len() == 4
    &&& r.verify_aggregate_seal_steps@[0].0 == RegisteredSealProof::StackedDRG32GiBV1P1
    &&& r.verify_aggregate_seal_steps@[0].1.0@ == ladder_32gib()
    &&& r.verify_aggregate_seal_steps@[1].0 == RegisteredSealProof::StackedDRG64GiBV1P1
    &&& r.verify_aggregate_seal_steps@[1].1.0@ == ladder_64gib()
    &&& r.verify_aggregate_seal_steps@[2].0
        == RegisteredSealProof::StackedDRG32GiBV1P2_Feat_NiPoRep
    &&& r.verify_aggregate_seal_steps@[2].1.0@ == ladder_32gib_ni()
    &&& r.verify_aggregate_seal_steps@[3].0
        == RegisteredSealProof::StackedDRG64GiBV1P2_Feat_NiPoRep
    &&& r.verify_aggregate_seal_steps@[3].1.0@ == ladder_64gib_ni()
}

/// Everything of a watermelon table except the seal prices; the caller
/// fills those in.
fn base_prices(
    verify_seal_base: Gas,
    verify_aggregate_seal_per: Vec<(RegisteredSealProof, Gas)>,
    verify_aggregate_seal_steps: Vec<(RegisteredSealProof, StepCost)>,
) -> (r: PriceList)
    ensures
        common_prices(r),
        r.verify_seal_base == verify_seal_base,
        r.verify_aggregate_seal_per@ == verify_aggregate_seal_per@,
        r.verify_aggregate_seal_steps@ == verify_aggregate_seal_steps@,
{
    let mut verify_post_lookup: Vec<(RegisteredPoStProof, ScalingCost)> = Vec::new();
    verify_post_lookup.push(
        (
            RegisteredPoStProof::StackedDRGWindow512MiBV1P1,
            ScalingCost { flat: Gas::new(117680921), scale: Gas::new(43780) },
        ),
    );
    verify_post_lookup.push(
        (
            RegisteredPoStProof::StackedDRGWindow32GiBV1P1,
            ScalingCost { flat: Gas::new(117680921), scale: Gas::new(43780) },
        ),
    );
    verify_post_lookup.push(
        (
            RegisteredPoStProof::StackedDRGWindow64GiBV1P1,
            ScalingCost { flat: Gas::new(117680921), scale: Gas::new(43780) },
        ),
    );
    let mut preloaded_actors: Vec<u64> = Vec::new();
    preloaded_actors.push(0);
    preloaded_actors.push(1);
    preloaded_actors.push(2);
    preloaded_actors.push(3);
    preloaded_actors.push(4);
    preloaded_actors.push(5);
    preloaded_actors.push(6);
    preloaded_actors.push(7);
    preloaded_actors.push(10);
    preloaded_actors.push(99);
    proof {
        assert(preloaded_actors@ =~= seq![0u64, 1, 2, 3, 4, 5, 6, 7, 10, 99]);
    }
    PriceList {
        on_chain_message_compute: ScalingCost::fixed(Gas::new(38863)),
        on_chain_message_storage: ScalingCost { flat: Gas::new(36 * 1300), scale: Gas::new(1300) },
        on_chain_return_compute: ScalingCost::zero(),
        on_chain_return_storage: ScalingCost { flat: Gas::zero(), scale: Gas::new(1300) },
        send_transfer_funds: Gas::new(6000),
        send_invoke_method: Gas::new(75000),
        actor_lookup: Gas::new(500000),
        actor_update: Gas::new(475000),
        actor_create_storage: Gas::new(650000),
        address_lookup: Gas::new(1050000),
        address_assignment: Gas::new(1000000),
        sig_cost: SigCosts {
            secp256k1: ScalingCost { flat: Gas::new(1637292), scale: Gas::new(10) },
            bls: ScalingCost { flat: Gas::new(16598605), scale: Gas::new(26) },
        },
        secp256k1_recover_cost: Gas::new(1637292),
        bls_pairing_cost: Gas::new(8299302),
        bls_hashing_cost: ScalingCost { flat: Gas::zero(), scale: Gas::new(7) },
        hashing_cost: HashingCosts {
            sha2_256: ScalingCost { flat: Gas::zero(), scale: Gas::new(7) },
            blake2b_256: ScalingCost { flat: Gas::zero(), scale: Gas::new(10) },
            blake2b_512: ScalingCost { flat: Gas::zero(), scale: Gas::new(10) },
            keccak_256: ScalingCost { flat: Gas::zero(), scale: Gas::new(33) },
            ripemd_160: ScalingCost { flat: Gas::zero(), scale: Gas::new(35) },
        },
        compute_unsealed_sector_cid_base: Gas::new(98647),
        verify_seal_base,
        verify_aggregate_seal_per,
        verify_aggregate_seal_steps,
        verify_post_lookup,
        verify_consensus_fault: Gas::new(516422),
        verify_replica_update: Gas::new(36316136),
        lookback_cost: ScalingCost { flat: Gas::new(5800 * 19 + 15000 + 21000), scale: Gas::new(75) },
        block_allocate: ScalingCost { flat: Gas::zero(), scale: Gas::new(2) },
        block_memcpy: ScalingCost { flat: Gas::zero(), scale: Gas::from_milligas(400) },
        block_memory_retention_minimum: ScalingCost { flat: Gas::zero(), scale: Gas::new(10) },
        block_open: ScalingCost { flat: Gas::new(187440), scale: Gas::zero() },
        block_persist_storage: ScalingCost { flat: Gas::new(334000), scale: Gas::new(3340) },
        block_persist_compute: Gas::new(172000),
        builtin_actor_manifest_lookup: Gas::zero(),
        network_context: Gas::zero(),
        message_context: Gas::zero(),
        install_wasm_per_byte_cost: Gas::zero(),
        wasm_rules: WasmGasPrices {
            instruction_default: Gas::new(4),
            math_default: Gas::new(4),
            jump_unconditional: Gas::new(4),
            jump_conditional: Gas::new(4),
            jump_indirect: Gas::new(4),
            call: Gas::zero(),
            memory_fill_base_cost: Gas::zero(),
            memory_access_cost: Gas::zero(),
            memory_copy_per_byte_cost: Gas::from_milligas(400),
            memory_fill_per_byte_cost: Gas::from_milligas(400),
            host_call_cost: Gas::new(14000),
        },
        event_per_entry: ScalingCost { flat: Gas::new(2000), scale: Gas::new(1400) },
        utf8_validation: ScalingCost { flat: Gas::new(500), scale: Gas::new(16) },
        preloaded_actors,
        ipld_cbor_scan_per_cid: Gas::new(400),
        ipld_cbor_scan_per_field: Gas::new(35),
        ipld_link_tracked: Gas::new(300),
        ipld_link_checked: Gas::new(300),
    }
}

/// The price table bound to network versions twenty one to twenty four.
pub fn watermelon_prices() -> (r: PriceList)
    ensures
        is_watermelon(r),
        r.wf(),
{
    let mut per: Vec<(RegisteredSealProof, Gas)> = Vec::new();
    per.push((RegisteredSealProof::StackedDRG32GiBV1P1, Gas::new(449900)));
    per.push((RegisteredSealProof::StackedDRG64GiBV1P1, Gas::new(359272)));
    proof {
        assert(per@ =~= seq![
            (RegisteredSealProof::StackedDRG32GiBV1P1, sg(449900)),
            (RegisteredSealProof::StackedDRG64GiBV1P1, sg(359272)),
        ]);
    }
    let mut steps: Vec<(RegisteredSealProof, StepCost)> = Vec::new();
    steps.push((RegisteredSealProof::StackedDRG32GiBV1P1, build_ladder_32gib()));
    steps.push((RegisteredSealProof::StackedDRG64GiBV1P1, build_ladder_64gib()));
    let r = base_prices(Gas::new(2000), per, steps);
    proof {
        lemma_concrete_ladders_wf();
        assert(seal_gas_get(
            r.verify_aggregate_seal_per@,
            RegisteredSealProof::StackedDRG32GiBV1P1,
        ) is Some);
        assert(seal_steps_get(
            r.verify_aggregate_seal_steps@,
            RegisteredSealProof::StackedDRG32GiBV1P1,
        ) is Some);
        assert(post_cost_get(
            r.verify_post_lookup@,
            RegisteredPoStProof::StackedDRGWindow512MiBV1P1,
        ) is Some);
    }
    r
}

/// The price table bound to network versions twenty five and twenty six.
pub fn teep_prices() -> (r: PriceList)
    ensures
        is_teep(r),
        r.wf(),
{
    let mut per: Vec<(RegisteredSealProof, Gas)> = Vec::new();
    per.push((RegisteredSealProof::StackedDRG32GiBV1P1, Gas::new(449900)));
    per.push((RegisteredSealProof::StackedDRG64GiBV1P1, Gas::new(359272)));
    per.push((RegisteredSealProof::StackedDRG32GiBV1P2_Feat_NiPoRep, Gas::new(44990 * 126)));
    per.push((RegisteredSealProof::StackedDRG64GiBV1P2_Feat_NiPoRep, Gas::new(35928 * 126)));
    proof {
        assert(per@ =~= seq![
            (RegisteredSealProof::StackedDRG32GiBV1P1, sg(449900)),
            (RegisteredSealProof::StackedDRG64GiBV1P1, sg(359272)),
            (RegisteredSealProof::StackedDRG32GiBV1P2_Feat_NiPoRep, sg(5668740)),
            (RegisteredSealProof::StackedDRG64GiBV1P2_Feat_NiPoRep, sg(4526928)),
        ]);
    }
    let mut steps: Vec<(RegisteredSealProof, StepCost)> = Vec::new();
    steps.push((RegisteredSealProof::StackedDRG32GiBV1P1, build_ladder_32gib()));
    steps.push((RegisteredSealProof::StackedDRG64GiBV1P1, build_ladder_64gib()));
    steps.push((RegisteredSealProof::StackedDRG32GiBV1P2_Feat_NiPoRep, build_ladder_32gib_ni()));
    steps.push((RegisteredSealProof::StackedDRG64GiBV1P2_Feat_NiPoRep, build_ladder_64gib_ni()));
    let r = base_prices(Gas::new(42000000), per, steps);
    proof {
        lemma_concrete_ladders_wf();
        assert(seal_gas_get(
            r.verify_aggregate_seal_per@,
            RegisteredSealProof::StackedDRG32GiBV1P1,
        ) is Some);
        assert(seal_steps_get(
            r.verify_aggregate_seal_steps@,
            RegisteredSealProof::StackedDRG32GiBV1P1,
        ) is Some);
        assert(post_cost_get(
            r.verify_post_lookup@,
            RegisteredPoStProof::StackedDRGWindow512MiBV1P1,
        ) is Some);
    }
    r
}

/// All four concrete ladders are well-formed: starts strictly increasing,
/// costs non-decreasing.
pub proof fn lemma_concrete_ladders_wf()
    ensures
        step_ladder_wf(ladder_32gib()),
        step_ladder_wf(ladder_64gib()),
        step_ladder_wf(ladder_32gib_ni()),
        step_ladder_wf(ladder_64gib_ni()),
{
}

/// The price list for a supported network version: versions twenty one to
/// twenty four price like watermelon, twenty five and twenty six like teep.
/// All other versions are rejected and carry no schedule.
pub fn price_list_by_network_version(network_version: NetworkVersion) -> (r: PriceList)
    requires
        network_version is V21 || network_version is V22 || network_version is V23
            || network_version is V24 || network_version is V25 || network_version is V26,
    ensures
        r.wf(),
        (network_version is V21 || network_version is V22 || network_version is V23
            || network_version is V24) ==> is_watermelon(r),
        (network_version is V25 || network_version is V26) ==> is_teep(r),
{
    match network_version {
        NetworkVersion::V21 | NetworkVersion::V22 | NetworkVersion::V23 | NetworkVersion::V24 => {
            watermelon_prices()
        },
        _ => teep_prices(),
    }
}

/// Every block-open charge meets the memory retention floor: the total is
/// at least the retention minimum applied to the block's size, which is in
/// turn at least the saturated product of the size and the per-byte floor.
pub proof fn lemma_block_open_retention_floor(pl: PriceList, data_size: u64, links: u64)
    ensures
        ({
            let compute = sat_mul(pl.ipld_link_tracked.mg(), links);
            let block_open = sat_add(
                sat_add(
                    sat_mul(pl.block_open.scale.mg(), data_size),
                    pl.block_allocate.apply_mg(data_size),
                ),
                pl.block_memcpy.apply_mg(data_size),
            );
            let retention_min = pl.block_memory_retention_minimum.apply_mg(data_size);
            let other = sat_add(block_open, sat_sub(retention_min, sat_add(compute, block_open)));
            sat_add(compute, other) >= retention_min
        }),
        pl.block_memory_retention_minimum.apply_mg(data_size) >= sat_mul(
            pl.block_memory_retention_minimum.scale.mg(),
            data_size,
        ),
{
}

/// Every block-create charge meets the memory retention floor in the same
/// way.
pub proof fn lemma_block_create_retention_floor(pl: PriceList, data_size: u64, links: u64)
    ensures
        ({
            let compute = sat_add(
                sat_add(
                    pl.block_memcpy.apply_mg(data_size),
                    pl.block_allocate.apply_mg(data_size),
                ),
                sat_mul(pl.ipld_link_checked.mg(), links),
            );
            let retention_min = pl.block_memory_retention_minimum.apply_mg(data_size);
            sat_add(compute, sat_sub(retention_min, compute)) >= retention_min
        }),
{
}

} // verus!

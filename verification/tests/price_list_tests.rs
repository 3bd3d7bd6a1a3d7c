use fvm_core::gas::Gas;
use fvm_core::price_list::{
    NetworkVersion, RegisteredSealProof, Step, StepCost, SupportedHashes,
};
use fvm_core::prices::{price_list_by_network_version, teep_prices, watermelon_prices};

#[test]
fn test_read_write() {
    // The math for these operations is complicated, so we explicitly test
    // to make sure we're getting the expected 10 gas/byte.
    let prices = watermelon_prices();
    assert_eq!(prices.on_block_open(10, 0).total(), Gas::new(100));
    assert_eq!(prices.on_block_create(10, 0).total(), Gas::new(100));
}

#[test]
fn test_step_cost() {
    let costs = StepCost(vec![
        Step { start: 10, cost: Gas::new(1) },
        Step { start: 20, cost: Gas::new(2) },
    ]);
    assert!(costs.lookup(0).is_zero());
    assert!(costs.lookup(5).is_zero());

    assert_eq!(costs.lookup(10), Gas::new(1));
    assert_eq!(costs.lookup(11), Gas::new(1));
    assert_eq!(costs.lookup(19), Gas::new(1));

    assert_eq!(costs.lookup(20), Gas::new(2));
    assert_eq!(costs.lookup(100), Gas::new(2));
}

#[test]
fn test_step_cost_empty() {
    let costs = StepCost(vec![]);
    assert!(costs.lookup(0).is_zero());
    assert!(costs.lookup(10).is_zero());
}

#[test]
fn test_step_cost_zero() {
    let costs = StepCost(vec![Step { start: 0, cost: Gas::new(1) }]);
    assert_eq!(costs.lookup(0), Gas::new(1));
    assert_eq!(costs.lookup(10), Gas::new(1));
}

#[test]
fn test_aggregate_porep_gas_charges() {
    for nv in [NetworkVersion::V24, NetworkVersion::V25, NetworkVersion::V26] {
        let pricelist = price_list_by_network_version(nv);

        let base_cost_32gib = Gas::new(449900);
        let test_cases = vec![
            (1, base_cost_32gib),
            (3, base_cost_32gib.saturating_mul(3)),
            (4, base_cost_32gib.saturating_mul(4).saturating_add(Gas::new(103994170))),
            (7, base_cost_32gib.saturating_mul(7).saturating_add(Gas::new(112356810))),
            (13, base_cost_32gib.saturating_mul(13).saturating_add(Gas::new(122912610))),
            (26, base_cost_32gib.saturating_mul(26).saturating_add(Gas::new(137559930))),
            (52, base_cost_32gib.saturating_mul(52).saturating_add(Gas::new(162039100))),
            (65, base_cost_32gib.saturating_mul(65).saturating_add(Gas::new(162039100))),
        ];

        for (sector_count, expected_gas) in test_cases {
            let gas_charge = pricelist
                .on_verify_aggregate_seals(RegisteredSealProof::StackedDRG32GiBV1P1, sector_count);
            assert_eq!(
                gas_charge.compute_gas, expected_gas,
                "Regular PoRep with {} sectors in NV {:?} should charge {:?} gas, got {:?}",
                sector_count, nv, expected_gas, gas_charge.compute_gas
            );

            if nv == NetworkVersion::V24 {
                // prior to NV25 we were charging 32GiB interactive prices
                // for all non-interactive
                let gas_charge = pricelist.on_verify_aggregate_seals(
                    RegisteredSealProof::StackedDRG32GiBV1P2_Feat_NiPoRep,
                    sector_count,
                );
                assert_eq!(
                    gas_charge.compute_gas, expected_gas,
                    "32GiB NI-PoRep with {} sectors should charge {:?} gas, got {:?}",
                    sector_count, expected_gas, gas_charge.compute_gas
                );
                let gas_charge = pricelist.on_verify_aggregate_seals(
                    RegisteredSealProof::StackedDRG64GiBV1P2_Feat_NiPoRep,
                    sector_count,
                );
                assert_eq!(
                    gas_charge.compute_gas, expected_gas,
                    "64GiB NI-PoRep with {} sectors should charge {:?} gas, got {:?}",
                    sector_count, expected_gas, gas_charge.compute_gas
                );
            }
        }
    }
}

#[test]
fn test_niporep_aggregate_gas_charges() {
    let pricelist = price_list_by_network_version(NetworkVersion::V25);

    // 32GiB NI-PoRep
    let per_sector_cost_32gib = Gas::new(44990 * 126);
    let test_cases_32gib = vec![
        (1, per_sector_cost_32gib.saturating_add(Gas::new(112356810))),
        (2, per_sector_cost_32gib.saturating_mul(2).saturating_add(Gas::new(122912610))),
        (3, per_sector_cost_32gib.saturating_mul(3).saturating_add(Gas::new(137559930))),
        (4, per_sector_cost_32gib.saturating_mul(4).saturating_add(Gas::new(137559930))),
        (5, per_sector_cost_32gib.saturating_mul(5).saturating_add(Gas::new(162039100))),
        (8, per_sector_cost_32gib.saturating_mul(8).saturating_add(Gas::new(162039100))),
        (9, per_sector_cost_32gib.saturating_mul(9).saturating_add(Gas::new(210960780))),
        (16, per_sector_cost_32gib.saturating_mul(16).saturating_add(Gas::new(210960780))),
        (17, per_sector_cost_32gib.saturating_mul(17).saturating_add(Gas::new(318351180))),
        (32, per_sector_cost_32gib.saturating_mul(32).saturating_add(Gas::new(318351180))),
        (33, per_sector_cost_32gib.saturating_mul(33).saturating_add(Gas::new(528274980))),
        (64, per_sector_cost_32gib.saturating_mul(64).saturating_add(Gas::new(528274980))),
        (65, per_sector_cost_32gib.saturating_mul(65).saturating_add(Gas::new(528274980))),
    ];

    for (sector_count, expected_gas) in test_cases_32gib {
        let gas_charge = pricelist.on_verify_aggregate_seals(
            RegisteredSealProof::StackedDRG32GiBV1P2_Feat_NiPoRep,
            sector_count,
        );
        assert_eq!(
            gas_charge.compute_gas, expected_gas,
            "32GiB NI-PoRep with {} sectors should charge {:?} gas, got {:?}",
            sector_count, expected_gas, gas_charge.compute_gas
        );
    }

    // 64GiB NI-PoRep
    let per_sector_cost_64gib = Gas::new(35928 * 126);
    let test_cases_64gib = vec![
        (1, per_sector_cost_64gib.saturating_add(Gas::new(110803030))),
        (2, per_sector_cost_64gib.saturating_mul(2).saturating_add(Gas::new(120803700))),
        (3, per_sector_cost_64gib.saturating_mul(3).saturating_add(Gas::new(134642130))),
        (4, per_sector_cost_64gib.saturating_mul(4).saturating_add(Gas::new(134642130))),
        (5, per_sector_cost_64gib.saturating_mul(5).saturating_add(Gas::new(157357890))),
        (8, per_sector_cost_64gib.saturating_mul(8).saturating_add(Gas::new(157357890))),
        (9, per_sector_cost_64gib.saturating_mul(9).saturating_add(Gas::new(203017690))),
        (16, per_sector_cost_64gib.saturating_mul(16).saturating_add(Gas::new(203017690))),
        (17, per_sector_cost_64gib.saturating_mul(17).saturating_add(Gas::new(304253590))),
        (32, per_sector_cost_64gib.saturating_mul(32).saturating_add(Gas::new(304253590))),
        (33, per_sector_cost_64gib.saturating_mul(33).saturating_add(Gas::new(509880640))),
        (64, per_sector_cost_64gib.saturating_mul(64).saturating_add(Gas::new(509880640))),
        (65, per_sector_cost_64gib.saturating_mul(65).saturating_add(Gas::new(509880640))),
    ];

    for (sector_count, expected_gas) in test_cases_64gib {
        let gas_charge = pricelist.on_verify_aggregate_seals(
            RegisteredSealProof::StackedDRG64GiBV1P2_Feat_NiPoRep,
            sector_count,
        );
        assert_eq!(
            gas_charge.compute_gas, expected_gas,
            "64GiB NI-PoRep with {} sectors should charge {:?} gas, got {:?}",
            sector_count, expected_gas, gas_charge.compute_gas
        );
    }
}

#[test]
fn test_niporep_single_sector_matches_fip092_formula() {
    // These result in the same values that are calculated above, but we're
    // being explicit to match the interoperability formula.

    let pricelist = price_list_by_network_version(NetworkVersion::V25);

    // 32GiB NI-PoRep: 44990*126 + 112356810 = 118025550
    let gas_charge_32gib = pricelist
        .on_verify_aggregate_seals(RegisteredSealProof::StackedDRG32GiBV1P2_Feat_NiPoRep, 1);
    assert_eq!(
        gas_charge_32gib.compute_gas,
        Gas::new(118025550),
        "Single 32GiB NI-PoRep sector charge doesn't match expected value"
    );

    // 64GiB NI-PoRep: 35928*126 + 110803030 = 115329958
    let gas_charge_64gib = pricelist
        .on_verify_aggregate_seals(RegisteredSealProof::StackedDRG64GiBV1P2_Feat_NiPoRep, 1);
    assert_eq!(
        gas_charge_64gib.compute_gas,
        Gas::new(115329958),
        "Single 64GiB NI-PoRep sector charge doesn't match expected value"
    );
}

#[test]
fn block_open_meets_retention_floor() {
    let prices = watermelon_prices();
    for n in [0usize, 1, 10, 1000, 65536] {
        for links in [0usize, 1, 7] {
            let total = prices.on_block_open(n, links).total();
            let floor = prices.block_memory_retention_minimum.apply(n as u64);
            assert!(total.as_milligas() >= floor.as_milligas());
            let total = prices.on_block_create(n, links).total();
            assert!(total.as_milligas() >= floor.as_milligas());
        }
    }
}

#[test]
fn teep_changes_only_seal_prices() {
    let wm = watermelon_prices();
    let teep = teep_prices();
    assert_eq!(wm.verify_seal_base, Gas::new(2000));
    assert_eq!(teep.verify_seal_base, Gas::new(42000000));
    assert_eq!(wm.verify_aggregate_seal_per.len(), 2);
    assert_eq!(teep.verify_aggregate_seal_per.len(), 4);
    assert_eq!(wm.actor_update, teep.actor_update);
    assert_eq!(wm.block_memory_retention_minimum, teep.block_memory_retention_minimum);
}

#[test]
fn unknown_seal_proof_falls_back_to_32gib() {
    let prices = watermelon_prices();
    let priced = prices.on_verify_aggregate_seals(RegisteredSealProof::StackedDRG32GiBV1P1, 13);
    let fallback = prices.on_verify_aggregate_seals(RegisteredSealProof::StackedDRG2KiBV1P1, 13);
    assert_eq!(priced.compute_gas, fallback.compute_gas);
    // 449900*13 + 122912610 = 128761310
    assert_eq!(priced.compute_gas, Gas::new(128761310));
}

#[test]
fn hashing_and_event_charges() {
    let prices = watermelon_prices();
    let h = prices.on_hashing(SupportedHashes::Keccak256, 100);
    assert_eq!(h.compute_gas, Gas::new(3300));
    let ev = prices.on_actor_event(2, 10, 20);
    // estimated size = 12 + 9*2 + 10 + 20 = 60 bytes;
    // mem = 60*0.4 gas + 60*2 gas = 144 gas; compute = 144*2 + (2000 +
    // 1400*2) + (500 + 16*10) = 288 + 4800 + 660 = 5748 gas.
    assert_eq!(ev.compute_gas, Gas::from_milligas(5_748_000));
}

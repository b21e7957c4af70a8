//! The preset model: one fixed table of protocol constants per configuration.
//!
//! A preset is a closed, compiled-in menu of named configurations. Each entry
//! is a complete table of capacity constants (fixed or maximum lengths of the
//! variable-length fields of the container family) and of economic and timing
//! constants. The derived entries at the end of the table are fixed arithmetic
//! combinations of other entries; `lemma_derived_constants_consistent` proves
//! that no table drifts from those relationships.

use vstd::prelude::*;

verus! {

/// The closed menu of protocol configurations.
#[derive(Clone, Copy, PartialEq, Eq, Structural, Debug)]
pub enum PresetKind {
    Mainnet,
    Minimal,
    Gnosis,
}

/// A complete table of protocol constants for one configuration.
#[derive(Clone, Copy, PartialEq, Eq, Structural, Debug)]
pub struct PresetTable {
    pub epochs_per_eth1_voting_period: u64,
    pub epochs_per_historical_root: u64,
    pub epochs_per_historical_vector: u64,
    pub epochs_per_slashings_vector: u64,
    pub historical_roots_limit: u64,
    pub max_attestations: u64,
    pub max_attester_slashings: u64,
    pub max_committees_per_slot: u64,
    pub max_deposits: u64,
    pub max_proposer_slashings: u64,
    pub max_validators_per_committee: u64,
    pub max_voluntary_exits: u64,
    pub min_seed_lookahead: u64,
    pub slots_per_epoch: u64,
    pub validator_registry_limit: u64,
    pub sync_committee_size: u64,
    pub bytes_per_logs_bloom: u64,
    pub max_bytes_per_transaction: u64,
    pub max_extra_data_bytes: u64,
    pub max_transactions_per_payload: u64,
    pub max_bls_to_execution_changes: u64,
    pub max_withdrawals_per_payload: u64,
    pub field_elements_per_blob: u64,
    pub max_blob_commitments_per_block: u64,
    pub kzg_commitment_inclusion_proof_depth: u64,
    pub max_attestations_electra: u64,
    pub max_attester_slashings_electra: u64,
    pub max_consolidation_requests_per_payload: u64,
    pub max_deposit_requests_per_payload: u64,
    pub max_withdrawal_requests_per_payload: u64,
    pub pending_deposits_limit: u64,
    pub pending_consolidations_limit: u64,
    pub pending_partial_withdrawals_limit: u64,
    pub field_elements_per_cell: u64,
    pub kzg_commitments_inclusion_proof_depth: u64,
    pub field_elements_per_ext_blob: u64,
    pub number_of_columns: u64,
    pub max_attesters_per_slot: u64,
    pub max_cell_proofs_per_block: u64,
    pub cells_per_ext_blob: u64,
    pub base_reward_factor: u64,
    pub effective_balance_increment: u64,
    pub hysteresis_downward_multiplier: u64,
    pub hysteresis_quotient: u64,
    pub hysteresis_upward_multiplier: u64,
    pub inactivity_penalty_quotient: u64,
    pub max_effective_balance: u64,
    pub max_seed_lookahead: u64,
    pub min_attestation_inclusion_delay: u64,
    pub min_deposit_amount: u64,
    pub min_epochs_to_inactivity_penalty: u64,
    pub min_slashing_penalty_quotient: u64,
    pub proportional_slashing_multiplier: u64,
    pub proposer_reward_quotient: u64,
    pub shuffle_round_count: u64,
    pub target_committee_size: u64,
    pub whistleblower_reward_quotient: u64,
    pub epochs_per_sync_committee_period: u64,
    pub inactivity_penalty_quotient_altair: u64,
    pub min_slashing_penalty_quotient_altair: u64,
    pub min_sync_committee_participants: u64,
    pub proportional_slashing_multiplier_altair: u64,
    pub inactivity_penalty_quotient_bellatrix: u64,
    pub min_slashing_penalty_quotient_bellatrix: u64,
    pub proportional_slashing_multiplier_bellatrix: u64,
    pub max_validators_per_withdrawals_sweep: u64,
    pub max_effective_balance_electra: u64,
    pub max_pending_partials_per_withdrawals_sweep: u64,
    pub max_pending_deposits_per_epoch: u64,
    pub min_activation_balance: u64,
    pub min_slashing_penalty_quotient_electra: u64,
    pub whistleblower_reward_quotient_electra: u64,
}

/// The table that belongs to each preset kind.
pub open spec fn table_spec(kind: PresetKind) -> PresetTable {
    match kind {
        PresetKind::Mainnet => PresetTable {
            epochs_per_eth1_voting_period: 64,
            epochs_per_historical_root: 256,
            epochs_per_historical_vector: 65536,
            epochs_per_slashings_vector: 8192,
            historical_roots_limit: 16777216,
            max_attestations: 128,
            max_attester_slashings: 2,
            max_committees_per_slot: 64,
            max_deposits: 16,
            max_proposer_slashings: 16,
            max_validators_per_committee: 2048,
            max_voluntary_exits: 16,
            min_seed_lookahead: 1,
            slots_per_epoch: 32,
            validator_registry_limit: 1099511627776,
            sync_committee_size: 512,
            bytes_per_logs_bloom: 256,
            max_bytes_per_transaction: 1073741824,
            max_extra_data_bytes: 32,
            max_transactions_per_payload: 1048576,
            max_bls_to_execution_changes: 16,
            max_withdrawals_per_payload: 16,
            field_elements_per_blob: 4096,
            max_blob_commitments_per_block: 4096,
            kzg_commitment_inclusion_proof_depth: 17,
            max_attestations_electra: 8,
            max_attester_slashings_electra: 1,
            max_consolidation_requests_per_payload: 2,
            max_deposit_requests_per_payload: 8192,
            max_withdrawal_requests_per_payload: 16,
            pending_deposits_limit: 134217728,
            pending_consolidations_limit: 262144,
            pending_partial_withdrawals_limit: 134217728,
            field_elements_per_cell: 64,
            kzg_commitments_inclusion_proof_depth: 4,
            field_elements_per_ext_blob: 8192,
            number_of_columns: 128,
            max_attesters_per_slot: 131072,
            max_cell_proofs_per_block: 33554432,
            cells_per_ext_blob: 128,
            base_reward_factor: 64,
            effective_balance_increment: 1000000000,
            hysteresis_downward_multiplier: 1,
            hysteresis_quotient: 4,
            hysteresis_upward_multiplier: 5,
            inactivity_penalty_quotient: 67108864,
            max_effective_balance: 32000000000,
            max_seed_lookahead: 4,
            min_attestation_inclusion_delay: 1,
            min_deposit_amount: 1000000000,
            min_epochs_to_inactivity_penalty: 4,
            min_slashing_penalty_quotient: 128,
            proportional_slashing_multiplier: 1,
            proposer_reward_quotient: 8,
            shuffle_round_count: 90,
            target_committee_size: 128,
            whistleblower_reward_quotient: 512,
            epochs_per_sync_committee_period: 256,
            inactivity_penalty_quotient_altair: 50331648,
            min_slashing_penalty_quotient_altair: 64,
            min_sync_committee_participants: 1,
            proportional_slashing_multiplier_altair: 2,
            inactivity_penalty_quotient_bellatrix: 16777216,
            min_slashing_penalty_quotient_bellatrix: 32,
            proportional_slashing_multiplier_bellatrix: 3,
            max_validators_per_withdrawals_sweep: 16384,
            max_effective_balance_electra: 2048000000000,
            max_pending_partials_per_withdrawals_sweep: 8,
            max_pending_deposits_per_epoch: 16,
            min_activation_balance: 32000000000,
            min_slashing_penalty_quotient_electra: 4096,
            whistleblower_reward_quotient_electra: 4096,
        },
        PresetKind::Minimal => PresetTable {
            epochs_per_eth1_voting_period: 4,
            epochs_per_historical_root: 8,
            epochs_per_historical_vector: 64,
            epochs_per_slashings_vector: 64,
            historical_roots_limit: 16777216,
            max_attestations: 128,
            max_attester_slashings: 2,
            max_committees_per_slot: 4,
            max_deposits: 16,
            max_proposer_slashings: 16,
            max_validators_per_committee: 2048,
            max_voluntary_exits: 16,
            min_seed_lookahead: 1,
            slots_per_epoch: 8,
            validator_registry_limit: 1099511627776,
            sync_committee_size: 32,
            bytes_per_logs_bloom: 256,
            max_bytes_per_transaction: 1073741824,
            max_extra_data_bytes: 32,
            max_transactions_per_payload: 1048576,
            max_bls_to_execution_changes: 16,
            max_withdrawals_per_payload: 4,
            field_elements_per_blob: 4096,
            max_blob_commitments_per_block: 16,
            kzg_commitment_inclusion_proof_depth: 9,
            max_attestations_electra: 8,
            max_attester_slashings_electra: 1,
            max_consolidation_requests_per_payload: 2,
            max_deposit_requests_per_payload: 4,
            max_withdrawal_requests_per_payload: 2,
            pending_deposits_limit: 134217728,
            pending_consolidations_limit: 64,
            pending_partial_withdrawals_limit: 64,
            field_elements_per_cell: 64,
            kzg_commitments_inclusion_proof_depth: 4,
            field_elements_per_ext_blob: 8192,
            number_of_columns: 128,
            max_attesters_per_slot: 8192,
            max_cell_proofs_per_block: 131072,
            cells_per_ext_blob: 128,
            base_reward_factor: 64,
            effective_balance_increment: 1000000000,
            hysteresis_downward_multiplier: 1,
            hysteresis_quotient: 4,
            hysteresis_upward_multiplier: 5,
            inactivity_penalty_quotient: 33554432,
            max_effective_balance: 32000000000,
            max_seed_lookahead: 4,
            min_attestation_inclusion_delay: 1,
            min_deposit_amount: 1000000000,
            min_epochs_to_inactivity_penalty: 4,
            min_slashing_penalty_quotient: 64,
            proportional_slashing_multiplier: 2,
            proposer_reward_quotient: 8,
            shuffle_round_count: 10,
            target_committee_size: 4,
            whistleblower_reward_quotient: 512,
            epochs_per_sync_committee_period: 8,
            inactivity_penalty_quotient_altair: 50331648,
            min_slashing_penalty_quotient_altair: 64,
            min_sync_committee_participants: 1,
            proportional_slashing_multiplier_altair: 2,
            inactivity_penalty_quotient_bellatrix: 16777216,
            min_slashing_penalty_quotient_bellatrix: 32,
            proportional_slashing_multiplier_bellatrix: 3,
            max_validators_per_withdrawals_sweep: 16,
            max_effective_balance_electra: 2048000000000,
            max_pending_partials_per_withdrawals_sweep: 2,
            max_pending_deposits_per_epoch: 16,
            min_activation_balance: 32000000000,
            min_slashing_penalty_quotient_electra: 4096,
            whistleblower_reward_quotient_electra: 4096,
        },
        PresetKind::Gnosis => PresetTable {
            epochs_per_eth1_voting_period: 64,
            epochs_per_historical_root: 512,
            epochs_per_historical_vector: 65536,
            epochs_per_slashings_vector: 8192,
            historical_roots_limit: 16777216,
            max_attestations: 128,
            max_attester_slashings: 2,
            max_committees_per_slot: 64,
            max_deposits: 16,
            max_proposer_slashings: 16,
            max_validators_per_committee: 2048,
            max_voluntary_exits: 16,
            min_seed_lookahead: 1,
            slots_per_epoch: 16,
            validator_registry_limit: 1099511627776,
            sync_committee_size: 512,
            bytes_per_logs_bloom: 256,
            max_bytes_per_transaction: 1073741824,
            max_extra_data_bytes: 32,
            max_transactions_per_payload: 1048576,
            max_bls_to_execution_changes: 16,
            max_withdrawals_per_payload: 8,
            field_elements_per_blob: 4096,
            max_blob_commitments_per_block: 4096,
            kzg_commitment_inclusion_proof_depth: 17,
            max_attestations_electra: 8,
            max_attester_slashings_electra: 1,
            max_consolidation_requests_per_payload: 2,
            max_deposit_requests_per_payload: 8192,
            max_withdrawal_requests_per_payload: 16,
            pending_deposits_limit: 134217728,
            pending_consolidations_limit: 262144,
            pending_partial_withdrawals_limit: 134217728,
            field_elements_per_cell: 64,
            kzg_commitments_inclusion_proof_depth: 4,
            field_elements_per_ext_blob: 8192,
            number_of_columns: 128,
            max_attesters_per_slot: 131072,
            max_cell_proofs_per_block: 33554432,
            cells_per_ext_blob: 128,
            base_reward_factor: 25,
            effective_balance_increment: 1000000000,
            hysteresis_downward_multiplier: 1,
            hysteresis_quotient: 4,
            hysteresis_upward_multiplier: 5,
            inactivity_penalty_quotient: 67108864,
            max_effective_balance: 32000000000,
            max_seed_lookahead: 4,
            min_attestation_inclusion_delay: 1,
            min_deposit_amount: 1000000000,
            min_epochs_to_inactivity_penalty: 4,
            min_slashing_penalty_quotient: 128,
            proportional_slashing_multiplier: 1,
            proposer_reward_quotient: 8,
            shuffle_round_count: 90,
            target_committee_size: 128,
            whistleblower_reward_quotient: 512,
            epochs_per_sync_committee_period: 512,
            inactivity_penalty_quotient_altair: 50331648,
            min_slashing_penalty_quotient_altair: 64,
            min_sync_committee_participants: 1,
            proportional_slashing_multiplier_altair: 2,
            inactivity_penalty_quotient_bellatrix: 16777216,
            min_slashing_penalty_quotient_bellatrix: 32,
            proportional_slashing_multiplier_bellatrix: 3,
            max_validators_per_withdrawals_sweep: 8192,
            max_effective_balance_electra: 2048000000000,
            max_pending_partials_per_withdrawals_sweep: 6,
            max_pending_deposits_per_epoch: 16,
            min_activation_balance: 32000000000,
            min_slashing_penalty_quotient_electra: 4096,
            whistleblower_reward_quotient_electra: 4096,
        },
    }
}

fn mainnet_table() -> (t: PresetTable)
    ensures
        t == table_spec(PresetKind::Mainnet),
{
    PresetTable {
        epochs_per_eth1_voting_period: 64,
        epochs_per_historical_root: 256,
        epochs_per_historical_vector: 65536,
        epochs_per_slashings_vector: 8192,
        historical_roots_limit: 16777216,
        max_attestations: 128,
        max_attester_slashings: 2,
        max_committees_per_slot: 64,
        max_deposits: 16,
        max_proposer_slashings: 16,
        max_validators_per_committee: 2048,
        max_voluntary_exits: 16,
        min_seed_lookahead: 1,
        slots_per_epoch: 32,
        validator_registry_limit: 1099511627776,
        sync_committee_size: 512,
        bytes_per_logs_bloom: 256,
        max_bytes_per_transaction: 1073741824,
        max_extra_data_bytes: 32,
        max_transactions_per_payload: 1048576,
        max_bls_to_execution_changes: 16,
        max_withdrawals_per_payload: 16,
        field_elements_per_blob: 4096,
        max_blob_commitments_per_block: 4096,
        kzg_commitment_inclusion_proof_depth: 17,
        max_attestations_electra: 8,
        max_attester_slashings_electra: 1,
        max_consolidation_requests_per_payload: 2,
        max_deposit_requests_per_payload: 8192,
        max_withdrawal_requests_per_payload: 16,
        pending_deposits_limit: 134217728,
        pending_consolidations_limit: 262144,
        pending_partial_withdrawals_limit: 134217728,
        field_elements_per_cell: 64,
        kzg_commitments_inclusion_proof_depth: 4,
        field_elements_per_ext_blob: 8192,
        number_of_columns: 128,
        max_attesters_per_slot: 131072,
        max_cell_proofs_per_block: 33554432,
        cells_per_ext_blob: 128,
        base_reward_factor: 64,
        effective_balance_increment: 1000000000,
        hysteresis_downward_multiplier: 1,
        hysteresis_quotient: 4,
        hysteresis_upward_multiplier: 5,
        inactivity_penalty_quotient: 67108864,
        max_effective_balance: 32000000000,
        max_seed_lookahead: 4,
        min_attestation_inclusion_delay: 1,
        min_deposit_amount: 1000000000,
        min_epochs_to_inactivity_penalty: 4,
        min_slashing_penalty_quotient: 128,
        proportional_slashing_multiplier: 1,
        proposer_reward_quotient: 8,
        shuffle_round_count: 90,
        target_committee_size: 128,
        whistleblower_reward_quotient: 512,
        epochs_per_sync_committee_period: 256,
        inactivity_penalty_quotient_altair: 50331648,
        min_slashing_penalty_quotient_altair: 64,
        min_sync_committee_participants: 1,
        proportional_slashing_multiplier_altair: 2,
        inactivity_penalty_quotient_bellatrix: 16777216,
        min_slashing_penalty_quotient_bellatrix: 32,
        proportional_slashing_multiplier_bellatrix: 3,
        max_validators_per_withdrawals_sweep: 16384,
        max_effective_balance_electra: 2048000000000,
        max_pending_partials_per_withdrawals_sweep: 8,
        max_pending_deposits_per_epoch: 16,
        min_activation_balance: 32000000000,
        min_slashing_penalty_quotient_electra: 4096,
        whistleblower_reward_quotient_electra: 4096,
    }
}

fn minimal_table() -> (t: PresetTable)
    ensures
        t == table_spec(PresetKind::Minimal),
{
    PresetTable {
        epochs_per_eth1_voting_period: 4,
        epochs_per_historical_root: 8,
        epochs_per_historical_vector: 64,
        epochs_per_slashings_vector: 64,
        historical_roots_limit: 16777216,
        max_attestations: 128,
        max_attester_slashings: 2,
        max_committees_per_slot: 4,
        max_deposits: 16,
        max_proposer_slashings: 16,
        max_validators_per_committee: 2048,
        max_voluntary_exits: 16,
        min_seed_lookahead: 1,
        slots_per_epoch: 8,
        validator_registry_limit: 1099511627776,
        sync_committee_size: 32,
        bytes_per_logs_bloom: 256,
        max_bytes_per_transaction: 1073741824,
        max_extra_data_bytes: 32,
        max_transactions_per_payload: 1048576,
        max_bls_to_execution_changes: 16,
        max_withdrawals_per_payload: 4,
        field_elements_per_blob: 4096,
        max_blob_commitments_per_block: 16,
        kzg_commitment_inclusion_proof_depth: 9,
        max_attestations_electra: 8,
        max_attester_slashings_electra: 1,
        max_consolidation_requests_per_payload: 2,
        max_deposit_requests_per_payload: 4,
        max_withdrawal_requests_per_payload: 2,
        pending_deposits_limit: 134217728,
        pending_consolidations_limit: 64,
        pending_partial_withdrawals_limit: 64,
        field_elements_per_cell: 64,
        kzg_commitments_inclusion_proof_depth: 4,
        field_elements_per_ext_blob: 8192,
        number_of_columns: 128,
        max_attesters_per_slot: 8192,
        max_cell_proofs_per_block: 131072,
        cells_per_ext_blob: 128,
        base_reward_factor: 64,
        effective_balance_increment: 1000000000,
        hysteresis_downward_multiplier: 1,
        hysteresis_quotient: 4,
        hysteresis_upward_multiplier: 5,
        inactivity_penalty_quotient: 33554432,
        max_effective_balance: 32000000000,
        max_seed_lookahead: 4,
        min_attestation_inclusion_delay: 1,
        min_deposit_amount: 1000000000,
        min_epochs_to_inactivity_penalty: 4,
        min_slashing_penalty_quotient: 64,
        proportional_slashing_multiplier: 2,
        proposer_reward_quotient: 8,
        shuffle_round_count: 10,
        target_committee_size: 4,
        whistleblower_reward_quotient: 512,
        epochs_per_sync_committee_period: 8,
        inactivity_penalty_quotient_altair: 50331648,
        min_slashing_penalty_quotient_altair: 64,
        min_sync_committee_participants: 1,
        proportional_slashing_multiplier_altair: 2,
        inactivity_penalty_quotient_bellatrix: 16777216,
        min_slashing_penalty_quotient_bellatrix: 32,
        proportional_slashing_multiplier_bellatrix: 3,
        max_validators_per_withdrawals_sweep: 16,
        max_effective_balance_electra: 2048000000000,
        max_pending_partials_per_withdrawals_sweep: 2,
        max_pending_deposits_per_epoch: 16,
        min_activation_balance: 32000000000,
        min_slashing_penalty_quotient_electra: 4096,
        whistleblower_reward_quotient_electra: 4096,
    }
}

fn gnosis_table() -> (t: PresetTable)
    ensures
        t == table_spec(PresetKind::Gnosis),
{
    PresetTable {
        epochs_per_eth1_voting_period: 64,
        epochs_per_historical_root: 512,
        epochs_per_historical_vector: 65536,
        epochs_per_slashings_vector: 8192,
        historical_roots_limit: 16777216,
        max_attestations: 128,
        max_attester_slashings: 2,
        max_committees_per_slot: 64,
        max_deposits: 16,
        max_proposer_slashings: 16,
        max_validators_per_committee: 2048,
        max_voluntary_exits: 16,
        min_seed_lookahead: 1,
        slots_per_epoch: 16,
        validator_registry_limit: 1099511627776,
        sync_committee_size: 512,
        bytes_per_logs_bloom: 256,
        max_bytes_per_transaction: 1073741824,
        max_extra_data_bytes: 32,
        max_transactions_per_payload: 1048576,
        max_bls_to_execution_changes: 16,
        max_withdrawals_per_payload: 8,
        field_elements_per_blob: 4096,
        max_blob_commitments_per_block: 4096,
        kzg_commitment_inclusion_proof_depth: 17,
        max_attestations_electra: 8,
        max_attester_slashings_electra: 1,
        max_consolidation_requests_per_payload: 2,
        max_deposit_requests_per_payload: 8192,
        max_withdrawal_requests_per_payload: 16,
        pending_deposits_limit: 134217728,
        pending_consolidations_limit: 262144,
        pending_partial_withdrawals_limit: 134217728,
        field_elements_per_cell: 64,
        kzg_commitments_inclusion_proof_depth: 4,
        field_elements_per_ext_blob: 8192,
        number_of_columns: 128,
        max_attesters_per_slot: 131072,
        max_cell_proofs_per_block: 33554432,
        cells_per_ext_blob: 128,
        base_reward_factor: 25,
        effective_balance_increment: 1000000000,
        hysteresis_downward_multiplier: 1,
        hysteresis_quotient: 4,
        hysteresis_upward_multiplier: 5,
        inactivity_penalty_quotient: 67108864,
        max_effective_balance: 32000000000,
        max_seed_lookahead: 4,
        min_attestation_inclusion_delay: 1,
        min_deposit_amount: 1000000000,
        min_epochs_to_inactivity_penalty: 4,
        min_slashing_penalty_quotient: 128,
        proportional_slashing_multiplier: 1,
        proposer_reward_quotient: 8,
        shuffle_round_count: 90,
        target_committee_size: 128,
        whistleblower_reward_quotient: 512,
        epochs_per_sync_committee_period: 512,
        inactivity_penalty_quotient_altair: 50331648,
        min_slashing_penalty_quotient_altair: 64,
        min_sync_committee_participants: 1,
        proportional_slashing_multiplier_altair: 2,
        inactivity_penalty_quotient_bellatrix: 16777216,
        min_slashing_penalty_quotient_bellatrix: 32,
        proportional_slashing_multiplier_bellatrix: 3,
        max_validators_per_withdrawals_sweep: 8192,
        max_effective_balance_electra: 2048000000000,
        max_pending_partials_per_withdrawals_sweep: 6,
        max_pending_deposits_per_epoch: 16,
        min_activation_balance: 32000000000,
        min_slashing_penalty_quotient_electra: 4096,
        whistleblower_reward_quotient_electra: 4096,
    }
}

/// Returns the constant table of the given preset.
pub fn preset_table(kind: PresetKind) -> (t: PresetTable)
    ensures
        t == table_spec(kind),
{
    match kind {
        PresetKind::Mainnet => mainnet_table(),
        PresetKind::Minimal => minimal_table(),
        PresetKind::Gnosis => gnosis_table(),
    }
}

/// Capacity bound of the KZG-proof and blob lists of block contents.
pub open spec fn spec_max_blob_commitments(kind: PresetKind) -> u64 {
    table_spec(kind).max_blob_commitments_per_block
}

/// Number of bytes of one blob: 32 bytes per field element.
pub open spec fn spec_bytes_per_blob(kind: PresetKind) -> u64 {
    (table_spec(kind).field_elements_per_blob * 32) as u64
}

/// Capacity bound of the variable-length payload of a full block body.
pub open spec fn spec_max_payload_bytes(kind: PresetKind) -> u64 {
    table_spec(kind).max_bytes_per_transaction
}

/// Returns the number of bytes of one blob under the given preset.
pub fn bytes_per_blob(kind: PresetKind) -> (n: u64)
    ensures
        n == spec_bytes_per_blob(kind),
{
    let t = preset_table(kind);
    t.field_elements_per_blob * 32
}

/// Every derived entry of every table equals the fixed arithmetic combination
/// of the entries it is derived from, and no divisor or quotient entry is zero.
pub proof fn lemma_derived_constants_consistent(kind: PresetKind)
    ensures
        table_spec(kind).max_attesters_per_slot == table_spec(kind).max_validators_per_committee
            * table_spec(kind).max_committees_per_slot,
        table_spec(kind).max_cell_proofs_per_block == table_spec(
            kind,
        ).field_elements_per_ext_blob * table_spec(kind).max_blob_commitments_per_block,
        table_spec(kind).cells_per_ext_blob * table_spec(kind).field_elements_per_cell
            == table_spec(kind).field_elements_per_ext_blob,
        table_spec(kind).field_elements_per_cell > 0,
        table_spec(kind).hysteresis_quotient > 0,
        table_spec(kind).effective_balance_increment > 0,
        table_spec(kind).min_attestation_inclusion_delay > 0,
        table_spec(kind).min_slashing_penalty_quotient > 0,
        table_spec(kind).proposer_reward_quotient > 0,
        table_spec(kind).target_committee_size > 0,
        table_spec(kind).whistleblower_reward_quotient > 0,
        table_spec(kind).epochs_per_sync_committee_period > 0,
        table_spec(kind).inactivity_penalty_quotient > 0,
{
}

/// The Gnosis chain configuration.
#[derive(Clone, Copy, PartialEq, Eq, PartialOrd, Ord, Hash, Default, Debug)]
pub struct Gnosis;

impl Gnosis {
    /// The preset kind this configuration names.
    pub fn kind(&self) -> (k: PresetKind)
        ensures
            k == PresetKind::Gnosis,
    {
        PresetKind::Gnosis
    }

    /// The full constant table of the Gnosis configuration.
    pub fn table(&self) -> (t: PresetTable)
        ensures
            t == table_spec(PresetKind::Gnosis),
    {
        gnosis_table()
    }
}

/// The mainnet configuration.
#[derive(Clone, Copy, PartialEq, Eq, PartialOrd, Ord, Hash, Default, Debug)]
pub struct Mainnet;

impl Mainnet {
    /// The preset kind this configuration names.
    pub fn kind(&self) -> (k: PresetKind)
        ensures
            k == PresetKind::Mainnet,
    {
        PresetKind::Mainnet
    }

    /// The full constant table of the mainnet configuration.
    pub fn table(&self) -> (t: PresetTable)
        ensures
            t == table_spec(PresetKind::Mainnet),
    {
        mainnet_table()
    }
}

/// The minimal (testing) configuration.
#[derive(Clone, Copy, PartialEq, Eq, PartialOrd, Ord, Hash, Default, Debug)]
pub struct Minimal;

impl Minimal {
    /// The preset kind this configuration names.
    pub fn kind(&self) -> (k: PresetKind)
        ensures
            k == PresetKind::Minimal,
    {
        PresetKind::Minimal
    }

    /// The full constant table of the minimal configuration.
    pub fn table(&self) -> (t: PresetTable)
        ensures
            t == table_spec(PresetKind::Minimal),
    {
        minimal_table()
    }
}

} // verus!

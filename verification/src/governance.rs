//! Governance of the root contract: the weighted multi-signature quorum that
//! guards every change of keys, validators and fees, the fee rules, and the
//! voting ballots.
use vstd::prelude::*;
use vstd::set_lib::lemma_len_subset;
use crate::address::{
    ascending_keys, strictly_ascending,
    Address, ByteKey, contains_key, dedup, dedup_keys, lemma_dedup, occurs_before, views,
};

verus! {

/// Why a governance operation was refused.
#[derive(Clone, Copy, Debug, PartialEq, Eq, Structural)]
pub enum ContractError {
    NotInitialized,
    ThresholdNotReached,
    Overflow,
    InvalidThreshold,
    ProposalAlreadyActive,
    NoActiveProposal,
    AlreadyVoted,
}

/// The contract's core record; governance reads its admin.
#[derive(Debug)]
pub struct ContractData {
    pub admin: Address,
}

/// The number of distinct authorized signers a quorum needs.
#[derive(Clone, Copy, Debug, PartialEq, Eq, Structural)]
pub struct GovernanceConfig {
    pub quorum_threshold: u32,
}

/// Weight settings of the multi-signature quorum.
#[derive(Clone, Copy, Debug, PartialEq, Eq, Structural)]
pub struct MultiSigConfig {
    /// Total weight required for quorum (N in N-of-M)
    pub required_weight: u32,
    /// Maximum weight any single signer can hold
    pub max_signer_weight: u32,
}

impl Default for MultiSigConfig {
    fn default() -> (r: Self)
        ensures
            r == (MultiSigConfig { required_weight: 1, max_signer_weight: 1 }),
    {
        MultiSigConfig { required_weight: 1, max_signer_weight: 1 }
    }
}

impl Default for GovernanceConfig {
    fn default() -> (r: Self)
        ensures
            r == (GovernanceConfig { quorum_threshold: 2 }),
    {
        GovernanceConfig { quorum_threshold: 2 }
    }
}

/// Proposal state enumeration for governance lifecycle management.
///
/// Proposals transition through states as they move through voting, approval,
/// and execution phases. The `Vetoed` state is terminal and prevents execution.
#[derive(Clone, Copy, Debug, PartialEq, Eq, Structural)]
pub enum ProposalState {
    /// Proposal has been created and is awaiting voting.
    Pending,
    /// Proposal is currently in the voting/discussion phase.
    Active,
    /// Proposal has been approved by the required threshold and awaits execution.
    Approved,
    /// Proposal was rejected during voting (failed to reach threshold).
    Rejected,
    /// Proposal has been executed and is complete.
    Executed,
    /// Proposal was vetoed by the Security Council (terminal state).
    Vetoed,
}

/// A contract upgrade waiting for its delay to pass.
#[derive(Debug)]
pub struct StagedUpgrade {
    pub new_wasm_hash: [u8; 32],
    pub proposer: Address,
    pub staged_at: u64,
    /// Earliest ledger timestamp at which the replacement may execute.
    pub execute_at: u64,
}

/// An upgrade proposed through governance, with the signers that back it.
#[derive(Debug)]
pub struct GovernanceUpgradeProposal {
    pub new_wasm_hash: [u8; 32],
    pub proposer: Address,
    pub staged_at: u64,
    pub signers: Vec<Address>,
}

/// What is announced when a governance upgrade is proposed.
#[derive(Debug)]
pub struct GovernanceUpgradeProposedEvent {
    pub new_wasm_hash: [u8; 32],
    pub proposer: Address,
    pub signers: Vec<Address>,
    pub staged_at: u64,
    pub required_weight: u32,
    pub collected_weight: u32,
}

pub const LOW_FEE_TIER_BPS: u32 = 5;
pub const MEDIUM_FEE_TIER_BPS: u32 = 30;
pub const HIGH_FEE_TIER_BPS: u32 = 100;
pub const DEFAULT_FEE_TIER_BPS: u32 = MEDIUM_FEE_TIER_BPS;
pub const LP_FEE_SHARE_BPS: u32 = 8000;
pub const TREASURY_FEE_SHARE_BPS: u32 = 2000;
/// One whole, in basis points.
pub const BPS_DENOMINATOR: u32 = 10000;

/// The fee tier in force and the tiers it may be set to.
#[derive(Clone, Copy, Debug, PartialEq, Eq, Structural)]
pub struct FeeTierConfig {
    pub fee_tier_bps: u32,
    pub low_fee_tier_bps: u32,
    pub medium_fee_tier_bps: u32,
    pub high_fee_tier_bps: u32,
}

impl Default for FeeTierConfig {
    fn default() -> (r: Self)
        ensures
            r == (FeeTierConfig {
                fee_tier_bps: DEFAULT_FEE_TIER_BPS,
                low_fee_tier_bps: LOW_FEE_TIER_BPS,
                medium_fee_tier_bps: MEDIUM_FEE_TIER_BPS,
                high_fee_tier_bps: HIGH_FEE_TIER_BPS,
            }),
    {
        FeeTierConfig {
            fee_tier_bps: DEFAULT_FEE_TIER_BPS,
            low_fee_tier_bps: LOW_FEE_TIER_BPS,
            medium_fee_tier_bps: MEDIUM_FEE_TIER_BPS,
            high_fee_tier_bps: HIGH_FEE_TIER_BPS,
        }
    }
}

/// How collected fees are split between liquidity providers and the treasury.
#[derive(Clone, Copy, Debug, PartialEq, Eq, Structural)]
pub struct FeeSplitConfig {
    pub lp_share_bps: u32,
    pub treasury_share_bps: u32,
}

impl Default for FeeSplitConfig {
    fn default() -> (r: Self)
        ensures
            r == (FeeSplitConfig {
                lp_share_bps: LP_FEE_SHARE_BPS,
                treasury_share_bps: TREASURY_FEE_SHARE_BPS,
            }),
    {
        FeeSplitConfig { lp_share_bps: LP_FEE_SHARE_BPS, treasury_share_bps: TREASURY_FEE_SHARE_BPS }
    }
}

/// A signer's weight in the multi-signature quorum.
#[derive(Debug)]
pub struct SignerWeight {
    pub signer: Address,
    pub weight: u32,
}

/// The weights recorded in `s`; where a signer occurs more than once, its
/// last entry counts.
pub open spec fn weights_map(s: Seq<SignerWeight>) -> Map<Seq<u8>, u32>
    decreases s.len(),
{
    if s.len() == 0 {
        Map::empty()
    } else {
        weights_map(s.drop_last()).insert(s.last().signer@, s.last().weight)
    }
}

/// The set of the keys in `s`.
pub open spec fn key_set(s: Seq<Seq<u8>>) -> Set<Seq<u8>> {
    Set::new(|x: Seq<u8>| s.contains(x))
}

pub open spec fn option_view(a: Option<Address>) -> Option<Seq<u8>> {
    match a {
        Some(x) => Some(x@),
        None => None,
    }
}

/// The governance state as mathematical values.
pub struct GovernanceModel {
    pub admin: Option<Seq<u8>>,
    pub signers: Set<Seq<u8>>,
    pub weights: Map<Seq<u8>, u32>,
    pub governance_config: GovernanceConfig,
    pub multisig_config: MultiSigConfig,
    pub validators: Set<Seq<u8>>,
    pub validator_sequence: u64,
    pub fee_tier_config: FeeTierConfig,
    pub fee_split_config: FeeSplitConfig,
    pub treasury: Option<Seq<u8>>,
}

/// The governance state the root contract keeps: the admin record, the
/// authorized signers and their weights, the quorum settings, the validator
/// set with its rotation counter, the fee settings and the treasury vault.
#[derive(Debug)]
pub struct Governance {
    pub data: Option<ContractData>,
    pub signers: Vec<Address>,
    pub signer_weights: Vec<SignerWeight>,
    pub governance_config: GovernanceConfig,
    pub multisig_config: MultiSigConfig,
    pub validators: Vec<[u8; 32]>,
    pub validator_sequence: u64,
    pub fee_tier_config: FeeTierConfig,
    pub fee_split_config: FeeSplitConfig,
    pub treasury: Option<Address>,
}

impl View for Governance {
    type V = GovernanceModel;

    open spec fn view(&self) -> GovernanceModel {
        GovernanceModel {
            admin: match self.data {
                Some(d) => Some(d.admin@),
                None => None,
            },
            signers: key_set(views(self.signers@)),
            weights: weights_map(self.signer_weights@),
            governance_config: self.governance_config,
            multisig_config: self.multisig_config,
            validators: key_set(views(self.validators@)),
            validator_sequence: self.validator_sequence,
            fee_tier_config: self.fee_tier_config,
            fee_split_config: self.fee_split_config,
            treasury: option_view(self.treasury),
        }
    }
}

/// The states governance can reach: the fee split always adds up to one
/// whole, the tiers are the three fixed ones and the tier in force is one
/// of them.
pub open spec fn governance_wf(m: GovernanceModel) -> bool {
    &&& m.fee_split_config.lp_share_bps + m.fee_split_config.treasury_share_bps == 10000
    &&& m.fee_tier_config.low_fee_tier_bps == LOW_FEE_TIER_BPS
    &&& m.fee_tier_config.medium_fee_tier_bps == MEDIUM_FEE_TIER_BPS
    &&& m.fee_tier_config.high_fee_tier_bps == HIGH_FEE_TIER_BPS
    &&& {
        ||| m.fee_tier_config.fee_tier_bps == LOW_FEE_TIER_BPS
        ||| m.fee_tier_config.fee_tier_bps == MEDIUM_FEE_TIER_BPS
        ||| m.fee_tier_config.fee_tier_bps == HIGH_FEE_TIER_BPS
    }
}

/// The weight `x` holds: the weight recorded for it (0 when none is), and
/// never more than the maximum weight a signer can hold.
pub open spec fn stored_weight(m: GovernanceModel, x: Seq<u8>) -> u32 {
    let w = if m.weights.contains_key(x) {
        m.weights[x]
    } else {
        0
    };
    if w > m.multisig_config.max_signer_weight {
        m.multisig_config.max_signer_weight
    } else {
        w
    }
}

/// Whether `x` may sign: it is the admin or an authorized signer.
pub open spec fn authorized(m: GovernanceModel, admin: Seq<u8>, x: Seq<u8>) -> bool {
    x == admin || m.signers.contains(x)
}

/// The weight `x` brings to a quorum: the admin counts at least 1.
pub open spec fn effective_weight(m: GovernanceModel, admin: Seq<u8>, x: Seq<u8>) -> int {
    let w = stored_weight(m, x);
    if x == admin && w < 1 {
        1
    } else {
        w as int
    }
}

/// The number of distinct authorized signers among `s` and their total
/// weight; repeated and unauthorized signers count for nothing.
pub open spec fn tally(m: GovernanceModel, admin: Seq<u8>, s: Seq<Seq<u8>>) -> (int, int)
    decreases s.len(),
{
    if s.len() == 0 {
        (0, 0)
    } else {
        let prev = tally(m, admin, s.drop_last());
        if !s.drop_last().contains(s.last()) && authorized(m, admin, s.last()) {
            (prev.0 + 1, prev.1 + effective_weight(m, admin, s.last()))
        } else {
            prev
        }
    }
}

/// Whether the signers `s` form a quorum: refused when there is no admin
/// record, when their total weight does not fit a `u32`, when fewer distinct
/// authorized signers than the threshold sign, or when their weight is below
/// the required weight.
pub open spec fn quorum_outcome(m: GovernanceModel, s: Seq<Seq<u8>>) -> Result<(), ContractError> {
    match m.admin {
        None => Err(ContractError::NotInitialized),
        Some(admin) => {
            let t = tally(m, admin, s);
            if t.1 > u32::MAX {
                Err(ContractError::Overflow)
            } else if t.0 < m.governance_config.quorum_threshold {
                Err(ContractError::ThresholdNotReached)
            } else if t.1 < m.multisig_config.required_weight {
                Err(ContractError::ThresholdNotReached)
            } else {
                Ok(())
            }
        },
    }
}

/// The outcome of a rotation of the admin keys to `new` with quorum
/// threshold `t`: the quorum's refusal, or `InvalidThreshold` unless
/// `1 <= t <= ` the number of distinct new signers.
pub open spec fn rotate_admin_outcome(
    m: GovernanceModel,
    s: Seq<Seq<u8>>,
    new: Seq<Seq<u8>>,
    t: u32,
) -> Result<(), ContractError> {
    match quorum_outcome(m, s) {
        Err(e) => Err(e),
        Ok(_) => if t == 0 || t > dedup(new).len() {
            Err(ContractError::InvalidThreshold)
        } else {
            Ok(())
        },
    }
}

/// The state after a rotation of the admin keys to `new` with threshold `t`:
/// the first new signer is the admin, the new signers are exactly the
/// authorized signers, each with weight 1, and both thresholds are `t`.
pub open spec fn rotated_admin_model(m: GovernanceModel, new: Seq<Seq<u8>>, t: u32) -> GovernanceModel {
    GovernanceModel {
        admin: Some(new[0]),
        signers: key_set(new),
        weights: Map::new(|x: Seq<u8>| new.contains(x), |x: Seq<u8>| 1u32),
        governance_config: GovernanceConfig { quorum_threshold: t },
        multisig_config: MultiSigConfig {
            required_weight: t,
            max_signer_weight: if m.multisig_config.max_signer_weight < 1 {
                1
            } else {
                m.multisig_config.max_signer_weight
            },
        },
        ..m
    }
}

/// `w`, capped at the maximum weight a signer can hold.
pub open spec fn capped_weight(m: GovernanceModel, w: u32) -> u32 {
    if w > m.multisig_config.max_signer_weight {
        m.multisig_config.max_signer_weight
    } else {
        w
    }
}

/// Every recorded weight is at most the maximum weight a signer can hold.
pub open spec fn weights_within_max(m: GovernanceModel) -> bool {
    forall|k: Seq<u8>|
        #[trigger] m.weights.contains_key(k) ==> m.weights[k] <= m.multisig_config.max_signer_weight
}

/// The weights after the weight of `x` is set to `w`; 0 removes the entry.
pub open spec fn set_weight_model(m: GovernanceModel, x: Seq<u8>, w: u32) -> GovernanceModel {
    GovernanceModel {
        weights: if w == 0 {
            m.weights.remove(x)
        } else {
            m.weights.insert(x, w)
        },
        ..m
    }
}

/// The outcome of a change of the fee tier to `bps`: the quorum's refusal,
/// or `InvalidThreshold` unless `bps` is one of the configured tiers.
pub open spec fn fee_tier_outcome(m: GovernanceModel, s: Seq<Seq<u8>>, bps: u32) -> Result<(), ContractError> {
    match quorum_outcome(m, s) {
        Err(e) => Err(e),
        Ok(_) => if bps != m.fee_tier_config.low_fee_tier_bps && bps
            != m.fee_tier_config.medium_fee_tier_bps && bps != m.fee_tier_config.high_fee_tier_bps {
            Err(ContractError::InvalidThreshold)
        } else {
            Ok(())
        },
    }
}

/// The outcome of a change of the fee split: the quorum's refusal, or
/// `InvalidThreshold` unless the two shares add up to one whole.
pub open spec fn fee_split_outcome(m: GovernanceModel, s: Seq<Seq<u8>>, lp: u32, treasury: u32) -> Result<
    (),
    ContractError,
> {
    match quorum_outcome(m, s) {
        Err(e) => Err(e),
        Ok(_) => if lp + treasury != 10000 {
            Err(ContractError::InvalidThreshold)
        } else {
            Ok(())
        },
    }
}

/// How `amount` of collected fees splits under `c`: each share rounds down;
/// `Overflow` where an amount times a share does not fit a `u128`.
pub open spec fn split_outcome(c: FeeSplitConfig, amount: u128) -> Result<(u128, u128), ContractError> {
    if amount * c.lp_share_bps > u128::MAX || amount * c.treasury_share_bps > u128::MAX {
        Err(ContractError::Overflow)
    } else {
        Ok(
            (
                ((amount * c.lp_share_bps) / 10000) as u128,
                ((amount * c.treasury_share_bps) / 10000) as u128,
            ),
        )
    }
}

/// The outcome of a validator rotation: the quorum's refusal, `Overflow`
/// when the rotation counter is at its largest, else the new counter value.
pub open spec fn rotate_validators_outcome(m: GovernanceModel, s: Seq<Seq<u8>>) -> Result<u64, ContractError> {
    match quorum_outcome(m, s) {
        Err(e) => Err(e),
        Ok(_) => if m.validator_sequence == u64::MAX {
            Err(ContractError::Overflow)
        } else {
            Ok((m.validator_sequence + 1) as u64)
        },
    }
}

/// Whether the delay since staging has passed; a current time before the
/// staging time counts as no time passed.
pub open spec fn staged_delay_passed(staged_at: u64, current_time: u64, delay_seconds: u64) -> bool {
    let elapsed: int = if current_time >= staged_at {
        current_time - staged_at
    } else {
        0
    };
    elapsed >= delay_seconds
}

/// Tallying a prefix of the signers never gives more than tallying a
/// longer one, and counts at most as many signers as the prefix has.
proof fn lemma_tally_monotone(m: GovernanceModel, admin: Seq<u8>, s: Seq<Seq<u8>>, i: int, j: int)
    requires
        0 <= i <= j <= s.len(),
    ensures
        tally(m, admin, s.take(i)).0 <= tally(m, admin, s.take(j)).0,
        tally(m, admin, s.take(i)).1 <= tally(m, admin, s.take(j)).1,
        0 <= tally(m, admin, s.take(i)).0 <= i,
        0 <= tally(m, admin, s.take(i)).1,
    decreases j,
{
    if j > 0 {
        assert(s.take(j).drop_last() =~= s.take(j - 1));
        if i < j {
            lemma_tally_monotone(m, admin, s, i, j - 1);
        } else {
            lemma_tally_monotone(m, admin, s, i - 1, j - 1);
            assert(s.take(i).drop_last() =~= s.take(i - 1));
        }
    }
}

/// What one signer adds to a tally: one signer and its weight when it is
/// authorized, nothing otherwise.
pub open spec fn contribution(m: GovernanceModel, admin: Seq<u8>, x: Seq<u8>) -> (int, int) {
    if authorized(m, admin, x) {
        (1, effective_weight(m, admin, x))
    } else {
        (0, 0)
    }
}

/// The contributions of all of `d`, added up.
pub open spec fn sum_contributions(m: GovernanceModel, admin: Seq<u8>, d: Seq<Seq<u8>>) -> (int, int)
    decreases d.len(),
{
    if d.len() == 0 {
        (0, 0)
    } else {
        let p = sum_contributions(m, admin, d.drop_last());
        let c = contribution(m, admin, d.last());
        (p.0 + c.0, p.1 + c.1)
    }
}

/// The number of items of `d` that occur in `n`.
pub open spec fn member_count(d: Seq<Seq<u8>>, n: Seq<Seq<u8>>) -> int
    decreases d.len(),
{
    if d.len() == 0 {
        0
    } else {
        member_count(d.drop_last(), n) + if n.contains(d.last()) {
            1int
        } else {
            0
        }
    }
}

/// A tally adds up the contributions of the distinct signers.
proof fn lemma_tally_is_sum_over_distinct(m: GovernanceModel, admin: Seq<u8>, s: Seq<Seq<u8>>)
    ensures
        tally(m, admin, s) == sum_contributions(m, admin, dedup(s)),
    decreases s.len(),
{
    if s.len() > 0 {
        let p = s.drop_last();
        lemma_tally_is_sum_over_distinct(m, admin, p);
        if !p.contains(s.last()) {
            assert(dedup(p).push(s.last()).drop_last() =~= dedup(p));
        }
    }
}

/// Taking one item out of a sequence takes its contribution out of the sum.
proof fn lemma_sum_remove(m: GovernanceModel, admin: Seq<u8>, d: Seq<Seq<u8>>, k: int)
    requires
        0 <= k < d.len(),
    ensures
        sum_contributions(m, admin, d).0 == sum_contributions(m, admin, d.remove(k)).0
            + contribution(m, admin, d[k]).0,
        sum_contributions(m, admin, d).1 == sum_contributions(m, admin, d.remove(k)).1
            + contribution(m, admin, d[k]).1,
    decreases d.len(),
{
    if k < d.len() - 1 {
        let q = d.drop_last();
        lemma_sum_remove(m, admin, q, k);
        assert(d.remove(k).drop_last() =~= q.remove(k));
        assert(d.remove(k).last() == d.last());
        assert(q[k] == d[k]);
    } else {
        assert(d.remove(k) =~= d.drop_last());
    }
}

/// Two sequences without repeats that hold the same items have the same sum
/// of contributions, whatever their order.
proof fn lemma_sum_same_items(m: GovernanceModel, admin: Seq<u8>, d1: Seq<Seq<u8>>, d2: Seq<Seq<u8>>)
    requires
        d1.no_duplicates(),
        d2.no_duplicates(),
        forall|x: Seq<u8>| #[trigger] d1.contains(x) <==> d2.contains(x),
    ensures
        sum_contributions(m, admin, d1) == sum_contributions(m, admin, d2),
    decreases d2.len(),
{
    if d2.len() == 0 {
        if d1.len() > 0 {
            assert(d1.contains(d1[0]));
        }
        assert(d1 =~= d2);
    } else {
        let x = d2.last();
        let r2 = d2.drop_last();
        assert(d2.contains(x)) by {
            assert(d2[d2.len() - 1] == x);
        }
        assert(d1.contains(x));
        let k = choose|k: int| 0 <= k < d1.len() && d1[k] == x;
        let r1 = d1.remove(k);
        assert forall|i: int| 0 <= i < r1.len() implies #[trigger] r1[i] == (if i < k {
            d1[i]
        } else {
            d1[i + 1]
        }) by {}
        assert(r1.no_duplicates()) by {
            assert forall|i: int, j: int| 0 <= i < r1.len() && 0 <= j < r1.len() && i != j implies r1[i]
                != r1[j] by {
                let ii = if i < k { i } else { i + 1 };
                let jj = if j < k { j } else { j + 1 };
                assert(r1[i] == d1[ii] && r1[j] == d1[jj]);
            }
        }
        assert forall|y: Seq<u8>| #[trigger] r1.contains(y) <==> r2.contains(y) by {
            if r1.contains(y) {
                let i = choose|i: int| 0 <= i < r1.len() && r1[i] == y;
                let ii = if i < k { i } else { i + 1 };
                assert(d1[ii] == y && ii != k);
                assert(d1.contains(y));
                assert(d2.contains(y));
                let j = choose|j: int| 0 <= j < d2.len() && d2[j] == y;
                assert(j != d2.len() - 1);
                assert(r2[j] == y);
            }
            if r2.contains(y) {
                let j = choose|j: int| 0 <= j < r2.len() && r2[j] == y;
                assert(d2[j] == y && j != d2.len() - 1);
                assert(d2.contains(y));
                assert(d1.contains(y));
                assert(y != x);
                let i = choose|i: int| 0 <= i < d1.len() && d1[i] == y;
                assert(i != k);
                if i < k {
                    assert(r1[i] == y);
                } else {
                    assert(r1[i - 1] == y);
                }
            }
        }
        lemma_sum_same_items(m, admin, r1, r2);
        lemma_sum_remove(m, admin, d1, k);
    }
}

/// A quorum check depends only on which signers sign, not on their order
/// or on how often each one is listed.
pub proof fn law_quorum_depends_on_signer_set(m: GovernanceModel, s1: Seq<Seq<u8>>, s2: Seq<Seq<u8>>)
    requires
        forall|x: Seq<u8>| #[trigger] s1.contains(x) <==> s2.contains(x),
    ensures
        quorum_outcome(m, s1) == quorum_outcome(m, s2),
{
    if let Some(admin) = m.admin {
        lemma_tally_is_sum_over_distinct(m, admin, s1);
        lemma_tally_is_sum_over_distinct(m, admin, s2);
        lemma_dedup(s1);
        lemma_dedup(s2);
        assert forall|x: Seq<u8>| #[trigger] dedup(s1).contains(x) <==> dedup(s2).contains(x) by {
            assert(s1.contains(x) <==> s2.contains(x));
        }
        lemma_sum_same_items(m, admin, dedup(s1), dedup(s2));
    }
}

/// Adding signers never breaks a quorum, as long as the total weight still
/// fits a `u32`.
pub proof fn law_more_signers_keep_quorum(m: GovernanceModel, s: Seq<Seq<u8>>, extra: Seq<Seq<u8>>)
    requires
        quorum_outcome(m, s) is Ok,
        quorum_outcome(m, s + extra) != Err::<(), ContractError>(ContractError::Overflow),
    ensures
        quorum_outcome(m, s + extra) is Ok,
{
    let admin = m.admin.unwrap();
    let t = s + extra;
    lemma_tally_monotone(m, admin, t, s.len() as int, t.len() as int);
    assert(t.take(s.len() as int) =~= s);
    assert(t.take(t.len() as int) =~= t);
}

/// Signers that are already listed, or that are neither the admin nor
/// authorized, change nothing in the outcome of a quorum check.
pub proof fn law_extra_signers_add_nothing(m: GovernanceModel, s: Seq<Seq<u8>>, extra: Seq<Seq<u8>>)
    requires
        forall|i: int|
            0 <= i < extra.len() ==> s.contains(#[trigger] extra[i]) || (m.admin matches Some(a)
                && !authorized(m, a, extra[i])),
    ensures
        quorum_outcome(m, s + extra) == quorum_outcome(m, s),
    decreases extra.len(),
{
    if extra.len() > 0 {
        let e = extra.drop_last();
        let x = extra.last();
        assert forall|i: int| 0 <= i < e.len() implies s.contains(#[trigger] e[i]) || (m.admin matches Some(
            a,
        ) && !authorized(m, a, e[i])) by {
            assert(e[i] == extra[i]);
        }
        law_extra_signers_add_nothing(m, s, e);
        assert((s + extra).drop_last() =~= s + e);
        assert((s + extra).last() == x);
        assert(extra[extra.len() - 1] == x);
        if s.contains(x) {
            let k = choose|k: int| 0 <= k < s.len() && s[k] == x;
            assert((s + e)[k] == x);
        }
    }
}

/// A sequence without repeats has as many members of `n` as its set shares
/// with the set of `n`.
proof fn lemma_member_count_is_card(d: Seq<Seq<u8>>, n: Seq<Seq<u8>>)
    requires
        d.no_duplicates(),
    ensures
        member_count(d, n) == d.to_set().intersect(n.to_set()).len(),
        d.to_set().intersect(n.to_set()).finite(),
    decreases d.len(),
{
    broadcast use vstd::set::group_set_axioms, vstd::seq_lib::seq_to_set_is_finite;

    if d.len() == 0 {
        assert(d.to_set().intersect(n.to_set()) =~= Set::<Seq<u8>>::empty());
    } else {
        let p = d.drop_last();
        let x = d.last();
        assert(p.no_duplicates());
        lemma_member_count_is_card(p, n);
        assert(!p.contains(x)) by {
            if p.contains(x) {
                let i = choose|i: int| 0 <= i < p.len() && p[i] == x;
                assert(d[i] == d[d.len() - 1]);
            }
        }
        assert forall|y: Seq<u8>| #[trigger] d.contains(y) <==> (p.contains(y) || y == x) by {
            if d.contains(y) {
                let i = choose|i: int| 0 <= i < d.len() && d[i] == y;
                if i < d.len() - 1 {
                    assert(p[i] == y);
                }
            }
            if p.contains(y) {
                let i = choose|i: int| 0 <= i < p.len() && p[i] == y;
                assert(d[i] == y);
            }
            assert(d[d.len() - 1] == x);
        }
        if n.contains(x) {
            assert(d.to_set().intersect(n.to_set()) =~= p.to_set().intersect(n.to_set()).insert(x));
        } else {
            assert(d.to_set().intersect(n.to_set()) =~= p.to_set().intersect(n.to_set()));
        }
    }
}

/// Where every authorized signer is a member of `n` with weight 1 and every
/// member of `n` is authorized, a sum of contributions counts the members.
proof fn lemma_sum_counts_members(m: GovernanceModel, admin: Seq<u8>, n: Seq<Seq<u8>>, d: Seq<Seq<u8>>)
    requires
        forall|x: Seq<u8>| #[trigger] authorized(m, admin, x) <==> n.contains(x),
        forall|x: Seq<u8>| n.contains(x) ==> #[trigger] effective_weight(m, admin, x) == 1,
    ensures
        sum_contributions(m, admin, d) == (member_count(d, n), member_count(d, n)),
    decreases d.len(),
{
    if d.len() > 0 {
        lemma_sum_counts_members(m, admin, n, d.drop_last());
        assert(authorized(m, admin, d.last()) <==> n.contains(d.last()));
        if n.contains(d.last()) {
            assert(effective_weight(m, admin, d.last()) == 1);
        }
    }
}

/// After the admin keys are rotated to `new` with threshold `t`, a list of
/// signers forms a quorum exactly when at least `t` distinct members of
/// `new` are on it; anyone else, the old admin included, adds nothing. (More
/// distinct members than a `u32` can count overflow the weight.)
pub proof fn law_rotation_quorum_rule(
    m: GovernanceModel,
    s0: Seq<Seq<u8>>,
    new: Seq<Seq<u8>>,
    t: u32,
    signers: Seq<Seq<u8>>,
)
    requires
        rotate_admin_outcome(m, s0, new, t) is Ok,
    ensures
        ({
            let c = key_set(signers).intersect(key_set(new)).len();
            quorum_outcome(rotated_admin_model(m, new, t), signers) == if c > u32::MAX {
                Err::<(), ContractError>(ContractError::Overflow)
            } else if c >= t {
                Ok(())
            } else {
                Err(ContractError::ThresholdNotReached)
            }
        }),
{
    broadcast use vstd::set::group_set_axioms, vstd::seq_lib::seq_to_set_is_finite;

    let r = rotated_admin_model(m, new, t);
    lemma_dedup(new);
    let admin = new[0];
    assert(new.contains(admin));
    assert forall|x: Seq<u8>| #[trigger] authorized(r, admin, x) <==> new.contains(x) by {}
    assert forall|x: Seq<u8>| new.contains(x) implies #[trigger] effective_weight(r, admin, x) == 1 by {}
    let d = dedup(signers);
    lemma_dedup(signers);
    lemma_tally_is_sum_over_distinct(r, admin, signers);
    lemma_sum_counts_members(r, admin, new, d);
    lemma_member_count_is_card(d, new);
    assert(d.to_set() =~= key_set(signers));
    assert(new.to_set() =~= key_set(new));
    let c = key_set(signers).intersect(key_set(new));
    lemma_len_subset(c, key_set(new));
    new.lemma_cardinality_of_set();
}

/// A rotation hands control to the new keys: right after a successful
/// rotation of the admin keys, the new signers on their own form a quorum
/// (for lists of new signers whose length fits a `u32`, as on the ledger).
pub proof fn law_rotation_hands_over_control(
    m: GovernanceModel,
    s: Seq<Seq<u8>>,
    new: Seq<Seq<u8>>,
    t: u32,
)
    requires
        rotate_admin_outcome(m, s, new, t) is Ok,
        new.len() <= u32::MAX,
    ensures
        quorum_outcome(rotated_admin_model(m, new, t), new) is Ok,
{
    broadcast use vstd::set::group_set_axioms, vstd::seq_lib::seq_to_set_is_finite;

    law_rotation_quorum_rule(m, s, new, t, new);
    lemma_dedup(new);
    let d = dedup(new);
    assert(key_set(new).intersect(key_set(new)) =~= d.to_set());
    d.unique_seq_to_set();
    new.lemma_cardinality_of_set();
    assert(new.to_set() =~= key_set(new));
}

/// No signer ever holds more than the maximum weight a signer can hold,
/// whatever was recorded for it and whenever the maximum was set.
pub proof fn law_no_signer_exceeds_max(m: GovernanceModel, x: Seq<u8>)
    ensures
        stored_weight(m, x) <= m.multisig_config.max_signer_weight,
{
}

/// Every change guarded by the quorum is refused, with the quorum's own
/// error, whenever the signers do not form a quorum.
pub proof fn law_guarded_changes_need_quorum(
    m: GovernanceModel,
    s: Seq<Seq<u8>>,
    new: Seq<Seq<u8>>,
    t: u32,
    bps: u32,
    lp: u32,
    treasury: u32,
)
    requires
        quorum_outcome(m, s) is Err,
    ensures
        rotate_admin_outcome(m, s, new, t) == quorum_outcome(m, s),
        fee_tier_outcome(m, s, bps) == quorum_outcome(m, s),
        fee_split_outcome(m, s, lp, treasury) == quorum_outcome(m, s),
        rotate_validators_outcome(m, s) == Err::<u64, ContractError>(quorum_outcome(m, s)->Err_0),
{
}

/// Each validator rotation advances the rotation counter by exactly one.
pub proof fn law_validator_sequence_advances(m: GovernanceModel, s: Seq<Seq<u8>>)
    requires
        rotate_validators_outcome(m, s) is Ok,
    ensures
        rotate_validators_outcome(m, s)->Ok_0 == m.validator_sequence + 1,
{
}

/// A signer's weight reads back as it was last set, capped at the maximum
/// weight (0 once removed); setting one signer's weight leaves every other
/// signer's weight as it was; and when every recorded weight is within the
/// maximum, it stays so.
pub proof fn law_signer_weight_read_back(m: GovernanceModel, x: Seq<u8>, w: u32, y: Seq<u8>)
    ensures
        ({
            let after = set_weight_model(m, x, capped_weight(m, w));
            &&& stored_weight(after, x) == (if w > m.multisig_config.max_signer_weight {
                m.multisig_config.max_signer_weight
            } else {
                w
            })
            &&& y != x ==> stored_weight(after, y) == stored_weight(m, y)
            &&& weights_within_max(m) ==> weights_within_max(after)
        }),
{
}

/// Splitting fees never hands out more than was collected, and rounding
/// keeps back at most one unit, when the shares add up to one whole, as they
/// do in every state governance reaches.
pub proof fn law_fee_split_conserves(c: FeeSplitConfig, amount: u128)
    requires
        c.lp_share_bps + c.treasury_share_bps == 10000,
        split_outcome(c, amount) is Ok,
    ensures
        split_outcome(c, amount)->Ok_0.0 + split_outcome(c, amount)->Ok_0.1 <= amount,
        amount <= split_outcome(c, amount)->Ok_0.0 + split_outcome(c, amount)->Ok_0.1 + 1,
{
    let l = (amount * c.lp_share_bps) / 10000;
    let t = (amount * c.treasury_share_bps) / 10000;
    assert(l * 10000 <= amount * c.lp_share_bps) by (nonlinear_arith)
        requires
            l == (amount * c.lp_share_bps) / 10000,
    ;
    assert(t * 10000 <= amount * c.treasury_share_bps) by (nonlinear_arith)
        requires
            t == (amount * c.treasury_share_bps) / 10000,
    ;
    assert(amount * c.lp_share_bps + amount * c.treasury_share_bps == amount * 10000) by (
    nonlinear_arith)
        requires
            c.lp_share_bps + c.treasury_share_bps == 10000,
    ;
    assert(l + t <= amount) by (nonlinear_arith)
        requires
            l * 10000 + t * 10000 <= amount * 10000,
    ;
    assert(amount * c.lp_share_bps < l * 10000 + 10000) by (nonlinear_arith)
        requires
            l == (amount * c.lp_share_bps) / 10000,
    ;
    assert(amount * c.treasury_share_bps < t * 10000 + 10000) by (nonlinear_arith)
        requires
            t == (amount * c.treasury_share_bps) / 10000,
    ;
    assert(amount <= l + t + 1) by (nonlinear_arith)
        requires
            amount * 10000 < l * 10000 + t * 10000 + 20000,
    ;
}

/// Once a staged delay has passed it stays passed as time goes on, and a
/// delay of zero has always passed.
pub proof fn law_staged_delay_monotone(staged_at: u64, t1: u64, t2: u64, delay_seconds: u64)
    ensures
        staged_delay_passed(staged_at, t1, delay_seconds) && t1 <= t2 ==> staged_delay_passed(
            staged_at,
            t2,
            delay_seconds,
        ),
        staged_delay_passed(staged_at, t1, 0),
{
}

/// Each signer brings its own weight to a quorum. A signer already on the
/// list, or neither the admin nor authorized, adds nothing. A new authorized
/// signer other than the admin adds one signer and exactly the weight it
/// holds, 0 when none is recorded; only the admin is raised to at least 1.
pub proof fn law_signer_contribution(m: GovernanceModel, admin: Seq<u8>, s: Seq<Seq<u8>>, x: Seq<u8>)
    ensures
        s.contains(x) || !authorized(m, admin, x) ==> tally(m, admin, s.push(x)) == tally(m, admin, s),
        !s.contains(x) && authorized(m, admin, x) && x != admin ==> tally(m, admin, s.push(x)) == (
            tally(m, admin, s).0 + 1,
            tally(m, admin, s).1 + stored_weight(m, x),
        ),
        !s.contains(x) && x == admin ==> tally(m, admin, s.push(x)) == (
            tally(m, admin, s).0 + 1,
            tally(m, admin, s).1 + if stored_weight(m, x) == 0 {
                1
            } else {
                stored_weight(m, x) as int
            },
        ),
{
    assert(s.push(x).drop_last() =~= s);
    assert(s.push(x).last() == x);
}

/// Signers that hold no weight bring none: the weight tally of a list
/// without the admin, all of whose signers hold weight 0, is 0.
proof fn lemma_weightless_tally(m: GovernanceModel, admin: Seq<u8>, s: Seq<Seq<u8>>)
    requires
        !s.contains(admin),
        forall|i: int| 0 <= i < s.len() ==> stored_weight(m, #[trigger] s[i]) == 0,
    ensures
        tally(m, admin, s).1 == 0,
    decreases s.len(),
{
    if s.len() > 0 {
        let p = s.drop_last();
        assert forall|i: int| 0 <= i < p.len() implies stored_weight(m, #[trigger] p[i]) == 0 by {
            assert(p[i] == s[i]);
        }
        assert(!p.contains(admin)) by {
            if p.contains(admin) {
                let k = choose|k: int| 0 <= k < p.len() && p[k] == admin;
                assert(s[k] == admin);
            }
        }
        lemma_weightless_tally(m, admin, p);
        assert(stored_weight(m, s[s.len() - 1]) == 0);
        assert(s.last() != admin) by {
            assert(s[s.len() - 1] == s.last());
        }
    }
}

/// Signers that hold no weight cannot meet a weight requirement: when the
/// admin is not on the list and every signer on it holds weight 0, a quorum
/// that requires any weight is refused with `ThresholdNotReached`, however
/// many of them are authorized.
pub proof fn law_weightless_signers_cannot_meet_weight(m: GovernanceModel, s: Seq<Seq<u8>>)
    requires
        m.admin matches Some(a) && !s.contains(a),
        forall|i: int| 0 <= i < s.len() ==> stored_weight(m, #[trigger] s[i]) == 0,
        m.multisig_config.required_weight >= 1,
    ensures
        quorum_outcome(m, s) == Err::<(), ContractError>(ContractError::ThresholdNotReached),
{
    lemma_weightless_tally(m, m.admin.unwrap(), s);
}

/// With a quorum, the fee tier can be set to each of the three configured
/// tiers, and to nothing else: in every state governance reaches, a change
/// succeeds exactly for 5, 30 and 100 basis points.
pub proof fn law_fee_tier_accepts_exactly_the_tiers(m: GovernanceModel, s: Seq<Seq<u8>>, bps: u32)
    requires
        governance_wf(m),
        quorum_outcome(m, s) is Ok,
    ensures
        fee_tier_outcome(m, s, bps) is Ok <==> (bps == LOW_FEE_TIER_BPS || bps == MEDIUM_FEE_TIER_BPS
            || bps == HIGH_FEE_TIER_BPS),
        bps == m.fee_tier_config.low_fee_tier_bps || bps == m.fee_tier_config.medium_fee_tier_bps
            || bps == m.fee_tier_config.high_fee_tier_bps ==> fee_tier_outcome(m, s, bps) is Ok,
        fee_tier_outcome(m, s, bps) is Err ==> fee_tier_outcome(m, s, bps) == Err::<(), ContractError>(
            ContractError::InvalidThreshold,
        ),
{
}

/// With a quorum, the fee split can be set to every pair of shares that adds
/// up to one whole (10000 basis points), however it divides them, and to no
/// other pair.
pub proof fn law_fee_split_accepts_every_whole(m: GovernanceModel, s: Seq<Seq<u8>>, lp: u32, treasury: u32)
    requires
        quorum_outcome(m, s) is Ok,
    ensures
        fee_split_outcome(m, s, lp, treasury) is Ok <==> lp + treasury == 10000,
        fee_split_outcome(m, s, lp, treasury) is Err ==> fee_split_outcome(m, s, lp, treasury)
            == Err::<(), ContractError>(ContractError::InvalidThreshold),
{
}

/// A staged delay has passed exactly when the current time has reached the
/// staging time plus the delay, or the delay is zero.
pub proof fn law_staged_delay_exact(staged_at: u64, current_time: u64, delay_seconds: u64)
    ensures
        staged_delay_passed(staged_at, current_time, delay_seconds) <==> (current_time >= staged_at
            + delay_seconds || delay_seconds == 0),
{
}

/// Each share of collected fees is the amount times the share, rounded down:
/// `lp * 10000 <= amount * lp_share < (lp + 1) * 10000`, and likewise for the
/// treasury.
pub proof fn law_fee_split_rounds_down(c: FeeSplitConfig, amount: u128)
    requires
        split_outcome(c, amount) is Ok,
    ensures
        ({
            let (l, t) = split_outcome(c, amount)->Ok_0;
            &&& l * 10000 <= amount * c.lp_share_bps < (l + 1) * 10000
            &&& t * 10000 <= amount * c.treasury_share_bps < (t + 1) * 10000
        }),
{
    let l = (amount * c.lp_share_bps) / 10000;
    let t = (amount * c.treasury_share_bps) / 10000;
    assert(l * 10000 <= amount * c.lp_share_bps < (l + 1) * 10000) by (nonlinear_arith)
        requires
            l == (amount * c.lp_share_bps) / 10000,
            amount * c.lp_share_bps >= 0,
    ;
    assert(t * 10000 <= amount * c.treasury_share_bps < (t + 1) * 10000) by (nonlinear_arith)
        requires
            t == (amount * c.treasury_share_bps) / 10000,
            amount * c.treasury_share_bps >= 0,
    ;
}

/// A rotation installs the new keys: the first new signer becomes the admin;
/// the new signers, and only they, are authorized; each of them holds weight
/// 1 and no one else holds any; both thresholds become `t`; and the largest
/// weight a signer may hold is at least 1.
pub proof fn law_rotation_installs_new_keys(m: GovernanceModel, new: Seq<Seq<u8>>, t: u32, x: Seq<u8>)
    requires
        new.len() > 0,
    ensures
        ({
            let r = rotated_admin_model(m, new, t);
            &&& r.admin == Some(new[0])
            &&& r.signers.contains(x) <==> new.contains(x)
            &&& stored_weight(r, x) == if new.contains(x) {
                1u32
            } else {
                0u32
            }
            &&& r.governance_config.quorum_threshold == t
            &&& r.multisig_config.required_weight == t
            &&& r.multisig_config.max_signer_weight >= 1
            &&& r.validators == m.validators && r.fee_tier_config == m.fee_tier_config
            &&& r.fee_split_config == m.fee_split_config && r.treasury == m.treasury
        }),
{
}

/// With a quorum, a rotation of the admin keys is accepted exactly when its
/// threshold is at least 1 and at most the number of distinct new signers.
pub proof fn law_rotation_threshold_range(m: GovernanceModel, s: Seq<Seq<u8>>, new: Seq<Seq<u8>>, t: u32)
    requires
        quorum_outcome(m, s) is Ok,
    ensures
        rotate_admin_outcome(m, s, new, t) is Ok <==> 1 <= t <= key_set(new).len(),
        rotate_admin_outcome(m, s, new, t) is Err ==> rotate_admin_outcome(m, s, new, t) == Err::<
            (),
            ContractError,
        >(ContractError::InvalidThreshold),
{
    broadcast use vstd::set::group_set_axioms, vstd::seq_lib::seq_to_set_is_finite;

    lemma_dedup(new);
    let d = dedup(new);
    d.unique_seq_to_set();
    assert(d.to_set() =~= key_set(new));
}

/// With a quorum, a validator rotation is refused only when the rotation
/// counter is at its largest value, with `Overflow`.
pub proof fn law_validator_rotation_overflow(m: GovernanceModel, s: Seq<Seq<u8>>)
    requires
        quorum_outcome(m, s) is Ok,
    ensures
        rotate_validators_outcome(m, s) is Err <==> m.validator_sequence == u64::MAX,
        rotate_validators_outcome(m, s) is Err ==> rotate_validators_outcome(m, s) == Err::<
            u64,
            ContractError,
        >(ContractError::Overflow),
{
}

/// Without an admin record no list of signers forms a quorum: the check is
/// refused with `NotInitialized`.
pub proof fn law_quorum_needs_admin_record(m: GovernanceModel, s: Seq<Seq<u8>>)
    requires
        m.admin is None,
    ensures
        quorum_outcome(m, s) == Err::<(), ContractError>(ContractError::NotInitialized),
{
}

/// The admin alone brings one signer and its weight, raised to at least 1:
/// it forms a quorum exactly when the threshold is at most 1 and the required
/// weight at most that weight.
pub proof fn law_admin_alone(m: GovernanceModel)
    requires
        m.admin is Some,
    ensures
        ({
            let a = m.admin.unwrap();
            let w: int = if stored_weight(m, a) == 0 {
                1
            } else {
                stored_weight(m, a) as int
            };
            quorum_outcome(m, seq![a]) is Ok <==> (m.governance_config.quorum_threshold <= 1
                && m.multisig_config.required_weight <= w)
        }),
{
    let a = m.admin.unwrap();
    law_signer_contribution(m, a, Seq::empty(), a);
    assert(Seq::<Seq<u8>>::empty().push(a) =~= seq![a]);
    assert(tally(m, a, Seq::empty()) == (0int, 0int));
}

impl Governance {
    pub open spec fn wf(&self) -> bool {
        governance_wf(self@)
    }

    /// Governance as a freshly initialized contract has it: the given admin
    /// record, no other signer and no weights, the default settings, no
    /// validators and no treasury vault.
    pub fn new(data: Option<ContractData>) -> (g: Governance)
        ensures
            g.wf(),
            g@.admin == (match data {
                Some(d) => Some(d.admin@),
                None => None::<Seq<u8>>,
            }),
            g@.signers == Set::<Seq<u8>>::empty(),
            g@.weights == Map::<Seq<u8>, u32>::empty(),
            g@.governance_config == (GovernanceConfig { quorum_threshold: 2 }),
            g@.multisig_config == (MultiSigConfig { required_weight: 1, max_signer_weight: 1 }),
            g@.validators == Set::<Seq<u8>>::empty(),
            g@.validator_sequence == 0,
            g@.fee_tier_config == (FeeTierConfig {
                fee_tier_bps: DEFAULT_FEE_TIER_BPS,
                low_fee_tier_bps: LOW_FEE_TIER_BPS,
                medium_fee_tier_bps: MEDIUM_FEE_TIER_BPS,
                high_fee_tier_bps: HIGH_FEE_TIER_BPS,
            }),
            g@.fee_split_config == (FeeSplitConfig {
                lp_share_bps: LP_FEE_SHARE_BPS,
                treasury_share_bps: TREASURY_FEE_SHARE_BPS,
            }),
            g@.treasury is None,
    {
        let g = Governance {
            data,
            signers: Vec::new(),
            signer_weights: Vec::new(),
            governance_config: GovernanceConfig::default(),
            multisig_config: MultiSigConfig::default(),
            validators: Vec::new(),
            validator_sequence: 0,
            fee_tier_config: FeeTierConfig::default(),
            fee_split_config: FeeSplitConfig::default(),
            treasury: None,
        };
        assert(g@.signers =~= Set::<Seq<u8>>::empty());
        assert(g@.validators =~= Set::<Seq<u8>>::empty());
        g
    }

    /// Whether the state is one governance can reach (see `governance_wf`),
    /// for state read back from storage.
    pub fn is_well_formed(&self) -> (r: bool)
        ensures
            r == self.wf(),
    {
        let s = self.fee_split_config;
        let t = self.fee_tier_config;
        (s.lp_share_bps as u64) + (s.treasury_share_bps as u64) == 10000 && t.low_fee_tier_bps
            == LOW_FEE_TIER_BPS && t.medium_fee_tier_bps == MEDIUM_FEE_TIER_BPS
            && t.high_fee_tier_bps == HIGH_FEE_TIER_BPS && (t.fee_tier_bps == LOW_FEE_TIER_BPS
            || t.fee_tier_bps == MEDIUM_FEE_TIER_BPS || t.fee_tier_bps == HIGH_FEE_TIER_BPS)
    }

    /// Whether `x` is `admin` or an authorized signer.
    fn is_authorized(&self, admin: &Address, x: &Address) -> (r: bool)
        ensures
            r == authorized(self@, admin@, x@),
    {
        x.same_as(admin) || contains_key(&self.signers, x)
    }

    /// The weight `x` brings to a quorum whose admin is `admin`.
    fn effective_weight(&self, admin: &Address, x: &Address) -> (r: u32)
        ensures
            r == effective_weight(self@, admin@, x@),
    {
        let w = get_signer_weight(self, x);
        if x.same_as(admin) && w < 1 {
            1
        } else {
            w
        }
    }

    /// Counts the distinct authorized signers among `signers` and adds up
    /// their weights, stopping with `Overflow` when the sum leaves `u32`.
    fn tally_signers(&self, admin: &Address, signers: &Vec<Address>) -> (r: Result<
        (usize, u32),
        ContractError,
    >)
        ensures
            ({
                let t = tally(self@, admin@, views(signers@));
                match r {
                    Ok((c, w)) => t.1 <= u32::MAX && c as int == t.0 && w as int == t.1,
                    Err(e) => e == ContractError::Overflow && t.1 > u32::MAX,
                }
            }),
    {
        let ghost s = views(signers@);
        let mut count: usize = 0;
        let mut weight: u32 = 0;
        let mut i: usize = 0;
        while i < signers.len()
            invariant
                i <= signers@.len(),
                s == views(signers@),
                tally(self@, admin@, s.take(i as int)) == (count as int, weight as int),
                count <= i,
            decreases signers@.len() - i,
        {
            let ghost p1 = s.take(i + 1);
            assert(p1.drop_last() =~= s.take(i as int));
            assert(p1.last() == signers@[i as int]@);
            let x = &signers[i];
            let seen = occurs_before(signers, i, x);
            if !seen && self.is_authorized(admin, x) {
                let w = self.effective_weight(admin, x);
                match weight.checked_add(w) {
                    Some(nw) => {
                        weight = nw;
                        count = count + 1;
                    },
                    None => {
                        proof {
                            lemma_tally_monotone(self@, admin@, s, i + 1, s.len() as int);
                            assert(s.take(s.len() as int) =~= s);
                        }
                        return Err(ContractError::Overflow);
                    },
                }
            }
            i = i + 1;
        }
        assert(s.take(s.len() as int) =~= s);
        Ok((count, weight))
    }
}

/// Get multi-signature weight configuration for WASM upgrade governance
pub fn get_multisig_config(gov: &Governance) -> (r: MultiSigConfig)
    ensures
        r == gov@.multisig_config,
{
    gov.multisig_config
}

/// Set multi-signature weight configuration for WASM upgrade governance
pub fn set_multisig_config(gov: &mut Governance, config: &MultiSigConfig)
    ensures
        final(gov)@ == (GovernanceModel { multisig_config: *config, ..old(gov)@ }),
        old(gov).wf() ==> final(gov).wf(),
{
    gov.multisig_config = *config;
}

/// Get the weight for a specific signer (returns 0 if signer not registered)
pub fn get_signer_weight(gov: &Governance, signer: &Address) -> (r: u32)
    ensures
        r == stored_weight(gov@, signer@),
{
    let recorded = recorded_weight(gov, signer);
    let max = gov.multisig_config.max_signer_weight;
    if recorded > max {
        max
    } else {
        recorded
    }
}

/// The weight recorded for `signer`, 0 when none is.
fn recorded_weight(gov: &Governance, signer: &Address) -> (r: u32)
    ensures
        r == (if gov@.weights.contains_key(signer@) {
            gov@.weights[signer@]
        } else {
            0
        }),
{
    let ghost s = gov.signer_weights@;
    let mut i: usize = gov.signer_weights.len();
    assert(s.take(i as int) =~= s);
    while i > 0
        invariant
            i <= s.len(),
            s == gov.signer_weights@,
            weights_map(s).contains_key(signer@) == weights_map(s.take(i as int)).contains_key(
                signer@,
            ),
            weights_map(s.take(i as int)).contains_key(signer@) ==> weights_map(s)[signer@]
                == weights_map(s.take(i as int))[signer@],
        decreases i,
    {
        assert(s.take(i as int).drop_last() =~= s.take(i - 1));
        if gov.signer_weights[i - 1].signer.same_as(signer) {
            return gov.signer_weights[i - 1].weight;
        }
        i = i - 1;
    }
    0
}

/// Register or update a signer's weight in multi-sig governance. No signer
/// holds more than the configured maximum weight: a larger weight is capped
/// at it. A weight of 0 (after capping) removes the signer's entry.
pub fn set_signer_weight(gov: &mut Governance, signer: &Address, weight: u32)
    ensures
        final(gov)@ == set_weight_model(old(gov)@, signer@, capped_weight(old(gov)@, weight)),
        weights_within_max(old(gov)@) ==> weights_within_max(final(gov)@),
        old(gov).wf() ==> final(gov).wf(),
{
    let max = gov.multisig_config.max_signer_weight;
    let weight = if weight > max {
        max
    } else {
        weight
    };
    let ghost s = gov.signer_weights@;
    let mut kept: Vec<SignerWeight> = Vec::new();
    let mut i: usize = 0;
    while i < gov.signer_weights.len()
        invariant
            i <= s.len(),
            s == gov.signer_weights@,
            weights_map(kept@) == weights_map(s.take(i as int)).remove(signer@),
        decreases s.len() - i,
    {
        assert(s.take(i + 1).drop_last() =~= s.take(i as int));
        let e = &gov.signer_weights[i];
        if !e.signer.same_as(signer) {
            let ghost before = kept@;
            kept.push(SignerWeight { signer: e.signer.duplicate(), weight: e.weight });
            assert(kept@.drop_last() =~= before);
            assert(weights_map(kept@) =~= weights_map(s.take(i + 1)).remove(signer@));
        } else {
            assert(weights_map(kept@) =~= weights_map(s.take(i + 1)).remove(signer@));
        }
        i = i + 1;
    }
    assert(s.take(s.len() as int) =~= s);
    if weight != 0 {
        let ghost before = kept@;
        kept.push(SignerWeight { signer: signer.duplicate(), weight });
        assert(kept@.drop_last() =~= before);
        assert(weights_map(kept@) =~= weights_map(s).insert(signer@, weight));
    }
    gov.signer_weights = kept;
    proof {
        law_signer_weight_read_back(old(gov)@, signer@, weight, signer@);
    }
}

pub fn get_governance_config(gov: &Governance) -> (r: GovernanceConfig)
    ensures
        r == gov@.governance_config,
{
    gov.governance_config
}

pub fn set_governance_config(gov: &mut Governance, config: &GovernanceConfig)
    ensures
        final(gov)@ == (GovernanceModel { governance_config: *config, ..old(gov)@ }),
        old(gov).wf() ==> final(gov).wf(),
{
    gov.governance_config = *config;
}

/// Checks that `signers` form a quorum: enough distinct authorized
/// signers, with enough weight between them (see `quorum_outcome`).
pub fn verify_upgrade_quorum(gov: &Governance, signers: &Vec<Address>) -> (r: Result<(), ContractError>)
    ensures
        r == quorum_outcome(gov@, views(signers@)),
{
    let admin = match &gov.data {
        Some(d) => &d.admin,
        None => {
            return Err(ContractError::NotInitialized);
        },
    };
    let (count, weight) = match gov.tally_signers(admin, signers) {
        Ok(t) => t,
        Err(e) => {
            return Err(e);
        },
    };
    if count < gov.governance_config.quorum_threshold as usize {
        return Err(ContractError::ThresholdNotReached);
    }
    if weight < gov.multisig_config.required_weight {
        return Err(ContractError::ThresholdNotReached);
    }
    Ok(())
}

/// The total weight of the distinct authorized signers among `signers`,
/// with `data`'s admin as the admin; `Overflow` where it leaves `u32`.
pub fn calculate_collected_weight(gov: &Governance, signers: &Vec<Address>, data: &ContractData) -> (r:
    Result<u32, ContractError>)
    ensures
        ({
            let t = tally(gov@, data.admin@, views(signers@));
            if t.1 > u32::MAX {
                r == Err::<u32, ContractError>(ContractError::Overflow)
            } else {
                r == Ok::<u32, ContractError>(t.1 as u32)
            }
        }),
{
    match gov.tally_signers(&data.admin, signers) {
        Ok((_, w)) => Ok(w),
        Err(e) => Err(e),
    }
}

/// Hands governance to `new_signers`, once `signers` form a quorum: the
/// first new signer becomes the admin, the new signers become the
/// authorized signers with weight 1 each, and both thresholds become
/// `new_threshold`, which must be between 1 and the number of distinct new
/// signers. A refused rotation changes nothing.
pub fn rotate_admin_keys(gov: &mut Governance, signers: &Vec<Address>, new_signers: Vec<Address>, new_threshold: u32) -> (r:
    Result<(), ContractError>)
    ensures
        r == rotate_admin_outcome(old(gov)@, views(signers@), views(new_signers@), new_threshold),
        r is Ok ==> final(gov)@ == rotated_admin_model(old(gov)@, views(new_signers@), new_threshold),
        r is Ok ==> weights_within_max(final(gov)@),
        r is Err ==> final(gov)@ == old(gov)@,
        old(gov).wf() ==> final(gov).wf(),
{
    match verify_upgrade_quorum(gov, signers) {
        Ok(()) => {},
        Err(e) => {
            return Err(e);
        },
    }
    let ghost nv = views(new_signers@);
    let distinct = dedup_keys(&new_signers);
    proof {
        lemma_dedup(nv);
    }
    if new_threshold == 0 || new_threshold as usize > distinct.len() {
        return Err(ContractError::InvalidThreshold);
    }
    let mut weights: Vec<SignerWeight> = Vec::new();
    let mut i: usize = 0;
    while i < distinct.len()
        invariant
            i <= distinct@.len(),
            weights_map(weights@) == Map::new(
                |x: Seq<u8>| views(distinct@).take(i as int).contains(x),
                |x: Seq<u8>| 1u32,
            ),
        decreases distinct@.len() - i,
    {
        let ghost before = weights@;
        let ghost p = views(distinct@).take(i as int);
        let ghost p1 = views(distinct@).take(i + 1);
        assert(p1 =~= p.push(distinct@[i as int]@));
        weights.push(SignerWeight { signer: distinct[i].duplicate(), weight: 1 });
        assert(weights@.drop_last() =~= before);
        assert forall|x: Seq<u8>| p1.contains(x) <==> (p.contains(x) || x == distinct@[i as int]@) by {
            if p1.contains(x) {
                let k = choose|k: int| 0 <= k < p1.len() && p1[k] == x;
                if k < p.len() {
                    assert(p[k] == x);
                }
            }
            if p.contains(x) {
                let k = choose|k: int| 0 <= k < p.len() && p[k] == x;
                assert(p1[k] == x);
            }
            if x == distinct@[i as int]@ {
                assert(p1[i as int] == x);
            }
        }
        assert(weights_map(weights@) =~= Map::new(
            |x: Seq<u8>| p1.contains(x),
            |x: Seq<u8>| 1u32,
        ));
        i = i + 1;
    }
    assert(views(distinct@).take(distinct@.len() as int) =~= views(distinct@));
    let admin = new_signers[0].duplicate();
    let max_weight = if gov.multisig_config.max_signer_weight < 1 {
        1
    } else {
        gov.multisig_config.max_signer_weight
    };
    gov.data = Some(ContractData { admin });
    gov.signers = distinct;
    gov.signer_weights = weights;
    gov.governance_config = GovernanceConfig { quorum_threshold: new_threshold };
    gov.multisig_config = MultiSigConfig {
        required_weight: new_threshold,
        max_signer_weight: max_weight,
    };
    assert(gov@.signers =~= key_set(nv));
    assert(gov@.weights =~= Map::new(|x: Seq<u8>| nv.contains(x), |x: Seq<u8>| 1u32));
    Ok(())
}

/// The validator set, each key once, in ascending byte order.
pub fn get_validator_set(gov: &Governance) -> (r: Vec<[u8; 32]>)
    ensures
        key_set(views(r@)) == gov@.validators,
        strictly_ascending(views(r@)),
{
    let r = ascending_keys(&gov.validators);
    assert(key_set(views(r@)) =~= gov@.validators);
    r
}

/// How many validator rotations there have been.
pub fn get_validator_sequence(gov: &Governance) -> (r: u64)
    ensures
        r == gov@.validator_sequence,
{
    gov.validator_sequence
}

/// Replaces the validator set with `new_validators`, once `signers` form
/// a quorum, and advances the rotation counter by one, returning its new
/// value. A refused rotation changes nothing.
pub fn rotate_validators(gov: &mut Governance, signers: &Vec<Address>, new_validators: Vec<[u8; 32]>) -> (r:
    Result<u64, ContractError>)
    ensures
        r == rotate_validators_outcome(old(gov)@, views(signers@)),
        r matches Ok(seq) ==> final(gov)@ == (GovernanceModel {
            validators: key_set(views(new_validators@)),
            validator_sequence: seq,
            ..old(gov)@
        }),
        r is Err ==> final(gov)@ == old(gov)@,
        old(gov).wf() ==> final(gov).wf(),
{
    match verify_upgrade_quorum(gov, signers) {
        Ok(()) => {},
        Err(e) => {
            return Err(e);
        },
    }
    let sequence = match gov.validator_sequence.checked_add(1) {
        Some(s) => s,
        None => {
            return Err(ContractError::Overflow);
        },
    };
    let distinct = ascending_keys(&new_validators);
    gov.validators = distinct;
    gov.validator_sequence = sequence;
    assert(gov@.validators =~= key_set(views(new_validators@)));
    Ok(sequence)
}

pub fn get_fee_tier_config(gov: &Governance) -> (r: FeeTierConfig)
    ensures
        r == gov@.fee_tier_config,
{
    gov.fee_tier_config
}

/// The fee tier in force, in basis points.
pub fn get_fee_tier(gov: &Governance) -> (r: u32)
    ensures
        r == gov@.fee_tier_config.fee_tier_bps,
{
    gov.fee_tier_config.fee_tier_bps
}

/// Sets the fee tier in force to one of the configured tiers, once
/// `signers` form a quorum. A refused change changes nothing.
pub fn set_fee_tier(gov: &mut Governance, signers: &Vec<Address>, new_fee_tier_bps: u32) -> (r: Result<
    (),
    ContractError,
>)
    ensures
        r == fee_tier_outcome(old(gov)@, views(signers@), new_fee_tier_bps),
        r is Ok ==> final(gov)@ == (GovernanceModel {
            fee_tier_config: FeeTierConfig {
                fee_tier_bps: new_fee_tier_bps,
                ..old(gov)@.fee_tier_config
            },
            ..old(gov)@
        }),
        r is Err ==> final(gov)@ == old(gov)@,
        old(gov).wf() ==> final(gov).wf(),
{
    match verify_upgrade_quorum(gov, signers) {
        Ok(()) => {},
        Err(e) => {
            return Err(e);
        },
    }
    let config = gov.fee_tier_config;
    if new_fee_tier_bps != config.low_fee_tier_bps && new_fee_tier_bps
        != config.medium_fee_tier_bps && new_fee_tier_bps != config.high_fee_tier_bps {
        return Err(ContractError::InvalidThreshold);
    }
    gov.fee_tier_config = FeeTierConfig { fee_tier_bps: new_fee_tier_bps, ..config };
    Ok(())
}

pub fn get_fee_split_config(gov: &Governance) -> (r: FeeSplitConfig)
    ensures
        r == gov@.fee_split_config,
{
    gov.fee_split_config
}

/// Sets the fee split, once `signers` form a quorum; the two shares must
/// add up to one whole (10000 basis points). A refused change changes
/// nothing.
pub fn set_fee_split_config(
    gov: &mut Governance,
    signers: &Vec<Address>,
    lp_share_bps: u32,
    treasury_share_bps: u32,
) -> (r: Result<(), ContractError>)
    ensures
        r == fee_split_outcome(old(gov)@, views(signers@), lp_share_bps, treasury_share_bps),
        r is Ok ==> final(gov)@ == (GovernanceModel {
            fee_split_config: FeeSplitConfig { lp_share_bps, treasury_share_bps },
            ..old(gov)@
        }),
        r is Err ==> final(gov)@ == old(gov)@,
        old(gov).wf() ==> final(gov).wf(),
{
    match verify_upgrade_quorum(gov, signers) {
        Ok(()) => {},
        Err(e) => {
            return Err(e);
        },
    }
    match lp_share_bps.checked_add(treasury_share_bps) {
        Some(total) => {
            if total != BPS_DENOMINATOR {
                return Err(ContractError::InvalidThreshold);
            }
        },
        None => {
            return Err(ContractError::InvalidThreshold);
        },
    }
    gov.fee_split_config = FeeSplitConfig { lp_share_bps, treasury_share_bps };
    Ok(())
}

/// Splits `amount` of collected fees into the liquidity providers' part
/// and the treasury's part (see `split_outcome`).
pub fn split_collected_fees(gov: &Governance, amount: u128) -> (r: Result<(u128, u128), ContractError>)
    ensures
        r == split_outcome(gov@.fee_split_config, amount),
{
    let config = gov.fee_split_config;
    let lp_amount = match amount.checked_mul(config.lp_share_bps as u128) {
        Some(x) => x / 10000,
        None => {
            return Err(ContractError::Overflow);
        },
    };
    let treasury_amount = match amount.checked_mul(config.treasury_share_bps as u128) {
        Some(x) => x / 10000,
        None => {
            return Err(ContractError::Overflow);
        },
    };
    Ok((lp_amount, treasury_amount))
}

/// The treasury vault, if one was set.
pub fn get_treasury_vault(gov: &Governance) -> (r: Option<Address>)
    ensures
        option_view(r) == gov@.treasury,
{
    match &gov.treasury {
        Some(a) => Some(a.duplicate()),
        None => None,
    }
}

/// Sets the treasury vault, once `signers` form a quorum. A refused change
/// changes nothing.
pub fn set_treasury_vault(gov: &mut Governance, signers: &Vec<Address>, vault: Address) -> (r: Result<
    (),
    ContractError,
>)
    ensures
        r == quorum_outcome(old(gov)@, views(signers@)),
        r is Ok ==> final(gov)@ == (GovernanceModel { treasury: Some(vault@), ..old(gov)@ }),
        r is Err ==> final(gov)@ == old(gov)@,
        old(gov).wf() ==> final(gov).wf(),
{
    match verify_upgrade_quorum(gov, signers) {
        Ok(()) => {},
        Err(e) => {
            return Err(e);
        },
    }
    gov.treasury = Some(vault);
    Ok(())
}

/// Whether `delay_seconds` have passed between `staged_at` and `current_time`.
pub fn verify_staged_delay(staged_at: u64, current_time: u64, delay_seconds: u64) -> (r: bool)
    ensures
        r == staged_delay_passed(staged_at, current_time, delay_seconds),
{
    current_time.saturating_sub(staged_at) >= delay_seconds
}

/// Whether `target_height` lies beyond `active_index`.
pub fn verify_block_height(target_height: u32, active_index: u32) -> (r: bool)
    ensures
        r == (target_height > active_index),
{
    target_height > active_index
}

} // verus!

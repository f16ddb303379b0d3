//! The constant-ratio liquidity pool: initialization, and the rules by which
//! a deposit of two tokens is sized and paid for in pool shares.
use vstd::prelude::*;
use crate::address::{Address, ByteKey};

verus! {

/// Why a pool operation was refused.
#[derive(Clone, Copy, Debug, PartialEq, Eq, Structural)]
pub enum AmmError {
    AlreadyInitialized,
    NotInitialized,
    InvalidDepositRatio,
    SlippageExceeded,
    ZeroDeposit,
    PoolEmpty,
}

/// The three token contracts a pool works with.
#[derive(Debug)]
pub struct PoolTokens {
    pub token_a: Address,
    pub token_b: Address,
    pub lp_token: Address,
}

impl PoolTokens {
    pub open spec fn views(&self) -> (Seq<u8>, Seq<u8>, Seq<u8>) {
        (self.token_a@, self.token_b@, self.lp_token@)
    }

    /// A copy of the three addresses.
    pub fn duplicate(&self) -> (r: PoolTokens)
        ensures
            r.views() == self.views(),
    {
        PoolTokens {
            token_a: self.token_a.duplicate(),
            token_b: self.token_b.duplicate(),
            lp_token: self.lp_token.duplicate(),
        }
    }
}

/// What the pool holds, as mathematical values.
pub struct PoolModel {
    /// The addresses of token A, token B and the share token, once initialized.
    pub tokens: Option<(Seq<u8>, Seq<u8>, Seq<u8>)>,
    pub reserve_a: int,
    pub reserve_b: int,
    pub total_shares: int,
}

/// The two reserves of a pool and the number of its shares in circulation.
#[derive(Clone, Copy, Debug)]
struct PoolAmounts {
    reserve_a: i128,
    reserve_b: i128,
    total_shares: i128,
}

/// The state of one liquidity pool: its tokens once initialized, its two
/// reserves and the number of pool shares in circulation. Every value of
/// this type is a state the pool can reach (`pool_wf`).
#[derive(Debug)]
pub struct AmmContract {
    tokens: Option<PoolTokens>,
    amounts: PoolAmounts,
}

/// What a deposit moves: the amounts the provider pays into the pool and the
/// shares minted for them, with the token contracts involved.
#[derive(Debug)]
pub struct DepositPlan {
    pub token_a: Address,
    pub token_b: Address,
    pub lp_token: Address,
    pub amount_a: i128,
    pub amount_b: i128,
    pub shares: i128,
}

pub open spec fn tokens_view(t: Option<PoolTokens>) -> Option<(Seq<u8>, Seq<u8>, Seq<u8>)> {
    match t {
        Some(p) => Some(p.views()),
        None => None,
    }
}

impl View for AmmContract {
    type V = PoolModel;

    closed spec fn view(&self) -> PoolModel {
        PoolModel {
            tokens: tokens_view(self.tokens),
            reserve_a: self.amounts.reserve_a as int,
            reserve_b: self.amounts.reserve_b as int,
            total_shares: self.amounts.total_shares as int,
        }
    }
}

pub open spec fn in_i128(x: int) -> bool {
    i128::MIN <= x <= i128::MAX
}

/// The states a pool can reach: nothing is negative; the pool is either empty
/// (no shares, no reserves) or holds both tokens and has shares out; and
/// nothing was deposited before initialization.
pub open spec fn pool_wf(m: PoolModel) -> bool {
    &&& in_i128(m.reserve_a) && in_i128(m.reserve_b) && in_i128(m.total_shares)
    &&& m.reserve_a >= 0 && m.reserve_b >= 0 && m.total_shares >= 0
    &&& (m.total_shares == 0) == (m.reserve_a == 0)
    &&& (m.total_shares == 0) == (m.reserve_b == 0)
    &&& m.tokens is None ==> m.total_shares == 0
}

/// The pool after `initialize`: refused once it has tokens, else the tokens
/// are recorded and the reserves and shares start at zero.
pub open spec fn initialize_step(
    m: PoolModel,
    tokens: (Seq<u8>, Seq<u8>, Seq<u8>),
) -> (Result<(), AmmError>, PoolModel) {
    if m.tokens is Some {
        (Err(AmmError::AlreadyInitialized), m)
    } else {
        (Ok(()), PoolModel { tokens: Some(tokens), reserve_a: 0, reserve_b: 0, total_shares: 0 })
    }
}

/// The outcome of the reserve and share updates that end a deposit: `None`
/// where a sum leaves the range of `i128` (the contract aborts there).
pub open spec fn settle(m: PoolModel, da: int, db: int, s: int) -> Option<
    Result<(int, int, int), AmmError>,
> {
    if in_i128(m.reserve_a + da) && in_i128(m.reserve_b + db) && in_i128(m.total_shares + s) {
        Some(Ok((da, db, s)))
    } else {
        None
    }
}

/// What a deposit of up to `a` of token A and `b` of token B, asking for at
/// least `min` shares, does to pool `m`: `Some(Ok((da, db, s)))` when `da` and
/// `db` are paid in and `s` shares minted, `Some(Err(e))` when it is refused,
/// and `None` when a product or sum leaves the range of `i128`, where the
/// contract aborts.
///
/// The first deposit takes both amounts as they are and mints `a` shares.
/// Later deposits keep the pool's ratio: token B must cover `a` at the pool's
/// price, and the pair taken is the larger of the two that fits the ratio
/// within the amounts offered; shares are minted in proportion to token A.
pub open spec fn deposit_outcome(m: PoolModel, a: int, b: int, min: int) -> Option<
    Result<(int, int, int), AmmError>,
> {
    if a <= 0 || b <= 0 {
        Some(Err(AmmError::ZeroDeposit))
    } else if m.tokens is None {
        Some(Err(AmmError::NotInitialized))
    } else if m.total_shares == 0 {
        if a < min {
            Some(Err(AmmError::SlippageExceeded))
        } else {
            settle(m, a, b, a)
        }
    } else {
        let pa = a * m.reserve_b;
        if !in_i128(pa) {
            None
        } else {
            let required_b = pa / m.reserve_a;
            if b < required_b {
                Some(Err(AmmError::InvalidDepositRatio))
            } else {
                let pb = b * m.reserve_a;
                if !in_i128(pb) {
                    None
                } else {
                    let optimal_a = pb / m.reserve_b;
                    let da = if optimal_a <= a { optimal_a } else { a };
                    let db = if optimal_a <= a { b } else { required_b };
                    let ps = da * m.total_shares;
                    if !in_i128(ps) {
                        None
                    } else {
                        let s = ps / m.reserve_a;
                        if s < min {
                            Some(Err(AmmError::SlippageExceeded))
                        } else {
                            settle(m, da, db, s)
                        }
                    }
                }
            }
        }
    }
}

/// The pool after a deposit whose outcome is known: on success the amounts
/// and shares are added, otherwise nothing changes.
pub open spec fn deposit_step(m: PoolModel, outcome: Result<(int, int, int), AmmError>) -> PoolModel {
    match outcome {
        Ok((da, db, s)) => PoolModel {
            tokens: m.tokens,
            reserve_a: m.reserve_a + da,
            reserve_b: m.reserve_b + db,
            total_shares: m.total_shares + s,
        },
        Err(_) => m,
    }
}

impl AmmContract {
    pub open spec fn wf(&self) -> bool {
        pool_wf(self@)
    }

    #[verifier::type_invariant]
    spec fn reachable(&self) -> bool {
        pool_wf(self@)
    }

    /// A pool that was never initialized.
    pub fn new() -> (p: AmmContract)
        ensures
            p.wf(),
            p@.tokens is None,
            p@.reserve_a == 0,
            p@.reserve_b == 0,
            p@.total_shares == 0,
    {
        AmmContract { tokens: None, amounts: PoolAmounts { reserve_a: 0, reserve_b: 0, total_shares: 0 } }
    }

    /// The pool held in storage as these values, if they form a state that the
    /// pool can reach; `None` otherwise.
    pub fn from_storage(
        tokens: Option<PoolTokens>,
        reserve_a: i128,
        reserve_b: i128,
        total_shares: i128,
    ) -> (r: Option<AmmContract>)
        ensures
            ({
                let m = PoolModel {
                    tokens: tokens_view(tokens),
                    reserve_a: reserve_a as int,
                    reserve_b: reserve_b as int,
                    total_shares: total_shares as int,
                };
                &&& r is Some <==> pool_wf(m)
                &&& r matches Some(p) ==> p@ == m && p.wf()
            }),
    {
        let ok = reserve_a >= 0 && reserve_b >= 0 && total_shares >= 0 && (total_shares == 0) == (
        reserve_a == 0) && (total_shares == 0) == (reserve_b == 0) && (tokens.is_some()
            || total_shares == 0);
        if ok {
            Some(AmmContract { tokens, amounts: PoolAmounts { reserve_a, reserve_b, total_shares } })
        } else {
            None
        }
    }

    /// Records the pool's tokens, once: a pool that has them refuses with
    /// `AlreadyInitialized` and is left as it was.
    pub fn initialize(&mut self, token_a: Address, token_b: Address, lp_token: Address) -> (r:
        Result<(), AmmError>)
        ensures
            final(self).wf(),
            (r, final(self)@) == initialize_step(old(self)@, (token_a@, token_b@, lp_token@)),
    {
        proof {
            use_type_invariant(&*self);
        }
        if self.tokens.is_some() {
            return Err(AmmError::AlreadyInitialized);
        }
        // an uninitialized pool holds nothing, so its amounts are already zero
        self.tokens = Some(PoolTokens { token_a, token_b, lp_token });
        Ok(())
    }

    /// Sizes a deposit without changing the pool: the amounts to pay in and the
    /// shares to mint, the reason it is refused, or `None` where the contract
    /// aborts on arithmetic that leaves the range of `i128`.
    pub fn plan_deposit(&self, amount_a_desired: i128, amount_b_desired: i128, min_lp_mint: i128) -> (r:
        Option<Result<DepositPlan, AmmError>>)
        ensures
            match deposit_outcome(self@, amount_a_desired as int, amount_b_desired as int, min_lp_mint as int) {
                None => r is None,
                Some(Err(e)) => r == Some(Err::<DepositPlan, AmmError>(e)),
                Some(Ok((da, db, s))) => r matches Some(Ok(plan)) && {
                    &&& self@.tokens == Some((plan.token_a@, plan.token_b@, plan.lp_token@))
                    &&& plan.amount_a == da && plan.amount_b == db && plan.shares == s
                },
            },
    {
        proof {
            use_type_invariant(self);
        }
        let amounts = self.amounts;
        if amount_a_desired <= 0 || amount_b_desired <= 0 {
            return Some(Err(AmmError::ZeroDeposit));
        }
        let tokens = match &self.tokens {
            Some(t) => t,
            None => {
                return Some(Err(AmmError::NotInitialized));
            },
        };
        let (da, db, s) = if amounts.total_shares == 0 {
            if amount_a_desired < min_lp_mint {
                return Some(Err(AmmError::SlippageExceeded));
            }
            (amount_a_desired, amount_b_desired, amount_a_desired)
        } else {
            let pa = match amount_a_desired.checked_mul(amounts.reserve_b) {
                Some(x) => x,
                None => {
                    return None;
                },
            };
            let required_b = pa / amounts.reserve_a;
            if amount_b_desired < required_b {
                return Some(Err(AmmError::InvalidDepositRatio));
            }
            let pb = match amount_b_desired.checked_mul(amounts.reserve_a) {
                Some(x) => x,
                None => {
                    return None;
                },
            };
            let optimal_a = pb / amounts.reserve_b;
            let (opt_a, opt_b) = if optimal_a <= amount_a_desired {
                (optimal_a, amount_b_desired)
            } else {
                (amount_a_desired, required_b)
            };
            let ps = match opt_a.checked_mul(amounts.total_shares) {
                Some(x) => x,
                None => {
                    return None;
                },
            };
            let shares = ps / amounts.reserve_a;
            if shares < min_lp_mint {
                return Some(Err(AmmError::SlippageExceeded));
            }
            (opt_a, opt_b, shares)
        };
        if amounts.reserve_a.checked_add(da).is_none() || amounts.reserve_b.checked_add(db).is_none()
            || amounts.total_shares.checked_add(s).is_none() {
            return None;
        }
        let t = tokens.duplicate();
        Some(
            Ok(
                DepositPlan {
                    token_a: t.token_a,
                    token_b: t.token_b,
                    lp_token: t.lp_token,
                    amount_a: da,
                    amount_b: db,
                    shares: s,
                },
            ),
        )
    }

    /// Makes a deposit: on success the amounts paid in are added to the
    /// reserves, the minted shares to the shares in circulation, and the number
    /// of minted shares is returned; on refusal the pool is left as it was.
    /// The moving of tokens is not done here (see `plan_deposit`).
    pub fn deposit(&mut self, amount_a_desired: i128, amount_b_desired: i128, min_lp_mint: i128) -> (r:
        Result<i128, AmmError>)
        requires
            deposit_outcome(old(self)@, amount_a_desired as int, amount_b_desired as int, min_lp_mint as int) is Some,
        ensures
            final(self).wf(),
            ({
                let outcome = deposit_outcome(old(self)@, amount_a_desired as int, amount_b_desired as int, min_lp_mint as int).unwrap();
                &&& final(self)@ == deposit_step(old(self)@, outcome)
                &&& match outcome {
                    Ok((da, db, s)) => r == Ok::<i128, AmmError>(s as i128),
                    Err(e) => r == Err::<i128, AmmError>(e),
                }
            }),
    {
        proof {
            use_type_invariant(&*self);
            law_deposit_within_desired(self@, amount_a_desired as int, amount_b_desired as int, min_lp_mint as int);
        }
        match self.plan_deposit(amount_a_desired, amount_b_desired, min_lp_mint).unwrap() {
            Ok(plan) => {
                let before = self.amounts;
                self.amounts = PoolAmounts {
                    reserve_a: before.reserve_a + plan.amount_a,
                    reserve_b: before.reserve_b + plan.amount_b,
                    total_shares: before.total_shares + plan.shares,
                };
                Ok(plan.shares)
            },
            Err(e) => Err(e),
        }
    }

    /// The two reserves, token A first.
    pub fn get_reserves(&self) -> (r: (i128, i128))
        ensures
            r.0 == self@.reserve_a,
            r.1 == self@.reserve_b,
    {
        (self.amounts.reserve_a, self.amounts.reserve_b)
    }

    /// The number of pool shares in circulation.
    pub fn get_total_shares(&self) -> (r: i128)
        ensures
            r == self@.total_shares,
    {
        self.amounts.total_shares
    }
}

/// A deposit takes no more of either token than the provider offered, takes
/// no negative amount, and mints at least the shares the provider asked for.
pub proof fn law_deposit_within_desired(m: PoolModel, a: int, b: int, min: int)
    requires
        pool_wf(m),
    ensures
        deposit_outcome(m, a, b, min) matches Some(Ok((da, db, s))) ==> {
            &&& 0 <= da <= a
            &&& 0 <= db <= b
            &&& 0 <= s
            &&& min <= s
            &&& pool_wf(deposit_step(m, Ok((da, db, s))))
        },
{
    if a > 0 && b > 0 && m.tokens is Some && m.total_shares != 0 {
        let pa = a * m.reserve_b;
        assert(pa >= 0) by (nonlinear_arith)
            requires
                a > 0,
                m.reserve_b > 0,
                pa == a * m.reserve_b,
        ;
        let pb = b * m.reserve_a;
        assert(pb >= 0) by (nonlinear_arith)
            requires
                b > 0,
                m.reserve_a > 0,
                pb == b * m.reserve_a,
        ;
        let optimal_a = pb / m.reserve_b;
        let required_b = pa / m.reserve_a;
        assert(optimal_a >= 0 && required_b >= 0) by (nonlinear_arith)
            requires
                pa >= 0,
                pb >= 0,
                m.reserve_a > 0,
                m.reserve_b > 0,
                optimal_a == pb / m.reserve_b,
                required_b == pa / m.reserve_a,
        ;
        let da = if optimal_a <= a { optimal_a } else { a };
        let ps = da * m.total_shares;
        assert(ps >= 0) by (nonlinear_arith)
            requires
                da >= 0,
                m.total_shares > 0,
                ps == da * m.total_shares,
        ;
        let s = ps / m.reserve_a;
        assert(s >= 0) by (nonlinear_arith)
            requires
                ps >= 0,
                m.reserve_a > 0,
                s == ps / m.reserve_a,
        ;
    }
}

/// Minted shares never outweigh the token A paid for them: the depositor's
/// share of all shares is at most its share of reserve A, so no deposit
/// dilutes the holders before it. The first deposit mints exactly the
/// amount of token A paid in.
pub proof fn law_deposit_no_dilution(m: PoolModel, a: int, b: int, min: int)
    requires
        pool_wf(m),
    ensures
        deposit_outcome(m, a, b, min) matches Some(Ok((da, db, s))) ==> {
            &&& s * m.reserve_a <= da * m.total_shares
            &&& m.total_shares > 0 ==> da * m.total_shares < (s + 1) * m.reserve_a
            &&& m.total_shares == 0 ==> s == da
        },
{
    law_deposit_within_desired(m, a, b, min);
    if a > 0 && b > 0 && m.tokens is Some && m.total_shares != 0 {
        let pa = a * m.reserve_b;
        let pb = b * m.reserve_a;
        let optimal_a = pb / m.reserve_b;
        let required_b = pa / m.reserve_a;
        let da = if optimal_a <= a { optimal_a } else { a };
        let ps = da * m.total_shares;
        let s = ps / m.reserve_a;
        assert(ps >= 0) by (nonlinear_arith)
            requires
                a > 0,
                b > 0,
                m.reserve_a > 0,
                m.reserve_b > 0,
                m.total_shares > 0,
                pa == a * m.reserve_b,
                pb == b * m.reserve_a,
                optimal_a == pb / m.reserve_b,
                da == if optimal_a <= a { optimal_a } else { a },
                ps == da * m.total_shares,
        ;
        assert(s * m.reserve_a <= ps < (s + 1) * m.reserve_a) by (nonlinear_arith)
            requires
                m.reserve_a > 0,
                ps >= 0,
                s == ps / m.reserve_a,
        ;
    }
}

/// A pool is initialized at most once: after a successful `initialize`, a
/// second one is refused with `AlreadyInitialized` and changes nothing.
pub proof fn law_initialize_once(
    m: PoolModel,
    first: (Seq<u8>, Seq<u8>, Seq<u8>),
    second: (Seq<u8>, Seq<u8>, Seq<u8>),
)
    requires
        initialize_step(m, first).0 is Ok,
    ensures
        initialize_step(initialize_step(m, first).1, second) == (
        Err::<(), AmmError>(AmmError::AlreadyInitialized),
        initialize_step(m, first).1,
        ),
{
}

/// A deposit never shrinks the pool: the reserves and the shares in
/// circulation only grow, and a refused deposit leaves the pool unchanged.
pub proof fn law_deposit_only_grows_pool(m: PoolModel, a: int, b: int, min: int)
    requires
        pool_wf(m),
        deposit_outcome(m, a, b, min) is Some,
    ensures
        ({
            let after = deposit_step(m, deposit_outcome(m, a, b, min).unwrap());
            &&& after.tokens == m.tokens
            &&& after.reserve_a >= m.reserve_a
            &&& after.reserve_b >= m.reserve_b
            &&& after.total_shares >= m.total_shares
            &&& deposit_outcome(m, a, b, min).unwrap() is Err ==> after == m
        }),
{
    law_deposit_within_desired(m, a, b, min);
}

/// A deposit is refused for zero or negative amounts before anything else,
/// then for a pool that was never initialized; a later deposit is refused for
/// its ratio exactly when token B does not cover token A at the pool's price
/// (`b` is below `a * reserve_b / reserve_a` rounded down).
pub proof fn law_deposit_refusals(m: PoolModel, a: int, b: int, min: int)
    requires
        pool_wf(m),
    ensures
        a <= 0 || b <= 0 ==> deposit_outcome(m, a, b, min) == Some(
            Err::<(int, int, int), AmmError>(AmmError::ZeroDeposit),
        ),
        a > 0 && b > 0 && m.tokens is None ==> deposit_outcome(m, a, b, min) == Some(
            Err::<(int, int, int), AmmError>(AmmError::NotInitialized),
        ),
        a > 0 && b > 0 && m.tokens is Some && m.total_shares > 0 && in_i128(a * m.reserve_b) ==> (
        deposit_outcome(m, a, b, min) == Some(
            Err::<(int, int, int), AmmError>(AmmError::InvalidDepositRatio),
        ) <==> a * m.reserve_b >= (b + 1) * m.reserve_a),
{
    if a > 0 && b > 0 && m.tokens is Some && m.total_shares > 0 && in_i128(a * m.reserve_b) {
        let pa = a * m.reserve_b;
        let ra = m.reserve_a;
        assert(pa >= 0) by (nonlinear_arith)
            requires
                a > 0,
                m.reserve_b > 0,
                pa == a * m.reserve_b,
        ;
        assert((b < pa / ra) <==> (pa >= (b + 1) * ra)) by (nonlinear_arith)
            requires
                ra > 0,
                pa >= 0,
        ;
    }
}

/// The first deposit into a pool takes both offered amounts whole and mints
/// as many shares as it pays in of token A, unless that is below the minimum
/// asked for.
pub proof fn law_first_deposit(m: PoolModel, a: int, b: int, min: int)
    requires
        pool_wf(m),
        m.tokens is Some,
        m.total_shares == 0,
        a > 0,
        b > 0,
        in_i128(a),
        in_i128(b),
    ensures
        min <= a ==> deposit_outcome(m, a, b, min) == Some(Ok::<(int, int, int), AmmError>((a, b, a))),
        min > a ==> deposit_outcome(m, a, b, min) == Some(
            Err::<(int, int, int), AmmError>(AmmError::SlippageExceeded),
        ),
{
}

/// A later deposit offered at exactly the pool's ratio (`b * reserve_a ==
/// a * reserve_b`) is taken whole, whatever its size within `i128`, and mints
/// `a * total_shares / reserve_a` shares (rounded down), provided that meets
/// the minimum asked for.
pub proof fn law_deposit_at_pool_ratio(m: PoolModel, a: int, b: int, min: int)
    requires
        pool_wf(m),
        m.tokens is Some,
        m.total_shares > 0,
        a > 0,
        b > 0,
        b * m.reserve_a == a * m.reserve_b,
        min * m.reserve_a <= a * m.total_shares,
        in_i128(a * m.reserve_b),
        in_i128(a * m.total_shares),
        in_i128(m.reserve_a + a),
        in_i128(m.reserve_b + b),
        in_i128(m.total_shares + (a * m.total_shares) / m.reserve_a),
    ensures
        deposit_outcome(m, a, b, min) == Some(
            Ok::<(int, int, int), AmmError>((a, b, (a * m.total_shares) / m.reserve_a)),
        ),
{
    let ra = m.reserve_a;
    let rb = m.reserve_b;
    let ts = m.total_shares;
    assert((a * rb) / ra == b) by (nonlinear_arith)
        requires
            ra > 0,
            b * ra == a * rb,
    ;
    assert((b * ra) / rb == a) by (nonlinear_arith)
        requires
            rb > 0,
            b * ra == a * rb,
    ;
    assert(min <= (a * ts) / ra) by (nonlinear_arith)
        requires
            ra > 0,
            min * ra <= a * ts,
    ;
}

/// A deposit always uses one of the two offers whole, and the pair it takes
/// sits at the pool's ratio up to rounding down of the other amount: either
/// all of token B is taken and token A is `b * reserve_a / reserve_b`
/// rounded down, or all of token A is taken and token B is
/// `a * reserve_b / reserve_a` rounded down.
pub proof fn law_deposit_uses_one_offer_whole(m: PoolModel, a: int, b: int, min: int)
    requires
        pool_wf(m),
        deposit_outcome(m, a, b, min) is Some,
        deposit_outcome(m, a, b, min)->Some_0 is Ok,
    ensures
        ({
            let (da, db, s) = deposit_outcome(m, a, b, min)->Some_0->Ok_0;
            &&& da == a || db == b
            &&& m.total_shares > 0 ==> {
                ||| db == b && da * m.reserve_b <= b * m.reserve_a < da * m.reserve_b + m.reserve_b
                ||| da == a && db * m.reserve_a <= a * m.reserve_b < db * m.reserve_a + m.reserve_a
            }
        }),
{
    law_deposit_within_desired(m, a, b, min);
    if m.total_shares > 0 {
        let ra = m.reserve_a;
        let rb = m.reserve_b;
        let pa = a * rb;
        let pb = b * ra;
        assert(pa >= 0 && pb >= 0) by (nonlinear_arith)
            requires
                a > 0,
                b > 0,
                ra > 0,
                rb > 0,
                pa == a * rb,
                pb == b * ra,
        ;
        let optimal_a = pb / rb;
        let required_b = pa / ra;
        assert(optimal_a * rb <= pb < optimal_a * rb + rb) by (nonlinear_arith)
            requires
                rb > 0,
                pb >= 0,
                optimal_a == pb / rb,
        ;
        assert(required_b * ra <= pa < required_b * ra + ra) by (nonlinear_arith)
            requires
                ra > 0,
                pa >= 0,
                required_b == pa / ra,
        ;
    }
}

/// Initializing a pool that has no tokens yet records exactly the three
/// token addresses given, with empty reserves and no shares.
pub proof fn law_initialize_records_tokens(m: PoolModel, tokens: (Seq<u8>, Seq<u8>, Seq<u8>))
    requires
        m.tokens is None,
    ensures
        initialize_step(m, tokens).0 is Ok,
        initialize_step(m, tokens).1.tokens == Some(tokens),
        initialize_step(m, tokens).1.reserve_a == 0,
        initialize_step(m, tokens).1.reserve_b == 0,
        initialize_step(m, tokens).1.total_shares == 0,
{
}

} // verus!

//! The experience ledger: a running total and the level derived from it.

use num_integer::Roots;
use vstd::prelude::*;

verus! {

/// `r` is the integer square root of `n`, rounded down.
pub open spec fn is_sqrt_floor(n: int, r: int) -> bool {
    0 <= r && r * r <= n < (r + 1) * (r + 1)
}

/// The integer square root of `n`, rounded down.
pub open spec fn sqrt_floor(n: nat) -> nat {
    choose|r: nat| is_sqrt_floor(n as int, r as int)
}

/// Every natural number has a rounded-down square root.
pub proof fn lemma_sqrt_floor_exists(n: nat)
    ensures
        is_sqrt_floor(n as int, sqrt_floor(n) as int),
    decreases n,
{
    if n == 0 {
        assert(is_sqrt_floor(0, 0nat as int));
    } else {
        lemma_sqrt_floor_exists((n - 1) as nat);
        let r = sqrt_floor((n - 1) as nat);
        if (r + 1) * (r + 1) <= n {
            assert((r + 2) * (r + 2) > n) by (nonlinear_arith)
                requires
                    n - 1 < (r + 1) * (r + 1),
            ;
            assert(is_sqrt_floor(n as int, (r + 1) as nat as int));
        } else {
            assert(is_sqrt_floor(n as int, r as int));
        }
    }
}

/// The rounded-down square root is unique.
pub proof fn lemma_sqrt_floor_unique(n: nat, r: nat)
    requires
        is_sqrt_floor(n as int, r as int),
    ensures
        sqrt_floor(n) == r,
{
    lemma_sqrt_floor_exists(n);
    let s = sqrt_floor(n);
    assert(s == r) by (nonlinear_arith)
        requires
            r * r <= n < (r + 1) * (r + 1),
            s * s <= n < (s + 1) * (s + 1),
    ;
}

/// The truncated square root that `num_integer::Roots::sqrt` computes for a
/// `u32`. Its documentation gives the result as `r² ≤ x < (r+1)²`, which is
/// all that is claimed here.
#[verifier::external_body]
fn integer_sqrt(x: u32) -> (r: u32)
    ensures
        is_sqrt_floor(x as int, r as int),
{
    Roots::sqrt(&x)
}

/// The level reached with `exp` experience points: `⌊√(exp / 10)⌋ - 1`,
/// and 0 where that would be negative.
pub open spec fn level_of(exp: nat) -> nat {
    let root = sqrt_floor(exp / 10);
    if root >= 1 {
        (root - 1) as nat
    } else {
        0
    }
}

/// The experience still missing for the next level: `10 * (level + 2)² - exp`.
pub open spec fn exp_to_next_level_of(exp: nat) -> int {
    10 * (level_of(exp) + 2) * (level_of(exp) + 2) - exp
}

/// The level reached with `exp` experience points.
pub fn level(exp: u32) -> (lvl: u32)
    ensures
        lvl == level_of(exp as nat),
{
    let root = integer_sqrt(exp / 10);
    proof {
        lemma_sqrt_floor_unique((exp / 10) as nat, root as nat);
    }
    root.saturating_sub(1)
}

/// The level formula leaves every total short of its next level.
pub proof fn lemma_next_level_ahead(exp: nat)
    ensures
        exp_to_next_level_of(exp) > 0,
{
    let tenth = exp / 10;
    lemma_sqrt_floor_exists(tenth);
    let root = sqrt_floor(tenth);
    let step = level_of(exp) + 2;
    assert(tenth < step * step) by (nonlinear_arith)
        requires
            tenth < (root + 1) * (root + 1),
            step == root + 1 || (root == 0 && step == 2),
    ;
    assert(10 * step * step > exp) by (nonlinear_arith)
        requires
            tenth < step * step,
            exp < 10 * tenth + 10,
    ;
}

/// The root in the level formula is the root of the exact tenth: writing
/// `r` for it, `10 r² ≤ exp < 10 (r + 1)²`.
pub proof fn lemma_root_of_tenth(exp: nat)
    ensures
        10 * sqrt_floor(exp / 10) * sqrt_floor(exp / 10) <= exp,
        exp < 10 * (sqrt_floor(exp / 10) + 1) * (sqrt_floor(exp / 10) + 1),
{
    let tenth = exp / 10;
    lemma_sqrt_floor_exists(tenth);
    let root = sqrt_floor(tenth);
    assert(10 * root * root <= exp) by (nonlinear_arith)
        requires
            root * root <= tenth,
            10 * tenth <= exp,
    ;
    assert(exp < 10 * (root + 1) * (root + 1)) by (nonlinear_arith)
        requires
            tenth < (root + 1) * (root + 1),
            exp < 10 * tenth + 10,
    ;
}

/// No `u32` total reaches a level above 20,723.
pub proof fn lemma_level_bound(exp: nat)
    requires
        exp <= u32::MAX,
    ensures
        level_of(exp) <= 20723,
{
    let tenth = exp / 10;
    lemma_sqrt_floor_exists(tenth);
    let root = sqrt_floor(tenth);
    assert(root <= 20724) by (nonlinear_arith)
        requires
            root * root <= tenth,
            tenth <= 429496729,
    ;
}

/// The experience still missing for the next level.
pub fn exp_to_next_level(exp: u32) -> (rest: u64)
    ensures
        rest == exp_to_next_level_of(exp as nat),
        rest > 0,
{
    let step: u64 = level(exp) as u64 + 2;
    proof {
        lemma_level_bound(exp as nat);
        lemma_next_level_ahead(exp as nat);
        assert(10 * step * step <= 10 * 20725 * 20725) by (nonlinear_arith)
            requires
                step <= 20725,
        ;
    }
    10 * step * step - exp as u64
}

/// Marks of progress that an account can hold.
#[derive(Clone, Copy, Debug, PartialEq, Eq, Structural)]
pub enum Achievements {
    FirstTask,
    MissionComplete,
}

/// The counters of an account.
#[derive(Debug, PartialEq, Eq)]
pub struct Account {
    /// The level, as derived from `exp` when experience was last added.
    pub lvl: u32,
    /// The experience gathered.
    pub exp: u32,
    pub achievements: Vec<Achievements>,
}

/// What an account holds, its achievements as a sequence.
pub struct AccountView {
    pub lvl: u32,
    pub exp: u32,
    pub achievements: Seq<Achievements>,
}

impl View for Account {
    type V = AccountView;

    open spec fn view(&self) -> AccountView {
        AccountView { lvl: self.lvl, exp: self.exp, achievements: self.achievements@ }
    }
}

/// The account that is read where no record has been written yet: no
/// experience, no achievements.
pub open spec fn account_or_default(record: Option<AccountView>) -> AccountView {
    match record {
        Some(account) => account,
        None => AccountView { lvl: 0, exp: 0, achievements: Seq::empty() },
    }
}

impl AccountView {
    /// The account after `amount` is added to its experience: the level is
    /// derived from the new total.
    pub open spec fn credited(self, amount: u32) -> AccountView {
        AccountView {
            lvl: level_of(credited(self.exp, amount) as nat) as u32,
            exp: credited(self.exp, amount),
            achievements: self.achievements,
        }
    }
}

/// The total after `amount` is added to `exp`: their sum, and `u32::MAX`
/// where the sum lies above it.
pub open spec fn credited(exp: u32, amount: u32) -> u32 {
    if exp + amount > u32::MAX {
        u32::MAX
    } else {
        (exp + amount) as u32
    }
}

impl Default for Account {
    /// An account without experience.
    fn default() -> (account: Account)
        ensures
            account@ == account_or_default(None),
    {
        Account { lvl: 0, exp: 0, achievements: Vec::new() }
    }
}

impl Clone for Account {
    fn clone(&self) -> (account: Account)
        ensures
            account@ == self@,
    {
        let mut achievements: Vec<Achievements> = Vec::new();
        let mut i: usize = 0;
        while i < self.achievements.len()
            invariant
                i <= self.achievements.len(),
                achievements@ == self.achievements@.take(i as int),
            decreases self.achievements.len() - i,
        {
            achievements.push(self.achievements[i]);
            assert(self.achievements@.take(i + 1) == self.achievements@.take(i as int).push(
                self.achievements@[i as int],
            ));
            i += 1;
        }
        assert(self.achievements@.take(i as int) == self.achievements@);
        Account { lvl: self.lvl, exp: self.exp, achievements }
    }
}

impl Account {
    /// Adds `exp` to the experience and derives the level anew.
    pub fn add_exp(&mut self, exp: u32)
        ensures
            final(self)@ == old(self)@.credited(exp),
    {
        self.exp = self.exp.saturating_add(exp);
        self.lvl = level(self.exp);
    }

    /// The experience, the level it gives, and the experience still missing
    /// for the next level. All three are derived from the experience.
    pub fn stats(&self) -> (r: (u32, u32, u64))
        ensures
            r.0 == self.exp,
            r.1 == level_of(self.exp as nat),
            r.2 == exp_to_next_level_of(self.exp as nat),
    {
        (self.exp, level(self.exp), exp_to_next_level(self.exp))
    }
}

/// The values of the configuration.
#[derive(Clone, Copy, Debug, PartialEq, Eq, Structural)]
pub struct Values {
    pub exp: u32,
}

impl Default for Values {
    fn default() -> (values: Values)
        ensures
            values.exp == 0,
    {
        Values { exp: 0 }
    }
}

/// The configuration as it is held in memory.
pub struct Config {
    pub values: Values,
}

impl Config {
    /// Adds `exp` to the experience of the configuration.
    pub fn add_exp(&mut self, exp: u32)
        ensures
            final(self).values.exp == credited(old(self).values.exp, exp),
    {
        self.values.exp = self.values.exp.saturating_add(exp);
    }
}

} // verus!

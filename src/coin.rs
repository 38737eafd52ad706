use vstd::prelude::*;
use crate::denom::{compare_denoms, lemma_lt_irreflexive, lemma_lt_transitive, seq_lt};
use crate::error::{ParseCoinsError, StdError};

verus! {

/// An amount of one denomination.
#[derive(Debug, Clone, PartialEq, Eq)]
pub struct Coin {
    pub denom: String,
    pub amount: u128,
}

/// A record in `Coins`, borrowed.
pub struct CoinRef<'a> {
    pub denom: &'a String,
    pub amount: &'a u128,
}

/// Amounts by denomination: denominations are unique and kept in order, and
/// every amount is positive.
#[derive(Debug, Clone, PartialEq, Eq)]
pub struct Coins {
    coins: Vec<Coin>,
}

/// The amount that `m` holds of `d`, zero when absent.
pub open spec fn amount_in(m: Map<Seq<char>, u128>, d: Seq<char>) -> nat {
    if m.contains_key(d) {
        m[d] as nat
    } else {
        0
    }
}

/// `m` with the amount of `d` set to `a`: a zero amount drops the record.
pub open spec fn with_amount(m: Map<Seq<char>, u128>, d: Seq<char>, a: nat) -> Map<Seq<char>, u128> {
    if a == 0 {
        m.remove(d)
    } else {
        m.insert(d, a as u128)
    }
}

/// No denomination of `m` has a zero amount.
pub open spec fn all_positive(m: Map<Seq<char>, u128>) -> bool {
    forall|d: Seq<char>| #[trigger] m.contains_key(d) ==> m[d] > 0
}

/// `e` says that there is no `d`.
pub open spec fn is_denom_not_found(e: StdError, d: Seq<char>) -> bool {
    e matches StdError::DenomNotFound { denom } && denom@ == d
}

/// `e` says that an amount of `d` would pass `u128::MAX`.
pub open spec fn is_overflow(e: StdError, d: Seq<char>) -> bool {
    e matches StdError::Overflow { denom } && denom@ == d
}

/// `e` says that an amount of `d` would go below zero.
pub open spec fn is_underflow(e: StdError, d: Seq<char>) -> bool {
    e matches StdError::Underflow { denom } && denom@ == d
}

/// The amounts that setting each coin of `s` in turn, from empty, leaves.
pub open spec fn collected(s: Seq<Coin>) -> Map<Seq<char>, u128>
    decreases s.len(),
{
    if s.len() == 0 {
        Map::empty()
    } else {
        with_amount(collected(s.drop_last()), s.last().denom@, s.last().amount as nat)
    }
}

/// The first fault, in order, of a list of coins meant to be distinct and
/// positive: a zero amount, or a denomination seen before.
pub open spec fn coins_problem(s: Seq<Coin>) -> Option<ParseCoinsError>
    decreases s.len(),
{
    if s.len() == 0 {
        None
    } else {
        match coins_problem(s.drop_last()) {
            Some(e) => Some(e),
            None => if s.last().amount == 0 {
                Some(ParseCoinsError::ZeroAmount)
            } else if has_denom_at(s.drop_last(), s.last().denom@) {
                Some(ParseCoinsError::DuplicateDenom)
            } else {
                None
            },
        }
    }
}

pub open spec fn sorted_coins(s: Seq<Coin>) -> bool {
    forall|i: int, j: int| 0 <= i < j < s.len() ==> seq_lt(#[trigger] s[i].denom@, #[trigger] s[j].denom@)
}

pub open spec fn positive_coins(s: Seq<Coin>) -> bool {
    forall|i: int| 0 <= i < s.len() ==> #[trigger] s[i].amount > 0
}

pub open spec fn has_denom_at(s: Seq<Coin>, d: Seq<char>) -> bool {
    exists|i: int| 0 <= i < s.len() && #[trigger] s[i].denom@ == d
}

/// The map that a sorted sequence of coins stands for.
pub open spec fn map_of(s: Seq<Coin>) -> Map<Seq<char>, u128> {
    Map::new(
        |d: Seq<char>| has_denom_at(s, d),
        |d: Seq<char>| s[choose|i: int| 0 <= i < s.len() && #[trigger] s[i].denom@ == d].amount,
    )
}

proof fn lemma_map_of_index(s: Seq<Coin>, i: int)
    requires
        sorted_coins(s),
        0 <= i < s.len(),
    ensures
        map_of(s).contains_key(s[i].denom@),
        map_of(s)[s[i].denom@] == s[i].amount,
{
    let d = s[i].denom@;
    assert(has_denom_at(s, d));
    let j = choose|j: int| 0 <= j < s.len() && #[trigger] s[j].denom@ == d;
    if j < i {
        assert(seq_lt(s[j].denom@, s[i].denom@));
        lemma_lt_irreflexive(d);
    } else if i < j {
        assert(seq_lt(s[i].denom@, s[j].denom@));
        lemma_lt_irreflexive(d);
    }
}

proof fn lemma_map_of_positive(s: Seq<Coin>)
    requires
        sorted_coins(s),
        positive_coins(s),
    ensures
        all_positive(map_of(s)),
{
    assert forall|d: Seq<char>| #[trigger] map_of(s).contains_key(d) implies map_of(s)[d] > 0 by {
        let i = choose|i: int| 0 <= i < s.len() && #[trigger] s[i].denom@ == d;
        lemma_map_of_index(s, i);
    }
}

proof fn lemma_map_of_insert(s: Seq<Coin>, p: int, c: Coin)
    requires
        sorted_coins(s),
        0 <= p <= s.len(),
        forall|j: int| 0 <= j < p ==> seq_lt(#[trigger] s[j].denom@, c.denom@),
        forall|j: int| p <= j < s.len() ==> seq_lt(c.denom@, #[trigger] s[j].denom@),
    ensures
        sorted_coins(s.insert(p, c)),
        map_of(s.insert(p, c)) =~= map_of(s).insert(c.denom@, c.amount),
{
    let t = s.insert(p, c);
    assert forall|i: int, j: int| 0 <= i < j < t.len() implies seq_lt(#[trigger] t[i].denom@, #[trigger] t[j].denom@) by {
        if i < p && j > p {
            lemma_lt_transitive(t[i].denom@, c.denom@, t[j].denom@);
        }
    }
    assert(t[p].denom@ == c.denom@);
    assert forall|d: Seq<char>| #[trigger] map_of(t).contains_key(d) == map_of(s).insert(c.denom@, c.amount).contains_key(d) by {
        if d == c.denom@ {
            assert(t[p].denom@ == d);
        }
        if has_denom_at(s, d) {
            let i = choose|i: int| 0 <= i < s.len() && #[trigger] s[i].denom@ == d;
            if i < p {
                assert(t[i] == s[i]);
            } else {
                assert(t[i + 1] == s[i]);
            }
        }
        if has_denom_at(t, d) {
            let i = choose|i: int| 0 <= i < t.len() && #[trigger] t[i].denom@ == d;
            if i < p {
                assert(s[i] == t[i]);
            } else if i > p {
                assert(s[i - 1] == t[i]);
            }
        }
    }
    assert forall|d: Seq<char>| #[trigger] map_of(t).contains_key(d) implies map_of(t)[d] == map_of(s).insert(c.denom@, c.amount)[d] by {
        let i = choose|i: int| 0 <= i < t.len() && #[trigger] t[i].denom@ == d;
        lemma_map_of_index(t, i);
        if i < p {
            lemma_map_of_index(s, i);
            lemma_lt_irreflexive(d);
        } else if i > p {
            lemma_map_of_index(s, i - 1);
            lemma_lt_irreflexive(d);
        }
    }
}

proof fn lemma_map_of_remove(s: Seq<Coin>, p: int)
    requires
        sorted_coins(s),
        0 <= p < s.len(),
    ensures
        sorted_coins(s.remove(p)),
        map_of(s.remove(p)) =~= map_of(s).remove(s[p].denom@),
{
    let t = s.remove(p);
    let dp = s[p].denom@;
    assert forall|i: int, j: int| 0 <= i < j < t.len() implies seq_lt(#[trigger] t[i].denom@, #[trigger] t[j].denom@) by {
        if i >= p {
            assert(t[i] == s[i + 1]);
        }
        if j >= p {
            assert(t[j] == s[j + 1]);
        }
    }
    assert forall|d: Seq<char>| #[trigger] map_of(t).contains_key(d) == map_of(s).remove(dp).contains_key(d) by {
        if has_denom_at(s, d) && d != dp {
            let i = choose|i: int| 0 <= i < s.len() && #[trigger] s[i].denom@ == d;
            if i < p {
                assert(t[i] == s[i]);
            } else {
                assert(t[i - 1] == s[i]);
            }
        }
        if has_denom_at(t, d) {
            let i = choose|i: int| 0 <= i < t.len() && #[trigger] t[i].denom@ == d;
            if i < p {
                assert(s[i] == t[i]);
                assert(seq_lt(s[i].denom@, s[p].denom@));
                lemma_lt_irreflexive(d);
            } else {
                assert(s[i + 1] == t[i]);
                assert(seq_lt(s[p].denom@, s[i + 1].denom@));
                lemma_lt_irreflexive(d);
            }
        }
    }
    assert forall|d: Seq<char>| #[trigger] map_of(t).contains_key(d) implies map_of(t)[d] == map_of(s).remove(dp)[d] by {
        let i = choose|i: int| 0 <= i < t.len() && #[trigger] t[i].denom@ == d;
        lemma_map_of_index(t, i);
        if i < p {
            lemma_map_of_index(s, i);
        } else {
            lemma_map_of_index(s, i + 1);
        }
    }
}

proof fn lemma_map_of_update(s: Seq<Coin>, p: int, c: Coin)
    requires
        sorted_coins(s),
        0 <= p < s.len(),
        c.denom@ == s[p].denom@,
    ensures
        sorted_coins(s.update(p, c)),
        map_of(s.update(p, c)) =~= map_of(s).insert(c.denom@, c.amount),
{
    let t = s.update(p, c);
    assert forall|i: int, j: int| 0 <= i < j < t.len() implies seq_lt(#[trigger] t[i].denom@, #[trigger] t[j].denom@) by {
        assert(t[i].denom@ == s[i].denom@);
        assert(t[j].denom@ == s[j].denom@);
    }
    assert forall|d: Seq<char>| #[trigger] map_of(t).contains_key(d) == map_of(s).insert(c.denom@, c.amount).contains_key(d) by {
        if has_denom_at(s, d) {
            let i = choose|i: int| 0 <= i < s.len() && #[trigger] s[i].denom@ == d;
            assert(t[i].denom@ == d);
        }
        if has_denom_at(t, d) {
            let i = choose|i: int| 0 <= i < t.len() && #[trigger] t[i].denom@ == d;
            assert(s[i].denom@ == d);
        }
    }
    assert forall|d: Seq<char>| #[trigger] map_of(t).contains_key(d) implies map_of(t)[d] == map_of(s).insert(c.denom@, c.amount)[d] by {
        let i = choose|i: int| 0 <= i < t.len() && #[trigger] t[i].denom@ == d;
        lemma_map_of_index(t, i);
        if i != p {
            lemma_map_of_index(s, i);
        }
    }
}

impl Coins {
    /// The amounts, by denomination.
    pub closed spec fn view(&self) -> Map<Seq<char>, u128> {
        map_of(self.coins@)
    }

    /// Denominations unique and in order, amounts positive.
    pub closed spec fn wf(&self) -> bool {
        sorted_coins(self.coins@) && positive_coins(self.coins@)
    }

    /// The records in order of denomination.
    pub closed spec fn records(&self) -> Seq<Coin> {
        self.coins@
    }

    /// A well-formed `Coins` holds no zero amount.
    pub proof fn lemma_amounts_positive(&self)
        requires
            self.wf(),
        ensures
            all_positive(self.view()),
    {
        lemma_map_of_positive(self.coins@);
    }

    /// The records hold exactly the amounts of the view, in strictly increasing
    /// order of denomination.
    pub proof fn lemma_records(&self)
        requires
            self.wf(),
        ensures
            forall|i: int, j: int|
                0 <= i < j < self.records().len() ==> seq_lt(
                    #[trigger] self.records()[i].denom@,
                    #[trigger] self.records()[j].denom@,
                ),
            forall|i: int|
                0 <= i < self.records().len() ==> self.view().contains_key(
                    #[trigger] self.records()[i].denom@,
                ) && self.view()[self.records()[i].denom@] == self.records()[i].amount,
            forall|d: Seq<char>|
                #[trigger] self.view().contains_key(d) ==> exists|i: int|
                    0 <= i < self.records().len() && #[trigger] self.records()[i].denom@ == d,
    {
        assert forall|i: int| 0 <= i < self.records().len() implies self.view().contains_key(
            #[trigger] self.records()[i].denom@,
        ) && self.view()[self.records()[i].denom@] == self.records()[i].amount by {
            lemma_map_of_index(self.coins@, i);
        }
        assert forall|d: Seq<char>| #[trigger] self.view().contains_key(d) implies exists|i: int|
            0 <= i < self.records().len() && #[trigger] self.records()[i].denom@ == d by {
            let i = choose|i: int| 0 <= i < self.coins@.len() && #[trigger] self.coins@[i].denom@ == d;
            assert(self.records()[i].denom@ == d);
        }
    }

    pub fn empty() -> (r: Coins)
        ensures
            r.wf(),
            r@ == Map::<Seq<char>, u128>::empty(),
    {
        let r = Coins { coins: Vec::new() };
        assert(r@ =~= Map::<Seq<char>, u128>::empty());
        r
    }

    /// Finds where `denom` stands or would stand: the first record whose
    /// denomination does not come before it, and whether it is `denom`.
    fn locate(&self, denom: &str) -> (r: (usize, bool))
        requires
            self.wf(),
        ensures
            r.0 <= self.coins@.len(),
            forall|j: int| 0 <= j < r.0 ==> seq_lt(#[trigger] self.coins@[j].denom@, denom@),
            r.1 ==> r.0 < self.coins@.len() && self.coins@[r.0 as int].denom@ == denom@,
            !r.1 ==> forall|j: int|
                r.0 <= j < self.coins@.len() ==> seq_lt(denom@, #[trigger] self.coins@[j].denom@),
            r.1 == self@.contains_key(denom@),
    {
        let n = self.coins.len();
        let mut i: usize = 0;
        while i < n
            invariant
                self.wf(),
                n == self.coins@.len(),
                i <= n,
                forall|j: int| 0 <= j < i ==> seq_lt(#[trigger] self.coins@[j].denom@, denom@),
            decreases n - i,
        {
            let c = compare_denoms(self.coins[i].denom.as_str(), denom);
            if c == 0 {
                proof {
                    lemma_map_of_index(self.coins@, i as int);
                }
                return (i, true);
            }
            if c > 0 {
                proof {
                    self.lemma_absent_from(i as int, denom@);
                }
                return (i, false);
            }
            i = i + 1;
        }
        proof {
            self.lemma_absent_from(n as int, denom@);
        }
        (n, false)
    }

    proof fn lemma_absent_from(&self, p: int, d: Seq<char>)
        requires
            self.wf(),
            0 <= p <= self.coins@.len(),
            forall|j: int| 0 <= j < p ==> seq_lt(#[trigger] self.coins@[j].denom@, d),
            p < self.coins@.len() ==> seq_lt(d, self.coins@[p].denom@),
        ensures
            forall|j: int| p <= j < self.coins@.len() ==> seq_lt(d, #[trigger] self.coins@[j].denom@),
            !self@.contains_key(d),
    {
        let s = self.coins@;
        assert forall|j: int| p <= j < s.len() implies seq_lt(d, #[trigger] s[j].denom@) by {
            if p < j {
                lemma_lt_transitive(d, s[p].denom@, s[j].denom@);
            }
        }
        if has_denom_at(s, d) {
            let i = choose|i: int| 0 <= i < s.len() && #[trigger] s[i].denom@ == d;
            lemma_lt_irreflexive(d);
        }
    }

    /// Sets the amount of `denom`; a zero amount drops the record.
    fn set_amount(&mut self, denom: &str, amount: u128)
        requires
            old(self).wf(),
        ensures
            final(self).wf(),
            final(self)@ == with_amount(old(self)@, denom@, amount as nat),
    {
        let (p, found) = self.locate(denom);
        let ghost s = self.coins@;
        if found {
            if amount == 0 {
                self.coins.remove(p);
                proof {
                    lemma_map_of_remove(s, p as int);
                }
            } else {
                let c = Coin { denom: denom.to_owned(), amount };
                self.coins.set(p, c);
                proof {
                    lemma_map_of_update(s, p as int, c);
                }
            }
        } else if amount > 0 {
            let c = Coin { denom: denom.to_owned(), amount };
            self.coins.insert(p, c);
            proof {
                lemma_map_of_insert(s, p as int, c);
            }
        } else {
            assert(self@ =~= old(self)@.remove(denom@));
        }
    }

    pub fn is_empty(&self) -> (r: bool)
        requires
            self.wf(),
        ensures
            r == (self@ == Map::<Seq<char>, u128>::empty()),
    {
        if self.coins.len() == 0 {
            assert(self@ =~= Map::<Seq<char>, u128>::empty());
            true
        } else {
            proof {
                lemma_map_of_index(self.coins@, 0);
                assert(!Map::<Seq<char>, u128>::empty().contains_key(self.coins@[0].denom@));
            }
            false
        }
    }

    /// Whether there is a non-zero amount of `denom`.
    pub fn has(&self, denom: &str) -> (r: bool)
        requires
            self.wf(),
        ensures
            r == self@.contains_key(denom@),
    {
        self.locate(denom).1
    }

    /// The amount of `denom`, zero when there is none.
    pub fn amount_of(&self, denom: &str) -> (r: u128)
        requires
            self.wf(),
        ensures
            r == amount_in(self@, denom@),
    {
        let (p, found) = self.locate(denom);
        if found {
            proof {
                lemma_map_of_index(self.coins@, p as int);
            }
            self.coins[p].amount
        } else {
            0
        }
    }

    /// Adds `by` to the amount of `denom`, creating the record if needed. Fails,
    /// changing nothing, where the sum would pass `u128::MAX`.
    pub fn increase_amount(&mut self, denom: &str, by: u128) -> (r: Result<(), StdError>)
        requires
            old(self).wf(),
        ensures
            final(self).wf(),
            r.is_ok() == (amount_in(old(self)@, denom@) + by <= u128::MAX),
            r.is_ok() ==> final(self)@ == with_amount(
                old(self)@,
                denom@,
                (amount_in(old(self)@, denom@) + by) as nat,
            ),
            r matches Err(e) ==> final(self)@ == old(self)@ && is_overflow(e, denom@),
    {
        let current = self.amount_of(denom);
        if current > u128::MAX - by {
            return Err(StdError::Overflow { denom: denom.to_owned() });
        }
        self.set_amount(denom, current + by);
        Ok(())
    }

    /// Takes `by` from the amount of `denom`, dropping the record when it comes
    /// to zero. Fails, changing nothing, where there is no such denomination or
    /// not that much of it.
    pub fn decrease_amount(&mut self, denom: &str, by: u128) -> (r: Result<(), StdError>)
        requires
            old(self).wf(),
        ensures
            final(self).wf(),
            r.is_ok() == (old(self)@.contains_key(denom@) && by <= old(self)@[denom@]),
            r.is_ok() ==> final(self)@ == with_amount(
                old(self)@,
                denom@,
                (old(self)@[denom@] - by) as nat,
            ),
            r.is_err() ==> final(self)@ == old(self)@,
            r matches Err(e) ==> if old(self)@.contains_key(denom@) {
                is_underflow(e, denom@)
            } else {
                is_denom_not_found(e, denom@)
            },
    {
        let (p, found) = self.locate(denom);
        if !found {
            return Err(StdError::DenomNotFound { denom: denom.to_owned() });
        }
        proof {
            lemma_map_of_index(self.coins@, p as int);
        }
        let current = self.coins[p].amount;
        if current < by {
            return Err(StdError::Underflow { denom: denom.to_owned() });
        }
        self.set_amount(denom, current - by);
        Ok(())
    }
}

impl Coins {
    /// Collects coins as they come, a later record of a denomination replacing
    /// an earlier one, without rejecting duplicates; zero amounts are dropped.
    pub fn from_vec_unchecked(vec: Vec<Coin>) -> (r: Coins)
        ensures
            r.wf(),
            r@ == collected(vec@),
    {
        let mut r = Coins::empty();
        let n = vec.len();
        let mut i: usize = 0;
        while i < n
            invariant
                n == vec@.len(),
                i <= n,
                r.wf(),
                r@ == collected(vec@.subrange(0, i as int)),
            decreases n - i,
        {
            r.set_amount(vec[i].denom.as_str(), vec[i].amount);
            proof {
                assert(vec@.subrange(0, i + 1).drop_last() =~= vec@.subrange(0, i as int));
            }
            i = i + 1;
        }
        assert(vec@.subrange(0, n as int) =~= vec@);
        r
    }

    /// Builds `Coins` from a list with no zero amount and no denomination
    /// twice; otherwise fails on the first record, in order, that breaks this.
    pub fn try_from(vec: Vec<Coin>) -> (r: Result<Coins, StdError>)
        ensures
            r.is_ok() == (coins_problem(vec@) is None),
            r matches Ok(c) ==> c.wf() && c@ == collected(vec@),
            r matches Err(e) ==> coins_problem(vec@) matches Some(p) && e == StdError::ParseCoins(
                p,
            ),
    {
        let mut r = Coins::empty();
        let n = vec.len();
        let mut i: usize = 0;
        while i < n
            invariant
                n == vec@.len(),
                i <= n,
                r.wf(),
                r@ == collected(vec@.subrange(0, i as int)),
                coins_problem(vec@.subrange(0, i as int)) is None,
                forall|d: Seq<char>| #[trigger]
                    r@.contains_key(d) == has_denom_at(vec@.subrange(0, i as int), d),
            decreases n - i,
        {
            let ghost pre = vec@.subrange(0, i as int);
            let ghost next = vec@.subrange(0, i + 1);
            proof {
                assert(next.drop_last() =~= pre);
            }
            if vec[i].amount == 0 {
                proof {
                    self::lemma_problem_extends(vec@, i as int + 1);
                }
                return Err(StdError::ParseCoins(ParseCoinsError::ZeroAmount));
            }
            if r.has(vec[i].denom.as_str()) {
                proof {
                    self::lemma_problem_extends(vec@, i as int + 1);
                }
                return Err(StdError::ParseCoins(ParseCoinsError::DuplicateDenom));
            }
            r.set_amount(vec[i].denom.as_str(), vec[i].amount);
            proof {
                assert forall|d: Seq<char>| #[trigger] r@.contains_key(d) == has_denom_at(next, d) by {
                    if has_denom_at(pre, d) {
                        let j = choose|j: int| 0 <= j < pre.len() && #[trigger] pre[j].denom@ == d;
                        assert(next[j].denom@ == d);
                    }
                    if d == vec@[i as int].denom@ {
                        assert(next[i as int].denom@ == d);
                    }
                    if has_denom_at(next, d) && d != vec@[i as int].denom@ {
                        let j = choose|j: int| 0 <= j < next.len() && #[trigger] next[j].denom@ == d;
                        assert(pre[j].denom@ == d);
                    }
                }
            }
            i = i + 1;
        }
        assert(vec@.subrange(0, n as int) =~= vec@);
        Ok(r)
    }
}

/// A fault in a prefix is the fault of the whole list.
proof fn lemma_problem_extends(s: Seq<Coin>, k: int)
    requires
        0 <= k <= s.len(),
        coins_problem(s.subrange(0, k)) is Some,
    ensures
        coins_problem(s) == coins_problem(s.subrange(0, k)),
    decreases s.len() - k,
{
    if k < s.len() {
        assert(s.subrange(0, k + 1).drop_last() =~= s.subrange(0, k));
        lemma_problem_extends(s, k + 1);
    } else {
        assert(s.subrange(0, k) =~= s);
    }
}

impl Coins {
    /// A copy with the same records.
    pub fn duplicate(&self) -> (r: Coins)
        requires
            self.wf(),
        ensures
            r.wf(),
            r@ == self@,
    {
        let mut v: Vec<Coin> = Vec::new();
        let mut i: usize = 0;
        while i < self.coins.len()
            invariant
                i <= self.coins@.len(),
                v@ =~= self.coins@.subrange(0, i as int),
            decreases self.coins@.len() - i,
        {
            v.push(Coin { denom: self.coins[i].denom.clone(), amount: self.coins[i].amount });
            i = i + 1;
        }
        assert(v@ =~= self.coins@);
        Coins { coins: v }
    }
}

impl Coins {
    /// The `Coins` of one coin: empty where its amount is zero.
    pub fn from_coin(coin: Coin) -> (r: Coins)
        ensures
            r.wf(),
            r@ == with_amount(Map::empty(), coin.denom@, coin.amount as nat),
    {
        let mut r = Coins::empty();
        r.set_amount(coin.denom.as_str(), coin.amount);
        r
    }

    /// The records, in order of denomination.
    pub fn into_vec(self) -> (r: Vec<Coin>)
        ensures
            r@ == self.records(),
    {
        self.coins
    }

    /// The records, borrowed, in order of denomination.
    pub fn iter(&self) -> (r: CoinsIter<'_>)
        ensures
            r.rest() == self.records(),
    {
        CoinsIter { coins: self, pos: 0 }
    }

    /// The records, in order of denomination, one at a time.
    pub fn into_iter(self) -> (r: CoinsIntoIter)
        ensures
            r.rest() == self.records(),
    {
        let mut rev: Vec<Coin> = Vec::new();
        let mut v = self.coins;
        let ghost all = v@;
        while v.len() > 0
            invariant
                all == v@ + rev@.reverse(),
            decreases v@.len(),
        {
            let c = v.pop().unwrap();
            proof {
                assert(rev@.push(c).reverse() =~= seq![c] + rev@.reverse());
            }
            rev.push(c);
            proof {
                assert(all =~= v@ + rev@.reverse());
            }
        }
        assert(all =~= rev@.reverse());
        CoinsIntoIter { rev }
    }
}

/// The records of a `Coins`, borrowed, in order.
pub struct CoinsIter<'a> {
    coins: &'a Coins,
    pos: usize,
}

impl<'a> CoinsIter<'a> {
    /// The records not yet handed out.
    pub closed spec fn rest(&self) -> Seq<Coin> {
        self.coins.coins@.subrange(self.pos as int, self.coins.coins@.len() as int)
    }

    pub closed spec fn wf(&self) -> bool {
        self.pos <= self.coins.coins@.len()
    }

    /// The next record, if any is left.
    pub fn next(&mut self) -> (r: Option<CoinRef<'a>>)
        requires
            old(self).wf(),
        ensures
            final(self).wf(),
            old(self).rest().len() == 0 ==> r is None && final(self).rest() == old(self).rest(),
            old(self).rest().len() > 0 ==> r is Some && *r->Some_0.denom == old(self).rest()[0].denom
                && *r->Some_0.amount == old(self).rest()[0].amount && final(self).rest()
                == old(self).rest().drop_first(),
    {
        if self.pos < self.coins.coins.len() {
            let c = &self.coins.coins[self.pos];
            self.pos = self.pos + 1;
            proof {
                assert(self.rest() =~= old(self).rest().drop_first());
            }
            Some(CoinRef { denom: &c.denom, amount: &c.amount })
        } else {
            None
        }
    }
}

/// The records of a `Coins`, owned, in order.
pub struct CoinsIntoIter {
    rev: Vec<Coin>,
}

impl CoinsIntoIter {
    /// The records not yet handed out.
    pub closed spec fn rest(&self) -> Seq<Coin> {
        self.rev@.reverse()
    }

    /// The next record, if any is left.
    pub fn next(&mut self) -> (r: Option<Coin>)
        ensures
            old(self).rest().len() == 0 ==> r is None && final(self).rest() == old(self).rest(),
            old(self).rest().len() > 0 ==> r == Some(old(self).rest()[0]) && final(self).rest()
                == old(self).rest().drop_first(),
    {
        let r = self.rev.pop();
        proof {
            if old(self).rev@.len() > 0 {
                assert(old(self).rev@ =~= self.rev@.push(r->Some_0));
                assert(old(self).rest() =~= seq![r->Some_0] + self.rest());
                assert(self.rest() =~= old(self).rest().drop_first());
            }
        }
        r
    }
}

} // verus!

use vstd::prelude::*;
use crate::coin::{Coin, Coins};
use crate::error::{ParseCoinsError, StdError};

verus! {

/// The pieces of `s` between the separators `sep`; there is always at least
/// one.
pub open spec fn split_on(s: Seq<char>, sep: char) -> Seq<Seq<char>>
    decreases s.len(),
{
    if s.len() == 0 {
        seq![Seq::<char>::empty()]
    } else {
        let rest = split_on(s.drop_last(), sep);
        if s.last() == sep {
            rest.push(Seq::<char>::empty())
        } else {
            rest.update(rest.len() - 1, rest.last().push(s.last()))
        }
    }
}

proof fn lemma_split_nonempty(s: Seq<char>, sep: char)
    ensures
        split_on(s, sep).len() >= 1,
    decreases s.len(),
{
    if s.len() > 0 {
        lemma_split_nonempty(s.drop_last(), sep);
    }
}

pub open spec fn is_digit(c: char) -> bool {
    '0' <= c && c <= '9'
}

pub open spec fn digit_value(c: char) -> nat {
    (c as u32 - '0' as u32) as nat
}

/// The number that a string of decimal digits writes.
pub open spec fn decimal_value(d: Seq<char>) -> nat
    decreases d.len(),
{
    if d.len() == 0 {
        0
    } else {
        decimal_value(d.drop_last()) * 10 + digit_value(d.last())
    }
}

/// An amount as `u128`'s parser reads it: an optional `+`, then at least one
/// decimal digit, the value fitting in `u128`.
pub open spec fn parse_amount(t: Seq<char>) -> Option<u128> {
    let body = amount_digits(t);
    if body.len() > 0 && all_digits(body) && decimal_value(body) <= u128::MAX {
        Some(decimal_value(body) as u128)
    } else {
        None
    }
}

/// What follows an optional leading `+`.
pub open spec fn amount_digits(t: Seq<char>) -> Seq<char> {
    if t.len() > 0 && t[0] == '+' {
        t.drop_first()
    } else {
        t
    }
}

pub open spec fn all_digits(d: Seq<char>) -> bool {
    forall|i: int| 0 <= i < d.len() ==> is_digit(#[trigger] d[i])
}

/// `k` is where the first `:` of `seg` stands.
pub open spec fn first_colon_at(seg: Seq<char>, k: int) -> bool {
    &&& 0 <= k < seg.len()
    &&& seg[k] == ':'
    &&& forall|j: int| 0 <= j < k ==> seg[j] != ':'
}

/// One record, `denom:amount`, split at its first `:`.
pub open spec fn parse_record(seg: Seq<char>) -> Result<(Seq<char>, u128), ParseCoinsError> {
    if exists|k: int| first_colon_at(seg, k) {
        let k = choose|k: int| first_colon_at(seg, k);
        match parse_amount(seg.subrange(k + 1, seg.len() as int)) {
            Some(a) => Ok((seg.subrange(0, k), a)),
            None => Err(ParseCoinsError::InvalidAmount),
        }
    } else {
        Err(ParseCoinsError::MissingColon)
    }
}

/// The records of a list, read in order; the first record that is malformed,
/// zero, or of a denomination seen before is the error.
pub open spec fn parse_records(pieces: Seq<Seq<char>>) -> Result<Seq<(Seq<char>, u128)>, ParseCoinsError>
    decreases pieces.len(),
{
    if pieces.len() == 0 {
        Ok(Seq::empty())
    } else {
        match parse_records(pieces.drop_last()) {
            Err(e) => Err(e),
            Ok(prev) => match parse_record(pieces.last()) {
                Err(e) => Err(e),
                Ok(rec) => if rec.1 == 0 {
                    Err(ParseCoinsError::ZeroAmount)
                } else if exists|j: int| 0 <= j < prev.len() && #[trigger] prev[j].0 == rec.0 {
                    Err(ParseCoinsError::DuplicateDenom)
                } else {
                    Ok(prev.push(rec))
                },
            },
        }
    }
}

/// The amounts that distinct records stand for.
pub open spec fn records_map(recs: Seq<(Seq<char>, u128)>) -> Map<Seq<char>, u128>
    decreases recs.len(),
{
    if recs.len() == 0 {
        Map::empty()
    } else {
        records_map(recs.drop_last()).insert(recs.last().0, recs.last().1)
    }
}

/// What `denom1:amount1,...,denomN:amountN` reads as.
pub open spec fn parse_coins(s: Seq<char>) -> Result<Map<Seq<char>, u128>, ParseCoinsError> {
    match parse_records(split_on(s, ',')) {
        Ok(recs) => Ok(records_map(recs)),
        Err(e) => Err(e),
    }
}

proof fn lemma_value_grows(d: Seq<char>, k: int)
    requires
        0 <= k <= d.len(),
        all_digits(d),
    ensures
        decimal_value(d) >= decimal_value(d.subrange(0, k)),
    decreases d.len() - k,
{
    if k < d.len() {
        lemma_value_grows(d, k + 1);
        assert(d.subrange(0, k + 1).drop_last() =~= d.subrange(0, k));
    } else {
        assert(d.subrange(0, k) =~= d);
    }
}

/// Reads an amount, as `u128`'s parser does.
fn parse_u128(t: &str) -> (r: Option<u128>)
    ensures
        r == parse_amount(t@),
{
    let n = t.unicode_len();
    let mut i: usize = 0;
    if n > 0 && t.get_char(0) == '+' {
        i = 1;
    }
    let start = i;
    let ghost body = amount_digits(t@);
    proof {
        assert(body =~= t@.subrange(start as int, n as int));
    }
    if start == n {
        return None;
    }
    let mut acc: u128 = 0;
    while i < n
        invariant
            start <= i <= n,
            n == t@.len(),
            body == t@.subrange(start as int, n as int),
            body == amount_digits(t@),
            acc == decimal_value(body.subrange(0, i - start)),
            forall|j: int| 0 <= j < i - start ==> is_digit(#[trigger] body[j]),
        decreases n - i,
    {
        let c = t.get_char(i);
        if !('0' <= c && c <= '9') {
            proof {
                assert(body[i - start] == c);
                assert(!is_digit(body[i - start]));
                assert(!all_digits(body));
            }
            return None;
        }
        let d = (c as u32 - '0' as u32) as u128;
        proof {
            assert(body.subrange(0, i - start + 1).drop_last() =~= body.subrange(0, i - start));
            assert(body[i - start] == c);
        }
        proof {
            assert(decimal_value(body.subrange(0, i - start + 1)) == acc * 10 + d);
        }
        if acc > (u128::MAX - d) / 10 {
            proof {
                assert(decimal_value(body.subrange(0, i - start + 1)) > u128::MAX) by (nonlinear_arith)
                    requires
                        acc > (u128::MAX - d) / 10,
                        decimal_value(body.subrange(0, i - start + 1)) == acc * 10 + d,
                        d <= 9,
                ;
                if all_digits(body) {
                    lemma_value_grows(body, i - start + 1);
                    assert(decimal_value(body) > u128::MAX);
                }

            }
            return None;
        }
        proof {
            assert(acc * 10 + d <= u128::MAX) by (nonlinear_arith)
                requires
                    acc <= (u128::MAX - d) / 10,
                    d <= 9,
            ;
        }
        acc = acc * 10 + d;
        i = i + 1;
    }
    proof {
        assert(body.subrange(0, n - start) =~= body);
    }
    Some(acc)
}

/// Where the first `:` of `seg` stands; its length where there is none.
fn find_colon(seg: &str) -> (k: usize)
    ensures
        k <= seg@.len(),
        forall|j: int| 0 <= j < k ==> seg@[j] != ':',
        k < seg@.len() ==> seg@[k as int] == ':',
{
    let n = seg.unicode_len();
    let mut k: usize = 0;
    while k < n
        invariant
            k <= n,
            n == seg@.len(),
            forall|j: int| 0 <= j < k ==> seg@[j] != ':',
        decreases n - k,
    {
        if seg.get_char(k) == ':' {
            return k;
        }
        k = k + 1;
    }
    k
}

/// Reads one `denom:amount` record.
fn parse_coin(seg: &str) -> (r: Result<(String, u128), ParseCoinsError>)
    ensures
        match parse_record(seg@) {
            Ok(rec) => r matches Ok(p) && p.0@ == rec.0 && p.1 == rec.1,
            Err(e) => r == Err::<(String, u128), ParseCoinsError>(e),
        },
{
    let n = seg.unicode_len();
    let k = find_colon(seg);
    if k == n {
        return Err(ParseCoinsError::MissingColon);
    }
    proof {
        assert(first_colon_at(seg@, k as int));
        let c = choose|c: int| first_colon_at(seg@, c);
        if c < k {
        } else if k < c {
            assert(seg@[k as int] == ':');
        }
    }
    let amount = parse_u128(seg.substring_char(k + 1, n));
    match amount {
        Some(a) => Ok((seg.substring_char(0, k).to_owned(), a)),
        None => Err(ParseCoinsError::InvalidAmount),
    }
}

impl Coins {
    /// Reads `denom1:amount1,...,denomN:amountN`: the denominations in any
    /// order, none twice, no amount zero.
    pub fn from_str(s: &str) -> (r: Result<Coins, StdError>)
        ensures
            match parse_coins(s@) {
                Ok(m) => r matches Ok(c) && c.wf() && c@ == m,
                Err(e) => r matches Err(x) && x == StdError::ParseCoins(e),
            },
    {
        let n = s.unicode_len();
        let mut coins = Coins::empty();
        let mut start: usize = 0;
        let mut i: usize = 0;
        let ghost recs: Seq<(Seq<char>, u128)> = Seq::empty();
        loop
            invariant
                start <= i,
                i <= n,
                n == s@.len(),
                coins.wf(),
                split_on(s@.subrange(0, i as int), ',').len() >= 1,
                split_on(s@.subrange(0, i as int), ',').last() == s@.subrange(start as int, i as int),
                parse_records(split_on(s@.subrange(0, i as int), ',').drop_last()) == Ok::<Seq<(Seq<char>, u128)>, ParseCoinsError>(recs),
                coins@ == records_map(recs),
                forall|d: Seq<char>| #[trigger] coins@.contains_key(d) == exists|j: int| 0 <= j < recs.len() && #[trigger] recs[j].0 == d,
            decreases n - i,
        {
            let ghost pieces = split_on(s@.subrange(0, i as int), ',');
            if i < n && s.get_char(i) != ',' {
                proof {
                    let next = s@.subrange(0, i + 1);
                    assert(next.drop_last() =~= s@.subrange(0, i as int));
                    assert(split_on(next, ',').drop_last() =~= pieces.drop_last());
                    assert(split_on(next, ',').last() =~= s@.subrange(start as int, i + 1));
                }
                i = i + 1;
            } else {
                let piece = s.substring_char(start, i);
                proof {
                    if i == n {
                        assert(s@.subrange(0, i as int) =~= s@);
                    }
                    assert(pieces =~= pieces.drop_last().push(pieces.last()));
                }
                let (denom, amount) = match parse_coin(piece) {
                    Ok(p) => p,
                    Err(e) => {
                        proof { lemma_records_error_extends(s@, i as int); }
                        return Err(StdError::ParseCoins(e));
                    },
                };
                if amount == 0 {
                    proof { lemma_records_error_extends(s@, i as int); }
                    return Err(StdError::ParseCoins(ParseCoinsError::ZeroAmount));
                }
                if coins.has(denom.as_str()) {
                    proof { lemma_records_error_extends(s@, i as int); }
                    return Err(StdError::ParseCoins(ParseCoinsError::DuplicateDenom));
                }
                let ghost rec = (denom@, amount);
                let ghost before = coins@;
                let r = coins.increase_amount(denom.as_str(), amount);
                proof {
                    let nrecs = recs.push(rec);
                    assert(nrecs.drop_last() =~= recs);
                    assert forall|d: Seq<char>| #[trigger] coins@.contains_key(d) == exists|j: int| 0 <= j < nrecs.len() && #[trigger] nrecs[j].0 == d by {
                        if exists|j: int| 0 <= j < recs.len() && #[trigger] recs[j].0 == d {
                            let j = choose|j: int| 0 <= j < recs.len() && #[trigger] recs[j].0 == d;
                            assert(nrecs[j].0 == d);
                        }
                        if d == rec.0 {
                            assert(nrecs[recs.len() as int].0 == d);
                        }
                        if exists|j: int| 0 <= j < nrecs.len() && #[trigger] nrecs[j].0 == d {
                            let j = choose|j: int| 0 <= j < nrecs.len() && #[trigger] nrecs[j].0 == d;
                            if j < recs.len() {
                                assert(recs[j].0 == d);
                            }
                        }
                    }
                    recs = nrecs;
                    if i == n {
                        assert(parse_records(split_on(s@, ',')) == Ok::<Seq<(Seq<char>, u128)>, ParseCoinsError>(recs));
                    } else {
                        let next = s@.subrange(0, i + 1);
                        assert(next.drop_last() =~= s@.subrange(0, i as int));
                        assert(split_on(next, ',').drop_last() =~= pieces);
                        assert(split_on(next, ',').last() =~= s@.subrange(i + 1, i + 1));
                        lemma_split_nonempty(s@.subrange(0, i as int), ',');
                    }
                }
                if i == n {
                    return Ok(coins);
                }
                start = i + 1;
                i = i + 1;
            }
        }
    }
}

/// The pieces of a prefix, all but its last, begin the pieces of a longer
/// prefix.
proof fn lemma_split_prefix(s: Seq<char>, a: int, b: int)
    requires
        0 <= a <= b <= s.len(),
    ensures
        split_on(s.subrange(0, b), ',').len() >= split_on(s.subrange(0, a), ',').len(),
        split_on(s.subrange(0, b), ',').subrange(0, split_on(s.subrange(0, a), ',').len() - 1)
            == split_on(s.subrange(0, a), ',').subrange(
            0,
            split_on(s.subrange(0, a), ',').len() - 1,
        ),
    decreases b - a,
{
    lemma_split_nonempty(s.subrange(0, a), ',');
    if b > a {
        lemma_split_prefix(s, a, b - 1);
        lemma_split_nonempty(s.subrange(0, b - 1), ',');
        assert(s.subrange(0, b).drop_last() =~= s.subrange(0, b - 1));
        let l = split_on(s.subrange(0, a), ',').len() - 1;
        let prev = split_on(s.subrange(0, b - 1), ',');
        let cur = split_on(s.subrange(0, b), ',');
        assert(cur.subrange(0, l) =~= prev.subrange(0, l));
    }
}

/// A fault among the first `m` pieces is the fault of them all.
proof fn lemma_records_prefix_err(pieces: Seq<Seq<char>>, m: int)
    requires
        0 <= m <= pieces.len(),
        parse_records(pieces.subrange(0, m)) is Err,
    ensures
        parse_records(pieces) == parse_records(pieces.subrange(0, m)),
    decreases pieces.len() - m,
{
    if m < pieces.len() {
        assert(pieces.subrange(0, m + 1).drop_last() =~= pieces.subrange(0, m));
        lemma_records_prefix_err(pieces, m + 1);
    } else {
        assert(pieces.subrange(0, m) =~= pieces);
    }
}

/// Where the records of the pieces up to `i` fail, the whole list fails the
/// same way.
proof fn lemma_records_error_extends(s: Seq<char>, i: int)
    requires
        0 <= i <= s.len(),
        i == s.len() || s[i] == ',',
        parse_records(split_on(s.subrange(0, i), ',')) is Err,
    ensures
        parse_records(split_on(s, ',')) == parse_records(split_on(s.subrange(0, i), ',')),
{
    if i == s.len() {
        assert(s.subrange(0, i) =~= s);
    } else {
        let p = split_on(s.subrange(0, i), ',');
        assert(s.subrange(0, i + 1).drop_last() =~= s.subrange(0, i));
        let p1 = split_on(s.subrange(0, i + 1), ',');
        assert(p1 == p.push(Seq::<char>::empty()));
        lemma_split_prefix(s, i + 1, s.len() as int);
        assert(s.subrange(0, s.len() as int) =~= s);
        assert(p1.subrange(0, p1.len() - 1) =~= p);
        lemma_records_prefix_err(split_on(s, ','), p.len() as int);
    }
}

} // verus!

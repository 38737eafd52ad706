use vstd::prelude::*;

verus! {

/// Lexicographic order on character sequences, by code point; this is the
/// order in which coin denominations are kept.
pub open spec fn seq_lt(a: Seq<char>, b: Seq<char>) -> bool {
    exists|k: int| #[trigger] prefix_split(a, b, k)
}

/// `a` and `b` agree on their first `k` characters and `a` is smaller at `k`
/// (or ends there while `b` goes on).
pub open spec fn prefix_split(a: Seq<char>, b: Seq<char>, k: int) -> bool {
    &&& 0 <= k <= a.len()
    &&& k <= b.len()
    &&& a.subrange(0, k) =~= b.subrange(0, k)
    &&& ((k == a.len() && k < b.len()) || (k < a.len() && k < b.len() && a[k] < b[k]))
}

pub proof fn lemma_lt_irreflexive(a: Seq<char>)
    ensures
        !seq_lt(a, a),
{
}

pub proof fn lemma_lt_asymmetric(a: Seq<char>, b: Seq<char>)
    ensures
        !(seq_lt(a, b) && seq_lt(b, a)),
{
    if seq_lt(a, b) && seq_lt(b, a) {
        let k1 = choose|k: int| #[trigger] prefix_split(a, b, k);
        let k2 = choose|k: int| #[trigger] prefix_split(b, a, k);
        if k1 < k2 {
            assert(a.subrange(0, k2)[k1] == b.subrange(0, k2)[k1]);
        } else if k2 < k1 {
            assert(a.subrange(0, k1)[k2] == b.subrange(0, k1)[k2]);
        }
    }
}

pub proof fn lemma_lt_transitive(a: Seq<char>, b: Seq<char>, c: Seq<char>)
    requires
        seq_lt(a, b),
        seq_lt(b, c),
    ensures
        seq_lt(a, c),
{
    let k1 = choose|k: int| #[trigger] prefix_split(a, b, k);
    let k2 = choose|k: int| #[trigger] prefix_split(b, c, k);
    let k = if k1 < k2 {
        k1
    } else {
        k2
    };
    assert forall|i: int| 0 <= i < k implies a[i] == c[i] by {
        assert(a.subrange(0, k1)[i] == b.subrange(0, k1)[i]);
        assert(b.subrange(0, k2)[i] == c.subrange(0, k2)[i]);
    }
    if k1 < k2 {
        assert(b.subrange(0, k2)[k1] == c.subrange(0, k2)[k1]);
    } else if k2 < k1 {
        assert(a.subrange(0, k1)[k2] == b.subrange(0, k1)[k2]);
    }
    assert(prefix_split(a, c, k));
}

/// Compares two denominations: negative when `a` comes first, zero when they
/// are the same, positive when `b` comes first.
pub fn compare_denoms(a: &str, b: &str) -> (r: i8)
    ensures
        (r < 0) == seq_lt(a@, b@),
        (r == 0) == (a@ == b@),
        (r > 0) == seq_lt(b@, a@),
{
    let la = a.unicode_len();
    let lb = b.unicode_len();
    let n = if la < lb {
        la
    } else {
        lb
    };
    let mut i: usize = 0;
    while i < n
        invariant
            n <= la,
            n <= lb,
            la == a@.len(),
            lb == b@.len(),
            i <= n,
            a@.subrange(0, i as int) =~= b@.subrange(0, i as int),
        decreases n - i,
    {
        let ca = a.get_char(i);
        let cb = b.get_char(i);
        if ca < cb {
            proof {
                assert(prefix_split(a@, b@, i as int));
                lemma_lt_asymmetric(a@, b@);
            }
            return -1;
        }
        if cb < ca {
            proof {
                assert(prefix_split(b@, a@, i as int));
                lemma_lt_asymmetric(a@, b@);
            }
            return 1;
        }
        proof {
            assert(a@.subrange(0, i + 1) =~= a@.subrange(0, i as int).push(ca));
            assert(b@.subrange(0, i + 1) =~= b@.subrange(0, i as int).push(cb));
        }
        i = i + 1;
    }
    if la < lb {
        proof {
            assert(prefix_split(a@, b@, i as int));
            lemma_lt_asymmetric(a@, b@);
        }
        -1
    } else if lb < la {
        proof {
            assert(prefix_split(b@, a@, i as int));
            lemma_lt_asymmetric(a@, b@);
        }
        1
    } else {
        proof {
            assert(a@ =~= a@.subrange(0, i as int));
            assert(b@ =~= b@.subrange(0, i as int));
            lemma_lt_irreflexive(a@);
        }
        0
    }
}

} // verus!

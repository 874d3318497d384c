//! Lexicographic order on byte strings, the order in which timestamps sort.

use vstd::prelude::*;

verus! {

/// `a` and `b` hold the same bytes at every index below `k`.
pub open spec fn agree_below(a: Seq<u8>, b: Seq<u8>, k: int) -> bool {
    &&& 0 <= k <= a.len()
    &&& k <= b.len()
    &&& forall|i: int| 0 <= i < k ==> a[i] == b[i]
}

/// Index `k` is where `a` falls below `b`: the two agree before it, and
/// there `a` either ends while `b` goes on or holds the smaller byte.
pub open spec fn falls_below_at(a: Seq<u8>, b: Seq<u8>, k: int) -> bool {
    &&& agree_below(a, b, k)
    &&& k < b.len()
    &&& (k == a.len() || a[k] < b[k])
}

/// Strict lexicographic order on byte strings.
pub open spec fn bytes_less(a: Seq<u8>, b: Seq<u8>) -> bool {
    exists|k: int| falls_below_at(a, b, k)
}

/// No byte string is below itself.
pub proof fn lemma_bytes_less_irreflexive(a: Seq<u8>)
    ensures
        !bytes_less(a, a),
{
}

/// Of two byte strings at most one is below the other.
pub proof fn lemma_bytes_less_asymmetric(a: Seq<u8>, b: Seq<u8>)
    requires
        bytes_less(a, b),
    ensures
        !bytes_less(b, a),
{
    let k = choose|k: int| falls_below_at(a, b, k);
    if bytes_less(b, a) {
        let m = choose|m: int| falls_below_at(b, a, m);
        if k < m {
            assert(b[k] == a[k]);
        } else if m < k {
            assert(a[m] == b[m]);
        }
    }
}

/// The order is transitive.
pub proof fn lemma_bytes_less_transitive(a: Seq<u8>, b: Seq<u8>, c: Seq<u8>)
    requires
        bytes_less(a, b),
        bytes_less(b, c),
    ensures
        bytes_less(a, c),
{
    let k = choose|k: int| falls_below_at(a, b, k);
    let m = choose|m: int| falls_below_at(b, c, m);
    let n = if k <= m { k } else { m };
    assert forall|i: int| 0 <= i < n implies a[i] == c[i] by {
        assert(a[i] == b[i]);
        assert(b[i] == c[i]);
    }
    if k < m {
        assert(b[k] == c[k]);
    } else if m < k {
        assert(a[m] == b[m]);
    }
    assert(falls_below_at(a, c, n));
}

proof fn lemma_differ_after(a: Seq<u8>, b: Seq<u8>, k: int)
    requires
        agree_below(a, b, k),
        a != b,
    ensures
        bytes_less(a, b) || bytes_less(b, a),
    decreases a.len() - k,
{
    if k == a.len() {
        if k == b.len() {
            assert(a =~= b);
        } else {
            assert(falls_below_at(a, b, k));
        }
    } else if k == b.len() {
        assert(agree_below(b, a, k));
        assert(falls_below_at(b, a, k));
    } else if a[k] < b[k] {
        assert(falls_below_at(a, b, k));
    } else if b[k] < a[k] {
        assert(agree_below(b, a, k));
        assert(falls_below_at(b, a, k));
    } else {
        lemma_differ_after(a, b, k + 1);
    }
}

/// Two different byte strings are ordered one way or the other.
pub proof fn lemma_bytes_less_total(a: Seq<u8>, b: Seq<u8>)
    requires
        a != b,
    ensures
        bytes_less(a, b) || bytes_less(b, a),
{
    lemma_differ_after(a, b, 0);
}

/// How two byte strings stand to each other.
#[derive(Clone, Copy, Debug, PartialEq, Eq, Structural)]
pub enum Standing {
    Below,
    Same,
    Above,
}

/// What `compare_bytes` returns for `a` against `b`.
pub open spec fn standing_of(a: Seq<u8>, b: Seq<u8>) -> Standing {
    if bytes_less(a, b) {
        Standing::Below
    } else if a == b {
        Standing::Same
    } else {
        Standing::Above
    }
}

/// Compares two byte strings lexicographically.
pub fn compare_bytes(a: &[u8], b: &[u8]) -> (r: Standing)
    ensures
        r == standing_of(a@, b@),
        r == Standing::Above <==> bytes_less(b@, a@),
{
    let mut k: usize = 0;
    while k < a.len() && k < b.len() && a[k] == b[k]
        invariant
            agree_below(a@, b@, k as int),
        decreases a.len() - k,
    {
        k = k + 1;
    }
    if k == a.len() {
        if k == b.len() {
            assert(a@ =~= b@);
            proof {
                lemma_bytes_less_irreflexive(a@);
            }
            Standing::Same
        } else {
            assert(falls_below_at(a@, b@, k as int));
            proof {
                lemma_bytes_less_asymmetric(a@, b@);
            }
            Standing::Below
        }
    } else if k == b.len() {
        assert(agree_below(b@, a@, k as int));
        assert(falls_below_at(b@, a@, k as int));
        proof {
            lemma_bytes_less_asymmetric(b@, a@);
        }
        Standing::Above
    } else if a[k] < b[k] {
        assert(falls_below_at(a@, b@, k as int));
        proof {
            lemma_bytes_less_asymmetric(a@, b@);
        }
        Standing::Below
    } else {
        assert(agree_below(b@, a@, k as int));
        assert(falls_below_at(b@, a@, k as int));
        proof {
            lemma_bytes_less_asymmetric(b@, a@);
        }
        Standing::Above
    }
}

} // verus!

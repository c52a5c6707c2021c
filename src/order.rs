use vstd::prelude::*;
use core::cmp::Ordering;

verus! {

/// `a` and `b` agree on their first `k` bytes.
pub open spec fn agree_upto(a: Seq<u8>, b: Seq<u8>, k: int) -> bool {
    forall|i: int| 0 <= i < k ==> a[i] == b[i]
}

/// `a` and `b` first differ at `k`, where `a` is smaller: a smaller byte,
/// or `a` ends there and `b` goes on.
pub open spec fn lt_at(a: Seq<u8>, b: Seq<u8>, k: int) -> bool {
    &&& 0 <= k <= a.len()
    &&& k < b.len()
    &&& agree_upto(a, b, k)
    &&& (k == a.len() || a[k] < b[k])
}

/// Byte-lexicographic order: `a` comes strictly before `b`.
pub open spec fn bytes_lt(a: Seq<u8>, b: Seq<u8>) -> bool {
    exists|k: int| lt_at(a, b, k)
}

/// `a` comes before `b`, or equals it.
pub open spec fn bytes_le(a: Seq<u8>, b: Seq<u8>) -> bool {
    bytes_lt(a, b) || a == b
}

/// The order is strict: one of two sequences comes first, not both, and a
/// sequence never comes before itself.
pub proof fn lemma_lt_asymmetric(a: Seq<u8>, b: Seq<u8>)
    requires
        bytes_lt(a, b),
    ensures
        !bytes_lt(b, a),
        a != b,
{
    let k = choose|k: int| lt_at(a, b, k);
    if bytes_lt(b, a) {
        let j = choose|j: int| lt_at(b, a, j);
        if j < k {
            assert(a[j] == b[j]);
        } else if k < j {
            assert(a[k] == b[k]);
        }
    }
    if a == b {
        assert(k < a.len());
    }
}

/// The order is transitive.
pub proof fn lemma_lt_transitive(a: Seq<u8>, b: Seq<u8>, c: Seq<u8>)
    requires
        bytes_lt(a, b),
        bytes_lt(b, c),
    ensures
        bytes_lt(a, c),
{
    let k = choose|k: int| lt_at(a, b, k);
    let j = choose|j: int| lt_at(b, c, j);
    if k < j {
        assert(lt_at(a, c, k));
    } else if j < k {
        assert(lt_at(a, c, j));
    } else {
        assert(lt_at(a, c, k));
    }
}

/// `a ≤ b < c` gives `a < c`.
pub proof fn lemma_le_lt(a: Seq<u8>, b: Seq<u8>, c: Seq<u8>)
    requires
        bytes_le(a, b),
        bytes_lt(b, c),
    ensures
        bytes_lt(a, c),
{
    if a != b {
        lemma_lt_transitive(a, b, c);
    }
}

/// `a < b ≤ c` gives `a < c`.
pub proof fn lemma_lt_le(a: Seq<u8>, b: Seq<u8>, c: Seq<u8>)
    requires
        bytes_lt(a, b),
        bytes_le(b, c),
    ensures
        bytes_lt(a, c),
{
    if b != c {
        lemma_lt_transitive(a, b, c);
    }
}

/// Compares two byte strings in byte-lexicographic order.
pub fn compare_bytes(a: &[u8], b: &[u8]) -> (r: Ordering)
    ensures
        r == Ordering::Less <==> bytes_lt(a@, b@),
        r == Ordering::Equal <==> a@ == b@,
        r == Ordering::Greater <==> bytes_lt(b@, a@),
{
    let mut i: usize = 0;
    while i < a.len() && i < b.len()
        invariant
            i <= a@.len(),
            i <= b@.len(),
            agree_upto(a@, b@, i as int),
        decreases a@.len() - i,
    {
        if a[i] != b[i] {
            if a[i] < b[i] {
                proof {
                    assert(lt_at(a@, b@, i as int));
                    lemma_lt_asymmetric(a@, b@);
                }
                return Ordering::Less;
            } else {
                proof {
                    assert(lt_at(b@, a@, i as int));
                    lemma_lt_asymmetric(b@, a@);
                }
                return Ordering::Greater;
            }
        }
        i = i + 1;
    }
    if a.len() < b.len() {
        proof {
            assert(lt_at(a@, b@, i as int));
            lemma_lt_asymmetric(a@, b@);
        }
        Ordering::Less
    } else if b.len() < a.len() {
        proof {
            assert(lt_at(b@, a@, i as int));
            lemma_lt_asymmetric(b@, a@);
        }
        Ordering::Greater
    } else {
        proof {
            assert(a@ =~= b@);
            if bytes_lt(a@, b@) {
                lemma_lt_asymmetric(a@, b@);
            }
        }
        Ordering::Equal
    }
}

} // verus!

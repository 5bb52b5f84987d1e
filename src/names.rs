//! The order of asset names: lexicographic, character by character.
use vstd::prelude::*;

verus! {

/// `a` and `b` agree on their first `k` characters.
pub open spec fn agree_upto(a: Seq<char>, b: Seq<char>, k: int) -> bool {
    forall|j: int| 0 <= j < k ==> a[j] == b[j]
}

/// `a` comes before `b` at position `k`: they agree before it, and there
/// `a` has ended while `b` goes on, or `a`'s character is the smaller one.
pub open spec fn less_at(a: Seq<char>, b: Seq<char>, k: int) -> bool {
    &&& 0 <= k <= a.len()
    &&& k < b.len()
    &&& agree_upto(a, b, k)
    &&& (k == a.len() || (a[k] as u32) < (b[k] as u32))
}

/// `a` comes strictly before `b` in lexicographic order.
pub open spec fn name_lt(a: Seq<char>, b: Seq<char>) -> bool {
    exists|k: int| less_at(a, b, k)
}

/// No name comes before itself, and of two names at most one comes first.
pub proof fn lemma_name_lt_asymmetric(a: Seq<char>, b: Seq<char>)
    ensures
        !name_lt(a, a),
        name_lt(a, b) ==> !name_lt(b, a),
{
    if name_lt(a, a) {
        let k = choose|k: int| less_at(a, a, k);
        assert(false);
    }
    if name_lt(a, b) && name_lt(b, a) {
        let k = choose|k: int| less_at(a, b, k);
        let m = choose|m: int| less_at(b, a, m);
        if k < m {
            assert(b[k] == a[k]);
        } else if m < k {
            assert(a[m] == b[m]);
        }
    }
}

/// The order is transitive.
pub proof fn lemma_name_lt_transitive(a: Seq<char>, b: Seq<char>, c: Seq<char>)
    requires
        name_lt(a, b),
        name_lt(b, c),
    ensures
        name_lt(a, c),
{
    let k = choose|k: int| less_at(a, b, k);
    let m = choose|m: int| less_at(b, c, m);
    if k <= m {
        if k < m {
            assert(b[k] == c[k]);
        }
        assert(less_at(a, c, k));
    } else {
        assert(a[m] == b[m]);
        assert(less_at(a, c, m));
    }
}

/// Compares two names: negative if `a` comes first, zero if they are equal,
/// positive if `b` comes first.
pub fn compare_names(a: &Vec<char>, b: &Vec<char>) -> (r: i8)
    ensures
        r < 0 <==> name_lt(a@, b@),
        r == 0 <==> a@ == b@,
        r > 0 <==> name_lt(b@, a@),
{
    proof {
        lemma_name_lt_asymmetric(a@, b@);
        lemma_name_lt_asymmetric(b@, a@);
    }
    let mut k: usize = 0;
    while k < a.len() && k < b.len() && a[k] == b[k]
        invariant
            k <= a.len(),
            k <= b.len(),
            agree_upto(a@, b@, k as int),
        decreases a.len() - k,
    {
        k += 1;
    }
    if k == a.len() && k == b.len() {
        assert(a@ =~= b@);
        0
    } else if k == a.len() {
        assert(less_at(a@, b@, k as int));
        -1
    } else if k == b.len() {
        assert(less_at(b@, a@, k as int));
        assert(a@.len() != b@.len());
        1
    } else if (a[k] as u32) < (b[k] as u32) {
        assert(less_at(a@, b@, k as int));
        -1
    } else {
        assert(a@[k as int] != b@[k as int]);
        proof {
            vstd::utf8::char_u32_cast(a@[k as int], a@[k as int] as u32);
            vstd::utf8::char_u32_cast(b@[k as int], b@[k as int] as u32);
        }
        assert((b@[k as int] as u32) < (a@[k as int] as u32));
        assert(less_at(b@, a@, k as int));
        1
    }
}

} // verus!

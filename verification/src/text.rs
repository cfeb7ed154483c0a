//! Text as sequences of characters.
//!
//! Every string the sandbox handles (scheme names, resource names, request
//! paths) is modelled by its sequence of `char`s. This module holds the
//! executable primitives the other modules build on, each proved against a
//! statement over `Seq<char>`, and the order by which policy lists are sorted.

use vstd::prelude::*;
use vstd::string::*;

verus! {

/// `a` and `b` agree on their first `k` characters.
pub open spec fn agree_upto(a: Seq<char>, b: Seq<char>, k: int) -> bool {
    &&& 0 <= k <= a.len()
    &&& k <= b.len()
    &&& forall|i: int| 0 <= i < k ==> a[i] == b[i]
}

/// `a` comes before `b` at position `k`: they agree before `k`, and there
/// either `a` ends while `b` goes on, or `a` holds the smaller code point.
pub open spec fn precedes_at(a: Seq<char>, b: Seq<char>, k: int) -> bool {
    &&& agree_upto(a, b, k)
    &&& if k == a.len() {
        k < b.len()
    } else {
        k < b.len() && (a[k] as int) < (b[k] as int)
    }
}

/// Strict lexicographic order of texts by code point. This is the order in
/// which `str` values compare.
pub open spec fn lex_lt(a: Seq<char>, b: Seq<char>) -> bool {
    exists|k: int| precedes_at(a, b, k)
}

/// A text does not come before itself.
pub proof fn lemma_lex_lt_irreflexive(a: Seq<char>)
    ensures
        !lex_lt(a, a),
{
}

/// The order is transitive.
pub proof fn lemma_lex_lt_transitive(a: Seq<char>, b: Seq<char>, c: Seq<char>)
    requires
        lex_lt(a, b),
        lex_lt(b, c),
    ensures
        lex_lt(a, c),
{
    let i = choose|k: int| precedes_at(a, b, k);
    let j = choose|k: int| precedes_at(b, c, k);
    let m = if i <= j { i } else { j };
    assert(precedes_at(a, c, m));
}

/// Two texts are equal or one comes before the other.
pub proof fn lemma_lex_lt_total(a: Seq<char>, b: Seq<char>)
    ensures
        a == b || lex_lt(a, b) || lex_lt(b, a),
    decreases a.len(),
{
    if a.len() == 0 {
        if b.len() == 0 {
            assert(a =~= b);
        } else {
            assert(precedes_at(a, b, 0));
        }
    } else if b.len() == 0 {
        assert(precedes_at(b, a, 0));
    } else if a[0] != b[0] {
        if (a[0] as int) < (b[0] as int) {
            assert(precedes_at(a, b, 0));
        } else {
            assert(precedes_at(b, a, 0));
        }
    } else {
        let ta = a.drop_first();
        let tb = b.drop_first();
        lemma_lex_lt_total(ta, tb);
        if ta == tb {
            assert(a.len() == ta.len() + 1 && b.len() == tb.len() + 1);
            assert forall|i: int| 0 <= i < a.len() implies a[i] == b[i] by {
                if i > 0 {
                    assert(a[i] == ta[i - 1] && b[i] == tb[i - 1]);
                }
            }
            assert(a =~= b);
        } else if lex_lt(ta, tb) {
            let k = choose|k: int| precedes_at(ta, tb, k);
            assert forall|i: int| 0 <= i < k + 1 implies a[i] == b[i] by {
                if i > 0 {
                    assert(ta[i - 1] == tb[i - 1]);
                }
            }
            assert(precedes_at(a, b, k + 1));
        } else {
            let k = choose|k: int| precedes_at(tb, ta, k);
            assert forall|i: int| 0 <= i < k + 1 implies b[i] == a[i] by {
                if i > 0 {
                    assert(tb[i - 1] == ta[i - 1]);
                }
            }
            assert(precedes_at(b, a, k + 1));
        }
    }
}

/// The characters of a string, in order.
pub fn to_chars(s: &str) -> (v: Vec<char>)
    ensures
        v@ == s@,
{
    broadcast use vstd::string::group_string_axioms;

    let mut v: Vec<char> = Vec::new();
    let chars = s.chars();
    for c in it: chars
        invariant
            it.seq() == s@,
            v@ == it.seq().take(it.index()),
    {
        v.push(c);
    }
    v
}

/// Whether two texts are the same.
pub fn chars_eq(a: &[char], b: &[char]) -> (r: bool)
    ensures
        r == (a@ == b@),
{
    if a.len() != b.len() {
        return false;
    }
    let mut i: usize = 0;
    while i < a.len()
        invariant
            a@.len() == b@.len(),
            agree_upto(a@, b@, i as int),
        decreases a.len() - i,
    {
        if a[i] != b[i] {
            return false;
        }
        i += 1;
    }
    assert(a@ =~= b@);
    true
}

/// Whether `s` begins with `p`.
pub fn chars_start_with(s: &[char], p: &[char]) -> (r: bool)
    ensures
        r == p@.is_prefix_of(s@),
{
    if p.len() > s.len() {
        return false;
    }
    let mut i: usize = 0;
    while i < p.len()
        invariant
            p@.len() <= s@.len(),
            agree_upto(p@, s@, i as int),
        decreases p.len() - i,
    {
        if p[i] != s[i] {
            assert(s@.subrange(0, p@.len() as int)[i as int] == s@[i as int]);
            return false;
        }
        i += 1;
    }
    assert(p@ =~= s@.subrange(0, p@.len() as int));
    true
}

/// Whether `a` comes strictly before `b` in the order of `lex_lt`.
pub fn lex_less(a: &[char], b: &[char]) -> (r: bool)
    ensures
        r == lex_lt(a@, b@),
{
    let mut i: usize = 0;
    while i < a.len() && i < b.len()
        invariant
            agree_upto(a@, b@, i as int),
        decreases a.len() - i,
    {
        if a[i] != b[i] {
            let less = a[i] < b[i];
            proof {
                if less {
                    assert(precedes_at(a@, b@, i as int));
                } else {
                    assert forall|k: int| !precedes_at(a@, b@, k) by {
                        if precedes_at(a@, b@, k) {
                            if k < i {
                                assert(a@[k] == b@[k]);
                            } else if k > i {
                                assert(a@[i as int] == b@[i as int]);
                            }
                        }
                    }
                }
            }
            return less;
        }
        i += 1;
    }
    let less = i < b.len();
    proof {
        if less {
            assert(precedes_at(a@, b@, i as int));
        } else {
            assert forall|k: int| !precedes_at(a@, b@, k) by {
                if precedes_at(a@, b@, k) {
                    if k < i {
                        assert(a@[k] == b@[k]);
                    }
                }
            }
        }
    }
    less
}

} // verus!

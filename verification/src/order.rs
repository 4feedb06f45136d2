//! The order of strings and of duplicate keys, as Rust's `Ord` orders them:
//! strings character by character (which for UTF-8 is the byte order), and
//! tuples field by field.

use vstd::prelude::*;

verus! {

/// `a` comes strictly before `b` in lexicographic character order.
pub open spec fn seq_lt(a: Seq<char>, b: Seq<char>) -> bool
    decreases a.len(),
{
    if a.len() == 0 {
        b.len() > 0
    } else if b.len() == 0 {
        false
    } else if a[0] != b[0] {
        a[0] < b[0]
    } else {
        seq_lt(a.drop_first(), b.drop_first())
    }
}

/// Lexicographic order on strings is a strict total order.
pub proof fn lemma_seq_lt_order(a: Seq<char>, b: Seq<char>, c: Seq<char>)
    ensures
        !seq_lt(a, a),
        seq_lt(a, b) ==> !seq_lt(b, a),
        a != b ==> seq_lt(a, b) || seq_lt(b, a),
        seq_lt(a, b) && seq_lt(b, c) ==> seq_lt(a, c),
    decreases a.len(),
{
    if a.len() > 0 {
        lemma_seq_lt_order(a.drop_first(), b.drop_first(), c.drop_first());
        if b.len() > 0 && a[0] == b[0] && a.drop_first() == b.drop_first() {
            assert(a =~= seq![a[0]] + a.drop_first());
            assert(b =~= seq![b[0]] + b.drop_first());
        }
        if seq_lt(a, b) && seq_lt(b, c) && b.len() > 0 && c.len() > 0 {
            if a[0] == b[0] && b[0] == c[0] {
                assert(seq_lt(a.drop_first(), b.drop_first()));
            }
        }
    } else {
        if b.len() == 0 {
            assert(a =~= b);
        }
    }
}

/// The duplicate key `a` comes strictly before `b`: by formatted time, then
/// longitude, then latitude.
pub open spec fn key_lt(a: (Seq<char>, i64, i64), b: (Seq<char>, i64, i64)) -> bool {
    seq_lt(a.0, b.0) || (a.0 == b.0 && (a.1 < b.1 || (a.1 == b.1 && a.2 < b.2)))
}

/// The order of duplicate keys is a strict total order.
pub proof fn lemma_key_lt_order(a: (Seq<char>, i64, i64), b: (Seq<char>, i64, i64), c: (Seq<char>, i64, i64))
    ensures
        !key_lt(a, a),
        key_lt(a, b) ==> !key_lt(b, a),
        a != b ==> key_lt(a, b) || key_lt(b, a),
        key_lt(a, b) && key_lt(b, c) ==> key_lt(a, c),
{
    lemma_seq_lt_order(a.0, b.0, c.0);
    lemma_seq_lt_order(b.0, a.0, c.0);
    lemma_seq_lt_order(a.0, c.0, b.0);
}

/// The characters of `s`, in a vector.
pub fn chars_of(s: &str) -> (r: Vec<char>)
    ensures
        r@ == s@,
{
    let mut r: Vec<char> = Vec::new();
    proof {
        broadcast use vstd::string::axiom_spec_iter;
    }
    for c in it: s.chars()
        invariant
            it.seq() == s@,
            r@ == s@.take(it.index() as int),
    {
        r.push(c);
        proof {
            assert(r@ =~= s@.take(it.index() as int + 1));
        }
    }
    proof {
        assert(r@ =~= s@);
    }
    r
}

/// Whether `a` comes strictly before `b`.
pub fn chars_lt(a: &Vec<char>, b: &Vec<char>) -> (r: bool)
    ensures
        r == seq_lt(a@, b@),
{
    let mut i: usize = 0;
    proof {
        assert(a@.skip(0) =~= a@);
        assert(b@.skip(0) =~= b@);
    }
    while i < a.len() && i < b.len()
        invariant
            i <= a.len(),
            i <= b.len(),
            a@.subrange(0, i as int) == b@.subrange(0, i as int),
            seq_lt(a@, b@) == seq_lt(a@.skip(i as int), b@.skip(i as int)),
        decreases a.len() - i,
    {
        if a[i] != b[i] {
            return a[i] < b[i];
        }
        proof {
            assert(a@.skip(i as int).drop_first() =~= a@.skip(i as int + 1));
            assert(b@.skip(i as int).drop_first() =~= b@.skip(i as int + 1));
            assert(a@.subrange(0, i as int + 1) =~= a@.subrange(0, i as int).push(a@[i as int]));
            assert(b@.subrange(0, i as int + 1) =~= b@.subrange(0, i as int).push(b@[i as int]));
        }
        i += 1;
    }
    i < b.len()
}

/// The positions of distinct strings, sorted by the strings.
pub fn sort_distinct(names: &Vec<Vec<char>>) -> (out: Vec<usize>)
    requires
        forall|x: int, y: int| 0 <= x < names.len() && 0 <= y < names.len() && x != y ==> names@[x]@ != names@[y]@,
    ensures
        out.len() == names.len(),
        forall|x: int| 0 <= x < names.len() ==> #[trigger] out@.contains(x as usize),
        forall|x: int| 0 <= x < out.len() ==> #[trigger] out@[x] < names.len(),
        forall|a: int, b: int| 0 <= a < b < out.len() ==> seq_lt(names@[out@[a] as int]@, names@[out@[b] as int]@),
{
    let mut out: Vec<usize> = Vec::new();
    let mut i: usize = 0;
    while i < names.len()
        invariant
            i <= names.len(),
            out.len() == i,
            forall|x: int, y: int| 0 <= x < names.len() && 0 <= y < names.len() && x != y ==> names@[x]@ != names@[y]@,
            forall|x: int| 0 <= x < names.len() ==> (#[trigger] out@.contains(x as usize) <==> x < i),
            forall|x: int| 0 <= x < out.len() ==> #[trigger] out@[x] < i,
            forall|a: int, b: int| 0 <= a < b < out.len() ==> seq_lt(names@[out@[a] as int]@, names@[out@[b] as int]@),
        decreases names.len() - i,
    {
        let mut lo: usize = 0;
        let mut hi: usize = out.len();
        while lo < hi
            invariant
                lo <= hi <= out.len(),
                i < names.len(),
                forall|x: int| 0 <= x < out.len() ==> #[trigger] out@[x] < i,
                forall|a: int, b: int| 0 <= a < b < out.len() ==> seq_lt(names@[out@[a] as int]@, names@[out@[b] as int]@),
                forall|a: int| 0 <= a < lo ==> seq_lt(names@[#[trigger] out@[a] as int]@, names@[i as int]@),
                forall|a: int| hi <= a < out.len() ==> !seq_lt(names@[#[trigger] out@[a] as int]@, names@[i as int]@),
            decreases hi - lo,
        {
            let mid = lo + (hi - lo) / 2;
            if chars_lt(&names[out[mid]], &names[i]) {
                proof {
                    assert forall|a: int| 0 <= a < mid + 1 implies seq_lt(names@[#[trigger] out@[a] as int]@, names@[i as int]@) by {
                        if a < mid {
                            lemma_seq_lt_order(names@[out@[a] as int]@, names@[out@[mid as int] as int]@, names@[i as int]@);
                        }
                    }
                }
                lo = mid + 1;
            } else {
                proof {
                    assert forall|a: int| mid <= a < out.len() implies !seq_lt(names@[#[trigger] out@[a] as int]@, names@[i as int]@) by {
                        if a > mid {
                            lemma_seq_lt_order(names@[out@[mid as int] as int]@, names@[out@[a] as int]@, names@[i as int]@);
                        }
                    }
                }
                hi = mid;
            }
        }
        let ghost before = out@;
        out.insert(lo, i);
        proof {
            assert forall|a: int, b: int| 0 <= a < b < out.len() implies seq_lt(names@[out@[a] as int]@, names@[out@[b] as int]@) by {
                if b == lo {
                    assert(out@[a] == before[a]);
                } else if a == lo {
                    let x = before[b - 1] as int;
                    assert(out@[b] == before[b - 1]);
                    assert(names@[x]@ != names@[i as int]@);
                    lemma_seq_lt_order(names@[i as int]@, names@[x]@, names@[x]@);
                } else if a < lo && b > lo {
                    assert(out@[a] == before[a]);
                    assert(out@[b] == before[b - 1]);
                } else if a < lo {
                    assert(out@[a] == before[a]);
                    assert(out@[b] == before[b]);
                } else {
                    assert(out@[a] == before[a - 1]);
                    assert(out@[b] == before[b - 1]);
                }
            }
            assert forall|x: int| 0 <= x < names.len() implies (#[trigger] out@.contains(x as usize) <==> x < i + 1) by {
                if out@.contains(x as usize) {
                    let k = choose|k: int| 0 <= k < out.len() && out@[k] == x as usize;
                    if k < lo {
                        assert(before[k] == x as usize);
                    } else if k > lo {
                        assert(before[k - 1] == x as usize);
                    }
                }
                if x < i {
                    assert(before.contains(x as usize));
                    let k = choose|k: int| 0 <= k < before.len() && before[k] == x as usize;
                    if k < lo {
                        assert(out@[k] == x as usize);
                    } else {
                        assert(out@[k + 1] == x as usize);
                    }
                }
                if x == i {
                    assert(out@[lo as int] == x as usize);
                }
            }
            assert forall|x: int| 0 <= x < out.len() implies #[trigger] out@[x] < i + 1 by {
                if x < lo {
                    assert(out@[x] == before[x]);
                } else if x > lo {
                    assert(out@[x] == before[x - 1]);
                }
            }
        }
        i += 1;
    }
    out
}

} // verus!

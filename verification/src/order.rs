use vstd::prelude::*;

verus! {

/// `a` and `b` agree before position `i`, and at `i` the byte of `a` is the
/// smaller one.
pub open spec fn less_at(a: Seq<u8>, b: Seq<u8>, i: int) -> bool {
    &&& 0 <= i < a.len()
    &&& i < b.len()
    &&& a.take(i) == b.take(i)
    &&& a[i] < b[i]
}

/// The bytewise (memcmp) order in which the store keeps and scans its keys:
/// the first differing byte decides, and a proper prefix comes first.
pub open spec fn bytewise_less(a: Seq<u8>, b: Seq<u8>) -> bool {
    ||| exists|i: int| #[trigger] less_at(a, b, i)
    ||| (a.len() < b.len() && a == b.take(a.len() as int))
}

/// A scan bounded by `lower` (inclusive) and `upper` (exclusive) visits `key`.
pub open spec fn in_key_range(key: Seq<u8>, lower: Seq<u8>, upper: Seq<u8>) -> bool {
    !bytewise_less(key, lower) && bytewise_less(key, upper)
}

/// Two different byte strings of one length, equal before `from`, differ
/// first at some position at or after `from`.
pub proof fn lemma_first_difference(a: Seq<u8>, b: Seq<u8>, from: int) -> (i: int)
    requires
        a.len() == b.len(),
        a != b,
        0 <= from <= a.len(),
        a.take(from) == b.take(from),
    ensures
        from <= i < a.len(),
        a.take(i) == b.take(i),
        a[i] != b[i],
    decreases a.len() - from,
{
    if from == a.len() {
        assert(a =~= a.take(from));
        assert(b =~= b.take(from));
        from
    } else if a[from] != b[from] {
        from
    } else {
        assert(a.take(from + 1) =~= a.take(from).push(a[from]));
        assert(b.take(from + 1) =~= b.take(from).push(b[from]));
        lemma_first_difference(a, b, from + 1)
    }
}

/// Equal-length strings that agree before `i` and have the larger byte of
/// `a` at `i` are not bytewise less.
pub proof fn lemma_greater_at_not_less(a: Seq<u8>, b: Seq<u8>, i: int)
    requires
        a.len() == b.len(),
        0 <= i < a.len(),
        a.take(i) == b.take(i),
        a[i] > b[i],
    ensures
        !bytewise_less(a, b),
{
    assert forall|j: int| !#[trigger] less_at(a, b, j) by {
        if 0 <= j < a.len() && a.take(j) == b.take(j) {
            if j < i {
                assert(a[j] == a.take(i)[j]);
                assert(b[j] == b.take(i)[j]);
            } else if j > i {
                assert(a[i] == a.take(j)[i]);
                assert(b[i] == b.take(j)[i]);
            }
        }
    }
}

/// A difference decided at position `i` survives a common prefix and any
/// suffixes: `p + x + s` is bytewise less than `p + y + t`.
pub proof fn lemma_less_under_context(
    p: Seq<u8>,
    x: Seq<u8>,
    s: Seq<u8>,
    y: Seq<u8>,
    t: Seq<u8>,
    i: int,
)
    requires
        less_at(x, y, i),
    ensures
        less_at(p + x + s, p + y + t, p.len() + i),
        bytewise_less(p + x + s, p + y + t),
{
    let a = p + x + s;
    let b = p + y + t;
    let k = p.len() + i;
    assert(a.take(k) =~= p + x.take(i));
    assert(b.take(k) =~= p + y.take(i));
    assert(a[k] == x[i]);
    assert(b[k] == y[i]);
    assert(less_at(a, b, k));
}

} // verus!

//! Order and containment of strings, by characters.
use vstd::prelude::*;
use vstd::string::*;

verus! {

/// `a` and `b` agree on their first `k` characters, and at `k` either `a`
/// ends while `b` goes on, or `a` has the smaller code point.
pub open spec fn less_at(a: Seq<char>, b: Seq<char>, k: int) -> bool {
    &&& 0 <= k <= a.len()
    &&& k <= b.len()
    &&& a.subrange(0, k) == b.subrange(0, k)
    &&& (k == a.len() && k < b.len()) || (k < a.len() && k < b.len() && (a[k] as int) < (
    b[k] as int))
}

/// `a` comes before `b` in lexicographic order of code points.
pub open spec fn str_less(a: Seq<char>, b: Seq<char>) -> bool {
    exists|k: int| #[trigger] less_at(a, b, k)
}

/// `pattern` occurs in `text` as a contiguous run of characters.
pub open spec fn occurs_in(pattern: Seq<char>, text: Seq<char>) -> bool {
    exists|i: int|
        0 <= i && i + pattern.len() <= text.len() && #[trigger] text.subrange(i, i + pattern.len())
            == pattern
}

/// Whether `a` comes before `b` in lexicographic order of code points.
pub fn less(a: &str, b: &str) -> (r: bool)
    ensures
        r == str_less(a@, b@),
{
    let la = a.unicode_len();
    let lb = b.unicode_len();
    let mut i: usize = 0;
    while i < la && i < lb && a.get_char(i) == b.get_char(i)
        invariant
            la == a@.len(),
            lb == b@.len(),
            i <= la,
            i <= lb,
            forall|j: int| 0 <= j < i ==> a@[j] == b@[j],
        decreases la - i,
    {
        i = i + 1;
    }
    proof {
        assert(a@.subrange(0, i as int) =~= b@.subrange(0, i as int));
    }
    let r = if i < la && i < lb {
        (a.get_char(i) as u32) < (b.get_char(i) as u32)
    } else {
        i == la && i < lb
    };
    proof {
        if r {
            assert(less_at(a@, b@, i as int));
        } else {
            assert forall|k: int| !#[trigger] less_at(a@, b@, k) by {
                if 0 <= k <= a@.len() && k <= b@.len() && a@.subrange(0, k) == b@.subrange(0, k) {
                    if k > i {
                        assert(a@.subrange(0, k)[i as int] == b@.subrange(0, k)[i as int]);
                    }
                    if k < i {
                        assert(a@[k] == b@[k]);
                    }
                }
            }
        }
    }
    r
}

proof fn first_difference(a: Seq<char>, b: Seq<char>, i: int) -> (k: int)
    requires
        0 <= i <= a.len(),
        i <= b.len(),
        a.subrange(0, i) == b.subrange(0, i),
    ensures
        i <= k <= a.len(),
        k <= b.len(),
        a.subrange(0, k) == b.subrange(0, k),
        k == a.len() || k == b.len() || a[k] != b[k],
    decreases a.len() - i,
{
    if i == a.len() || i == b.len() || a[i] != b[i] {
        i
    } else {
        assert(a.subrange(0, i + 1) =~= b.subrange(0, i + 1)) by {
            assert forall|j: int| 0 <= j < i implies a[j] == b[j] by {
                assert(a.subrange(0, i)[j] == b.subrange(0, i)[j]);
                assert(a.subrange(0, i)[j] == a[j]);
                assert(b.subrange(0, i)[j] == b[j]);
            }
        }
        first_difference(a, b, i + 1)
    }
}

/// Of two different strings exactly one comes first.
pub proof fn lemma_str_less_total(a: Seq<char>, b: Seq<char>)
    ensures
        !(str_less(a, b) && str_less(b, a)),
        a != b ==> str_less(a, b) || str_less(b, a),
        !str_less(a, a),
{
    if str_less(a, b) && str_less(b, a) {
        let k1 = choose|k: int| #[trigger] less_at(a, b, k);
        let k2 = choose|k: int| #[trigger] less_at(b, a, k);
        if k1 < k2 {
            assert(a.subrange(0, k2)[k1] == b.subrange(0, k2)[k1]);
        } else if k2 < k1 {
            assert(a.subrange(0, k1)[k2] == b.subrange(0, k1)[k2]);
        }
    }
    if a != b {
        assert(a.subrange(0, 0) =~= b.subrange(0, 0));
        let k = first_difference(a, b, 0);
        if k == a.len() && k == b.len() {
            assert(a =~= a.subrange(0, k));
            assert(b =~= b.subrange(0, k));
        } else if k < a.len() && k < b.len() {
            assert(a[k] != b[k]);
            assert((a[k] as int) != (b[k] as int));
            if (a[k] as int) < (b[k] as int) {
                assert(less_at(a, b, k));
            } else {
                assert(less_at(b, a, k));
            }
        } else if k == a.len() {
            assert(less_at(a, b, k));
        } else {
            assert(less_at(b, a, k));
        }
    }
    if str_less(a, a) {
        let k = choose|k: int| #[trigger] less_at(a, a, k);
    }
}

/// Lexicographic order is transitive.
pub proof fn lemma_str_less_transitive(a: Seq<char>, b: Seq<char>, c: Seq<char>)
    requires
        str_less(a, b),
        str_less(b, c),
    ensures
        str_less(a, c),
{
    let k1 = choose|k: int| #[trigger] less_at(a, b, k);
    let k2 = choose|k: int| #[trigger] less_at(b, c, k);
    let k = if k1 < k2 {
        k1
    } else {
        k2
    };
    assert forall|j: int| 0 <= j < k implies a[j] == c[j] by {
        assert(a.subrange(0, k1)[j] == b.subrange(0, k1)[j]);
        assert(b.subrange(0, k2)[j] == c.subrange(0, k2)[j]);
    }
    assert(a.subrange(0, k) =~= c.subrange(0, k));
    if k1 < k2 {
        assert(b.subrange(0, k2)[k1] == c.subrange(0, k2)[k1]);
    } else if k2 < k1 {
        assert(a.subrange(0, k1)[k2] == b.subrange(0, k1)[k2]);
    }
    assert(less_at(a, c, k));
}

/// Relies on `str::contains` with a `&str` pattern: true exactly when the
/// pattern occurs in the text as a contiguous substring.
#[verifier::external_body]
pub(crate) fn contains(text: &str, pattern: &str) -> (r: bool)
    ensures
        r == occurs_in(pattern@, text@),
{
    text.contains(pattern)
}

} // verus!

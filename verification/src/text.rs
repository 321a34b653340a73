//! String helpers over character sequences.
use vstd::prelude::*;
use vstd::string::StringExecFns;
use vstd::relations::{sorted_by, total_ordering};
use crate::sort::{lemma_map_preserves_multiset, merge_sort_by};

verus! {

/// `a` sorts before or equal to `b`, character by character (for Unicode
/// text this is the same order as comparing the UTF-8 bytes).
pub open spec fn lex_le(a: Seq<char>, b: Seq<char>) -> bool
    decreases a.len(),
{
    if a.len() == 0 {
        true
    } else if b.len() == 0 {
        false
    } else if a[0] != b[0] {
        (a[0] as int) < (b[0] as int)
    } else {
        lex_le(a.drop_first(), b.drop_first())
    }
}

/// The characters of `s`.
pub fn chars_of(s: &str) -> (v: Vec<char>)
    ensures
        v@ == s@,
{
    let mut v: Vec<char> = Vec::new();
    for c in it: s.chars()
        invariant
            v@ == it.seq().take(it.index() as int),
            it.seq() == s@,
    {
        v.push(c);
        proof {
            assert(v@ =~= it.seq().take(it.index() as int + 1));
        }
    }
    assert(v@ =~= s@);
    v
}

/// `FromIterator<char> for String` (`collect`): the string of exactly these
/// characters, in order, as the standard library documents.
#[verifier::external_body]
pub(crate) fn string_from_chars(v: &Vec<char>) -> (s: String)
    ensures
        s@ == v@,
{
    v.iter().collect()
}

/// `a@ + b@` as a new string.
pub fn concat(a: &str, b: &str) -> (s: String)
    ensures
        s@ == a@ + b@,
{
    let mut s = a.to_owned();
    s.append(b);
    s
}

/// Character-by-character order on character slices (by index).
pub open spec fn lex_le_from(a: Seq<char>, b: Seq<char>, i: int) -> bool
    decreases a.len() - i,
{
    if i >= a.len() {
        true
    } else if i >= b.len() {
        false
    } else if a[i] != b[i] {
        (a[i] as int) < (b[i] as int)
    } else {
        lex_le_from(a, b, i + 1)
    }
}

proof fn lemma_lex_from(a: Seq<char>, b: Seq<char>, i: int)
    requires
        0 <= i <= a.len(),
        i <= b.len(),
    ensures
        lex_le_from(a, b, i) == lex_le(a.subrange(i, a.len() as int), b.subrange(i, b.len() as int)),
    decreases a.len() - i,
{
    let sa = a.subrange(i, a.len() as int);
    let sb = b.subrange(i, b.len() as int);
    if i < a.len() && i < b.len() && a[i] == b[i] {
        lemma_lex_from(a, b, i + 1);
        assert(sa.drop_first() =~= a.subrange(i + 1, a.len() as int));
        assert(sb.drop_first() =~= b.subrange(i + 1, b.len() as int));
    }
}

/// `a` sorts before or equal to `b` character by character.
pub fn str_le(a: &str, b: &str) -> (r: bool)
    ensures
        r == lex_le(a@, b@),
{
    let x = chars_of(a);
    let y = chars_of(b);
    let mut i: usize = 0;
    while i < x.len() && i < y.len() && x[i] == y[i]
        invariant
            i <= x@.len(),
            i <= y@.len(),
            lex_le_from(x@, y@, 0) == lex_le_from(x@, y@, i as int),
        decreases x@.len() - i,
    {
        i += 1;
    }
    proof {
        lemma_lex_from(x@, y@, 0);
        assert(x@.subrange(0, x@.len() as int) =~= x@);
        assert(y@.subrange(0, y@.len() as int) =~= y@);
    }
    if i >= x.len() {
        true
    } else if i >= y.len() {
        false
    } else {
        x[i] < y[i]
    }
}

/// `lex_le` is a total order.
pub proof fn lemma_lex_total(a: Seq<char>, b: Seq<char>)
    ensures
        lex_le(a, b) || lex_le(b, a),
        lex_le(a, b) && lex_le(b, a) ==> a == b,
    decreases a.len(),
{
    if a.len() > 0 && b.len() > 0 && a[0] != b[0] {
        assert((a[0] as int) != (b[0] as int));
    }
    if a.len() > 0 && b.len() > 0 && a[0] == b[0] {
        lemma_lex_total(a.drop_first(), b.drop_first());
        if lex_le(a, b) && lex_le(b, a) {
            assert(a =~= seq![a[0]] + a.drop_first());
            assert(b =~= seq![b[0]] + b.drop_first());
        }
    }
}

/// `lex_le` is transitive.
pub proof fn lemma_lex_trans(a: Seq<char>, b: Seq<char>, c: Seq<char>)
    requires
        lex_le(a, b),
        lex_le(b, c),
    ensures
        lex_le(a, c),
    decreases a.len(),
{
    if a.len() > 0 && b.len() > 0 && c.len() > 0 && a[0] == b[0] && b[0] == c[0] {
        lemma_lex_trans(a.drop_first(), b.drop_first(), c.drop_first());
    } else if a.len() > 0 && b.len() > 0 && c.len() > 0 {
        if a[0] == b[0] {
        } else if b[0] == c[0] {
        } else {
        }

    }
}

/// `s` begins with `prefix`.
pub fn starts_with(s: &str, prefix: &str) -> (r: bool)
    ensures
        r == (prefix@.len() <= s@.len() && s@.subrange(0, prefix@.len() as int) == prefix@),
{
    let x = chars_of(s);
    let p = chars_of(prefix);
    if p.len() > x.len() {
        return false;
    }
    let mut i: usize = 0;
    while i < p.len()
        invariant
            x@ == s@,
            p@ == prefix@,
            p@.len() <= x@.len(),
            i <= p@.len(),
            forall|k: int| 0 <= k < i ==> x@[k] == p@[k],
        decreases p@.len() - i,
    {
        if x[i] != p[i] {
            assert(s@.subrange(0, prefix@.len() as int)[i as int] != prefix@[i as int]);
            return false;
        }
        i += 1;
    }
    assert(x@.subrange(0, p@.len() as int) =~= p@);
    true
}

/// `a` and `b` hold the same text.
pub fn str_eq(a: &str, b: &str) -> (r: bool)
    ensures
        r == (a@ == b@),
{
    let x = chars_of(a);
    let y = chars_of(b);
    if x.len() != y.len() {
        return false;
    }
    let mut i: usize = 0;
    while i < x.len()
        invariant
            x@ == a@,
            y@ == b@,
            x@.len() == y@.len(),
            i <= x@.len(),
            forall|k: int| 0 <= k < i ==> x@[k] == y@[k],
        decreases x@.len() - i,
    {
        if x[i] != y[i] {
            assert(a@[i as int] != b@[i as int]);
            return false;
        }
        i += 1;
    }
    assert(x@ =~= y@);
    true
}

/// Character order as a relation.
pub open spec fn lex_order() -> spec_fn(Seq<char>, Seq<char>) -> bool {
    |a: Seq<char>, b: Seq<char>| lex_le(a, b)
}

/// Character order is a total order.
pub proof fn lemma_lex_order()
    ensures
        total_ordering(lex_order()),
{
    assert forall|a: Seq<char>, b: Seq<char>| #[trigger] lex_order()(a, b) || lex_order()(b, a) by {
        lemma_lex_total(a, b);
    }
    assert forall|a: Seq<char>, b: Seq<char>| #[trigger] lex_order()(a, b) && #[trigger] lex_order()(b, a) implies a == b by {
        lemma_lex_total(a, b);
    }
    assert forall|a: Seq<char>, b: Seq<char>, c: Seq<char>|
        #[trigger] lex_order()(a, b) && #[trigger] lex_order()(b, c) implies lex_order()(a, c) by {
        lemma_lex_trans(a, b, c);
    }
    assert forall|a: Seq<char>| #[trigger] lex_order()(a, a) by {
        lemma_lex_total(a, a);
    }
}

/// The texts of a sequence of strings.
pub open spec fn texts(v: Seq<String>) -> Seq<Seq<char>> {
    v.map_values(|s: String| s@)
}

/// Character order lifted to strings.
pub open spec fn string_le(a: String, b: String) -> bool {
    lex_le(a@, b@)
}

/// Sorts strings in character order (for UTF-8 text, the byte order that
/// `String`'s `Ord` uses).
pub fn sort_strings(v: Vec<String>) -> (r: Vec<String>)
    ensures
        texts(r@) == texts(v@).sort_by(lex_order()),
{
    let ghost leq = |a: String, b: String| string_le(a, b);
    proof {
        lemma_lex_order();
        assert forall|a: String, b: String| #[trigger] leq(a, b) || leq(b, a) by {
            assert(lex_order()(a@, b@) || lex_order()(b@, a@));
        }
        assert forall|a: String, b: String, c: String| #[trigger] leq(a, b) && #[trigger] leq(b, c) implies leq(a, c) by {
            assert(lex_order()(a@, b@) && lex_order()(b@, c@));
        }
    }
    let ghost before = v@;
    let sorted = merge_sort_by(
        v,
        &|a: &String, b: &String| -> (r: bool)
            ensures r == string_le(*a, *b)
        {
            str_le(a.as_str(), b.as_str())
        },
        Ghost(leq),
    );
    proof {
        let tv = |s: String| s@;
        lemma_map_preserves_multiset(sorted@, before, tv);
        let sv = sorted@.map_values(tv);
        let bv = before.map_values(tv);
        assert forall|i: int, j: int| 0 <= i < j < sv.len() implies #[trigger] lex_order()(sv[i], sv[j]) by {
            assert(leq(sorted@[i], sorted@[j]));
        }
        bv.lemma_sort_by_ensures(lex_order());
        vstd::seq_lib::lemma_sorted_unique(sv, bv.sort_by(lex_order()), lex_order());
        assert(texts(sorted@) == sv);
        assert(texts(before) == bv);
    }
    sorted
}

/// Whether `x` is among strings sorted in character order (binary search).
pub fn contains_sorted(sorted: &[String], x: &str) -> (r: bool)
    requires
        sorted_by(texts(sorted@), lex_order()),
    ensures
        r == texts(sorted@).contains(x@),
{
    let ghost t = texts(sorted@);
    proof {
        lemma_lex_order();
    }
    let mut lo: usize = 0;
    let mut hi: usize = sorted.len();
    while lo < hi
        invariant
            t == texts(sorted@),
            sorted_by(t, lex_order()),
            total_ordering(lex_order()),
            lo <= hi <= sorted@.len(),
            forall|k: int| 0 <= k < lo ==> !lex_le(x@, #[trigger] t[k]),
            forall|k: int| hi <= k < sorted@.len() ==> lex_le(x@, #[trigger] t[k]),
        decreases hi - lo,
    {
        let mid = lo + (hi - lo) / 2;
        let below = str_le(x, sorted[mid].as_str());
        proof {
            assert(t[mid as int] == sorted@[mid as int]@);
        }
        if below {
            proof {
                assert forall|k: int| mid <= k < sorted@.len() implies lex_le(x@, #[trigger] t[k]) by {
                    if k > mid {
                        assert(lex_order()(t[mid as int], t[k]));
                        lemma_lex_trans(x@, t[mid as int], t[k]);
                    }
                }
            }
            hi = mid;
        } else {
            proof {
                assert forall|k: int| 0 <= k <= mid implies !lex_le(x@, #[trigger] t[k]) by {
                    if k < mid && lex_le(x@, t[k]) {
                        assert(lex_order()(t[k], t[mid as int]));
                        lemma_lex_trans(x@, t[k], t[mid as int]);
                    }
                }
            }
            lo = mid + 1;
        }
    }
    let found = lo < sorted.len() && str_eq(sorted[lo].as_str(), x);
    proof {
        if found {
            assert(t[lo as int] == x@);
        } else {
            assert forall|k: int| 0 <= k < t.len() implies t[k] != x@ by {
                if t[k] == x@ {
                    lemma_lex_total(x@, x@);
                    if k > lo {
                        assert(lex_order()(t[lo as int], t[k]));
                        lemma_lex_total(t[lo as int], x@);
                    }
                }
            }
        }
    }
    found
}

/// `root` followed by a path separator, unless it already ends with one.
pub open spec fn dir_prefix(root: Seq<char>) -> Seq<char> {
    if root.len() > 0 && root.last() == '/' {
        root
    } else {
        root.push('/')
    }
}

/// `root` as a directory prefix: with a trailing `/` added if missing.
pub fn dir_prefix_of(root: &str) -> (p: String)
    ensures
        p@ == dir_prefix(root@),
{
    let chars = chars_of(root);
    if chars.len() > 0 && chars[chars.len() - 1] == '/' {
        root.to_owned()
    } else {
        proof {
            reveal_strlit("/");
        }
        concat(root, "/")
    }
}

} // verus!

//! Ordering, searching and joining of strings and of component paths.
//!
//! Generated artifacts must be diff-stable across runs, so every list that is
//! written out is sorted here by the lexicographic (code point) order on
//! strings. Directory paths are handled as lists of components, the way the
//! rest of the crate stores them.

use vstd::prelude::*;

verus! {

/// Lexicographic order on character sequences, by code point.
pub open spec fn lex_lt(a: Seq<char>, b: Seq<char>) -> bool
    decreases a.len(),
{
    if b.len() == 0 {
        false
    } else if a.len() == 0 {
        true
    } else if (a[0] as u32) < (b[0] as u32) {
        true
    } else if a[0] == b[0] {
        lex_lt(a.skip(1), b.skip(1))
    } else {
        false
    }
}

pub open spec fn lex_le(a: Seq<char>, b: Seq<char>) -> bool {
    lex_lt(a, b) || a == b
}

/// The views of a sequence of strings.
pub open spec fn path_view(v: Seq<String>) -> Seq<Seq<char>> {
    v.map_values(|s: String| s@)
}

/// Whether some element of `v` has view `s`.
pub open spec fn contains_str(v: Seq<String>, s: Seq<char>) -> bool {
    exists|i: int| 0 <= i < v.len() && v[i]@ == s
}

/// Whether the views of the elements of `v` are pairwise distinct.
pub open spec fn distinct_views(v: Seq<String>) -> bool {
    forall|i: int, j: int| 0 <= i < j < v.len() ==> v[i]@ != v[j]@
}

/// Whether `v` is strictly increasing in the lexicographic order.
pub open spec fn strict_sorted(v: Seq<Seq<char>>) -> bool {
    forall|i: int, j: int| 0 <= i < j < v.len() ==> lex_lt(v[i], v[j])
}

/// Whether the contents of `v`'s strings are strictly increasing.
pub open spec fn strings_sorted(v: Seq<String>) -> bool {
    forall|i: int, j: int| 0 <= i < j < v.len() ==> lex_lt(v[i]@, v[j]@)
}

/// The two sortedness forms agree.
pub proof fn lemma_strings_sorted_views(v: Seq<String>)
    ensures
        strings_sorted(v) == strict_sorted(path_view(v)),
{
    assert(forall|k: int| 0 <= k < v.len() ==> #[trigger] path_view(v)[k] == v[k]@);
    if strings_sorted(v) {
        assert forall|i: int, j: int|
            0 <= i < j < path_view(v).len() implies lex_lt(
            path_view(v)[i],
            path_view(v)[j],
        ) by {
            assert(lex_lt(v[i]@, v[j]@));
        }
    }
    if strict_sorted(path_view(v)) {
        assert forall|i: int, j: int| 0 <= i < j < v.len() implies lex_lt(v[i]@, v[j]@) by {
            assert(lex_lt(path_view(v)[i], path_view(v)[j]));
        }
    }
}

pub proof fn lemma_lex_lt_irreflexive(a: Seq<char>)
    ensures
        !lex_lt(a, a),
    decreases a.len(),
{
    if a.len() > 0 {
        lemma_lex_lt_irreflexive(a.skip(1));
    }
}

pub proof fn lemma_lex_lt_total(a: Seq<char>, b: Seq<char>)
    ensures
        lex_lt(a, b) || lex_lt(b, a) || a == b,
    decreases a.len(),
{
    if a.len() == 0 && b.len() == 0 {
        assert(a =~= b);
    }
    if a.len() > 0 && b.len() > 0 && !lex_lt(a, b) && !lex_lt(b, a) {
        assert(a[0] as u32 == b[0] as u32);
        vstd::utf8::char_u32_cast(a[0], a[0] as u32);
        vstd::utf8::char_u32_cast(b[0], a[0] as u32);
        assert(a[0] == b[0]);
        lemma_lex_lt_total(a.skip(1), b.skip(1));
        if a.skip(1) == b.skip(1) && a[0] == b[0] {
            assert(a.skip(1).len() == b.skip(1).len());
            assert(a.len() == b.len());
            assert forall|k: int| 0 <= k < a.len() implies a[k] == b[k] by {
                if k > 0 {
                    assert(a.skip(1)[k - 1] == b.skip(1)[k - 1]);
                    assert(a.skip(1)[k - 1] == a[k]);
                    assert(b.skip(1)[k - 1] == b[k]);
                }
            }
            assert(a =~= b);
        }
    }
}

pub proof fn lemma_lex_lt_asymmetric(a: Seq<char>, b: Seq<char>)
    ensures
        !(lex_lt(a, b) && lex_lt(b, a)),
    decreases a.len(),
{
    if a.len() > 0 && b.len() > 0 && lex_lt(a, b) && lex_lt(b, a) {
        lemma_lex_lt_asymmetric(a.skip(1), b.skip(1));
    }
}

pub proof fn lemma_lex_lt_transitive(a: Seq<char>, b: Seq<char>, c: Seq<char>)
    ensures
        lex_lt(a, b) && lex_lt(b, c) ==> lex_lt(a, c),
    decreases a.len(),
{
    if lex_lt(a, b) && lex_lt(b, c) && a.len() > 0 && c.len() > 0 {
        if b.len() > 0 && a[0] == b[0] && b[0] == c[0] {
            lemma_lex_lt_transitive(a.skip(1), b.skip(1), c.skip(1));
        }
    }
}

/// Equal prefixes of length `i` do not affect the order of the remainders.
proof fn lemma_lex_lt_skip(a: Seq<char>, b: Seq<char>, i: int)
    requires
        0 <= i <= a.len(),
        i <= b.len(),
        forall|k: int| 0 <= k < i ==> a[k] == b[k],
    ensures
        lex_lt(a, b) == lex_lt(a.skip(i), b.skip(i)),
    decreases i,
{
    if i > 0 {
        assert(a[0] == b[0]);
        lemma_lex_lt_skip(a.skip(1), b.skip(1), i - 1);
        assert(a.skip(1).skip(i - 1) =~= a.skip(i));
        assert(b.skip(1).skip(i - 1) =~= b.skip(i));
    } else {
        assert(a.skip(0) =~= a);
        assert(b.skip(0) =~= b);
    }
}

/// Compares two strings in the lexicographic order on their characters.
pub fn str_lt(a: &str, b: &str) -> (r: bool)
    ensures
        r == lex_lt(a@, b@),
{
    let la: usize = a.unicode_len();
    let lb: usize = b.unicode_len();
    let mut i: usize = 0;
    while i < la && i < lb
        invariant
            la == a@.len(),
            lb == b@.len(),
            0 <= i <= la,
            0 <= i <= lb,
            forall|k: int| 0 <= k < i ==> a@[k] == b@[k],
        decreases la - i,
    {
        let ca = a.get_char(i);
        let cb = b.get_char(i);
        if (ca as u32) < (cb as u32) {
            proof {
                lemma_lex_lt_skip(a@, b@, i as int);
                assert(a@.skip(i as int)[0] == a@[i as int]);
                assert(b@.skip(i as int)[0] == b@[i as int]);
            }
            return true;
        }
        if (cb as u32) < (ca as u32) {
            proof {
                lemma_lex_lt_skip(a@, b@, i as int);
                assert(a@.skip(i as int)[0] == a@[i as int]);
                assert(b@.skip(i as int)[0] == b@[i as int]);
            }
            return false;
        }
        assert(ca == cb);
        i = i + 1;
    }
    proof {
        lemma_lex_lt_skip(a@, b@, i as int);
    }
    i == la && i < lb
}

/// Tests two strings for equality of their character sequences.
pub fn str_eq(a: &str, b: &str) -> (r: bool)
    ensures
        r == (a@ == b@),
{
    let la: usize = a.unicode_len();
    let lb: usize = b.unicode_len();
    if la != lb {
        return false;
    }
    let mut i: usize = 0;
    while i < la
        invariant
            la == a@.len(),
            la == b@.len(),
            0 <= i <= la,
            forall|k: int| 0 <= k < i ==> a@[k] == b@[k],
        decreases la - i,
    {
        if (a.get_char(i) as u32) != (b.get_char(i) as u32) {
            return false;
        }
        i = i + 1;
    }
    proof {
        assert(a@ =~= b@);
    }
    true
}

/// Whether `v` holds a string equal to `s`.
pub fn contains_string(v: &Vec<String>, s: &str) -> (r: bool)
    ensures
        r == contains_str(v@, s@),
{
    let mut i: usize = 0;
    while i < v.len()
        invariant
            0 <= i <= v@.len(),
            forall|k: int| 0 <= k < i ==> v@[k]@ != s@,
        decreases v@.len() - i,
    {
        if str_eq(v[i].as_str(), s) {
            return true;
        }
        i = i + 1;
    }
    false
}

/// Sorts strings with pairwise-distinct contents into strictly increasing
/// lexicographic order. Sorting before serialization is what keeps every
/// generated artifact identical from run to run.
pub fn sort_strings(v: Vec<String>) -> (r: Vec<String>)
    requires
        distinct_views(v@),
    ensures
        strings_sorted(r@),
        strict_sorted(path_view(r@)),
        r@.len() == v@.len(),
        forall|s: Seq<char>| contains_str(r@, s) == contains_str(v@, s),
{
    let mut out: Vec<String> = Vec::new();
    let mut idx: usize = 0;
    while idx < v.len()
        invariant
            distinct_views(v@),
            0 <= idx <= v@.len(),
            out@.len() == idx,
            strings_sorted(out@),
            forall|s: Seq<char>| contains_str(out@, s) == contains_str(v@.take(idx as int), s),
        decreases v@.len() - idx,
    {
        let s = v[idx].clone();
        proof {
            // `s` is not yet in `out`: its view is new among the first `idx`.
            assert(!contains_str(v@.take(idx as int), s@));
            assert(!contains_str(out@, s@));
        }
        let mut pos: usize = 0;
        while pos < out.len() && str_lt(out[pos].as_str(), s.as_str())
            invariant
                0 <= pos <= out@.len(),
                forall|k: int| 0 <= k < pos ==> lex_lt(out@[k]@, s@),
            decreases out@.len() - pos,
        {
            pos = pos + 1;
        }
        proof {
            if pos < out@.len() {
                lemma_lex_lt_total(out@[pos as int]@, s@);
                assert(out@[pos as int]@ != s@);
                assert(lex_lt(s@, out@[pos as int]@));
            }
        }
        let ghost old_out = out@;
        out.insert(pos, s);
        proof {
            let n = old_out.len() as int;
            let p = pos as int;
            assert(forall|k: int| 0 <= k < p ==> out@[k] == old_out[k]);
            assert(out@[p] == s);
            assert(forall|k: int| p < k < out@.len() ==> out@[k] == old_out[k - 1]);
            // Everything before `p` is below `s`; everything at or after is above.
            assert forall|k: int| p <= k < n implies lex_lt(s@, old_out[k]@) by {
                if p < n {
                    if k == p {
                        assert(lex_lt(s@, old_out[p]@));
                    } else {
                        assert(lex_lt(old_out[p]@, old_out[k]@));
                        lemma_lex_lt_transitive(s@, old_out[p]@, old_out[k]@);
                    }
                }
            }
            assert forall|i: int, j: int| 0 <= i < j < out@.len() implies lex_lt(
                out@[i]@,
                out@[j]@,
            ) by {
                if i < p && j < p {
                    assert(lex_lt(old_out[i]@, old_out[j]@));
                } else if i < p && j == p {
                    assert(lex_lt(old_out[i]@, s@));
                } else if i < p && j > p {
                    assert(lex_lt(old_out[i]@, old_out[j - 1]@));
                } else if i == p && j > p {
                    assert(lex_lt(s@, old_out[j - 1]@));
                } else {
                    assert(i > p && j > p);
                    assert(lex_lt(old_out[i - 1]@, old_out[j - 1]@));
                }
            }
            assert forall|t: Seq<char>|
                contains_str(out@, t) == contains_str(v@.take(idx as int + 1), t) by {
                if contains_str(out@, t) {
                    let w = choose|i: int| 0 <= i < out@.len() && out@[i]@ == t;
                    if w == p {
                        assert(v@.take(idx as int + 1)[idx as int]@ == t);
                    } else {
                        let wo: int = if w < p { w } else { w - 1 };
                        assert(old_out[wo]@ == t);
                        assert(contains_str(old_out, t));
                        assert(contains_str(v@.take(idx as int), t));
                        let u = choose|i: int|
                            0 <= i < v@.take(idx as int).len() && (#[trigger] v@.take(
                                idx as int,
                            )[i])@ == t;
                        assert(v@.take(idx as int + 1)[u]@ == t);
                    }
                    assert(contains_str(v@.take(idx as int + 1), t));
                }
                if contains_str(v@.take(idx as int + 1), t) {
                    let u = choose|i: int|
                        0 <= i < v@.take(idx as int + 1).len() && (#[trigger] v@.take(
                            idx as int + 1,
                        )[i])@ == t;
                    if u == idx as int {
                        assert(out@[p]@ == t);
                    } else {
                        assert(v@.take(idx as int)[u]@ == t);
                        assert(contains_str(v@.take(idx as int), t));
                        assert(contains_str(old_out, t));
                        let w = choose|i: int| 0 <= i < old_out.len() && old_out[i]@ == t;
                        if w < p {
                            assert(out@[w]@ == t);
                        } else {
                            assert(out@[w + 1]@ == t);
                        }
                    }
                    assert(contains_str(out@, t));
                }
            }
        }
        idx = idx + 1;
    }
    proof {
        assert(v@.take(v@.len() as int) =~= v@);
        lemma_strings_sorted_views(out@);
    }
    out
}

/// Two strictly sorted string lists with the same members are equal.
pub proof fn lemma_sorted_distinct_equal(a: Seq<String>, b: Seq<String>)
    requires
        strings_sorted(a),
        strings_sorted(b),
        forall|s: Seq<char>| contains_str(a, s) == contains_str(b, s),
    ensures
        path_view(a) == path_view(b),
    decreases a.len(),
{
    assert(forall|k: int| 0 <= k < a.len() ==> #[trigger] path_view(a)[k] == a[k]@);
    assert(forall|k: int| 0 <= k < b.len() ==> #[trigger] path_view(b)[k] == b[k]@);
    if a.len() == 0 {
        if b.len() > 0 {
            assert(contains_str(b, b[0]@));
            assert(contains_str(a, b[0]@));
            assert(false);
        }
        assert(path_view(a) =~= path_view(b));
    } else {
        if b.len() == 0 {
            assert(contains_str(a, a[0]@));
            assert(contains_str(b, a[0]@));
            assert(false);
        }
        // The heads are equal: each head is a member of the other list, and
        // anything after a head is strictly greater.
        assert(contains_str(a, a[0]@));
        let j = choose|i: int| 0 <= i < b.len() && b[i]@ == a[0]@;
        assert(contains_str(b, b[0]@));
        let i0 = choose|i: int| 0 <= i < a.len() && a[i]@ == b[0]@;
        if j > 0 {
            assert(lex_lt(b[0]@, b[j]@));
            if i0 > 0 {
                assert(lex_lt(a[0]@, a[i0]@));
                lemma_lex_lt_asymmetric(a[0]@, b[0]@);
                assert(false);
            } else {
                lemma_lex_lt_irreflexive(a[0]@);
                assert(false);
            }
        }
        assert(b[0]@ == a[0]@);
        let at = a.skip(1);
        let bt = b.skip(1);
        assert forall|i: int, j: int| 0 <= i < j < at.len() implies lex_lt(at[i]@, at[j]@) by {
            assert(lex_lt(a[i + 1]@, a[j + 1]@));
        }
        assert forall|i: int, j: int| 0 <= i < j < bt.len() implies lex_lt(bt[i]@, bt[j]@) by {
            assert(lex_lt(b[i + 1]@, b[j + 1]@));
        }
        assert forall|s: Seq<char>| contains_str(at, s) == contains_str(bt, s) by {
            if contains_str(at, s) {
                let k = choose|i: int| 0 <= i < at.len() && at[i]@ == s;
                assert(a[k + 1]@ == s);
                assert(contains_str(a, s));
                assert(lex_lt(a[0]@, s));
                let m = choose|i: int| 0 <= i < b.len() && b[i]@ == s;
                if m == 0 {
                    lemma_lex_lt_irreflexive(a[0]@);
                    assert(false);
                }
                assert(bt[m - 1]@ == s);
            }
            if contains_str(bt, s) {
                let k = choose|i: int| 0 <= i < bt.len() && bt[i]@ == s;
                assert(b[k + 1]@ == s);
                assert(contains_str(b, s));
                assert(lex_lt(b[0]@, s));
                let m = choose|i: int| 0 <= i < a.len() && a[i]@ == s;
                if m == 0 {
                    lemma_lex_lt_irreflexive(b[0]@);
                    assert(false);
                }
                assert(at[m - 1]@ == s);
            }
        }
        lemma_sorted_distinct_equal(at, bt);
        assert(path_view(at).len() == at.len());
        assert(path_view(bt).len() == bt.len());
        assert(a.len() == b.len());
        assert(path_view(a) =~= path_view(b)) by {
            assert forall|k: int| 0 <= k < a.len() implies #[trigger] path_view(a)[k]
                == path_view(b)[k] by {
                assert(path_view(a)[k] == a[k]@);
                assert(path_view(b)[k] == b[k]@);
                if k > 0 {
                    assert(path_view(at)[k - 1] == path_view(bt)[k - 1]);
                    assert(path_view(at)[k - 1] == at[k - 1]@);
                    assert(path_view(bt)[k - 1] == bt[k - 1]@);
                    assert(a[k]@ == at[k - 1]@);
                    assert(b[k]@ == bt[k - 1]@);
                }
            }
        }
    }
}

/// The path obtained by joining `v`'s components with `/`.
pub open spec fn join_view(v: Seq<Seq<char>>) -> Seq<char>
    decreases v.len(),
{
    if v.len() == 0 {
        Seq::empty()
    } else if v.len() == 1 {
        v[0]
    } else {
        join_view(v.drop_last()) + seq!['/'] + v.last()
    }
}

/// Joins path components with `/` separators.
pub fn join_path(components: &Vec<String>) -> (r: String)
    ensures
        r@ == join_view(path_view(components@)),
{
    let mut out = String::new();
    let mut i: usize = 0;
    proof {
        reveal_strlit("/");
    }
    while i < components.len()
        invariant
            0 <= i <= components@.len(),
            "/"@ =~= seq!['/'],
            out@ == join_view(path_view(components@.take(i as int))),
        decreases components@.len() - i,
    {
        if i > 0 {
            out.append("/");
        }
        out.append(components[i].as_str());
        proof {
            let pv = path_view(components@.take(i as int + 1));
            assert(pv.drop_last() =~= path_view(components@.take(i as int)));
            assert(pv.last() == components@[i as int]@);
            if i == 0 {
                assert(out@ =~= join_view(pv));
            } else {
                assert(out@ =~= join_view(pv));
            }
        }
        i = i + 1;
    }
    proof {
        assert(components@.take(components@.len() as int) =~= components@);
    }
    out
}

/// Whether `c` can stand as one ordinary name in a relative path: nonempty,
/// holding no separator, and naming neither the current nor the parent
/// directory.
pub open spec fn valid_path_component(c: Seq<char>) -> bool {
    c.len() > 0 && !c.contains('/') && c != seq!['.'] && c != seq!['.', '.']
}

/// Checks that `s` is an ordinary path component.
pub fn is_valid_path_component(s: &str) -> (r: bool)
    ensures
        r == valid_path_component(s@),
{
    let n: usize = s.unicode_len();
    if n == 0 {
        return false;
    }
    let mut i: usize = 0;
    let mut dots_only = true;
    while i < n
        invariant
            n == s@.len(),
            0 <= i <= n,
            forall|k: int| 0 <= k < i ==> s@[k] != '/',
            dots_only == (forall|k: int| 0 <= k < i ==> s@[k] == '.'),
        decreases n - i,
    {
        let c = s.get_char(i);
        if c == '/' {
            return false;
        }
        if c != '.' {
            dots_only = false;
        }
        i = i + 1;
    }
    if dots_only && n <= 2 {
        proof {
            if n == 1 {
                assert(s@ =~= seq!['.']);
            } else {
                assert(s@ =~= seq!['.', '.']);
            }
        }
        return false;
    }
    proof {
        if s@.contains('/') {
            let k = choose|k: int| 0 <= k < s@.len() && s@[k] == '/';
            assert(false);
        }
        if n > 2 || !dots_only {
            if s@ == seq!['.'] {
                assert(s@[0] == '.');
                assert(false);
            }
            if s@ == seq!['.', '.'] {
                assert(s@[0] == '.' && s@[1] == '.');
                assert(false);
            }
        }
    }
    true
}

/// Tests two component paths for equality of their contents.
pub fn path_eq(a: &Vec<String>, b: &Vec<String>) -> (r: bool)
    ensures
        r == (path_view(a@) == path_view(b@)),
{
    if a.len() != b.len() {
        proof {
            assert(path_view(a@).len() != path_view(b@).len());
        }
        return false;
    }
    let mut i: usize = 0;
    while i < a.len()
        invariant
            a@.len() == b@.len(),
            0 <= i <= a@.len(),
            forall|k: int| 0 <= k < i ==> a@[k]@ == b@[k]@,
        decreases a@.len() - i,
    {
        if !str_eq(a[i].as_str(), b[i].as_str()) {
            proof {
                assert(path_view(a@)[i as int] != path_view(b@)[i as int]);
            }
            return false;
        }
        i = i + 1;
    }
    proof {
        assert(path_view(a@) =~= path_view(b@));
    }
    true
}

/// The first `k` components of `v`, as a new vector.
pub fn prefix_of(v: &Vec<String>, k: usize) -> (r: Vec<String>)
    requires
        k <= v@.len(),
    ensures
        r@ == v@.take(k as int),
{
    let mut r = clone_strings(v);
    r.truncate(k);
    r
}

/// Clones a vector of strings; the copy's view equals the original's.
pub fn clone_strings(v: &Vec<String>) -> (r: Vec<String>)
    ensures
        r@ == v@,
{
    let r = v.clone();
    proof {
        assert forall|i: int| 0 <= i < v@.len() implies r@[i] == v@[i] by {
            assert(cloned::<String>(v@[i], r@[i]));
        }
        assert(r@ =~= v@);
    }
    r
}

/// Whether `needle` occurs as a contiguous part of `hay`.
pub open spec fn contains_seq(hay: Seq<char>, needle: Seq<char>) -> bool {
    exists|k: int|
        0 <= k && k + needle.len() <= hay.len() && #[trigger] hay.subrange(k, k + needle.len())
            == needle
}

/// Whether `needle` occurs as a substring of `hay`.
pub fn contains_substring(hay: &str, needle: &str) -> (r: bool)
    ensures
        r == contains_seq(hay@, needle@),
{
    let lh: usize = hay.unicode_len();
    let ln: usize = needle.unicode_len();
    if ln > lh {
        return false;
    }
    let mut k: usize = 0;
    while k <= lh - ln
        invariant
            lh == hay@.len(),
            ln == needle@.len(),
            ln <= lh,
            0 <= k <= lh - ln + 1,
            forall|m: int|
                0 <= m < k ==> #[trigger] hay@.subrange(m, m + needle@.len()) != needle@,
        decreases lh - ln - k + 1,
    {
        let part = hay.substring_char(k, k + ln);
        if str_eq(part, needle) {
            assert(hay@.subrange(k as int, k as int + needle@.len()) == needle@);
            return true;
        }
        proof {
            if needle@.len() == 0 {
                assert(hay@.subrange(k as int, k as int) =~= needle@);
                assert(false);
            }
        }
        k = k + 1;
    }
    false
}

} // verus!

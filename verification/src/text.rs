//! Substring containment and lowercase folding over character sequences.

use vstd::prelude::*;

verus! {

/// `needle` occurs in `hay` as a contiguous substring starting at
/// character index `i`.
pub open spec fn match_at(hay: Seq<char>, needle: Seq<char>, i: int) -> bool {
    &&& 0 <= i
    &&& i + needle.len() <= hay.len()
    &&& hay.subrange(i, i + needle.len()) == needle
}

/// `needle` occurs somewhere in `hay` as a contiguous substring.
pub open spec fn has_substring(hay: Seq<char>, needle: Seq<char>) -> bool {
    exists|i: int| match_at(hay, needle, i)
}

/// An empty needle occurs in every haystack.
pub proof fn lemma_empty_needle(hay: Seq<char>, needle: Seq<char>)
    requires
        needle.len() == 0,
    ensures
        has_substring(hay, needle),
{
    assert(hay.subrange(0, 0) =~= needle);
    assert(match_at(hay, needle, 0));
}

/// Whether `needle` occurs in `hay` starting at character index `i`.
fn occurs_at(hay: &str, needle: &str, i: usize) -> (r: bool)
    requires
        i + needle@.len() <= hay@.len(),
        hay@.len() <= usize::MAX,
    ensures
        r == match_at(hay@, needle@, i as int),
{
    let m = needle.unicode_len();
    let mut j: usize = 0;
    while j < m
        invariant
            m == needle@.len(),
            i + m <= hay@.len(),
            hay@.len() <= usize::MAX,
            j <= m,
            forall|k: int| 0 <= k < j ==> hay@[i + k] == needle@[k],
        decreases m - j,
    {
        if hay.get_char(i + j) != needle.get_char(j) {
            proof {
                assert(hay@.subrange(i as int, i + m) != needle@) by {
                    if hay@.subrange(i as int, i + m) == needle@ {
                        assert(hay@.subrange(i as int, i + m)[j as int] == hay@[i + j]);
                    }
                }
            }
            return false;
        }
        j += 1;
    }
    proof {
        assert(hay@.subrange(i as int, i + m) =~= needle@);
    }
    true
}

/// Whether `needle` occurs anywhere in `hay`; decides `has_substring`.
pub fn contains_substring(hay: &str, needle: &str) -> (r: bool)
    ensures
        r == has_substring(hay@, needle@),
{
    let n = hay.unicode_len();
    let m = needle.unicode_len();
    if m > n {
        return false;
    }
    let mut i: usize = 0;
    loop
        invariant
            n == hay@.len(),
            m == needle@.len(),
            m <= n,
            i <= n - m,
            forall|k: int| 0 <= k < i ==> !match_at(hay@, needle@, k),
        ensures
            forall|k: int| 0 <= k <= n - m ==> !match_at(hay@, needle@, k),
        decreases n - m - i,
    {
        if occurs_at(hay, needle, i) {
            return true;
        }
        if i == n - m {
            break;
        }
        i += 1;
    }
    proof {
        assert forall|k: int| !match_at(hay@, needle@, k) by {
            if 0 <= k && k + needle@.len() <= hay@.len() {
                assert(k <= n - m);
            }
        }
    }
    false
}

/// The sequence of characters that the lowercase mapping assigns to `c`.
pub uninterp spec fn lower_char(c: char) -> Seq<char>;

/// Relies on `char::to_lowercase`: the lowercase equivalent of a character
/// is a pure function of that character alone (Unicode's per-character
/// lowercase mapping, independent of locale or context).
#[verifier::external_body]
fn lowercase_char(c: char) -> (r: String)
    ensures
        r@ == lower_char(c),
{
    c.to_lowercase().collect()
}

/// The lowercase folding of a character sequence: each character replaced by
/// its lowercase mapping, in order.
pub open spec fn lower(s: Seq<char>) -> Seq<char>
    decreases s.len(),
{
    if s.len() == 0 {
        Seq::empty()
    } else {
        lower_char(s[0]) + lower(s.drop_first())
    }
}

/// Lowercase folding distributes over concatenation.
pub proof fn lemma_lower_concat(a: Seq<char>, b: Seq<char>)
    ensures
        lower(a + b) == lower(a) + lower(b),
    decreases a.len(),
{
    if a.len() == 0 {
        assert(a + b =~= b);
        assert(lower(a) + lower(b) =~= lower(b));
    } else {
        assert((a + b).drop_first() =~= a.drop_first() + b);
        lemma_lower_concat(a.drop_first(), b);
        assert((a + b)[0] == a[0]);
        assert(lower(a + b) =~= lower(a) + lower(b));
    }
}

/// Folding a sequence extended by one character appends that character's
/// lowercase mapping.
proof fn lemma_lower_take_step(s: Seq<char>, i: int)
    requires
        0 <= i < s.len(),
    ensures
        lower(s.take(i + 1)) == lower(s.take(i)) + lower_char(s[i]),
{
    let single = seq![s[i]];
    assert(s.take(i + 1) =~= s.take(i) + single);
    lemma_lower_concat(s.take(i), single);
    assert(single.drop_first() =~= Seq::<char>::empty());
    assert(lower(single) == lower_char(single[0]) + lower(single.drop_first()));
    assert(lower(Seq::<char>::empty()) == Seq::<char>::empty());
    assert(lower(single) =~= lower_char(s[i]));
}

/// Lowercase folding preserves substring containment: if the needle occurs
/// in the haystack, its folding occurs in the haystack's folding.
pub proof fn lemma_lower_preserves_substring(hay: Seq<char>, needle: Seq<char>)
    requires
        has_substring(hay, needle),
    ensures
        has_substring(lower(hay), lower(needle)),
{
    let i = choose|i: int| match_at(hay, needle, i);
    let pre = hay.subrange(0, i);
    let suf = hay.subrange(i + needle.len(), hay.len() as int);
    assert(hay =~= (pre + needle) + suf);
    lemma_lower_concat(pre + needle, suf);
    lemma_lower_concat(pre, needle);
    let j = lower(pre).len() as int;
    assert(lower(hay).subrange(j, j + lower(needle).len()) =~= lower(needle));
    assert(match_at(lower(hay), lower(needle), j));
}

/// Computes the lowercase folding of a string.
pub fn to_lowercase(s: &str) -> (r: String)
    ensures
        r@ == lower(s@),
{
    let n = s.unicode_len();
    let mut r = String::new();
    let mut i: usize = 0;
    while i < n
        invariant
            n == s@.len(),
            i <= n,
            r@ == lower(s@.take(i as int)),
        decreases n - i,
    {
        let c = s.get_char(i);
        let lc = lowercase_char(c);
        r.append(lc.as_str());
        proof {
            lemma_lower_take_step(s@, i as int);
        }
        i += 1;
    }
    proof {
        assert(s@.take(n as int) =~= s@);
    }
    r
}

} // verus!

//! Splitting file contents into lines.
//!
//! A line is a maximal run of text between newline separators. A carriage
//! return immediately before a newline is part of the separator, and a
//! trailing newline produces no empty final line.

use vstd::prelude::*;

verus! {

/// Index of the first newline in `s`, or `s.len()` if there is none.
pub open spec fn first_newline(s: Seq<char>) -> nat
    decreases s.len(),
{
    if s.len() == 0 {
        0
    } else if s[0] == '\n' {
        0
    } else {
        1 + first_newline(s.drop_first())
    }
}

/// The characterization pins `first_newline` down: if nothing before `k` is
/// a newline and `k` is a newline or the end, then `k` is the first newline.
pub proof fn lemma_first_newline_is(s: Seq<char>, k: int)
    requires
        0 <= k <= s.len(),
        forall|m: int| 0 <= m < k ==> s[m] != '\n',
        k < s.len() ==> s[k] == '\n',
    ensures
        first_newline(s) == k,
    decreases s.len(),
{
    if s.len() == 0 {
    } else if s[0] == '\n' {
        assert(k == 0);
    } else {
        assert(k >= 1);
        assert forall|m: int| 0 <= m < k - 1 implies s.drop_first()[m] != '\n' by {
            assert(s.drop_first()[m] == s[m + 1]);
        }
        lemma_first_newline_is(s.drop_first(), k - 1);
    }
}

/// A line with a trailing carriage return removed: a `"\r\n"` line ending
/// leaves no carriage return on the line.
pub open spec fn strip_cr(l: Seq<char>) -> Seq<char> {
    if l.len() > 0 && l[l.len() - 1] == '\r' {
        l.drop_last()
    } else {
        l
    }
}

/// The lines of `s`, in order: text up to the first newline (with a
/// carriage return before that newline stripped), then the lines of what
/// follows the newline. Text with no final newline is a last line as it
/// stands; a trailing newline produces no empty final line.
pub open spec fn lines_of(s: Seq<char>) -> Seq<Seq<char>>
    decreases s.len(),
{
    if s.len() == 0 {
        Seq::empty()
    } else {
        let i = first_newline(s);
        if i >= s.len() {
            seq![s]
        } else {
            seq![strip_cr(s.take(i as int))] + lines_of(s.skip(i as int + 1))
        }
    }
}

/// Index of the first newline at or after `from`, or the length if none.
fn find_newline(s: &str, from: usize) -> (r: usize)
    requires
        from <= s@.len(),
    ensures
        from <= r <= s@.len(),
        r - from == first_newline(s@.skip(from as int)),
{
    let n = s.unicode_len();
    let mut j: usize = from;
    while j < n
        invariant
            from <= j <= n,
            n == s@.len(),
            forall|k: int| from <= k < j ==> s@[k] != '\n',
        decreases n - j,
    {
        if s.get_char(j) == '\n' {
            proof {
                let t = s@.skip(from as int);
                assert forall|m: int| 0 <= m < j - from implies t[m] != '\n' by {
                    assert(t[m] == s@[from + m]);
                }
                assert(t[j - from] == s@[j as int]);
                lemma_first_newline_is(t, j - from);
            }
            return j;
        }
        j += 1;
    }
    proof {
        let t = s@.skip(from as int);
        assert forall|m: int| 0 <= m < n - from implies t[m] != '\n' by {
            assert(t[m] == s@[from + m]);
        }
        lemma_first_newline_is(t, n - from);
    }
    n
}

/// Splits `contents` into its lines; returns slices of the original text,
/// in original order, with the separators removed.
pub fn split_lines<'a>(contents: &'a str) -> (r: Vec<&'a str>)
    ensures
        r.deep_view() == lines_of(contents@),
{
    let n = contents.unicode_len();
    let mut r: Vec<&'a str> = Vec::new();
    let mut start: usize = 0;
    proof {
        assert(contents@.skip(0) =~= contents@);
        assert(r.deep_view() + lines_of(contents@) =~= lines_of(contents@));
    }
    while start < n
        invariant
            start <= n,
            n == contents@.len(),
            r.deep_view() + lines_of(contents@.skip(start as int)) == lines_of(contents@),
        decreases n - start,
    {
        let ghost prev = r.deep_view();
        let ghost rest = contents@.skip(start as int);
        let j = find_newline(contents, start);
        if j == n {
            let line = contents.substring_char(start, n);
            r.push(line);
            proof {
                assert(first_newline(rest) == rest.len());
                assert(lines_of(rest) =~= seq![rest]);
                assert(line@ =~= rest);
                assert(r.deep_view() =~= prev.push(rest));
                assert(contents@.skip(n as int) =~= Seq::<char>::empty());
                assert(r.deep_view() + lines_of(contents@.skip(n as int)) =~= prev + lines_of(
                    rest,
                ));
            }
            start = n;
        } else {
            let stripped = j > start && contents.get_char(j - 1) == '\r';
            let end = if stripped {
                j - 1
            } else {
                j
            };
            let line = contents.substring_char(start, end);
            r.push(line);
            proof {
                assert(first_newline(rest) == j - start);
                assert(rest.take(j - start) =~= contents@.subrange(start as int, j as int));
                assert(line@ =~= strip_cr(rest.take(j - start)));
                assert(rest.skip(j - start + 1) =~= contents@.skip(j + 1));
                assert(lines_of(rest) == seq![strip_cr(rest.take(j - start))] + lines_of(
                    contents@.skip(j + 1),
                ));
                assert(r.deep_view() =~= prev.push(line@));
                assert(r.deep_view() + lines_of(contents@.skip(j + 1)) =~= prev + lines_of(rest));
            }
            start = j + 1;
        }
    }
    proof {
        assert(contents@.skip(start as int) =~= Seq::<char>::empty());
        assert(r.deep_view() + lines_of(contents@.skip(start as int)) =~= r.deep_view());
    }
    r
}

} // verus!

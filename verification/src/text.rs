//! Character-level searching and literal, non-overlapping substring
//! replacement, the engine behind template rendering and account filtering.

use vstd::prelude::*;

verus! {

/// `pat` occurs in `text` starting at position `i`.
pub open spec fn occurs_at(text: Seq<char>, pat: Seq<char>, i: int) -> bool {
    0 <= i && i + pat.len() <= text.len() && text.subrange(i, i + pat.len() as int) == pat
}

/// `pat` occurs somewhere in `text`.
pub open spec fn occurs(text: Seq<char>, pat: Seq<char>) -> bool {
    exists|i: int| occurs_at(text, pat, i)
}

/// The result of replacing every occurrence of `pat` in `text` by `rep`,
/// scanning left to right and never overlapping matches. An empty pattern
/// replaces nothing.
pub open spec fn replaced(text: Seq<char>, pat: Seq<char>, rep: Seq<char>) -> Seq<char>
    decreases text.len(),
{
    if pat.len() == 0 || text.len() < pat.len() {
        text
    } else if text.subrange(0, pat.len() as int) == pat {
        rep + replaced(text.skip(pat.len() as int), pat, rep)
    } else {
        seq![text[0]] + replaced(text.skip(1), pat, rep)
    }
}

/// Relies on `String::push`: appends the given character to the end of the
/// string.
#[verifier::external_body]
pub(crate) fn push_char(s: &mut String, c: char)
    ensures
        final(s)@ == old(s)@.push(c),
{
    s.push(c);
}

/// Decides whether `pat@` occurs in `text@` at position `i`.
fn match_at(text: &str, pat: &str, i: usize, n: usize, m: usize) -> (b: bool)
    requires
        n == text@.len(),
        m == pat@.len(),
        i + m <= n,
    ensures
        b == occurs_at(text@, pat@, i as int),
{
    let mut j: usize = 0;
    while j < m
        invariant
            n == text@.len(),
            m == pat@.len(),
            i + m <= n,
            j <= m,
            forall|k: int| 0 <= k < j ==> text@[i + k] == pat@[k],
        decreases m - j,
    {
        if text.get_char(i + j) != pat.get_char(j) {
            proof {
                assert(text@.subrange(i as int, i + m as int)[j as int] == text@[i + j]);
            }
            return false;
        }
        j += 1;
    }
    proof {
        assert(text@.subrange(i as int, i + m as int) =~= pat@);
    }
    true
}

/// Decides whether `pat@` occurs anywhere in `text@`.
pub fn contains_sub(text: &str, pat: &str) -> (b: bool)
    ensures
        b == occurs(text@, pat@),
{
    let n = text.unicode_len();
    let m = pat.unicode_len();
    if m == 0 {
        proof {
            assert(text@.subrange(0, 0) =~= pat@);
            assert(occurs_at(text@, pat@, 0));
        }
        return true;
    }
    if m > n {
        return false;
    }
    let mut i: usize = 0;
    while i <= n - m
        invariant
            n == text@.len(),
            m == pat@.len(),
            1 <= m <= n,
            i <= n - m + 1,
            forall|k: int| 0 <= k < i ==> !occurs_at(text@, pat@, k),
        decreases n - i,
    {
        if match_at(text, pat, i, n, m) {
            return true;
        }
        i += 1;
    }
    false
}

/// Replaces every occurrence of `pat@` in `text@` by `rep@`, leftmost first,
/// without overlap.
pub fn replace_all(text: &str, pat: &str, rep: &str) -> (r: String)
    ensures
        r@ == replaced(text@, pat@, rep@),
{
    let n = text.unicode_len();
    let m = pat.unicode_len();
    if m == 0 {
        return text.to_owned();
    }
    let mut out = String::new();
    let mut i: usize = 0;
    proof {
        assert(text@.skip(0) =~= text@);
        assert(out@ + replaced(text@, pat@, rep@) =~= replaced(text@, pat@, rep@));
    }
    while i < n
        invariant
            n == text@.len(),
            m == pat@.len(),
            m >= 1,
            i <= n,
            replaced(text@, pat@, rep@) == out@ + replaced(text@.skip(i as int), pat@, rep@),
        decreases n - i,
    {
        let ghost tail = text@.skip(i as int);
        if n - i >= m && match_at(text, pat, i, n, m) {
            out.append(rep);
            proof {
                assert(tail.subrange(0, m as int) =~= text@.subrange(i as int, i + m as int));
                assert(tail.skip(m as int) =~= text@.skip(i + m as int));
                assert(replaced(tail, pat@, rep@) == rep@ + replaced(
                    text@.skip(i + m as int),
                    pat@,
                    rep@,
                ));
            }
            i += m;
        } else {
            let ghost prev = out@;
            let c = text.get_char(i);
            push_char(&mut out, c);
            proof {
                assert(tail.skip(1) =~= text@.skip(i + 1));
                assert(tail[0] == text@[i as int]);
                if tail.len() < m as int {
                    assert(text@.skip(i + 1).len() < m as int);
                    assert(replaced(text@.skip(i + 1), pat@, rep@) == text@.skip(i + 1));
                    assert(replaced(tail, pat@, rep@) == tail);
                    assert(tail =~= seq![text@[i as int]] + text@.skip(i + 1));
                } else {
                    assert(tail.subrange(0, m as int) =~= text@.subrange(
                        i as int,
                        i + m as int,
                    ));
                    assert(tail.subrange(0, m as int) != pat@);
                }
                assert(replaced(tail, pat@, rep@) == seq![text@[i as int]] + replaced(
                    text@.skip(i + 1),
                    pat@,
                    rep@,
                ));
                assert(out@ =~= prev + seq![text@[i as int]]);
                assert(out@ + replaced(text@.skip(i + 1), pat@, rep@) =~= prev + replaced(
                    tail,
                    pat@,
                    rep@,
                ));
            }
            i += 1;
        }
    }
    proof {
        assert(text@.skip(n as int) =~= Seq::<char>::empty());
    }
    out
}

/// `p` is an initial segment of `s`.
pub open spec fn is_prefix(p: Seq<char>, s: Seq<char>) -> bool {
    p.len() <= s.len() && s.subrange(0, p.len() as int) == p
}

/// No character of `rep` equals any character of `pat`.
pub open spec fn char_disjoint(rep: Seq<char>, pat: Seq<char>) -> bool {
    forall|j: int, k: int|
        0 <= j < rep.len() && 0 <= k < pat.len() ==> rep[j] != pat[k]
}

/// Law: replacing a pattern that does not occur in a text leaves the text
/// unchanged.
pub proof fn lemma_replaced_identity(text: Seq<char>, pat: Seq<char>, rep: Seq<char>)
    requires
        !occurs(text, pat),
    ensures
        replaced(text, pat, rep) == text,
    decreases text.len(),
{
    if pat.len() == 0 || text.len() < pat.len() {
    } else if text.subrange(0, pat.len() as int) == pat {
        assert(occurs_at(text, pat, 0));
        assert(replaced(text, pat, rep) == text);
    } else {
        assert forall|i: int| !occurs_at(text.skip(1), pat, i) by {
            if 0 <= i && i + pat.len() <= text.skip(1).len() {
                assert(text.skip(1).subrange(i, i + pat.len() as int) =~= text.subrange(
                    i + 1,
                    i + 1 + pat.len(),
                ));
                assert(!occurs_at(text, pat, i + 1));
                assert(text.skip(1).subrange(i, i + pat.len() as int) != pat);
            }
        }
        assert(!occurs(text.skip(1), pat));
        lemma_replaced_identity(text.skip(1), pat, rep);
        assert(seq![text[0]] + text.skip(1) =~= text);
    }
}

proof fn lemma_replaced_excludes_aux(text: Seq<char>, pat: Seq<char>, rep: Seq<char>)
    requires
        pat.len() >= 1,
        rep.len() >= 1,
        char_disjoint(rep, pat),
    ensures
        !occurs(replaced(text, pat, rep), pat),
        forall|j: int|
            1 <= j < pat.len() && is_prefix(pat.skip(j), replaced(text, pat, rep)) ==> is_prefix(
                pat.skip(j),
                text,
            ),
    decreases text.len(),
{
    let m = pat.len() as int;
    let out = replaced(text, pat, rep);
    if text.len() < pat.len() {
        assert(out == text);
        assert forall|i: int| !occurs_at(out, pat, i) by {
            assert(out.len() < m);
        }
        assert(!occurs(out, pat));
    } else if text.subrange(0, m) == pat {
        let rest = text.skip(m);
        let r = replaced(rest, pat, rep);
        lemma_replaced_excludes_aux(rest, pat, rep);
        assert(out == rep + r);
        assert forall|i: int| !occurs_at(out, pat, i) by {
            if 0 <= i && i + m <= out.len() {
                if i < rep.len() {
                    assert(out.subrange(i, i + m)[0] == out[i]);
                    assert(out[i] == rep[i]);
                    assert(rep[i] != pat[0]);
                    assert(out.subrange(i, i + m) != pat);
                } else {
                    let i2 = i - rep.len() as int;
                    assert(out.subrange(i, i + m) =~= r.subrange(i2, i2 + m));
                    assert(!occurs_at(r, pat, i2));
                    assert(out.subrange(i, i + m) != pat);
                }
            }
        }
        assert(!occurs(out, pat));
        assert forall|j: int|
            1 <= j < m && is_prefix(pat.skip(j), out) implies is_prefix(pat.skip(j), text) by {
            assert(pat.skip(j).len() == m - j);
            assert(out.subrange(0, m - j)[0] == out[0]);
            assert(out[0] == rep[0]);
            assert(pat.skip(j)[0] == pat[j]);
            assert(rep[0] != pat[j]);
            assert(is_prefix(pat.skip(j), text));
        }
    } else {
        let rest = text.skip(1);
        let r = replaced(rest, pat, rep);
        lemma_replaced_excludes_aux(rest, pat, rep);
        assert(out == seq![text[0]] + r);
        assert(out[0] == text[0]);
        assert forall|j: int|
            1 <= j < m && is_prefix(pat.skip(j), out) implies is_prefix(pat.skip(j), text) by {
            assert(pat.skip(j).len() == m - j);
            assert(out.subrange(0, m - j)[0] == out[0]);
            assert(pat.skip(j)[0] == pat[j]);
            assert(pat[j] == text[0]);
            if j + 1 < m {
                assert(pat.skip(j + 1) =~= pat.skip(j).skip(1));
                assert(pat.skip(j).skip(1) =~= out.subrange(0, m - j).skip(1));
                assert(out.subrange(0, m - j).skip(1) =~= r.subrange(0, m - j - 1));
                assert(is_prefix(pat.skip(j + 1), r));
                assert(is_prefix(pat.skip(j + 1), rest));
                assert forall|k: int| 0 <= k < m - j implies text.subrange(0, m - j)[k]
                    == pat.skip(j)[k] by {
                    if k >= 1 {
                        assert(rest.subrange(0, m - j - 1) == pat.skip(j + 1));
                        assert(rest.subrange(0, m - j - 1)[k - 1] == rest[k - 1]);
                        assert(pat.skip(j + 1)[k - 1] == pat[j + k]);
                        assert(rest[k - 1] == text[k]);
                    }
                }
                assert(text.subrange(0, m - j) =~= pat.skip(j));
                assert(is_prefix(pat.skip(j), text));
            } else {
                assert(pat.skip(j) =~= seq![pat[j]]);
                assert(text.subrange(0, 1) =~= pat.skip(j));
                assert(is_prefix(pat.skip(j), text));
            }
        }
        assert forall|i: int| !occurs_at(out, pat, i) by {
            if 0 <= i && i + m <= out.len() {
                if i >= 1 {
                    assert(out.subrange(i, i + m) =~= r.subrange(i - 1, i - 1 + m));
                    assert(!occurs_at(r, pat, i - 1));
                    assert(out.subrange(i, i + m) != pat);
                } else {
                    if out.subrange(0, m) == pat {
                        assert(pat[0] == out[0]);
                        if m >= 2 {
                            assert(pat.skip(1) =~= out.subrange(0, m).skip(1));
                            assert(out.subrange(0, m).skip(1) =~= r.subrange(0, m - 1));
                            assert(is_prefix(pat.skip(1), r));
                            assert(is_prefix(pat.skip(1), rest));
                            assert forall|k: int| 0 <= k < m implies text.subrange(0, m)[k]
                                == pat[k] by {
                                if k >= 1 {
                                    assert(rest.subrange(0, m - 1) == pat.skip(1));
                                    assert(rest.subrange(0, m - 1)[k - 1] == rest[k - 1]);
                                    assert(pat.skip(1)[k - 1] == pat[k]);
                                    assert(rest[k - 1] == text[k]);
                                }
                            }
                            assert(text.subrange(0, m) =~= pat);
                        } else {
                            assert(text.subrange(0, m) =~= pat);
                        }
                    }
                    assert(out.subrange(0, m) != pat);
                }
            }
        }
        assert(!occurs(out, pat));
    }
}

/// Law: after replacement the pattern occurs nowhere in the result, provided
/// the pattern is non-empty and the replacement value shares no character
/// with the pattern.
pub proof fn lemma_replaced_free_of_pattern(text: Seq<char>, pat: Seq<char>, rep: Seq<char>)
    requires
        pat.len() >= 1,
        rep.len() >= 1,
        char_disjoint(rep, pat),
    ensures
        !occurs(replaced(text, pat, rep), pat),
{
    lemma_replaced_excludes_aux(text, pat, rep);
}

} // verus!

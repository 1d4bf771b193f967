//! Image file naming: the name components joined by dashes with a
//! whole-second timestamp, and the image extension replacing any extension
//! the joined name already carries.

use vstd::prelude::*;
use crate::text::push_char;

verus! {

/// The decimal digit character for `d` (digits above nine saturate at `'9'`).
pub open spec fn digit_char(d: int) -> char {
    if d == 0 {
        '0'
    } else if d == 1 {
        '1'
    } else if d == 2 {
        '2'
    } else if d == 3 {
        '3'
    } else if d == 4 {
        '4'
    } else if d == 5 {
        '5'
    } else if d == 6 {
        '6'
    } else if d == 7 {
        '7'
    } else if d == 8 {
        '8'
    } else {
        '9'
    }
}

/// The numeric value of a decimal digit character; other characters give a
/// value outside the digit range.
pub open spec fn digit_val(c: char) -> int {
    if c == '0' {
        0
    } else if c == '1' {
        1
    } else if c == '2' {
        2
    } else if c == '3' {
        3
    } else if c == '4' {
        4
    } else if c == '5' {
        5
    } else if c == '6' {
        6
    } else if c == '7' {
        7
    } else if c == '8' {
        8
    } else if c == '9' {
        9
    } else {
        -1
    }
}

/// The decimal rendering of a non-negative integer, most significant digit
/// first, without leading zeros.
pub open spec fn dec_of(n: int) -> Seq<char>
    decreases n,
{
    if n <= 9 {
        seq![digit_char(n)]
    } else {
        dec_of(n / 10).push(digit_char(n % 10))
    }
}

/// The numeric value a digit sequence denotes.
pub open spec fn dec_val(s: Seq<char>) -> int
    decreases s.len(),
{
    if s.len() == 0 {
        0
    } else {
        dec_val(s.drop_last()) * 10 + digit_val(s.last())
    }
}

proof fn lemma_dec_of_val(n: int)
    requires
        n >= 0,
    ensures
        dec_val(dec_of(n)) == n,
    decreases n,
{
    if n <= 9 {
        let s = dec_of(n);
        assert(s == seq![digit_char(n)]);
        assert(s.drop_last() =~= Seq::<char>::empty());
        assert(dec_val(Seq::<char>::empty()) == 0);
        assert(dec_val(s) == dec_val(s.drop_last()) * 10 + digit_val(s.last()));
        assert(digit_val(digit_char(n)) == n);
    } else {
        lemma_dec_of_val(n / 10);
        let s = dec_of(n);
        assert(s.drop_last() =~= dec_of(n / 10));
        assert(s.last() == digit_char(n % 10));
        assert(digit_val(digit_char(n % 10)) == n % 10);
        assert(dec_val(s) == dec_val(s.drop_last()) * 10 + digit_val(s.last()));
    }
}

/// Law: distinct non-negative integers have distinct decimal renderings.
pub proof fn lemma_dec_of_injective(a: int, b: int)
    requires
        a >= 0,
        b >= 0,
        a != b,
    ensures
        dec_of(a) != dec_of(b),
{
    lemma_dec_of_val(a);
    lemma_dec_of_val(b);
    if dec_of(a) == dec_of(b) {
        assert(dec_val(dec_of(a)) == dec_val(dec_of(b)));
    }
}

proof fn lemma_dec_of_dotless(n: int)
    ensures
        forall|k: int| 0 <= k < dec_of(n).len() ==> dec_of(n)[k] != '.',
    decreases n,
{
    if n <= 9 {
    } else {
        lemma_dec_of_dotless(n / 10);
        assert forall|k: int| 0 <= k < dec_of(n).len() implies dec_of(n)[k] != '.' by {
            if k < dec_of(n).len() - 1 {
                assert(dec_of(n)[k] == dec_of(n / 10)[k]);
            }
        }
    }
}

fn digit_char_of(d: u64) -> (c: char)
    requires
        d <= 9,
    ensures
        c == digit_char(d as int),
{
    if d == 0 {
        '0'
    } else if d == 1 {
        '1'
    } else if d == 2 {
        '2'
    } else if d == 3 {
        '3'
    } else if d == 4 {
        '4'
    } else if d == 5 {
        '5'
    } else if d == 6 {
        '6'
    } else if d == 7 {
        '7'
    } else if d == 8 {
        '8'
    } else {
        '9'
    }
}

/// Renders an unsigned integer in decimal.
pub fn u64_to_dec(n: u64) -> (r: String)
    ensures
        r@ == dec_of(n as int),
    decreases n,
{
    if n <= 9 {
        let mut s = String::new();
        let c = digit_char_of(n);
        push_char(&mut s, c);
        proof {
            assert(Seq::<char>::empty().push(digit_char(n as int)) =~= seq![
                digit_char(n as int),
            ]);
        }
        s
    } else {
        let mut s = u64_to_dec(n / 10);
        let c = digit_char_of(n % 10);
        push_char(&mut s, c);
        s
    }
}

/// The dash-joined name components followed by the timestamp in seconds.
pub open spec fn joined(
    ns: Seq<char>,
    title: Seq<char>,
    region: Seq<char>,
    start: Seq<char>,
    secs: int,
) -> Seq<char> {
    ns + "-"@ + title + "-"@ + region + "-"@ + start + "-"@ + dec_of(secs)
}

/// The position of the dot starting the extension of `s`, or `-1` when `s`
/// has no extension: the last `'.'` of the sequence.
pub open spec fn ext_start(s: Seq<char>) -> int
    decreases s.len(),
{
    if s.len() == 0 {
        -1
    } else if s.last() == '.' {
        s.len() - 1
    } else {
        ext_start(s.drop_last())
    }
}

proof fn lemma_ext_start_props(s: Seq<char>)
    ensures
        -1 <= ext_start(s) < s.len(),
        ext_start(s) >= 0 ==> s[ext_start(s)] == '.',
        forall|k: int| ext_start(s) < k < s.len() ==> s[k] != '.',
    decreases s.len(),
{
    if s.len() == 0 {
    } else if s.last() == '.' {
    } else {
        lemma_ext_start_props(s.drop_last());
        assert forall|k: int| ext_start(s) < k < s.len() implies s[k] != '.' by {
            if k < s.len() - 1 {
                assert(s.drop_last()[k] == s[k]);
            }
        }
    }
}

/// `s` with the image extension: everything from the last `'.'` on (if any)
/// is dropped, and `".png"` is appended.
pub open spec fn with_png_extension(s: Seq<char>) -> Seq<char> {
    if ext_start(s) >= 0 {
        s.subrange(0, ext_start(s)) + ".png"@
    } else {
        s + ".png"@
    }
}

/// The output file name for one saved image.
pub open spec fn image_name(
    ns: Seq<char>,
    title: Seq<char>,
    region: Seq<char>,
    start: Seq<char>,
    secs: int,
) -> Seq<char> {
    with_png_extension(joined(ns, title, region, start, secs))
}

/// Builds the output file name: the components and the timestamp joined by
/// dashes, then the image extension, which replaces any extension the joined
/// name already has.
pub fn image_file_name(
    namespace: &str,
    title: &str,
    region: &str,
    start: &str,
    secs: u64,
) -> (r: String)
    ensures
        r@ == image_name(namespace@, title@, region@, start@, secs as int),
{
    let mut base = String::new();
    base.append(namespace);
    base.append("-");
    base.append(title);
    base.append("-");
    base.append(region);
    base.append("-");
    base.append(start);
    base.append("-");
    let digits = u64_to_dec(secs);
    base.append(digits.as_str());
    proof {
        assert(base@ =~= joined(namespace@, title@, region@, start@, secs as int));
    }
    let n = base.as_str().unicode_len();
    let mut dot: usize = n;
    let mut j: usize = n;
    while j > 0
        invariant
            j <= n,
            dot <= n,
            n == base@.len(),
            dot == n ==> forall|k: int| j <= k < n ==> base@[k] != '.',
            dot < n ==> j <= dot && base@[dot as int] == '.' && forall|k: int|
                dot < k < n ==> base@[k] != '.',
        decreases j,
    {
        j -= 1;
        if dot == n && base.as_str().get_char(j) == '.' {
            dot = j;
        }
    }
    proof {
        lemma_ext_start_props(base@);
        if dot == n {
            if ext_start(base@) >= 0 {
                assert(base@[ext_start(base@)] == '.');
            }
            assert(ext_start(base@) == -1);
        } else {
            assert(base@[dot as int] == '.');
            if ext_start(base@) < dot {
                assert(base@[dot as int] != '.');
            }
            if ext_start(base@) > dot {
                assert(base@[ext_start(base@)] != '.');
            }
            assert(ext_start(base@) == dot);
        }
    }
    if dot == n {
        base.append(".png");
        base
    } else {
        let stem = base.as_str().substring_char(0, dot);
        let mut out = String::from_str(stem);
        out.append(".png");
        out
    }
}

/// No character of `s` is a `'.'`.
pub open spec fn dotless(s: Seq<char>) -> bool {
    forall|k: int| 0 <= k < s.len() ==> s[k] != '.'
}

/// Law: with fixed dot-free name components, two names built with distinct
/// timestamps are distinct, so a later save never reuses an earlier save's
/// path. (A component containing `'.'` can defeat this: the dot is taken
/// for an extension start and the tail of the name is cut off.)
pub proof fn lemma_distinct_seconds_distinct_names(
    ns: Seq<char>,
    title: Seq<char>,
    region: Seq<char>,
    start: Seq<char>,
    t1: int,
    t2: int,
)
    requires
        t1 >= 0,
        t2 >= 0,
        t1 != t2,
        dotless(ns),
        dotless(title),
        dotless(region),
        dotless(start),
    ensures
        image_name(ns, title, region, start, t1) != image_name(ns, title, region, start, t2),
{
    reveal_strlit("-");
    reveal_strlit(".png");
    let j1 = joined(ns, title, region, start, t1);
    let j2 = joined(ns, title, region, start, t2);
    let p = ns.len() + 1 + title.len() + 1 + region.len() + 1 + start.len() + 1;
    lemma_dec_of_dotless(t1);
    lemma_dec_of_dotless(t2);
    assert(j1.len() == p + dec_of(t1).len());
    assert(j2.len() == p + dec_of(t2).len());
    assert forall|k: int| 0 <= k < j1.len() implies j1[k] != '.' by {
        if k >= p {
            assert(j1[k] == dec_of(t1)[k - p]);
        }
    }
    assert forall|k: int| 0 <= k < j2.len() implies j2[k] != '.' by {
        if k >= p {
            assert(j2[k] == dec_of(t2)[k - p]);
        }
    }
    lemma_ext_start_props(j1);
    lemma_ext_start_props(j2);
    if ext_start(j1) >= 0 {
        assert(j1[ext_start(j1)] == '.');
    }
    if ext_start(j2) >= 0 {
        assert(j2[ext_start(j2)] == '.');
    }
    let n1 = image_name(ns, title, region, start, t1);
    let n2 = image_name(ns, title, region, start, t2);
    assert(n1 == j1 + ".png"@);
    assert(n2 == j2 + ".png"@);
    lemma_dec_of_injective(t1, t2);
    if n1 == n2 {
        assert(j1.len() == j2.len());
        assert(dec_of(t1).len() == dec_of(t2).len());
        assert forall|k: int| 0 <= k < dec_of(t1).len() implies dec_of(t1)[k] == dec_of(
            t2,
        )[k] by {
            assert(j1[p + k] == dec_of(t1)[k]);
            assert(j2[p + k] == dec_of(t2)[k]);
            assert(n1[p + k] == j1[p + k]);
            assert(n2[p + k] == j2[p + k]);
        }
        assert(dec_of(t1) =~= dec_of(t2));
    }
}

} // verus!

//! Loading the accounts configuration: a list of `[[account]]` tables, each
//! carrying the non-empty string fields `namespace`, `account_id` and
//! `region`, one `key = "value"` assignment per line, with blank lines and
//! `#` comments allowed. A malformed document is a parse error naming the
//! offending line; an unreadable file is reported as absent.

use vstd::prelude::*;
use crate::account::{AccountConfig, AccountsConfig, AccountView, account_views};
use crate::text::push_char;

verus! {

/// A configuration loading failure: the file was unreadable, or line `line`
/// (1-based) is where parsing failed.
#[derive(Clone, Copy, Debug, PartialEq, Eq, Structural)]
pub enum ConfigError {
    NotFound,
    ParseError { line: usize },
}

/// Whitespace that may surround tokens on a configuration line.
pub open spec fn is_ws(c: char) -> bool {
    c == ' ' || c == '\t' || c == '\r'
}

/// The index of the first occurrence of `c` in `s`, or `s.len()` when absent.
pub open spec fn first_of(s: Seq<char>, c: char) -> int
    decreases s.len(),
{
    if s.len() == 0 {
        0
    } else if s[0] == c {
        0
    } else {
        1 + first_of(s.skip(1), c)
    }
}

/// `s` cut at every newline; always at least one (possibly empty) line.
pub open spec fn split_lines(s: Seq<char>) -> Seq<Seq<char>>
    decreases s.len(),
{
    let k = first_of(s, '\n');
    if k < 0 || k >= s.len() {
        seq![s]
    } else {
        seq![s.subrange(0, k)] + split_lines(s.skip(k + 1))
    }
}

/// `s` without leading whitespace.
pub open spec fn trim_start(s: Seq<char>) -> Seq<char>
    decreases s.len(),
{
    if s.len() > 0 && is_ws(s[0]) {
        trim_start(s.skip(1))
    } else {
        s
    }
}

/// `s` without trailing whitespace.
pub open spec fn trim_end(s: Seq<char>) -> Seq<char>
    decreases s.len(),
{
    if s.len() > 0 && is_ws(s.last()) {
        trim_end(s.drop_last())
    } else {
        s
    }
}

/// `s` without leading or trailing whitespace.
pub open spec fn trimmed(s: Seq<char>) -> Seq<char> {
    trim_end(trim_start(s))
}

/// One of the three required account fields.
#[derive(Clone, Copy, Debug, PartialEq, Eq, Structural)]
pub enum FieldKey {
    Namespace,
    AccountId,
    Region,
}

/// What one configuration line means.
pub enum LineKind {
    Blank,
    Comment,
    Header,
    Pair { key: FieldKey, value: Seq<char> },
    Bad,
}

/// The field key a bare identifier denotes, if any.
pub open spec fn key_of(s: Seq<char>) -> Option<FieldKey> {
    if s == "namespace"@ {
        Some(FieldKey::Namespace)
    } else if s == "account_id"@ {
        Some(FieldKey::AccountId)
    } else if s == "region"@ {
        Some(FieldKey::Region)
    } else {
        None
    }
}

/// The contents of a non-empty quoted string token: surrounding double
/// quotes, no quote or backslash inside, at least one character.
pub open spec fn quoted_inner(v: Seq<char>) -> Option<Seq<char>> {
    if v.len() >= 3 && v[0] == '"' && v.last() == '"' && (forall|k: int|
        1 <= k < v.len() - 1 ==> v[k] != '"' && v[k] != '\\') {
        Some(v.subrange(1, v.len() - 1))
    } else {
        None
    }
}

/// Reads a trimmed, non-blank, non-comment, non-header line as a
/// `key = "value"` assignment.
pub open spec fn classify_pair(t: Seq<char>) -> LineKind {
    let e = first_of(t, '=');
    if e == t.len() {
        LineKind::Bad
    } else {
        let key = trim_end(t.subrange(0, e));
        let vtok = trim_start(t.subrange(e + 1, t.len() as int));
        match key_of(key) {
            None => LineKind::Bad,
            Some(k) => match quoted_inner(vtok) {
                None => LineKind::Bad,
                Some(inner) => LineKind::Pair { key: k, value: inner },
            },
        }
    }
}

/// What a raw configuration line means.
pub open spec fn classify(line: Seq<char>) -> LineKind {
    let t = trimmed(line);
    if t.len() == 0 {
        LineKind::Blank
    } else if t[0] == '#' {
        LineKind::Comment
    } else if t == "[[account]]"@ {
        LineKind::Header
    } else {
        classify_pair(t)
    }
}

/// An account table under construction: the fields seen so far and the
/// 1-based line of its `[[account]]` header.
pub struct PendingView {
    pub ns: Option<Seq<char>>,
    pub id: Option<Seq<char>>,
    pub rg: Option<Seq<char>>,
    pub line: int,
}

/// All three fields of the table have been assigned.
pub open spec fn pending_complete(p: PendingView) -> bool {
    p.ns is Some && p.id is Some && p.rg is Some
}

/// The finished record of a complete table.
pub open spec fn finished(p: PendingView) -> AccountView {
    AccountView { namespace: p.ns->0, account_id: p.id->0, region: p.rg->0 }
}

/// Whether the table already assigns `k`.
pub open spec fn has_field(p: PendingView, k: FieldKey) -> bool {
    match k {
        FieldKey::Namespace => p.ns is Some,
        FieldKey::AccountId => p.id is Some,
        FieldKey::Region => p.rg is Some,
    }
}

/// The table with `k` assigned to `v`.
pub open spec fn set_field(p: PendingView, k: FieldKey, v: Seq<char>) -> PendingView {
    match k {
        FieldKey::Namespace => PendingView { ns: Some(v), ..p },
        FieldKey::AccountId => PendingView { id: Some(v), ..p },
        FieldKey::Region => PendingView { rg: Some(v), ..p },
    }
}

/// A fresh table opened by a header on line `line`.
pub open spec fn empty_pending(line: int) -> PendingView {
    PendingView { ns: None, id: None, rg: None, line: line }
}

/// The parse of the lines from index `i` on, given the table currently under
/// construction and the records finished so far: the complete record list,
/// or the 1-based line where parsing fails. An assignment outside any table,
/// a reassigned field, an unreadable line, and a table closed (by a header
/// or the end of input) while a field is missing are the failures; the last
/// is reported at the table's header line.
pub open spec fn parse_from(
    lines: Seq<Seq<char>>,
    i: int,
    cur: Option<PendingView>,
    acc: Seq<AccountView>,
) -> Result<Seq<AccountView>, int>
    decreases lines.len() - i,
{
    if i < 0 || i >= lines.len() {
        match cur {
            None => Ok(acc),
            Some(p) => if pending_complete(p) {
                Ok(acc.push(finished(p)))
            } else {
                Err(p.line)
            },
        }
    } else {
        match classify(lines[i]) {
            LineKind::Blank => parse_from(lines, i + 1, cur, acc),
            LineKind::Comment => parse_from(lines, i + 1, cur, acc),
            LineKind::Header => match cur {
                None => parse_from(lines, i + 1, Some(empty_pending(i + 1)), acc),
                Some(p) => if pending_complete(p) {
                    parse_from(lines, i + 1, Some(empty_pending(i + 1)), acc.push(finished(p)))
                } else {
                    Err(p.line)
                },
            },
            LineKind::Pair { key, value } => match cur {
                None => Err(i + 1),
                Some(p) => if has_field(p, key) {
                    Err(i + 1)
                } else {
                    parse_from(lines, i + 1, Some(set_field(p, key, value)), acc)
                },
            },
            LineKind::Bad => Err(i + 1),
        }
    }
}

/// The parse of a whole configuration text.
pub open spec fn parse_config(text: Seq<char>) -> Result<Seq<AccountView>, int> {
    parse_from(split_lines(text), 0, None, Seq::empty())
}

/// Every field of the record is a non-empty string.
pub open spec fn nonempty_fields(a: AccountView) -> bool {
    a.namespace.len() > 0 && a.account_id.len() > 0 && a.region.len() > 0
}

spec fn pending_nonempty(p: PendingView) -> bool {
    &&& (p.ns matches Some(v) ==> v.len() > 0)
    &&& (p.id matches Some(v) ==> v.len() > 0)
    &&& (p.rg matches Some(v) ==> v.len() > 0)
}

proof fn lemma_classify_value_nonempty(line: Seq<char>)
    ensures
        classify(line) matches LineKind::Pair { key, value } ==> value.len() > 0,
{
}

proof fn lemma_parse_from_nonempty(
    lines: Seq<Seq<char>>,
    i: int,
    cur: Option<PendingView>,
    acc: Seq<AccountView>,
)
    requires
        forall|k: int| 0 <= k < acc.len() ==> nonempty_fields(#[trigger] acc[k]),
        cur matches Some(p) ==> pending_nonempty(p),
    ensures
        parse_from(lines, i, cur, acc) matches Ok(vs) ==> forall|k: int|
            0 <= k < vs.len() ==> nonempty_fields(#[trigger] vs[k]),
    decreases lines.len() - i,
{
    if i < 0 || i >= lines.len() {
    } else {
        lemma_classify_value_nonempty(lines[i]);
        match classify(lines[i]) {
            LineKind::Blank => lemma_parse_from_nonempty(lines, i + 1, cur, acc),
            LineKind::Comment => lemma_parse_from_nonempty(lines, i + 1, cur, acc),
            LineKind::Header => match cur {
                None => lemma_parse_from_nonempty(lines, i + 1, Some(empty_pending(i + 1)), acc),
                Some(p) => if pending_complete(p) {
                    lemma_parse_from_nonempty(
                        lines,
                        i + 1,
                        Some(empty_pending(i + 1)),
                        acc.push(finished(p)),
                    );
                } else {
                },
            },
            LineKind::Pair { key, value } => match cur {
                None => {},
                Some(p) => if has_field(p, key) {
                } else {
                    lemma_parse_from_nonempty(
                        lines,
                        i + 1,
                        Some(set_field(p, key, value)),
                        acc,
                    );
                },
            },
            LineKind::Bad => {},
        }
    }
}

/// Law: a successfully loaded configuration never holds an empty field — a
/// missing or empty `namespace`, `account_id` or `region` is a parse error,
/// never silently defaulted.
pub proof fn lemma_loaded_fields_nonempty(text: Seq<char>)
    ensures
        parse_config(text) matches Ok(vs) ==> forall|k: int|
            0 <= k < vs.len() ==> nonempty_fields(#[trigger] vs[k]),
{
    lemma_parse_from_nonempty(split_lines(text), 0, None, Seq::empty());
}

proof fn lemma_first_of_props(s: Seq<char>, c: char)
    ensures
        0 <= first_of(s, c) <= s.len(),
        first_of(s, c) < s.len() ==> s[first_of(s, c)] == c,
        forall|k: int| 0 <= k < first_of(s, c) ==> s[k] != c,
    decreases s.len(),
{
    if s.len() == 0 {
    } else if s[0] == c {
    } else {
        lemma_first_of_props(s.skip(1), c);
        assert forall|k: int| 0 <= k < first_of(s, c) implies s[k] != c by {
            if k >= 1 {
                assert(s.skip(1)[k - 1] == s[k]);
            }
        }
    }
}

proof fn lemma_first_of_at(s: Seq<char>, c: char, j: int)
    requires
        0 <= j <= s.len(),
        forall|k: int| 0 <= k < j ==> s[k] != c,
        j == s.len() || s[j] == c,
    ensures
        first_of(s, c) == j,
{
    lemma_first_of_props(s, c);
    let f = first_of(s, c);
    if f < j {
        assert(s[f] == c);
    }
    if f > j {
        assert(j < s.len());
        assert(s[j] != c);
    }
}

proof fn lemma_split_len(s: Seq<char>)
    ensures
        split_lines(s).len() >= 1,
    decreases s.len(),
{
    lemma_first_of_props(s, '\n');
    let k = first_of(s, '\n');
    if 0 <= k < s.len() {
        lemma_split_len(s.skip(k + 1));
    }
}

proof fn lemma_split_nl(s: Seq<char>)
    requires
        s.len() > 0,
        s[0] == '\n',
    ensures
        split_lines(s) == seq![Seq::<char>::empty()] + split_lines(s.skip(1)),
{
    assert(first_of(s, '\n') == 0);
    assert(s.subrange(0, 0) =~= Seq::<char>::empty());
}

proof fn lemma_split_char(s: Seq<char>)
    requires
        s.len() > 0,
        s[0] != '\n',
    ensures
        split_lines(s).len() >= 1,
        split_lines(s.skip(1)).len() >= 1,
        split_lines(s)[0] == seq![s[0]] + split_lines(s.skip(1))[0],
        split_lines(s).skip(1) == split_lines(s.skip(1)).skip(1),
{
    lemma_first_of_props(s, '\n');
    lemma_first_of_props(s.skip(1), '\n');
    lemma_split_len(s);
    lemma_split_len(s.skip(1));
    let k = first_of(s, '\n');
    let k2 = first_of(s.skip(1), '\n');
    assert(k == 1 + k2);
    if k >= s.len() {
        assert(split_lines(s) == seq![s]);
        assert(k2 >= s.skip(1).len());
        assert(split_lines(s.skip(1)) == seq![s.skip(1)]);
        assert(s =~= seq![s[0]] + s.skip(1));
        assert(split_lines(s).skip(1) =~= split_lines(s.skip(1)).skip(1));
    } else {
        assert(split_lines(s) == seq![s.subrange(0, k)] + split_lines(s.skip(k + 1)));
        assert(0 <= k2 < s.skip(1).len());
        assert(split_lines(s.skip(1)) == seq![s.skip(1).subrange(0, k2)] + split_lines(
            s.skip(1).skip(k2 + 1),
        ));
        assert(s.skip(1).skip(k2 + 1) =~= s.skip(k + 1));
        assert(s.subrange(0, k) =~= seq![s[0]] + s.skip(1).subrange(0, k2));
        assert(split_lines(s)[0] == s.subrange(0, k));
        assert(split_lines(s).skip(1) =~= split_lines(s.skip(k + 1)));
        assert(split_lines(s.skip(1)).skip(1) =~= split_lines(s.skip(k + 1)));
    }
}

proof fn lemma_trim_start_at(s: Seq<char>, a: int)
    requires
        0 <= a <= s.len(),
        forall|k: int| 0 <= k < a ==> is_ws(s[k]),
        a == s.len() || !is_ws(s[a]),
    ensures
        trim_start(s) == s.skip(a),
    decreases a,
{
    if a == 0 {
        assert(s.skip(0) =~= s);
    } else {
        assert(is_ws(s[0]));
        lemma_trim_start_at(s.skip(1), a - 1);
        assert(s.skip(1).skip(a - 1) =~= s.skip(a));
    }
}

proof fn lemma_trim_end_at(s: Seq<char>, b: int)
    requires
        0 <= b <= s.len(),
        forall|k: int| b <= k < s.len() ==> is_ws(s[k]),
        b == 0 || !is_ws(s[b - 1]),
    ensures
        trim_end(s) == s.take(b),
    decreases s.len(),
{
    if s.len() > 0 && is_ws(s.last()) {
        assert(b < s.len());
        lemma_trim_end_at(s.drop_last(), b);
        assert(s.drop_last().take(b) =~= s.take(b));
    } else {
        assert(b == s.len());
        assert(s.take(b) =~= s);
    }
}

proof fn lemma_trim_start_suffix(s: Seq<char>)
    ensures
        trim_start(s).len() <= s.len(),
        trim_start(s) == s.skip(s.len() - trim_start(s).len()),
        trim_start(s).len() > 0 ==> !is_ws(trim_start(s)[0]),
    decreases s.len(),
{
    if s.len() > 0 && is_ws(s[0]) {
        lemma_trim_start_suffix(s.skip(1));
        let t = trim_start(s);
        assert(s.skip(1).skip(s.skip(1).len() - t.len()) =~= s.skip(s.len() - t.len()));
    } else {
        assert(s.skip(0) =~= s);
    }
}

proof fn lemma_trim_end_prefix(s: Seq<char>)
    ensures
        trim_end(s).len() <= s.len(),
        trim_end(s) == s.take(trim_end(s).len() as int),
        trim_end(s).len() > 0 ==> !is_ws(trim_end(s).last()),
        trim_end(s).len() > 0 ==> trim_end(s)[0] == s[0],
    decreases s.len(),
{
    if s.len() > 0 && is_ws(s.last()) {
        lemma_trim_end_prefix(s.drop_last());
        let t = trim_end(s);
        assert(s.drop_last().take(t.len() as int) =~= s.take(t.len() as int));
    } else {
        assert(s.take(s.len() as int) =~= s);
    }
}

/// Decides whether character `i` of `s` is configuration whitespace.
fn is_ws_at(s: &str, i: usize) -> (b: bool)
    requires
        i < s@.len(),
    ensures
        b == is_ws(s@[i as int]),
{
    let c = s.get_char(i);
    c == ' ' || c == '\t' || c == '\r'
}

/// Strips leading and trailing whitespace.
fn trim_str(s: &str) -> (r: String)
    ensures
        r@ == trimmed(s@),
{
    let n = s.unicode_len();
    let mut a: usize = 0;
    while a < n && is_ws_at(s, a)
        invariant
            a <= n,
            n == s@.len(),
            forall|k: int| 0 <= k < a ==> is_ws(s@[k]),
        decreases n - a,
    {
        a += 1;
    }
    let mut b: usize = n;
    while b > a && is_ws_at(s, b - 1)
        invariant
            a <= b <= n,
            n == s@.len(),
            forall|k: int| b <= k < n ==> is_ws(s@[k]),
        decreases b,
    {
        b -= 1;
    }
    proof {
        lemma_trim_start_at(s@, a as int);
        assert forall|k: int| b - a <= k < s@.skip(a as int).len() implies is_ws(
            s@.skip(a as int)[k],
        ) by {
            assert(s@.skip(a as int)[k] == s@[k + a]);
        }
        lemma_trim_end_at(s@.skip(a as int), b - a);
        assert(s@.skip(a as int).take(b - a) =~= s@.subrange(a as int, b as int));
    }
    String::from_str(s.substring_char(a, b))
}

/// The index of the first occurrence of `c` in `s`, or the length of `s`.
fn find_char(s: &str, c: char) -> (r: usize)
    ensures
        r as int == first_of(s@, c),
        r <= s@.len(),
{
    let n = s.unicode_len();
    let mut i: usize = 0;
    while i < n
        invariant
            i <= n,
            n == s@.len(),
            forall|k: int| 0 <= k < i ==> s@[k] != c,
        decreases n - i,
    {
        if s.get_char(i) == c {
            proof {
                lemma_first_of_at(s@, c, i as int);
            }
            return i;
        }
        i += 1;
    }
    proof {
        lemma_first_of_at(s@, c, n as int);
    }
    n
}

/// Cuts the text at every newline.
fn split_into_lines(text: &str) -> (r: Vec<String>)
    ensures
        r.deep_view() == split_lines(text@),
{
    let n = text.unicode_len();
    let mut lines: Vec<String> = Vec::new();
    let mut cur = String::new();
    let mut i: usize = 0;
    proof {
        lemma_split_len(text@);
        assert(text@.skip(0) =~= text@);
        assert(lines.deep_view() =~= Seq::<Seq<char>>::empty());
        assert(cur@ + split_lines(text@)[0] =~= split_lines(text@)[0]);
        assert(Seq::<Seq<char>>::empty() + (seq![split_lines(text@)[0]] + split_lines(
            text@,
        ).skip(1)) =~= seq![split_lines(text@)[0]] + split_lines(text@).skip(1));
        assert(seq![split_lines(text@)[0]] + split_lines(text@).skip(1) =~= split_lines(text@));
    }
    while i < n
        invariant
            i <= n,
            n == text@.len(),
            split_lines(text@.skip(i as int)).len() >= 1,
            split_lines(text@) == lines.deep_view() + (seq![
                cur@ + split_lines(text@.skip(i as int))[0],
            ] + split_lines(text@.skip(i as int)).skip(1)),
        decreases n - i,
    {
        let ghost rest = split_lines(text@.skip(i as int));
        let ghost rest2 = split_lines(text@.skip(i + 1));
        let ghost dv = lines.deep_view();
        let ghost cur0 = cur@;
        proof {
            assert(text@.skip(i as int)[0] == text@[i as int]);
            assert(text@.skip(i as int).skip(1) =~= text@.skip(i + 1));
        }
        let c = text.get_char(i);
        if c == '\n' {
            lines.push(cur);
            cur = String::new();
            proof {
                lemma_split_nl(text@.skip(i as int));
                lemma_split_len(text@.skip(i + 1));
                assert(rest == seq![Seq::<char>::empty()] + rest2);
                assert(rest[0] == Seq::<char>::empty());
                assert(rest.skip(1) =~= rest2);
                assert(lines.deep_view() =~= dv.push(cur0));
                assert(cur0 + rest[0] =~= cur0);
                assert(cur@ + rest2[0] =~= rest2[0]);
                assert(dv.push(cur0) + (seq![rest2[0]] + rest2.skip(1)) =~= dv + (seq![
                    cur0 + rest[0],
                ] + rest.skip(1)));
            }
        } else {
            push_char(&mut cur, c);
            proof {
                lemma_split_char(text@.skip(i as int));
                assert(rest[0] == seq![text@[i as int]] + rest2[0]);
                assert(rest.skip(1) == rest2.skip(1));
                assert(cur@ =~= cur0 + seq![text@[i as int]]);
                assert(cur@ + rest2[0] =~= cur0 + rest[0]);
                assert(dv + (seq![cur@ + rest2[0]] + rest2.skip(1)) =~= dv + (seq![
                    cur0 + rest[0],
                ] + rest.skip(1)));
            }
        }
        i += 1;
    }
    let ghost dv = lines.deep_view();
    let ghost cur0 = cur@;
    lines.push(cur);
    proof {
        assert(text@.skip(n as int) =~= Seq::<char>::empty());
        assert(first_of(Seq::<char>::empty(), '\n') == 0);
        assert(split_lines(Seq::<char>::empty()) == seq![Seq::<char>::empty()]);
        let rest = split_lines(text@.skip(n as int));
        assert(rest == seq![Seq::<char>::empty()]);
        assert(rest[0] == Seq::<char>::empty());
        assert(cur0 + rest[0] =~= cur0);
        assert(lines.deep_view() =~= dv.push(cur0));
        assert(dv.push(cur0) =~= dv + (seq![cur0 + rest[0]] + rest.skip(1)));
    }
    lines
}

/// What one configuration line was read as.
pub enum LineClass {
    Blank,
    Comment,
    Header,
    Pair { key: FieldKey, value: String },
    Bad,
}

impl View for LineClass {
    type V = LineKind;

    open spec fn view(&self) -> LineKind {
        match self {
            LineClass::Blank => LineKind::Blank,
            LineClass::Comment => LineKind::Comment,
            LineClass::Header => LineKind::Header,
            LineClass::Pair { key, value } => LineKind::Pair { key: *key, value: value@ },
            LineClass::Bad => LineKind::Bad,
        }
    }
}

/// Reads one configuration line.
fn classify_line(line: &str) -> (r: LineClass)
    ensures
        r@ == classify(line@),
{
    let t = trim_str(line);
    let tn = t.as_str().unicode_len();
    proof {
        lemma_trim_start_suffix(line@);
        lemma_trim_end_prefix(trim_start(line@));
    }
    if tn == 0 {
        return LineClass::Blank;
    }
    if t.as_str().get_char(0) == '#' {
        return LineClass::Comment;
    }
    if t.eq(&String::from_str("[[account]]")) {
        return LineClass::Header;
    }
    let e = find_char(t.as_str(), '=');
    proof {
        lemma_first_of_props(t@, '=');
    }
    if e == tn {
        return LineClass::Bad;
    }
    let key_raw = t.as_str().substring_char(0, e);
    proof {
        assert(key_raw@ =~= t@.subrange(0, e as int));
        if e > 0 {
            assert(key_raw@[0] == t@[0]);
            assert(!is_ws(t@[0]));
        }
        lemma_trim_start_at(key_raw@, 0);
        assert(key_raw@.skip(0) =~= key_raw@);
    }
    let key = trim_str(key_raw);
    let vtok_raw = t.as_str().substring_char(e + 1, tn);
    proof {
        assert(vtok_raw@ =~= t@.subrange(e + 1, tn as int));
        lemma_trim_start_suffix(vtok_raw@);
        let ts = trim_start(vtok_raw@);
        if ts.len() > 0 {
            assert(ts.last() == vtok_raw@.last());
            assert(vtok_raw@.last() == t@.last());
            assert(!is_ws(t@.last()));
            lemma_trim_end_at(ts, ts.len() as int);
            assert(ts.take(ts.len() as int) =~= ts);
        } else {
            lemma_trim_end_at(ts, 0);
            assert(ts.take(0) =~= ts);
        }
    }
    let vtok = trim_str(vtok_raw);
    let is_ns = key.eq(&String::from_str("namespace"));
    let is_id = key.eq(&String::from_str("account_id"));
    let is_rg = key.eq(&String::from_str("region"));
    if !is_ns && !is_id && !is_rg {
        return LineClass::Bad;
    }
    let fk = if is_ns {
        FieldKey::Namespace
    } else if is_id {
        FieldKey::AccountId
    } else {
        FieldKey::Region
    };
    let vs = vtok.as_str();
    let vn = vs.unicode_len();
    if vn < 3 {
        return LineClass::Bad;
    }
    if vs.get_char(0) != '"' {
        return LineClass::Bad;
    }
    if vs.get_char(vn - 1) != '"' {
        return LineClass::Bad;
    }
    let mut k: usize = 1;
    #[verifier::loop_isolation(false)]
    while k < vn - 1
        invariant
            1 <= k <= vn - 1,
            vn == vtok@.len(),
            vs@ == vtok@,
            vn >= 3,
            forall|j: int| 1 <= j < k ==> vtok@[j] != '"' && vtok@[j] != '\\',
        decreases vn - k,
    {
        let ch = vs.get_char(k);
        if ch == '"' || ch == '\\' {
            proof {
                assert(1 <= k && (k as int) < vtok@.len() - 1);
                assert(!(vtok@[k as int] != '"' && vtok@[k as int] != '\\'));
                assert(quoted_inner(vtok@) is None);
            }
            return LineClass::Bad;
        }
        k += 1;
    }
    proof {
        assert(vtok@.last() == vtok@[vn - 1]);
        assert(quoted_inner(vtok@) == Some(vtok@.subrange(1, vn - 1)));
    }
    let inner = vs.substring_char(1, vn - 1);
    LineClass::Pair { key: fk, value: String::from_str(inner) }
}

/// An account table while its assignments are being collected.
struct PendingAccount {
    ns: Option<String>,
    id: Option<String>,
    rg: Option<String>,
    line: usize,
}

spec fn pending_view(p: PendingAccount) -> PendingView {
    PendingView {
        ns: match p.ns {
            Some(s) => Some(s@),
            None => None,
        },
        id: match p.id {
            Some(s) => Some(s@),
            None => None,
        },
        rg: match p.rg {
            Some(s) => Some(s@),
            None => None,
        },
        line: p.line as int,
    }
}

spec fn opt_view(c: Option<PendingAccount>) -> Option<PendingView> {
    match c {
        Some(p) => Some(pending_view(p)),
        None => None,
    }
}

/// Loads the accounts configuration from the text of the configuration file,
/// or reports that the file was unreadable. A malformed document is rejected
/// with the 1-based line where parsing failed; a record missing one of its
/// three fields is reported at its header line.
pub fn get_accounts(contents: Option<&str>) -> (r: Result<AccountsConfig, ConfigError>)
    ensures
        (match contents {
            None => r == Err::<AccountsConfig, ConfigError>(ConfigError::NotFound),
            Some(text) => (match parse_config(text@) {
                Ok(vs) => r matches Ok(c) && account_views(c.account@) == vs,
                Err(ln) => r matches Err(e) && e matches ConfigError::ParseError {
                    line,
                } && line as int == ln,
            }),
        }),
{
    match contents {
        None => Err(ConfigError::NotFound),
        Some(text) => {
            let lines = split_into_lines(text);
            let ghost ls = split_lines(text@);
            let mut out: Vec<AccountConfig> = Vec::new();
            let mut cur: Option<PendingAccount> = None;
            let mut i: usize = 0;
            proof {
                assert(account_views(out@) =~= Seq::<AccountView>::empty());
            }
            #[verifier::loop_isolation(false)]
            while i < lines.len()
                invariant
                    i <= lines.len(),
                    parse_from(ls, i as int, opt_view(cur), account_views(out@)) == parse_config(
                        text@,
                    ),
                decreases lines.len() - i,
            {
                let ghost prev_cur = opt_view(cur);
                let ghost prev_acc = account_views(out@);
                let cls = classify_line(lines[i].as_str());
                proof {
                    assert(lines.deep_view()[i as int] == lines@[i as int]@);
                    assert(classify(ls[i as int]) == cls@);
                }
                match cls {
                    LineClass::Blank => {},
                    LineClass::Comment => {},
                    LineClass::Header => {
                        let next = PendingAccount { ns: None, id: None, rg: None, line: i + 1 };
                        proof {
                            assert(pending_view(next) == empty_pending(i + 1));
                        }
                        match cur {
                            None => {
                                cur = Some(next);
                            },
                            Some(p) => {
                                if p.ns.is_some() && p.id.is_some() && p.rg.is_some() {
                                    let ghost pv = pending_view(p);
                                    let rec = AccountConfig {
                                        namespace: p.ns.unwrap(),
                                        account_id: p.id.unwrap(),
                                        region: p.rg.unwrap(),
                                    };
                                    proof {
                                        assert(rec@ == finished(pv));
                                    }
                                    out.push(rec);
                                    cur = Some(next);
                                    proof {
                                        assert(account_views(out@) =~= prev_acc.push(
                                            finished(pv),
                                        ));
                                    }
                                } else {
                                    return Err(ConfigError::ParseError { line: p.line });
                                }
                            },
                        }
                    },
                    LineClass::Pair { key, value } => {
                        match cur {
                            None => {
                                return Err(ConfigError::ParseError { line: i + 1 });
                            },
                            Some(p) => {
                                let dup = match key {
                                    FieldKey::Namespace => p.ns.is_some(),
                                    FieldKey::AccountId => p.id.is_some(),
                                    FieldKey::Region => p.rg.is_some(),
                                };
                                if dup {
                                    return Err(ConfigError::ParseError { line: i + 1 });
                                }
                                let ghost pv = pending_view(p);
                                let ghost vv = value@;
                                let updated = match key {
                                    FieldKey::Namespace => PendingAccount {
                                        ns: Some(value),
                                        ..p
                                    },
                                    FieldKey::AccountId => PendingAccount {
                                        id: Some(value),
                                        ..p
                                    },
                                    FieldKey::Region => PendingAccount { rg: Some(value), ..p },
                                };
                                proof {
                                    assert(pending_view(updated) == set_field(pv, key, vv));
                                }
                                cur = Some(updated);
                            },
                        }
                    },
                    LineClass::Bad => {
                        return Err(ConfigError::ParseError { line: i + 1 });
                    },
                }
                i += 1;
            }
            match cur {
                None => Ok(AccountsConfig { account: out }),
                Some(p) => {
                    if p.ns.is_some() && p.id.is_some() && p.rg.is_some() {
                        let ghost pv = pending_view(p);
                        let ghost prev_acc = account_views(out@);
                        let rec = AccountConfig {
                            namespace: p.ns.unwrap(),
                            account_id: p.id.unwrap(),
                            region: p.rg.unwrap(),
                        };
                        proof {
                            assert(rec@ == finished(pv));
                        }
                        out.push(rec);
                        proof {
                            assert(account_views(out@) =~= prev_acc.push(finished(pv)));
                        }
                        Ok(AccountsConfig { account: out })
                    } else {
                        Err(ConfigError::ParseError { line: p.line })
                    }
                },
            }
        },
    }
}

} // verus!

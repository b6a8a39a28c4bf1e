//! Line splitting and whitespace trimming with the semantics of `str::lines`,
//! `str::trim_end` and `str::trim`.
use vstd::prelude::*;
use crate::text::{chars_of, join, string_from_chars, strings_view};

verus! {

/// Position of the first `\n` in `s`, or its length.
pub open spec fn first_newline(s: Seq<char>) -> int
    decreases s.len(),
{
    if s.len() == 0 {
        0
    } else if s[0] == '\n' {
        0
    } else {
        1 + first_newline(s.drop_first())
    }
}

pub proof fn lemma_first_newline(s: Seq<char>)
    ensures
        0 <= first_newline(s) <= s.len(),
        first_newline(s) < s.len() ==> s[first_newline(s)] == '\n',
        forall|k: int| 0 <= k < first_newline(s) ==> s[k] != '\n',
    decreases s.len(),
{
    if s.len() > 0 && s[0] != '\n' {
        lemma_first_newline(s.drop_first());
        assert forall|k: int| 0 <= k < first_newline(s) implies s[k] != '\n' by {
            if k > 0 {
                assert(s[k] == s.drop_first()[k - 1]);
            }
        }
    }
}

/// A line without the `\r` of a `\r\n` ending.
pub open spec fn strip_cr(l: Seq<char>) -> Seq<char> {
    if l.len() > 0 && l.last() == '\r' {
        l.drop_last()
    } else {
        l
    }
}

/// The lines of `s` as `str::lines` gives them: split at `\n` (a `\r` just
/// before it is dropped too); a final line ending is optional and does not
/// start an empty line.
pub open spec fn lines_of(s: Seq<char>) -> Seq<Seq<char>>
    decreases s.len(),
{
    if s.len() == 0 {
        seq![]
    } else {
        let i = first_newline(s);
        proof {
            lemma_first_newline(s);
        }
        if i >= s.len() {
            seq![s]
        } else {
            seq![strip_cr(s.take(i))] + lines_of(s.skip(i + 1))
        }
    }
}

/// Lines that come back unchanged from a newline-joined text: each is
/// non-empty, holds no `\n` and does not end in `\r`.
pub open spec fn line_safe(ls: Seq<Seq<char>>) -> bool {
    forall|i: int|
        0 <= i < ls.len() ==> #[trigger] ls[i].len() > 0 && !ls[i].contains('\n') && ls[i].last()
            != '\r'
}

/// `join` read from the front.
pub proof fn lemma_join_front(ks: Seq<Seq<char>>, sep: Seq<char>)
    requires
        ks.len() >= 2,
    ensures
        join(ks, sep) == ks[0] + sep + join(ks.drop_first(), sep),
    decreases ks.len(),
{
    if ks.len() == 2 {
        assert(ks.drop_last() =~= seq![ks[0]]);
        assert(ks.drop_first() =~= seq![ks[1]]);
        assert(join(ks.drop_last(), sep) == ks[0]);
        assert(join(ks.drop_first(), sep) == ks[1]);
        assert(join(ks, sep) =~= ks[0] + sep + join(ks.drop_first(), sep));
    } else {
        lemma_join_front(ks.drop_last(), sep);
        assert(ks.drop_last().drop_first() =~= ks.drop_first().drop_last());
        assert(ks.drop_first().last() == ks.last());
        assert(join(ks, sep) =~= ks[0] + sep + join(ks.drop_first(), sep));
    }
}

proof fn lemma_first_newline_at(s: Seq<char>, n: int)
    requires
        0 <= n <= s.len(),
        forall|j: int| 0 <= j < n ==> s[j] != '\n',
        n == s.len() || s[n] == '\n',
    ensures
        first_newline(s) == n,
{
    lemma_first_newline(s);
    if first_newline(s) < n {
        assert(s[first_newline(s)] == '\n');
    }
}

/// A text of one line without `\n` is that line.
proof fn lemma_lines_single(k: Seq<char>)
    requires
        k.len() > 0,
        !k.contains('\n'),
    ensures
        lines_of(k) == seq![k],
{
    assert forall|j: int| 0 <= j < k.len() implies k[j] != '\n' by {
        if k[j] == '\n' {
            assert(k.contains('\n'));
        }
    }
    lemma_first_newline_at(k, k.len() as int);
}

/// A line and a newline in front of `rest` add that line in front.
proof fn lemma_lines_cons(k: Seq<char>, rest: Seq<char>)
    requires
        k.len() > 0,
        !k.contains('\n'),
        k.last() != '\r',
    ensures
        lines_of(k + seq!['\n'] + rest) == seq![k] + lines_of(rest),
{
    let s = k + seq!['\n'] + rest;
    assert forall|j: int| 0 <= j < k.len() implies s[j] != '\n' by {
        assert(s[j] == k[j]);
        if k[j] == '\n' {
            assert(k.contains('\n'));
        }
    }
    lemma_first_newline_at(s, k.len() as int);
    assert(s.take(k.len() as int) =~= k);
    assert(s.skip(k.len() as int + 1) =~= rest);
}

/// Splitting the newline-joined lines gives them back.
pub proof fn lemma_lines_of_join(ls: Seq<Seq<char>>)
    requires
        line_safe(ls),
    ensures
        lines_of(join(ls, seq!['\n'])) == ls,
    decreases ls.len(),
{
    if ls.len() == 0 {
    } else if ls.len() == 1 {
        assert(ls[0].len() > 0);
        lemma_lines_single(ls[0]);
        assert(seq![ls[0]] =~= ls);
    } else {
        lemma_join_front(ls, seq!['\n']);
        let rest = ls.drop_first();
        assert forall|i: int| 0 <= i < rest.len() implies #[trigger] rest[i].len() > 0 && !rest[i].contains(
            '\n',
        ) && rest[i].last() != '\r' by {
            assert(rest[i] == ls[i + 1]);
        }
        lemma_lines_of_join(rest);
        assert(ls[0].len() > 0);
        lemma_lines_cons(ls[0], join(rest, seq!['\n']));
        assert(ls[0] + seq!['\n'] + join(rest, seq!['\n']) == join(ls, seq!['\n']));
        assert(seq![ls[0]] + rest =~= ls);
    }
}

/// `t` holds no `\n`.
pub open spec fn newline_free(t: Seq<char>) -> bool {
    forall|k: int| 0 <= k < t.len() ==> #[trigger] t[k] != '\n'
}

/// Every line of `s` is a newline-free stretch of `s`.
pub proof fn lemma_lines_are_stretches(s: Seq<char>)
    ensures
        forall|i: int|
            0 <= i < lines_of(s).len() ==> exists|a: int, b: int|
                0 <= a <= b <= s.len() && #[trigger] lines_of(s)[i] == s.subrange(a, b)
                    && newline_free(s.subrange(a, b)),
    decreases s.len(),
{
    if s.len() > 0 {
        let n = first_newline(s);
        lemma_first_newline(s);
        if n >= s.len() {
            assert(lines_of(s) == seq![s]);
            assert(s.subrange(0, s.len() as int) =~= s);
            assert(newline_free(s.subrange(0, s.len() as int)));
        } else {
            let rest = s.skip(n + 1);
            lemma_lines_are_stretches(rest);
            let line0 = strip_cr(s.take(n));
            let e = if s.take(n).len() > 0 && s.take(n).last() == '\r' { n - 1 } else { n };
            assert(line0 =~= s.subrange(0, e));
            assert(newline_free(s.subrange(0, e)));
            assert forall|i: int| 0 <= i < lines_of(s).len() implies exists|a: int, b: int|
                0 <= a <= b <= s.len() && #[trigger] lines_of(s)[i] == s.subrange(a, b)
                    && newline_free(s.subrange(a, b)) by {
                if i == 0 {
                    assert(lines_of(s)[0] == s.subrange(0, e));
                } else {
                    assert(lines_of(s)[i] == lines_of(rest)[i - 1]);
                    let (a, b) = choose|a: int, b: int|
                        0 <= a <= b <= rest.len() && lines_of(rest)[i - 1] == rest.subrange(a, b)
                            && newline_free(rest.subrange(a, b));
                    assert(rest.subrange(a, b) =~= s.subrange(a + n + 1, b + n + 1));
                }
            }
        }
    }
}

/// Lines ended by a newline are read independently of what follows.
pub proof fn lemma_lines_concat(u: Seq<char>, v: Seq<char>)
    ensures
        lines_of(u + seq!['\n'] + v) == lines_of(u + seq!['\n']) + lines_of(v),
    decreases u.len(),
{
    let s = u + seq!['\n'] + v;
    let w = u + seq!['\n'];
    lemma_first_newline(u);
    let n = first_newline(u);
    if n < u.len() {
        assert forall|k: int| 0 <= k < n implies s[k] != '\n' by {
            assert(s[k] == u[k]);
        }
        assert forall|k: int| 0 <= k < n implies w[k] != '\n' by {
            assert(w[k] == u[k]);
        }
        lemma_first_newline_at(s, n);
        lemma_first_newline_at(w, n);
        lemma_lines_concat(u.skip(n + 1), v);
        assert(s.skip(n + 1) =~= u.skip(n + 1) + seq!['\n'] + v);
        assert(w.skip(n + 1) =~= u.skip(n + 1) + seq!['\n']);
        assert(s.take(n) =~= w.take(n));
        assert(lines_of(s) =~= lines_of(w) + lines_of(v));
    } else {
        assert forall|k: int| 0 <= k < u.len() implies s[k] != '\n' by {
            assert(s[k] == u[k]);
        }
        assert forall|k: int| 0 <= k < u.len() implies w[k] != '\n' by {
            assert(w[k] == u[k]);
        }
        lemma_first_newline_at(s, u.len() as int);
        lemma_first_newline_at(w, u.len() as int);
        assert(s.skip(u.len() as int + 1) =~= v);
        assert(w.skip(u.len() as int + 1) =~= Seq::<char>::empty());
        assert(s.take(u.len() as int) =~= u);
        assert(w.take(u.len() as int) =~= u);
        assert(lines_of(Seq::<char>::empty()) =~= Seq::<Seq<char>>::empty());
        assert(lines_of(s) == seq![strip_cr(u)] + lines_of(v));
        assert(lines_of(w) == seq![strip_cr(u)] + lines_of(Seq::<char>::empty()));
        assert(lines_of(s) =~= lines_of(w) + lines_of(v));
    }
}

/// A newline-free line ended by a newline reads back as that line (without
/// a trailing `\r`).
pub proof fn lemma_lines_one(t: Seq<char>)
    requires
        newline_free(t),
    ensures
        lines_of(t + seq!['\n']) == seq![strip_cr(t)],
{
    let w = t + seq!['\n'];
    assert forall|k: int| 0 <= k < t.len() implies w[k] != '\n' by {
        assert(w[k] == t[k]);
    }
    lemma_first_newline_at(w, t.len() as int);
    assert(w.take(t.len() as int) =~= t);
    assert(w.skip(t.len() as int + 1) =~= Seq::<char>::empty());
    assert(lines_of(Seq::<char>::empty()) =~= Seq::<Seq<char>>::empty());
    assert(lines_of(w) == seq![strip_cr(t)] + lines_of(Seq::<char>::empty()));
    assert(lines_of(w) =~= seq![strip_cr(t)]);
}

/// What `trim_end_spec` leaves is a prefix.
pub proof fn lemma_trim_end_prefix(s: Seq<char>)
    ensures
        trim_end_spec(s).len() <= s.len(),
        trim_end_spec(s) == s.take(trim_end_spec(s).len() as int),
    decreases s.len(),
{
    if s.len() > 0 && is_ws(s.last()) {
        lemma_trim_end_prefix(s.drop_last());
        assert(s.drop_last().take(trim_end_spec(s).len() as int) =~= s.take(
            trim_end_spec(s).len() as int,
        ));
    } else {
        assert(s.take(s.len() as int) =~= s);
    }
}

/// Whether `c` has the Unicode `White_Space` property (as `char::is_whitespace`).
pub open spec fn is_ws(c: char) -> bool {
    ('\t' <= c && c <= '\r') || c == ' ' || c == '\u{85}' || c == '\u{a0}' || c == '\u{1680}' || (
    '\u{2000}' <= c && c <= '\u{200a}') || c == '\u{2028}' || c == '\u{2029}' || c == '\u{202f}'
        || c == '\u{205f}' || c == '\u{3000}'
}

/// `s` without trailing whitespace.
pub open spec fn trim_end_spec(s: Seq<char>) -> Seq<char>
    decreases s.len(),
{
    if s.len() > 0 && is_ws(s.last()) {
        trim_end_spec(s.drop_last())
    } else {
        s
    }
}

/// `s` without leading whitespace.
pub open spec fn trim_start_spec(s: Seq<char>) -> Seq<char>
    decreases s.len(),
{
    if s.len() > 0 && is_ws(s[0]) {
        trim_start_spec(s.drop_first())
    } else {
        s
    }
}

/// `s` without leading or trailing whitespace.
pub open spec fn trim_spec(s: Seq<char>) -> Seq<char> {
    trim_start_spec(trim_end_spec(s))
}

/// Executable `is_ws`.
pub fn is_whitespace(c: char) -> (r: bool)
    ensures
        r == is_ws(c),
{
    ('\t' <= c && c <= '\r') || c == ' ' || c == '\u{85}' || c == '\u{a0}' || c == '\u{1680}' || (
    '\u{2000}' <= c && c <= '\u{200a}') || c == '\u{2028}' || c == '\u{2029}' || c == '\u{202f}'
        || c == '\u{205f}' || c == '\u{3000}'
}

/// The characters of `cs` without trailing whitespace.
pub fn trim_end_chars(cs: &[char]) -> (r: Vec<char>)
    ensures
        r@ == trim_end_spec(cs@),
{
    let mut k = cs.len();
    assert(cs@.take(cs@.len() as int) =~= cs@);
    while k > 0 && is_whitespace(cs[k - 1])
        invariant
            k <= cs@.len(),
            trim_end_spec(cs@) == trim_end_spec(cs@.take(k as int)),
        decreases k,
    {
        assert(cs@.take(k as int).drop_last() =~= cs@.take(k - 1));
        k -= 1;
    }
    assert(trim_end_spec(cs@.take(k as int)) == cs@.take(k as int));
    let mut r: Vec<char> = Vec::new();
    let mut i: usize = 0;
    while i < k
        invariant
            k <= cs@.len(),
            i <= k,
            r@ == cs@.take(i as int),
        decreases k - i,
    {
        r.push(cs[i]);
        assert(r@ =~= cs@.take(i + 1));
        i += 1;
    }
    r
}

/// The characters of `cs` without leading or trailing whitespace.
pub fn trim_chars(cs: &[char]) -> (r: Vec<char>)
    ensures
        r@ == trim_spec(cs@),
{
    let e = trim_end_chars(cs);
    let mut k: usize = 0;
    assert(e@.skip(0) =~= e@);
    while k < e.len() && is_whitespace(e[k])
        invariant
            k <= e@.len(),
            trim_start_spec(e@) == trim_start_spec(e@.skip(k as int)),
        decreases e@.len() - k,
    {
        assert(e@.skip(k as int).drop_first() =~= e@.skip(k + 1));
        k += 1;
    }
    assert(e@.skip(0) =~= e@);
    let mut r: Vec<char> = Vec::new();
    let mut i: usize = k;
    while i < e.len()
        invariant
            k <= i <= e@.len(),
            r@ == e@.subrange(k as int, i as int),
        decreases e@.len() - i,
    {
        r.push(e[i]);
        assert(r@ =~= e@.subrange(k as int, i + 1));
        i += 1;
    }
    assert(e@.subrange(k as int, e@.len() as int) =~= e@.skip(k as int));
    r
}

/// `s` without trailing whitespace (as `str::trim_end`).
pub fn trim_end(s: &str) -> (r: String)
    ensures
        r@ == trim_end_spec(s@),
{
    let cs = chars_of(s);
    let t = trim_end_chars(cs.as_slice());
    string_from_chars(t.as_slice())
}

/// `s` without leading or trailing whitespace (as `str::trim`).
pub fn trim(s: &str) -> (r: String)
    ensures
        r@ == trim_spec(s@),
{
    let cs = chars_of(s);
    let t = trim_chars(cs.as_slice());
    string_from_chars(t.as_slice())
}

/// The lines of `s` (as `str::lines`).
pub fn lines(s: &str) -> (r: Vec<String>)
    ensures
        strings_view(r@) == lines_of(s@),
{
    let cs = chars_of(s);
    let n = cs.len();
    let mut out: Vec<String> = Vec::new();
    let mut i: usize = 0;
    assert(cs@.skip(0) =~= cs@);
    assert(strings_view(out@) + lines_of(s@) =~= lines_of(s@));
    while i < n
        invariant
            n == cs@.len(),
            cs@ == s@,
            i <= n,
            lines_of(s@) == strings_view(out@) + lines_of(cs@.skip(i as int)),
        decreases n - i,
    {
        let ghost t = cs@.skip(i as int);
        let mut j = i;
        while j < n && cs[j] != '\n'
            invariant
                i <= j <= n,
                n == cs@.len(),
                forall|k: int| i <= k < j ==> cs@[k] != '\n',
            decreases n - j,
        {
            j += 1;
        }
        proof {
            lemma_first_newline(t);
            let f = first_newline(t);
            if f < j - i {
                assert(t[f] == cs@[i + f]);
            }
            if j < n {
                assert(t[j - i] == '\n');
            }
            assert(f == j - i);
        }
        let mut end = j;
        if j < n && end > i && cs[end - 1] == '\r' {
            end -= 1;
        }
        let line = string_from_chars(&cs.as_slice()[i..end]);
        let ghost before = out@;
        out.push(line);
        proof {
            assert(strings_view(out@) =~= strings_view(before).push(line@));
            if j < n {
                let l = t.take(j - i);
                assert(l =~= cs@.subrange(i as int, j as int));
                assert(strip_cr(l) =~= cs@.subrange(i as int, end as int));
                assert(t.skip(j - i + 1) =~= cs@.skip(j + 1));
                assert(lines_of(t) == seq![strip_cr(l)] + lines_of(t.skip(j - i + 1)));
                assert(strings_view(out@) + lines_of(cs@.skip(j + 1)) =~= strings_view(before)
                    + lines_of(t));
            } else {
                assert(t =~= cs@.subrange(i as int, n as int));
                assert(lines_of(t) == seq![t]);
                assert(cs@.skip(n as int) =~= Seq::<char>::empty());
                assert(strings_view(out@) + lines_of(cs@.skip(n as int)) =~= strings_view(before)
                    + lines_of(t));
            }
        }
        i = if j < n { j + 1 } else { n };
    }
    assert(cs@.skip(n as int) =~= Seq::<char>::empty());
    assert(strings_view(out@) + Seq::<Seq<char>>::empty() =~= strings_view(out@));
    out
}

} // verus!

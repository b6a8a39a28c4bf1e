//! `{key}` templates and `${ENV_VAR}` expansion.
use vstd::prelude::*;
use crate::str_map::StrMap;
use crate::text::{chars_of, occurs_at, push_chars, seq_contains, string_from_chars};

verus! {

/// The characters of `t` before its first `}` (all of `t` if it has none).
pub open spec fn key_of(t: Seq<char>) -> Seq<char>
    decreases t.len(),
{
    if t.len() == 0 || t[0] == '}' {
        seq![]
    } else {
        seq![t[0]] + key_of(t.drop_first())
    }
}

/// What follows the first `}` of `t` (nothing if it has none).
pub open spec fn after_key(t: Seq<char>) -> Seq<char>
    decreases t.len(),
{
    if t.len() == 0 {
        seq![]
    } else if t[0] == '}' {
        t.drop_first()
    } else {
        after_key(t.drop_first())
    }
}

pub proof fn lemma_after_key_len(t: Seq<char>)
    ensures
        after_key(t).len() <= t.len(),
    decreases t.len(),
{
    if t.len() > 0 && t[0] != '}' {
        lemma_after_key_len(t.drop_first());
    }
}

/// `{key}` expansion: a known key becomes its value; an unknown key is kept
/// as `{key}`; a `{` with no `}` after it leaves the rest of the text as it is.
pub open spec fn render_template(s: Seq<char>, vars: Map<Seq<char>, Seq<char>>) -> Seq<char>
    decreases s.len(),
{
    if s.len() == 0 {
        seq![]
    } else if s[0] == '{' {
        let rest = s.drop_first();
        if rest.contains('}') {
            let key = key_of(rest);
            proof {
                lemma_after_key_len(rest);
            }
            (if vars.contains_key(key) {
                vars[key]
            } else {
                seq!['{'] + key + seq!['}']
            }) + render_template(after_key(rest), vars)
        } else {
            s
        }
    } else {
        seq![s[0]] + render_template(s.drop_first(), vars)
    }
}

/// `${NAME}` expansion against the environment `env`; a name that is not set
/// expands to nothing.
pub open spec fn render_env(s: Seq<char>, env: Map<Seq<char>, Seq<char>>) -> Seq<char>
    decreases s.len(),
{
    if s.len() == 0 {
        seq![]
    } else if s[0] == '$' && s.len() > 1 && s[1] == '{' {
        let rest = s.skip(2);
        let key = key_of(rest);
        proof {
            lemma_after_key_len(rest);
        }
        (if env.contains_key(key) {
            env[key]
        } else {
            seq![]
        }) + render_env(after_key(rest), env)
    } else {
        seq![s[0]] + render_env(s.drop_first(), env)
    }
}

/// Key and remainder for a scan that stops at position `j`.
proof fn lemma_key_at(t: Seq<char>, j: int)
    requires
        0 <= j <= t.len(),
        forall|k: int| 0 <= k < j ==> t[k] != '}',
        j == t.len() || t[j] == '}',
    ensures
        key_of(t) == t.take(j),
        after_key(t) == (if j < t.len() {
            t.skip(j + 1)
        } else {
            Seq::<char>::empty()
        }),
    decreases j,
{
    if j == 0 {
        assert(t.take(0) =~= Seq::<char>::empty());
        if t.len() > 0 {
            assert(t.drop_first() =~= t.skip(1));
        }
    } else {
        lemma_key_at(t.drop_first(), j - 1);
        assert(seq![t[0]] + t.drop_first().take(j - 1) =~= t.take(j));
        if j < t.len() {
            assert(t.drop_first().skip(j) =~= t.skip(j + 1));
        }
    }
}

/// A template that is one placeholder `{key}` renders as the key's value.
pub proof fn lemma_render_single_key(key: Seq<char>, vars: Map<Seq<char>, Seq<char>>)
    requires
        !key.contains('}'),
        vars.contains_key(key),
    ensures
        render_template(seq!['{'] + key + seq!['}'], vars) == vars[key],
{
    let s = seq!['{'] + key + seq!['}'];
    let rest = s.drop_first();
    assert(rest =~= key + seq!['}']);
    assert(rest[key.len() as int] == '}');
    assert(rest.contains('}'));
    assert forall|k: int| 0 <= k < key.len() implies rest[k] != '}' by {
        assert(rest[k] == key[k]);
    }
    lemma_key_at(rest, key.len() as int);
    assert(rest.take(key.len() as int) =~= key);
    assert(rest.skip((key.len() + 1) as int) =~= Seq::<char>::empty());
    assert(s[0] == '{');
    assert(s.drop_first() == rest);
    assert(key_of(rest) == key);
    assert(after_key(rest) == Seq::<char>::empty());
    assert(render_template(Seq::<char>::empty(), vars) == Seq::<char>::empty());
    assert(vars[key] + Seq::<char>::empty() =~= vars[key]);
}

/// First position at or after `start` holding `}`, or the length.
fn close_brace(cs: &Vec<char>, start: usize) -> (j: usize)
    requires
        start <= cs@.len(),
    ensures
        start <= j <= cs@.len(),
        forall|k: int| start <= k < j ==> cs@[k] != '}',
        j == cs@.len() || cs@[j as int] == '}',
{
    let mut j = start;
    while j < cs.len() && cs[j] != '}'
        invariant
            start <= j <= cs@.len(),
            forall|k: int| start <= k < j ==> cs@[k] != '}',
        decreases cs@.len() - j,
    {
        j += 1;
    }
    j
}

/// Expand `{key}` placeholders in `s` using `vars`. Unknown keys are left as-is.
pub fn interpolate_template(s: &str, vars: &StrMap) -> (r: String)
    ensures
        r@ == render_template(s@, vars@),
{
    let cs = chars_of(s);
    let n = cs.len();
    let mut out = String::new();
    let mut i: usize = 0;
    assert(cs@.skip(0) =~= cs@);
    assert(out@ + render_template(s@, vars@) =~= render_template(s@, vars@));
    while i < n
        invariant
            n == cs@.len(),
            cs@ == s@,
            i <= n,
            render_template(s@, vars@) == out@ + render_template(cs@.skip(i as int), vars@),
        decreases n - i,
    {
        let ghost t = cs@.skip(i as int);
        let c = cs[i];
        assert(t[0] == c);
        if c == '{' {
            let j = close_brace(&cs, i + 1);
            proof {
                let rest = t.drop_first();
                assert(rest =~= cs@.skip(i + 1));
                lemma_key_at(rest, j - i - 1);
                assert(rest.take(j - i - 1) =~= cs@.subrange(i + 1, j as int));
                if j < n {
                    assert(rest.skip(j - i) =~= cs@.skip(j + 1));
                } else {
                    assert(cs@.skip(n as int) =~= Seq::<char>::empty());
                }
            }
            if j < n {
                proof {
                    let rest = t.drop_first();
                    assert(rest[j - i - 1] == '}');
                }
                let key = string_from_chars(&cs.as_slice()[i + 1..j]);
                match vars.get(key.as_str()) {
                    Some(v) => {
                        let vc = chars_of(v.as_str());
                        push_chars(&mut out, vc.as_slice());
                    },
                    None => {
                        out.push('{');
                        let kc = chars_of(key.as_str());
                        push_chars(&mut out, kc.as_slice());
                        out.push('}');
                    },
                }
                i = j + 1;
            } else {
                proof {
                    let rest = t.drop_first();
                    assert(!rest.contains('}')) by {
                        if rest.contains('}') {
                            let k = choose|k: int| 0 <= k < rest.len() && rest[k] == '}';
                            assert(cs@[i + 1 + k] == '}');
                        }
                    }
                    assert(t =~= cs@.subrange(i as int, n as int));
                }
                push_chars(&mut out, &cs.as_slice()[i..n]);
                i = n;
            }
        } else {
            proof {
                assert(t.drop_first() =~= cs@.skip(i + 1));
            }
            out.push(c);
            i += 1;
        }
    }
    proof {
        assert(cs@.skip(n as int) =~= Seq::<char>::empty());
    }
    out
}

/// Expand `${ENV_VAR}` placeholders in `s` using the environment `env`
/// (a snapshot of the process environment). Unknown variables are replaced
/// with an empty string.
pub fn interpolate_env(s: &str, env: &StrMap) -> (r: String)
    ensures
        r@ == render_env(s@, env@),
{
    let cs = chars_of(s);
    let n = cs.len();
    let mut out = String::new();
    let mut i: usize = 0;
    assert(cs@.skip(0) =~= cs@);
    assert(out@ + render_env(s@, env@) =~= render_env(s@, env@));
    while i < n
        invariant
            n == cs@.len(),
            cs@ == s@,
            i <= n,
            render_env(s@, env@) == out@ + render_env(cs@.skip(i as int), env@),
        decreases n - i,
    {
        let ghost t = cs@.skip(i as int);
        let c = cs[i];
        assert(t[0] == c);
        if c == '$' && i + 1 < n && cs[i + 1] == '{' {
            assert(t[1] == cs@[i + 1]);
            let j = close_brace(&cs, i + 2);
            proof {
                let rest = t.skip(2);
                assert(rest =~= cs@.skip(i + 2));
                lemma_key_at(rest, j - i - 2);
                assert(rest.take(j - i - 2) =~= cs@.subrange(i + 2, j as int));
                if j < n {
                    assert(rest.skip(j - i - 1) =~= cs@.skip(j + 1));
                } else {
                    assert(cs@.skip(n as int) =~= Seq::<char>::empty());
                }
            }
            let key = string_from_chars(&cs.as_slice()[i + 2..j]);
            match env.get(key.as_str()) {
                Some(v) => {
                    let vc = chars_of(v.as_str());
                    push_chars(&mut out, vc.as_slice());
                },
                None => {
                    assert(out@ + Seq::<char>::empty() =~= out@);
                },
            }
            i = if j < n { j + 1 } else { n };
        } else {
            proof {
                assert(t.drop_first() =~= cs@.skip(i + 1));
            }
            out.push(c);
            i += 1;
        }
    }
    proof {
        assert(cs@.skip(n as int) =~= Seq::<char>::empty());
    }
    out
}

/// A template with no `{` has nothing to expand.
pub proof fn law_plain_template_unchanged(s: Seq<char>, vars: Map<Seq<char>, Seq<char>>)
    requires
        !s.contains('{'),
    ensures
        render_template(s, vars) == s,
    decreases s.len(),
{
    if s.len() > 0 {
        assert(s[0] != '{') by {
            if s[0] == '{' {
                assert(s.contains('{'));
            }
        }
        assert(!s.drop_first().contains('{')) by {
            if s.drop_first().contains('{') {
                let j = choose|j: int| 0 <= j < s.drop_first().len() && s.drop_first()[j] == '{';
                assert(s[j + 1] == '{');
            }
        }
        law_plain_template_unchanged(s.drop_first(), vars);
        assert(seq![s[0]] + s.drop_first() =~= s);
    }
}

proof fn lemma_key_split(t: Seq<char>)
    requires
        t.contains('}'),
    ensures
        key_of(t) + seq!['}'] + after_key(t) == t,
        after_key(t) == t.skip(t.len() - after_key(t).len()),
    decreases t.len(),
{
    if t[0] == '}' {
        assert(seq!['}'] + t.drop_first() =~= t);
        assert(t.skip(1) =~= t.drop_first());
    } else {
        let j = choose|j: int| 0 <= j < t.len() && t[j] == '}';
        assert(t.drop_first()[j - 1] == '}');
        lemma_key_split(t.drop_first());
        lemma_after_key_len(t.drop_first());
        assert(seq![t[0]] + key_of(t.drop_first()) + seq!['}'] + after_key(t.drop_first()) =~= seq![
            t[0],
        ] + t.drop_first());
        assert(seq![t[0]] + t.drop_first() =~= t);
        assert(t.drop_first().skip(t.drop_first().len() - after_key(t).len()) =~= t.skip(
            t.len() - after_key(t).len(),
        ));
    }
}

/// No placeholder `{k}` for a key `k` of `vars` occurs in `s`.
pub open spec fn no_known_placeholder(s: Seq<char>, vars: Map<Seq<char>, Seq<char>>) -> bool {
    forall|k: Seq<char>| #[trigger] vars.contains_key(k) ==> !seq_contains(s, seq!['{'] + k + seq!['}'])
}

proof fn lemma_no_known_placeholder_suffix(s: Seq<char>, vars: Map<Seq<char>, Seq<char>>, d: int)
    requires
        no_known_placeholder(s, vars),
        0 <= d <= s.len(),
    ensures
        no_known_placeholder(s.skip(d), vars),
{
    assert forall|k: Seq<char>| #[trigger] vars.contains_key(k) implies !seq_contains(
        s.skip(d),
        seq!['{'] + k + seq!['}'],
    ) by {
        let p = seq!['{'] + k + seq!['}'];
        if seq_contains(s.skip(d), p) {
            let i = choose|i: int| occurs_at(s.skip(d), p, i);
            assert(s.subrange(d + i, d + i + p.len()) =~= s.skip(d).subrange(i, i + p.len()));
            assert(occurs_at(s, p, d + i));
        }
    }
}

/// Text in which no key of `vars` occurs as a `{key}` placeholder comes out
/// unchanged: unknown `{key}` placeholders, and a `{` without a `}` after
/// it, are left as they are.
pub proof fn law_unknown_keys_kept(s: Seq<char>, vars: Map<Seq<char>, Seq<char>>)
    requires
        no_known_placeholder(s, vars),
    ensures
        render_template(s, vars) == s,
    decreases s.len(),
{
    if s.len() > 0 {
        let rest = s.drop_first();
        if s[0] == '{' {
            if rest.contains('}') {
                lemma_key_split(rest);
                lemma_after_key_len(rest);
                let key = key_of(rest);
                let a = after_key(rest);
                assert(seq!['{'] + rest =~= s);
                assert(key + seq!['}'] + a == rest);
                assert(s =~= seq!['{'] + key + seq!['}'] + a);
                let p = seq!['{'] + key + seq!['}'];
                assert(s.subrange(0, p.len() as int) =~= p);
                assert(occurs_at(s, p, 0));
                assert(!vars.contains_key(key));
                assert(a =~= s.skip(s.len() - a.len()));
                lemma_no_known_placeholder_suffix(s, vars, s.len() - a.len());
                law_unknown_keys_kept(a, vars);
            }
        } else {
            lemma_no_known_placeholder_suffix(s, vars, 1);
            assert(s.skip(1) =~= rest);
            law_unknown_keys_kept(rest, vars);
            assert(seq![s[0]] + rest =~= s);
        }
    }
}

/// Text with no `${` has nothing to expand from the environment.
pub proof fn law_plain_env_unchanged(s: Seq<char>, env: Map<Seq<char>, Seq<char>>)
    requires
        forall|i: int| 0 <= i < s.len() - 1 ==> !(#[trigger] s[i] == '$' && s[i + 1] == '{'),
    ensures
        render_env(s, env) == s,
    decreases s.len(),
{
    if s.len() > 0 {
        let t = s.drop_first();
        assert forall|i: int| 0 <= i < t.len() - 1 implies !(#[trigger] t[i] == '$' && t[i + 1]
            == '{') by {
            assert(t[i] == s[i + 1] && t[i + 1] == s[i + 2]);
        }
        law_plain_env_unchanged(t, env);
        assert(seq![s[0]] + t =~= s);
    }
}

} // verus!

//! Resolving links found on a page against the page URL.
use vstd::prelude::*;
use crate::text::{chars_of, occurs_at, push_chars, seq_starts_with, slice_occurs_at, str_starts_with};

verus! {

/// The first position at or after `i` where `p` occurs in `s`.
pub open spec fn find_from(s: Seq<char>, p: Seq<char>, i: nat) -> Option<int>
    decreases s.len() + 1 - i,
{
    if i + p.len() > s.len() {
        None
    } else if occurs_at(s, p, i as int) {
        Some(i as int)
    } else {
        find_from(s, p, i + 1)
    }
}

/// The first position where `p` occurs in `s` (as `str::find`).
pub open spec fn find_first(s: Seq<char>, p: Seq<char>) -> Option<int> {
    find_from(s, p, 0)
}

proof fn lemma_find_from(s: Seq<char>, p: Seq<char>, i: nat)
    ensures
        find_from(s, p, i) matches Some(k) ==> i <= k && k + p.len() <= s.len() && occurs_at(s, p, k),
    decreases s.len() + 1 - i,
{
    if i + p.len() <= s.len() && !occurs_at(s, p, i as int) {
        lemma_find_from(s, p, i + 1);
    }
}

/// `s` without its leading `/` characters.
pub open spec fn trim_leading_slashes(s: Seq<char>) -> Seq<char>
    decreases s.len(),
{
    if s.len() > 0 && s[0] == '/' {
        trim_leading_slashes(s.drop_first())
    } else {
        s
    }
}

/// The scheme and host part of `base`: up to (not including) the first `/`
/// after `://`, or all of `base` when there is none.
pub open spec fn origin_of(base: Seq<char>) -> Seq<char> {
    match find_first(base, "://"@) {
        Some(s) => match find_first(base.skip(s + 3), seq!['/']) {
            Some(i) => base.take(s + 3 + i),
            None => base,
        },
        None => base,
    }
}

/// `href` resolved against the page `base`: absolute `http(s)://` links pass
/// through; anything else is hung off the base's origin.
pub open spec fn resolved_url(base: Seq<char>, href: Seq<char>) -> Seq<char> {
    if seq_starts_with(href, "http://"@) || seq_starts_with(href, "https://"@) {
        href
    } else {
        origin_of(base) + seq!['/'] + trim_leading_slashes(href)
    }
}

fn find_exec(s: &Vec<char>, p: &Vec<char>, start: usize) -> (r: Option<usize>)
    requires
        start <= s@.len(),
    ensures
        match r {
            Some(k) => find_from(s@, p@, start as nat) == Some(k as int),
            None => find_from(s@, p@, start as nat) is None,
        },
{
    let mut i = start;
    while i <= s.len() && p.len() <= s.len() - i
        invariant
            start <= i,
            i <= s@.len() + 1,
            s@.len() == s.len(),
            find_from(s@, p@, start as nat) == find_from(s@, p@, i as nat),
        decreases s@.len() + 1 - i,
    {
        if slice_occurs_at(s.as_slice(), p.as_slice(), i) {
            return Some(i);
        }
        if i == s.len() {
            assert(find_from(s@, p@, (i + 1) as nat) is None);
            return None;
        }
        i += 1;
    }
    None
}

/// Resolve a possibly-relative `href` against the page `base` URL. Absolute URLs
/// pass through unchanged; everything else is hung off the base's origin.
pub fn resolve_url(base: &str, href: &str) -> (r: String)
    ensures
        r@ == resolved_url(base@, href@),
{
    if str_starts_with(href, "http://") || str_starts_with(href, "https://") {
        return href.to_owned();
    }
    let b = chars_of(base);
    let sep = chars_of("://");
    let slash = chars_of("/");
    proof {
        reveal_strlit("/");
        assert(slash@ =~= seq!['/']);
    }
    let mut origin_end = b.len();
    match find_exec(&b, &sep, 0) {
        Some(s) => {
            proof {
                lemma_find_from(b@, sep@, 0);
                reveal_strlit("://");
            }
            let rest_start = s + 3;
            let mut rest: Vec<char> = Vec::new();
            let mut k = rest_start;
            while k < b.len()
                invariant
                    rest_start <= k <= b@.len(),
                    rest@ == b@.subrange(rest_start as int, k as int),
                decreases b@.len() - k,
            {
                rest.push(b[k]);
                assert(rest@ =~= b@.subrange(rest_start as int, k + 1));
                k += 1;
            }
            assert(rest@ =~= b@.skip(rest_start as int));
            match find_exec(&rest, &slash, 0) {
                Some(i) => {
                    proof {
                        lemma_find_from(rest@, slash@, 0);
                    }
                    origin_end = rest_start + i;
                },
                None => {},
            }
        },
        None => {},
    }
    let h = chars_of(href);
    let mut t: usize = 0;
    assert(h@.skip(0) =~= h@);
    while t < h.len() && h[t] == '/'
        invariant
            t <= h@.len(),
            trim_leading_slashes(h@) == trim_leading_slashes(h@.skip(t as int)),
        decreases h@.len() - t,
    {
        assert(h@.skip(t as int).drop_first() =~= h@.skip(t + 1));
        t += 1;
    }
    let mut out = String::new();
    push_chars(&mut out, &b.as_slice()[0..origin_end]);
    out.push('/');
    push_chars(&mut out, &h.as_slice()[t..h.len()]);
    proof {
        assert(b@.take(b@.len() as int) =~= b@);
        assert(out@ =~= origin_of(base@) + seq!['/'] + trim_leading_slashes(href@));
    }
    out
}

/// An absolute `http://` or `https://` link resolves to itself.
pub proof fn law_absolute_link_unchanged(base: Seq<char>, href: Seq<char>)
    requires
        seq_starts_with(href, "http://"@) || seq_starts_with(href, "https://"@),
    ensures
        resolved_url(base, href) == href,
{
}

/// The scheme of an `http(s)://` page is kept by its origin.
proof fn lemma_origin_keeps_scheme(base: Seq<char>, scheme: Seq<char>)
    requires
        scheme == "http://"@ || scheme == "https://"@,
        seq_starts_with(base, scheme),
    ensures
        seq_starts_with(origin_of(base), scheme),
{
    reveal_strlit("http://");
    reveal_strlit("https://");
    reveal_strlit("://");
    lemma_find_from(base, "://"@, 0);
    match find_first(base, "://"@) {
        Some(s) => {
            assert(base.subrange(s, s + 3) == "://"@);
            assert(base[s] == ':') by {
                assert(base.subrange(s, s + 3)[0] == base[s]);
            }
            assert forall|k: int| 0 <= k < scheme.len() - 3 implies base[k] != ':' by {
                assert(base.subrange(0, scheme.len() as int)[k] == base[k]);
                assert(scheme[k] != ':');
            }
            assert(s >= scheme.len() - 3);
            let rest = base.skip(s + 3);
            lemma_find_from(rest, seq!['/'], 0);
            match find_first(rest, seq!['/']) {
                Some(i) => {
                    let o = base.take(s + 3 + i);
                    assert(o.subrange(0, scheme.len() as int) =~= base.subrange(
                        0,
                        scheme.len() as int,
                    ));
                },
                None => {},
            }
        },
        None => {},
    }
}

/// On an `http(s)://` page, resolving a link that was already resolved
/// changes nothing.
pub proof fn law_resolve_idempotent(base: Seq<char>, href: Seq<char>)
    requires
        seq_starts_with(base, "http://"@) || seq_starts_with(base, "https://"@),
    ensures
        resolved_url(base, resolved_url(base, href)) == resolved_url(base, href),
{
    let scheme = if seq_starts_with(base, "http://"@) {
        "http://"@
    } else {
        "https://"@
    };
    if !(seq_starts_with(href, "http://"@) || seq_starts_with(href, "https://"@)) {
        lemma_origin_keeps_scheme(base, scheme);
        let r = origin_of(base) + seq!['/'] + trim_leading_slashes(href);
        assert(r.subrange(0, scheme.len() as int) =~= origin_of(base).subrange(
            0,
            scheme.len() as int,
        ));
        assert(seq_starts_with(r, scheme));
    }
}

} // verus!

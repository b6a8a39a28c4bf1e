//! Turning extracted page data into elements, and the extraction script.
use vstd::prelude::*;
use crate::element::{Element, ElementView};
use crate::str_map::StrMap;
use crate::text::{join, push_str_chars, string_from_chars, strings_view};

verus! {

/// What one extracted page element holds, as read from the JSON that the
/// browser returned: each built-in field is present when its JSON value is a
/// string, and `attrs` lists the string-valued entries of the `attrs` object.
pub struct JsonRecord {
    pub text: Option<String>,
    pub class: Option<String>,
    pub href: Option<String>,
    pub value: Option<String>,
    pub attrs: Vec<(String, String)>,
}

/// `Some` of a non-empty string, otherwise `None`.
pub open spec fn non_empty(o: Option<String>) -> Option<Seq<char>> {
    match o {
        Some(s) => if s@.len() > 0 {
            Some(s@)
        } else {
            None
        },
        None => None,
    }
}

/// The attributes with a non-empty value; a later entry for a key wins.
pub open spec fn attrs_map(s: Seq<(String, String)>) -> Map<Seq<char>, Seq<char>>
    decreases s.len(),
{
    if s.len() == 0 {
        Map::empty()
    } else if s.last().1@.len() > 0 {
        attrs_map(s.drop_last()).insert(s.last().0@, s.last().1@)
    } else {
        attrs_map(s.drop_last())
    }
}

/// The element a record describes: empty strings count as absent.
pub open spec fn record_element(r: JsonRecord) -> ElementView {
    ElementView {
        text: non_empty(r.text),
        class: non_empty(r.class),
        href: non_empty(r.href),
        value: non_empty(r.value),
        attrs: attrs_map(r.attrs@),
    }
}

fn keep_non_empty(o: &Option<String>) -> (r: Option<String>)
    ensures
        crate::element::opt_view(r) == non_empty(*o),
{
    match o {
        Some(s) => if s.as_str().is_empty() {
            None
        } else {
            Some(s.clone())
        },
        None => None,
    }
}

/// The element described by an extracted record. Empty values are dropped.
pub fn json_to_element(rec: &JsonRecord) -> (e: Element)
    ensures
        e@ == record_element(*rec),
{
    let mut attrs = StrMap::new();
    let mut i: usize = 0;
    while i < rec.attrs.len()
        invariant
            i <= rec.attrs@.len(),
            attrs@ == attrs_map(rec.attrs@.take(i as int)),
        decreases rec.attrs@.len() - i,
    {
        proof {
            assert(rec.attrs@.take(i + 1).drop_last() =~= rec.attrs@.take(i as int));
            assert(rec.attrs@.take(i + 1).last() == rec.attrs@[i as int]);
        }
        let (k, v) = &rec.attrs[i];
        if !v.as_str().is_empty() {
            attrs.insert(k.clone(), v.clone());
        }
        i += 1;
    }
    assert(rec.attrs@.take(rec.attrs@.len() as int) =~= rec.attrs@);
    Element {
        text: keep_non_empty(&rec.text),
        class: keep_non_empty(&rec.class),
        href: keep_non_empty(&rec.href),
        value: keep_non_empty(&rec.value),
        attrs,
    }
}

/// The hexadecimal digit (lower case) for `n` in `0..16`.
pub open spec fn hex_digit(n: int) -> char {
    if n < 10 {
        (48 + n) as char
    } else {
        (87 + n) as char
    }
}

/// How a JSON string literal writes the character `c`.
pub open spec fn json_char_escape(c: char) -> Seq<char> {
    if c == '"' {
        seq!['\\', '"']
    } else if c == '\\' {
        seq!['\\', '\\']
    } else if c == '\u{8}' {
        seq!['\\', 'b']
    } else if c == '\t' {
        seq!['\\', 't']
    } else if c == '\n' {
        seq!['\\', 'n']
    } else if c == '\u{c}' {
        seq!['\\', 'f']
    } else if c == '\r' {
        seq!['\\', 'r']
    } else if (c as int) < 32 {
        seq!['\\', 'u', '0', '0', hex_digit((c as int) / 16), hex_digit((c as int) % 16)]
    } else {
        seq![c]
    }
}

/// The escaped characters of a JSON string literal.
pub open spec fn json_escaped(s: Seq<char>) -> Seq<char>
    decreases s.len(),
{
    if s.len() == 0 {
        seq![]
    } else {
        json_escaped(s.drop_last()) + json_char_escape(s.last())
    }
}

/// `s` written as a JSON string literal.
pub open spec fn json_quoted(s: Seq<char>) -> Seq<char> {
    seq!['"'] + json_escaped(s) + seq!['"']
}

/// Trusted: `serde_json::to_string` of a `&str`. Claims that it gives the JSON
/// string literal of `s`: enclosed in `"`, with `"` and `\` backslash-escaped,
/// the controls U+0008, U+0009, U+000A, U+000C, U+000D written `\b \t \n \f \r`,
/// other characters below U+0020 written `\u00XX` (lower-case hex), and every
/// other character written as itself.
#[verifier::external_body]
fn json_string(s: &str) -> (r: String)
    ensures
        r@ == json_quoted(s@),
{
    serde_json::to_string(s).unwrap_or_default()
}

/// `s` written as a JSON string literal.
pub fn json_string_of(s: &str) -> (r: String)
    ensures
        r@ == json_quoted(s@),
{
    json_string(s)
}

/// The object entry that captures attribute `a`.
pub open spec fn attr_entry(a: Seq<char>) -> Seq<char> {
    json_quoted(a) + ": el.getAttribute("@ + json_quoted(a) + ")"@
}

/// The captured-attribute entries, comma-separated.
pub open spec fn attrs_js(attrs: Seq<String>) -> Seq<char> {
    join(attrs.map_values(|a: String| attr_entry(a@)), ", "@)
}

/// The extraction script for `selector` and the extra `attrs`.
pub open spec fn query_script(selector: Seq<char>, attrs: Seq<String>) -> Seq<char> {
    "JSON.stringify(Array.from(document.querySelectorAll("@ + json_quoted(selector)
        + ")).map(el => ({text: el.textContent.replace(/\\s+/g,' ').trim(), class: el.className, href: el.getAttribute('href'), value: el.getAttribute('value'), attrs: {"@
        + attrs_js(attrs) + "}})))"@
}

/// Build the `JSON.stringify(...)` extraction script shared by `query_all` and
/// `follow`: map each matched element to its built-in fields plus any requested
/// extra `attrs`.
pub fn build_query_script(selector: &str, attrs: &Vec<String>) -> (r: String)
    ensures
        r@ == query_script(selector@, attrs@),
{
    let mut entries: Vec<String> = Vec::new();
    let mut i: usize = 0;
    while i < attrs.len()
        invariant
            i <= attrs@.len(),
            strings_view(entries@) == attrs@.take(i as int).map_values(|a: String| attr_entry(a@)),
        decreases attrs@.len() - i,
    {
        let key = json_string(attrs[i].as_str());
        let mut e = String::new();
        push_str_chars(&mut e, key.as_str());
        push_str_chars(&mut e, ": el.getAttribute(");
        push_str_chars(&mut e, key.as_str());
        push_str_chars(&mut e, ")");
        proof {
            assert(e@ =~= attr_entry(attrs@[i as int]@));
        }
        let ghost before = entries@;
        entries.push(e);
        proof {
            assert(strings_view(entries@) =~= strings_view(before).push(attr_entry(attrs@[i as int]@)));
            assert(attrs@.take(i + 1).map_values(|a: String| attr_entry(a@)) =~= attrs@.take(
                i as int,
            ).map_values(|a: String| attr_entry(a@)).push(attr_entry(attrs@[i as int]@)));
        }
        i += 1;
    }
    assert(attrs@.take(attrs@.len() as int) =~= attrs@);
    let attrs_text = crate::text::join_strings(&entries, ", ");
    let sel = json_string(selector);
    let mut out = String::new();
    push_str_chars(&mut out, "JSON.stringify(Array.from(document.querySelectorAll(");
    push_str_chars(&mut out, sel.as_str());
    push_str_chars(&mut out, ")).map(el => ({text: el.textContent.replace(/\\s+/g,' ').trim(), class: el.className, href: el.getAttribute('href'), value: el.getAttribute('value'), attrs: {");
    push_str_chars(&mut out, attrs_text.as_str());
    push_str_chars(&mut out, "}})))");
    proof {
        assert(out@ =~= query_script(selector@, attrs@));
    }
    out
}

/// The script captures `selector` and every attribute of `attrs`: it holds
/// the quoted selector and, for each attribute, the entry that reads it.
pub open spec fn script_captures(script: Seq<char>, selector: Seq<char>, attrs: Seq<String>) -> bool {
    &&& crate::text::seq_contains(script, json_quoted(selector))
    &&& forall|i: int| 0 <= i < attrs.len() ==> crate::text::seq_contains(script, attr_entry(#[trigger] attrs[i]@))
}

proof fn lemma_contains_mid(a: Seq<char>, x: Seq<char>, b: Seq<char>, p: Seq<char>)
    requires
        crate::text::seq_contains(x, p),
    ensures
        crate::text::seq_contains(a + x + b, p),
{
    let i = choose|i: int| crate::text::occurs_at(x, p, i);
    let y = a + x + b;
    assert(y.subrange(a.len() + i, a.len() + i + p.len()) =~= x.subrange(i, i + p.len()));
    assert(crate::text::occurs_at(y, p, a.len() + i));
}

proof fn lemma_contains_self(p: Seq<char>)
    ensures
        crate::text::seq_contains(p, p),
{
    assert(p.subrange(0, p.len() as int) =~= p);
    assert(crate::text::occurs_at(p, p, 0));
}

proof fn lemma_join_contains(ks: Seq<Seq<char>>, sep: Seq<char>, i: int)
    requires
        0 <= i < ks.len(),
    ensures
        crate::text::seq_contains(join(ks, sep), ks[i]),
    decreases ks.len(),
{
    let e = Seq::<char>::empty();
    lemma_contains_self(ks[i]);
    if ks.len() == 1 {
    } else if i == ks.len() - 1 {
        lemma_contains_mid(join(ks.drop_last(), sep) + sep, ks[i], e, ks[i]);
        assert(join(ks.drop_last(), sep) + sep + ks[i] + e =~= join(ks, sep));
    } else {
        lemma_join_contains(ks.drop_last(), sep, i);
        assert(ks.drop_last()[i] == ks[i]);
        lemma_contains_mid(e, join(ks.drop_last(), sep), sep + ks.last(), ks[i]);
        assert(e + join(ks.drop_last(), sep) + (sep + ks.last()) =~= join(ks, sep));
    }
}

/// The extraction script captures the selector and every requested attribute.
pub proof fn law_query_script_captures(selector: Seq<char>, attrs: Seq<String>)
    ensures
        script_captures(query_script(selector, attrs), selector, attrs),
{
    let p1 = "JSON.stringify(Array.from(document.querySelectorAll("@;
    let p2 = ")).map(el => ({text: el.textContent.replace(/\\s+/g,' ').trim(), class: el.className, href: el.getAttribute('href'), value: el.getAttribute('value'), attrs: {"@;
    let p3 = "}})))"@;
    let jq = json_quoted(selector);
    let js = attrs_js(attrs);
    let q = query_script(selector, attrs);
    assert(q == p1 + jq + p2 + js + p3);
    lemma_contains_self(jq);
    lemma_contains_mid(p1, jq, p2 + js + p3, jq);
    assert(p1 + jq + (p2 + js + p3) =~= q);
    assert forall|i: int| 0 <= i < attrs.len() implies crate::text::seq_contains(q, attr_entry(#[trigger] attrs[i]@)) by {
        let ks = attrs.map_values(|a: String| attr_entry(a@));
        lemma_join_contains(ks, ", "@, i);
        assert(ks[i] == attr_entry(attrs[i]@));
        lemma_contains_mid(p1 + jq + p2, js, p3, attr_entry(attrs[i]@));
    }
}

} // verus!

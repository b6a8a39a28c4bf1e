//! The persisted alert state, kept as a `[state]` table in the scraper's own
//! TOML file. Reading and rewriting the document goes through `toml_edit`,
//! which leaves the rest of the file (comments, order, layout) as it was.
use vstd::prelude::*;
use crate::element::opt_view;
use crate::stages::{
    lemma_text_order_antisymmetric, lemma_text_order_reflexive, lemma_text_order_transitive,
    lemma_text_order_zero, text_order, text_order_exec,
};
use crate::str_map::{entries_map, lemma_entries_map_push, StrMap};
use crate::text::{chars_of, str_eq};

verus! {

#[verifier::external_type_specification]
#[verifier::external_body]
pub struct ExDocumentMut(toml_edit::DocumentMut);

#[verifier::external_type_specification]
#[verifier::external_body]
pub struct ExTable(toml_edit::Table);

#[verifier::external_type_specification]
#[verifier::external_body]
pub struct ExTomlError(toml_edit::TomlError);

/// A TOML item as data, whatever its kind: a string by its value, any other
/// scalar (number, boolean, date) by its literal as written, an array by its
/// elements in order, a table or inline table by its entries, an array of
/// tables by its tables in order. Decoration (whitespace, comments) is not
/// part of it.
pub enum TomlData {
    Str(Seq<char>),
    Literal(Seq<char>),
    Array(Seq<TomlData>),
    Table(Map<Seq<char>, TomlData>),
    InlineTable(Map<Seq<char>, TomlData>),
    Tables(Seq<Map<Seq<char>, TomlData>>),
}

/// Every top-level item of a TOML document, by key, as data.
pub uninterp spec fn document_items(d: toml_edit::DocumentMut) -> Map<Seq<char>, TomlData>;

/// The text a document prints as (its `Display`).
pub uninterp spec fn rendered(d: toml_edit::DocumentMut) -> Seq<char>;

/// The entries of a TOML table in the order it lists them.
pub uninterp spec fn table_entries(t: toml_edit::Table) -> Seq<(Seq<char>, TomlData)>;

/// The top-level items of `text` read as a TOML document, or `None` when
/// `text` is not valid TOML.
pub uninterp spec fn parsed_document(text: Seq<char>) -> Option<Map<Seq<char>, TomlData>>;

/// The document prints as text that reads back as the same items.
pub open spec fn reads_back(d: toml_edit::DocumentMut) -> bool {
    parsed_document(rendered(d)) == Some(document_items(d))
}

/// Entries as a map by key (a later entry for a key wins).
pub open spec fn table_data(es: Seq<(Seq<char>, TomlData)>) -> Map<Seq<char>, TomlData>
    decreases es.len(),
{
    if es.len() == 0 {
        Map::empty()
    } else {
        table_data(es.drop_last()).insert(es.last().0, es.last().1)
    }
}

/// The string an item holds, when it is a string.
pub open spec fn string_of(d: TomlData) -> Option<Seq<char>> {
    match d {
        TomlData::Str(s) => Some(s),
        _ => None,
    }
}

/// The string-valued entries of a table.
pub open spec fn string_fields(m: Map<Seq<char>, TomlData>) -> Map<Seq<char>, Seq<char>> {
    Map::new(|k: Seq<char>| m.contains_key(k) && m[k] is Str, |k: Seq<char>| m[k]->Str_0)
}

/// A table holding each value of `m` as a string.
pub open spec fn string_table(m: Map<Seq<char>, Seq<char>>) -> Map<Seq<char>, TomlData> {
    m.map_values(|v: Seq<char>| TomlData::Str(v))
}

/// Pairs as a map by key (a later pair for a key wins).
pub open spec fn pairs_map(ps: Seq<(Seq<char>, Seq<char>)>) -> Map<Seq<char>, Seq<char>>
    decreases ps.len(),
{
    if ps.len() == 0 {
        Map::empty()
    } else {
        pairs_map(ps.drop_last()).insert(ps.last().0, ps.last().1)
    }
}

/// `text.parse::<toml_edit::DocumentMut>()`. Trusted: it fails exactly when
/// `parsed_document(text)` is `None`; otherwise the document holds the items
/// `parsed_document` names, and it prints as text that reads back as those
/// items (toml_edit keeps each item's literal text and structure).
#[verifier::external_body]
fn parse_document(text: &str) -> (r: Result<toml_edit::DocumentMut, toml_edit::TomlError>)
    ensures
        match r {
            Ok(d) => parsed_document(text@) == Some(document_items(d)) && reads_back(d),
            Err(_) => parsed_document(text@) is None,
        },
{
    text.parse::<toml_edit::DocumentMut>()
}

/// `Table::get` on the document's root table, the item taken with
/// `Item::as_table`. Trusted: it finds a table exactly when the document's
/// top-level item under `key` is a (non-inline) table, whose entries it lists.
#[verifier::external_body]
fn document_table<'a>(doc: &'a toml_edit::DocumentMut, key: &str) -> (r: Option<&'a toml_edit::Table>)
    ensures
        match r {
            Some(t) => document_items(*doc).contains_key(key@) && document_items(*doc)[key@]
                == TomlData::Table(table_data(table_entries(*t))),
            None => !(document_items(*doc).contains_key(key@) && document_items(*doc)[key@] is Table),
        },
{
    match doc.get(key) {
        Some(item) => item.as_table(),
        None => None,
    }
}

/// The pairs of a table.
pub open spec fn pairs_view(v: Seq<(String, Option<String>)>) -> Seq<(Seq<char>, Option<Seq<char>>)> {
    v.map_values(|p: (String, Option<String>)| (p.0@, opt_view(p.1)))
}

/// `Table::iter`, each value read with `Item::as_str`. Trusted: the pairs
/// come out as `table_entries` lists them, each key once, a value as its
/// string exactly when it is a string.
#[verifier::external_body]
fn table_pairs(t: &toml_edit::Table) -> (r: Vec<(String, Option<String>)>)
    ensures
        pairs_view(r@) == table_entries(*t).map_values(
            |e: (Seq<char>, TomlData)| (e.0, string_of(e.1)),
        ),
        forall|i: int, j: int| 0 <= i < j < r@.len() ==> r@[i].0@ != r@[j].0@,
{
    t.iter().map(|(k, v)| (k.to_owned(), v.as_str().map(str::to_owned))).collect()
}

/// `doc[key] = Item::Table(table)` (`IndexMut` of `DocumentMut`), the table
/// collected (`FromIterator`) from `pairs`, each value made a string item by
/// `toml_edit::value`. Trusted: with distinct keys, the top-level item under
/// `key` becomes a table of those strings and every other top-level item is
/// left as it was; a document that printed as text reading back as its items
/// still does (the new table is printed under its own header).
#[verifier::external_body]
fn set_string_table(doc: &mut toml_edit::DocumentMut, key: &str, pairs: &Vec<(String, String)>)
    requires
        forall|i: int, j: int| 0 <= i < j < pairs@.len() ==> pairs@[i].0@ != pairs@[j].0@,
        reads_back(*old(doc)),
    ensures
        document_items(*final(doc)) == document_items(*old(doc)).insert(
            key@,
            TomlData::Table(string_table(pairs_map(plain_pairs(pairs@)))),
        ),
        reads_back(*final(doc)),
{
    let table: toml_edit::Table = pairs.iter().map(|(k, v)| (k.as_str(), toml_edit::value(v.as_str()))).collect();
    doc[key] = toml_edit::Item::Table(table);
}

/// The document written out as TOML (its `Display`).
#[verifier::external_body]
fn document_text(doc: &toml_edit::DocumentMut) -> (r: String)
    ensures
        r@ == rendered(*doc),
{
    doc.to_string()
}

/// The parse error as text (its `Display`). Nothing is claimed of the text.
#[verifier::external_body]
fn toml_error_text(e: &toml_edit::TomlError) -> String {
    e.to_string()
}

/// The string values among `es`; a later pair for a key wins.
pub open spec fn string_values(es: Seq<(Seq<char>, Option<Seq<char>>)>) -> Map<Seq<char>, Seq<char>>
    decreases es.len(),
{
    if es.len() == 0 {
        Map::empty()
    } else {
        match es.last().1 {
            Some(v) => string_values(es.drop_last()).insert(es.last().0, v),
            None => string_values(es.drop_last()),
        }
    }
}

/// The persisted state held by a document's items: the string values of
/// its `[state]` table, or nothing without one.
pub open spec fn stored_state(items: Map<Seq<char>, TomlData>) -> Map<Seq<char>, Seq<char>> {
    if items.contains_key("state"@) && items["state"@] is Table {
        string_fields(items["state"@]->Table_0)
    } else {
        Map::empty()
    }
}

fn string_values_of(pairs: &Vec<(String, Option<String>)>) -> (r: StrMap)
    ensures
        r@ == string_values(pairs_view(pairs@)),
{
    let mut r = StrMap::new();
    let mut i: usize = 0;
    while i < pairs.len()
        invariant
            i <= pairs@.len(),
            r@ == string_values(pairs_view(pairs@.take(i as int))),
        decreases pairs@.len() - i,
    {
        proof {
            assert(pairs_view(pairs@.take(i + 1)).drop_last() =~= pairs_view(pairs@.take(i as int)));
            assert(pairs_view(pairs@.take(i + 1)).last() == (pairs@[i as int].0@, opt_view(
                pairs@[i as int].1,
            )));
        }
        match &pairs[i].1 {
            Some(v) => r.insert(pairs[i].0.clone(), v.clone()),
            None => {},
        }
        i += 1;
    }
    assert(pairs@.take(pairs@.len() as int) =~= pairs@);
    r
}

proof fn lemma_table_data_keys(es: Seq<(Seq<char>, TomlData)>, k: Seq<char>)
    ensures
        table_data(es).contains_key(k) <==> exists|i: int| 0 <= i < es.len() && es[i].0 == k,
    decreases es.len(),
{
    if es.len() > 0 {
        lemma_table_data_keys(es.drop_last(), k);
        if exists|i: int| 0 <= i < es.len() && es[i].0 == k {
            let i = choose|i: int| 0 <= i < es.len() && es[i].0 == k;
            if i < es.len() - 1 {
                assert(es.drop_last()[i] == es[i]);
            }
        }
        if exists|i: int| 0 <= i < es.len() - 1 && es.drop_last()[i].0 == k {
            let i = choose|i: int| 0 <= i < es.len() - 1 && es.drop_last()[i].0 == k;
            assert(es[i] == es.drop_last()[i]);
        }
    }
}

proof fn lemma_string_values_fields(es: Seq<(Seq<char>, TomlData)>)
    requires
        forall|i: int, j: int| 0 <= i < j < es.len() ==> es[i].0 != es[j].0,
    ensures
        string_values(es.map_values(|e: (Seq<char>, TomlData)| (e.0, string_of(e.1)))) == string_fields(
            table_data(es),
        ),
    decreases es.len(),
{
    let f = |e: (Seq<char>, TomlData)| (e.0, string_of(e.1));
    if es.len() == 0 {
        assert(string_fields(table_data(es)) =~= Map::<Seq<char>, Seq<char>>::empty());
    } else {
        let d = es.drop_last();
        let last = es.last();
        assert forall|i: int, j: int| 0 <= i < j < d.len() implies d[i].0 != d[j].0 by {
            assert(d[i] == es[i] && d[j] == es[j]);
        }
        lemma_string_values_fields(d);
        assert(es.map_values(f).drop_last() =~= d.map_values(f));
        assert(es.map_values(f).last() == f(last));
        lemma_table_data_keys(d, last.0);
        if table_data(d).contains_key(last.0) {
            let i = choose|i: int| 0 <= i < d.len() && d[i].0 == last.0;
            assert(d[i] == es[i]);
        }
        assert(string_fields(table_data(es)) =~= string_values(es.map_values(f)));
    }
}

/// The persisted state in a scraper document: the string values of its
/// `[state]` table; empty without one.
fn state_from_document(doc: &toml_edit::DocumentMut) -> (r: StrMap)
    ensures
        r@ == stored_state(document_items(*doc)),
{
    match document_table(doc, "state") {
        Some(t) => {
            let pairs = table_pairs(t);
            proof {
                let es = table_entries(*t);
                let f0 = |e: (Seq<char>, TomlData)| (e.0, string_of(e.1));
                assert(pairs_view(pairs@).len() == es.map_values(f0).len());
                assert(pairs@.len() == es.len());
                assert forall|i: int, j: int| 0 <= i < j < es.len() implies es[i].0 != es[j].0 by {
                    let f = |e: (Seq<char>, TomlData)| (e.0, string_of(e.1));
                    assert(pairs_view(pairs@)[i] == f(es[i]));
                    assert(pairs_view(pairs@)[j] == f(es[j]));
                    assert(pairs_view(pairs@)[i].0 == pairs@[i].0@);
                    assert(pairs_view(pairs@)[j].0 == pairs@[j].0@);
                }
                lemma_string_values_fields(es);
            }
            string_values_of(&pairs)
        },
        None => StrMap::new(),
    }
}

/// Load a scraper's persisted alert state from the text of its TOML file
/// (`None` when the scraper has no file or it could not be read). Keyed by
/// alert `id`; the state is empty when the file is not valid TOML or has no
/// `[state]` table yet.
pub fn load_state(text: Option<&str>) -> (r: StrMap)
    ensures
        r@ == (match text {
            Some(t) => match parsed_document(t@) {
                Some(items) => stored_state(items),
                None => Map::empty(),
            },
            None => Map::empty(),
        }),
{
    match text {
        Some(t) => match parse_document(t) {
            Ok(doc) => state_from_document(&doc),
            Err(_) => StrMap::new(),
        },
        None => StrMap::new(),
    }
}

/// The pairs list the map `m` in ascending key order: keys strictly
/// ascending, each with its value in `m`, every key of `m` listed.
pub open spec fn key_ordered(ps: Seq<(Seq<char>, Seq<char>)>, m: Map<Seq<char>, Seq<char>>) -> bool {
    &&& forall|i: int, j: int|
        0 <= i < j < ps.len() ==> text_order(#[trigger] ps[i].0, #[trigger] ps[j].0) < 0
    &&& forall|i: int| 0 <= i < ps.len() ==> #[trigger] m.contains_key(ps[i].0) && m[ps[i].0] == ps[i].1
    &&& forall|k: Seq<char>| #[trigger] m.contains_key(k) ==> exists|i: int| 0 <= i < ps.len() && ps[i].0 == k
}

/// The characters of each pair.
pub open spec fn plain_pairs(v: Seq<(String, String)>) -> Seq<(Seq<char>, Seq<char>)> {
    v.map_values(|p: (String, String)| (p.0@, p.1@))
}

fn has_key(out: &Vec<(String, String)>, k: &str) -> (r: bool)
    ensures
        r == exists|i: int| 0 <= i < out@.len() && out@[i].0@ == k@,
{
    let mut i: usize = 0;
    while i < out.len()
        invariant
            i <= out@.len(),
            forall|j: int| 0 <= j < i ==> out@[j].0@ != k@,
        decreases out@.len() - i,
    {
        if str_eq(out[i].0.as_str(), k) {
            return true;
        }
        i += 1;
    }
    false
}

/// The position where key `k` goes among keys in ascending order: before the
/// first key that orders after it.
fn key_position(out: &Vec<(String, String)>, k: &str) -> (p: usize)
    ensures
        p <= out@.len(),
        forall|i: int| 0 <= i < p ==> text_order(#[trigger] out@[i].0@, k@) <= 0,
        p < out@.len() ==> text_order(out@[p as int].0@, k@) > 0,
{
    let kc = chars_of(k);
    let mut p: usize = 0;
    while p < out.len()
        invariant
            p <= out@.len(),
            kc@ == k@,
            forall|i: int| 0 <= i < p ==> text_order(#[trigger] out@[i].0@, k@) <= 0,
        decreases out@.len() - p,
    {
        let oc = chars_of(out[p].0.as_str());
        if text_order_exec(&oc, &kc) > 0 {
            return p;
        }
        p += 1;
    }
    p
}

proof fn lemma_insert_key_ordered(
    ps: Seq<(Seq<char>, Seq<char>)>,
    m: Map<Seq<char>, Seq<char>>,
    p: int,
    k: Seq<char>,
    v: Seq<char>,
)
    requires
        key_ordered(ps, m),
        !m.contains_key(k),
        0 <= p <= ps.len(),
        forall|i: int| 0 <= i < p ==> text_order(#[trigger] ps[i].0, k) <= 0,
        p < ps.len() ==> text_order(ps[p].0, k) > 0,
    ensures
        key_ordered(ps.insert(p, (k, v)), m.insert(k, v)),
{
    let r = ps.insert(p, (k, v));
    let m2 = m.insert(k, v);
    assert forall|i: int, j: int| 0 <= i < j < r.len() implies text_order(
        #[trigger] r[i].0,
        #[trigger] r[j].0,
    ) < 0 by {
        if j < p {
            assert(r[i] == ps[i] && r[j] == ps[j]);
        } else if j == p {
            assert(r[i] == ps[i] && r[j] == (k, v));
            assert(m.contains_key(ps[i].0));
            if text_order(ps[i].0, k) == 0 {
                lemma_text_order_zero(ps[i].0, k);
            }
        } else if i < p {
            assert(r[i] == ps[i] && r[j] == ps[j - 1]);
        } else if i == p {
            assert(r[i] == (k, v) && r[j] == ps[j - 1]);
            lemma_text_order_antisymmetric(ps[p].0, k);
            if p < j - 1 {
                assert(text_order(ps[p].0, ps[j - 1].0) < 0);
                lemma_text_order_transitive(k, ps[p].0, ps[j - 1].0);
                assert(m.contains_key(ps[j - 1].0));
                if text_order(k, ps[j - 1].0) == 0 {
                    lemma_text_order_zero(k, ps[j - 1].0);
                }
            }
        } else {
            assert(r[i] == ps[i - 1] && r[j] == ps[j - 1]);
        }
    }
    assert forall|i: int| 0 <= i < r.len() implies #[trigger] m2.contains_key(r[i].0) && m2[r[i].0]
        == r[i].1 by {
        if i < p {
            assert(r[i] == ps[i]);
            assert(m.contains_key(ps[i].0));
        } else if i > p {
            assert(r[i] == ps[i - 1]);
            assert(m.contains_key(ps[i - 1].0));
        }
    }
    assert forall|x: Seq<char>| #[trigger] m2.contains_key(x) implies exists|i: int|
        0 <= i < r.len() && r[i].0 == x by {
        if x == k {
            assert(r[p].0 == k);
        } else {
            assert(m.contains_key(x));
            let i = choose|i: int| 0 <= i < ps.len() && ps[i].0 == x;
            if i < p {
                assert(r[i] == ps[i]);
            } else {
                assert(r[i + 1] == ps[i]);
            }
        }
    }
}

/// The entries of `state` in ascending key order.
fn key_listing(state: &StrMap) -> (r: Vec<(String, String)>)
    ensures
        key_ordered(plain_pairs(r@), state@),
{
    let es = state.entries();
    let mut out: Vec<(String, String)> = Vec::new();
    let mut i: usize = 0;
    while i < es.len()
        invariant
            i <= es@.len(),
            entries_map(es@) == state@,
            key_ordered(plain_pairs(out@), entries_map(es@.take(i as int))),
        decreases es@.len() - i,
    {
        let ghost m = entries_map(es@.take(i as int));
        let ghost e = es@[i as int];
        proof {
            assert(es@.take(i + 1) =~= es@.take(i as int).push(e));
            lemma_entries_map_push(es@.take(i as int), e);
        }
        let k = es[i].0.as_str();
        if has_key(&out, k) {
            proof {
                let j = choose|j: int| 0 <= j < out@.len() && out@[j].0@ == k@;
                assert(plain_pairs(out@)[j].0 == k@);
                assert(m.contains_key(k@));
            }
        } else {
            let p = key_position(&out, k);
            proof {
                let ps = plain_pairs(out@);
                assert forall|x: int| 0 <= x < ps.len() implies ps[x].0 != k@ by {
                    assert(ps[x].0 == out@[x].0@);
                }
                if m.contains_key(k@) {
                    let x = choose|x: int| 0 <= x < ps.len() && ps[x].0 == k@;
                }
                assert forall|x: int| 0 <= x < p implies text_order(#[trigger] ps[x].0, k@) <= 0 by {
                    assert(ps[x].0 == out@[x].0@);
                }
                if p < ps.len() {
                    assert(ps[p as int].0 == out@[p as int].0@);
                }
                lemma_insert_key_ordered(ps, m, p as int, k@, es@[i as int].1@);
            }
            let ghost before = plain_pairs(out@);
            out.insert(p, (es[i].0.clone(), es[i].1.clone()));
            assert(plain_pairs(out@) =~= before.insert(p as int, (k@, es@[i as int].1@)));
        }
        i += 1;
    }
    assert(es@.take(es@.len() as int) =~= es@);
    out
}


/// Write `state` into `doc` as its `[state]` table, keys in ascending order;
/// the document's other top-level items are left as they were.
fn document_with_state(doc: &mut toml_edit::DocumentMut, state: &StrMap)
    requires
        reads_back(*old(doc)),
    ensures
        document_items(*final(doc)) == document_items(*old(doc)).insert(
            "state"@,
            TomlData::Table(string_table(state@)),
        ),
        reads_back(*final(doc)),
{
    let listing = key_listing(state);
    proof {
        let ps = plain_pairs(listing@);
        assert forall|i: int, j: int| 0 <= i < j < listing@.len() implies listing@[i].0@
            != listing@[j].0@ by {
            assert(ps[i].0 == listing@[i].0@ && ps[j].0 == listing@[j].0@);
            assert(text_order(ps[i].0, ps[j].0) < 0);
            lemma_text_order_reflexive(ps[i].0);
        }
        lemma_pairs_map_listing(ps, state@);
    }
    set_string_table(doc, "state", &listing);
}

/// Why the state could not be written back.
#[derive(Debug)]
pub enum StateError {
    /// The scraper file is not valid TOML; the parser's message.
    NotToml(String),
}

/// Persist alert state back into the text of the scraper's own TOML file as
/// a `[state]` table, rewriting only that table and keeping the rest of the
/// document (comments, step order, formatting) via `toml_edit`. `None` when
/// there is nothing to persist (e.g. a scraper using only `any`/`each`/
/// `empty` alerts); an error when the file is not valid TOML. Otherwise the
/// new text reads as the old document's top-level items, every one of them
/// as it was, with only the `state` item replaced by a table of the state's
/// entries as strings.
pub fn save_state(text: &str, state: &StrMap) -> (r: Result<Option<String>, StateError>)
    ensures
        state@ == Map::<Seq<char>, Seq<char>>::empty() ==> r matches Ok(None),
        state@ != Map::<Seq<char>, Seq<char>>::empty() ==> match parsed_document(text@) {
            Some(items) => r matches Ok(Some(t)) && parsed_document(t@) == Some(
                items.insert("state"@, TomlData::Table(string_table(state@))),
            ),
            None => r matches Err(StateError::NotToml(_)),
        },
{
    if state.is_empty() {
        return Ok(None);
    }
    match parse_document(text) {
        Ok(mut doc) => {
            document_with_state(&mut doc, state);
            Ok(Some(document_text(&doc)))
        },
        Err(e) => Err(StateError::NotToml(toml_error_text(&e))),
    }
}

/// Saving keeps the rest of the file: text that reads as a document's items
/// with the `state` item replaced holds every other top-level item of that
/// document unchanged, and a `state` table of the saved entries.
pub proof fn law_save_keeps_other_items(
    t: Seq<char>,
    items: Map<Seq<char>, TomlData>,
    m: Map<Seq<char>, Seq<char>>,
)
    requires
        parsed_document(t) == Some(items.insert("state"@, TomlData::Table(string_table(m)))),
    ensures
        parsed_document(t) matches Some(after) && after.remove("state"@) == items.remove("state"@)
            && after.contains_key("state"@) && after["state"@] == TomlData::Table(string_table(m)),
{
    let after = items.insert("state"@, TomlData::Table(string_table(m)));
    assert(after.remove("state"@) =~= items.remove("state"@));
}

/// Loading the state from text that `save_state` wrote gives back the state
/// that was saved.
pub proof fn law_saved_text_loads_back(
    t: Seq<char>,
    items: Map<Seq<char>, TomlData>,
    m: Map<Seq<char>, Seq<char>>,
)
    requires
        parsed_document(t) == Some(items.insert("state"@, TomlData::Table(string_table(m)))),
    ensures
        parsed_document(t) matches Some(after) && stored_state(after) == m,
{
    law_written_state_reads_back(items, m);
}

/// Reading the state back from a document into which it was written gives
/// that state.
pub proof fn law_written_state_reads_back(items: Map<Seq<char>, TomlData>, m: Map<Seq<char>, Seq<char>>)
    ensures
        stored_state(items.insert("state"@, TomlData::Table(string_table(m)))) == m,
{
    assert(string_fields(string_table(m)) =~= m);
}

proof fn lemma_pairs_map_listing(ps: Seq<(Seq<char>, Seq<char>)>, m: Map<Seq<char>, Seq<char>>)
    requires
        key_ordered(ps, m),
    ensures
        pairs_map(ps) == m,
    decreases ps.len(),
{
    if ps.len() == 0 {
        assert forall|k: Seq<char>| !m.contains_key(k) by {
            if m.contains_key(k) {
                let i = choose|i: int| 0 <= i < ps.len() && ps[i].0 == k;
            }
        }
        assert(m =~= Map::<Seq<char>, Seq<char>>::empty());
    } else {
        let d = ps.drop_last();
        let last = ps.last();
        let md = m.remove(last.0);
        assert forall|i: int, j: int| 0 <= i < j < d.len() implies text_order(
            #[trigger] d[i].0,
            #[trigger] d[j].0,
        ) < 0 by {
            assert(d[i] == ps[i] && d[j] == ps[j]);
        }
        assert forall|i: int| 0 <= i < d.len() implies #[trigger] md.contains_key(d[i].0) && md[d[i].0]
            == d[i].1 by {
            assert(d[i] == ps[i]);
            assert(m.contains_key(ps[i].0));
            assert(text_order(ps[i].0, ps[ps.len() - 1].0) < 0);
            lemma_text_order_reflexive(ps[i].0);
        }
        assert forall|k: Seq<char>| #[trigger] md.contains_key(k) implies exists|i: int|
            0 <= i < d.len() && d[i].0 == k by {
            let i = choose|i: int| 0 <= i < ps.len() && ps[i].0 == k;
            assert(i != ps.len() - 1);
            assert(d[i] == ps[i]);
        }
        lemma_pairs_map_listing(d, md);
        assert(m.contains_key(ps[ps.len() - 1].0));
        assert(md.insert(last.0, last.1) =~= m);
    }
}

/// The `[state]` table written for a state is determined by the state: two
/// listings of the same map in ascending key order are the same.
pub proof fn law_state_listing_unique(
    ps1: Seq<(Seq<char>, Seq<char>)>,
    ps2: Seq<(Seq<char>, Seq<char>)>,
    m: Map<Seq<char>, Seq<char>>,
)
    requires
        key_ordered(ps1, m),
        key_ordered(ps2, m),
    ensures
        ps1 == ps2,
    decreases ps1.len(),
{
    if ps1.len() == 0 {
        if ps2.len() > 0 {
            assert(m.contains_key(ps2[0].0));
            let i = choose|i: int| 0 <= i < ps1.len() && ps1[i].0 == ps2[0].0;
        }
        assert(ps1 =~= ps2);
    } else if ps2.len() == 0 {
        assert(m.contains_key(ps1[0].0));
        let i = choose|i: int| 0 <= i < ps2.len() && ps2[i].0 == ps1[0].0;
    } else {
        let a = ps1[0].0;
        let b = ps2[0].0;
        assert(m.contains_key(a) && m.contains_key(b));
        let i = choose|i: int| 0 <= i < ps1.len() && ps1[i].0 == b;
        let j = choose|j: int| 0 <= j < ps2.len() && ps2[j].0 == a;
        lemma_text_order_reflexive(a);
        lemma_text_order_reflexive(b);
        if i > 0 {
            assert(text_order(ps1[0].0, ps1[i].0) < 0);
        }
        if j > 0 {
            assert(text_order(ps2[0].0, ps2[j].0) < 0);
        }
        lemma_text_order_antisymmetric(a, b);
        if text_order(a, b) == 0 {
            lemma_text_order_zero(a, b);
        }
        assert(a == b);
        let m2 = m.remove(a);
        let t1 = ps1.drop_first();
        let t2 = ps2.drop_first();
        assert forall|x: Seq<(Seq<char>, Seq<char>)>, n: Map<Seq<char>, Seq<char>>|
            key_ordered(x, n) && x.len() > 0 && n.remove(x[0].0) == m2 && x[0].0 == a implies key_ordered(
            x.drop_first(),
            m2,
        ) by {
            let d = x.drop_first();
            assert forall|p: int, q: int| 0 <= p < q < d.len() implies text_order(
                #[trigger] d[p].0,
                #[trigger] d[q].0,
            ) < 0 by {
                assert(d[p] == x[p + 1] && d[q] == x[q + 1]);
            }
            assert forall|p: int| 0 <= p < d.len() implies #[trigger] m2.contains_key(d[p].0) && m2[d[p].0]
                == d[p].1 by {
                assert(d[p] == x[p + 1]);
                assert(text_order(x[0].0, x[p + 1].0) < 0);
                lemma_text_order_reflexive(x[0].0);
                assert(n.contains_key(x[p + 1].0));
            }
            assert forall|k: Seq<char>| #[trigger] m2.contains_key(k) implies exists|p: int|
                0 <= p < d.len() && d[p].0 == k by {
                assert(n.contains_key(k));
                let p = choose|p: int| 0 <= p < x.len() && x[p].0 == k;
                assert(p != 0);
                assert(d[p - 1] == x[p]);
            }
        }
        law_state_listing_unique(t1, t2, m2);
        assert(ps1[0] == ps2[0]);
        assert(ps1 =~= seq![ps1[0]] + t1);
        assert(ps2 =~= seq![ps2[0]] + t2);
    }
}

} // verus!

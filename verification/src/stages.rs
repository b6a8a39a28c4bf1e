//! What each pipeline step computes, stated over element views, with the
//! executable helpers that compute it.
use vstd::prelude::*;
use crate::element::{field_value, with_field, Element, ElementView};
use crate::number::{
    first_number, lemma_number_order_antisymmetric, lemma_number_order_transitive, number_order,
    parse_number,
};
use crate::ops::{eval_op, op_holds};
use crate::step::{Op, SortOrder};
use crate::str_map::StrMap;
use crate::template::{interpolate_template, render_template};
use crate::text::{chars_of, join, str_eq};

verus! {

/// The views of a sequence of elements.
pub open spec fn views(es: Seq<Element>) -> Seq<ElementView> {
    es.map_values(|e: Element| e@)
}

/// `m` with `k` set to `v` when `v` is present.
pub open spec fn put_opt(m: Map<Seq<char>, Seq<char>>, k: Seq<char>, v: Option<Seq<char>>) -> Map<
    Seq<char>,
    Seq<char>,
> {
    match v {
        Some(x) => m.insert(k, x),
        None => m,
    }
}

/// The template variables for an element: `base`, then its present built-in
/// fields, then its extra attributes (later ones win).
pub open spec fn element_vars_spec(e: ElementView, base: Map<Seq<char>, Seq<char>>) -> Map<
    Seq<char>,
    Seq<char>,
> {
    put_opt(
        put_opt(put_opt(put_opt(base, "text"@, e.text), "class"@, e.class), "href"@, e.href),
        "value"@,
        e.value,
    ).union_prefer_right(e.attrs)
}

fn put_opt_exec(m: &mut StrMap, k: &str, v: &Option<String>)
    ensures
        final(m)@ == put_opt(old(m)@, k@, crate::element::opt_view(*v)),
{
    match v {
        Some(x) => m.insert(k.to_owned(), x.clone()),
        None => {},
    }
}

/// The template variables for `el` on top of `base`.
pub fn element_vars(el: &Element, base: &StrMap) -> (m: StrMap)
    ensures
        m@ == element_vars_spec(el@, base@),
{
    let mut m = base.clone();
    put_opt_exec(&mut m, "text", &el.text);
    put_opt_exec(&mut m, "class", &el.class);
    put_opt_exec(&mut m, "href", &el.href);
    put_opt_exec(&mut m, "value", &el.value);
    m.extend_from(&el.attrs);
    m
}

/// Whether element `e` passes a `find`/`filter` test: its `field` is present
/// and satisfies `op` (plain equality when `op` is absent) against `value`
/// rendered with the element's own variables.
pub open spec fn passes(
    e: ElementView,
    field: Seq<char>,
    op: Option<Op>,
    value: Seq<char>,
    vars: Map<Seq<char>, Seq<char>>,
) -> bool {
    match field_value(e, field) {
        Some(v) => {
            let rhs = render_template(value, element_vars_spec(e, vars));
            match op {
                Some(o) => op_holds(o, v, rhs),
                None => v == rhs,
            }
        },
        None => false,
    }
}

/// Executable `passes`.
pub fn test_element(el: &Element, field: &str, op: Option<Op>, value: &str, vars: &StrMap) -> (r:
    bool)
    ensures
        r == passes(el@, field@, op, value@, vars@),
{
    match el.get_field(field) {
        Some(v) => {
            let ev = element_vars(el, vars);
            let rhs = interpolate_template(value, &ev);
            match op {
                Some(o) => eval_op(v, &o, rhs.as_str()),
                None => str_eq(v, rhs.as_str()),
            }
        },
        None => false,
    }
}

/// The first element that passes, alone, or nothing.
pub open spec fn first_passing(
    es: Seq<ElementView>,
    field: Seq<char>,
    op: Option<Op>,
    value: Seq<char>,
    vars: Map<Seq<char>, Seq<char>>,
) -> Seq<ElementView>
    decreases es.len(),
{
    if es.len() == 0 {
        seq![]
    } else if passes(es[0], field, op, value, vars) {
        seq![es[0]]
    } else {
        first_passing(es.drop_first(), field, op, value, vars)
    }
}

/// The elements that pass, in order.
pub open spec fn all_passing(
    es: Seq<ElementView>,
    field: Seq<char>,
    op: Op,
    value: Seq<char>,
    vars: Map<Seq<char>, Seq<char>>,
) -> Seq<ElementView>
    decreases es.len(),
{
    if es.len() == 0 {
        seq![]
    } else if passes(es.last(), field, Some(op), value, vars) {
        all_passing(es.drop_last(), field, op, value, vars).push(es.last())
    } else {
        all_passing(es.drop_last(), field, op, value, vars)
    }
}

/// Keep only the first element that passes the test.
pub fn find_first(es: &Vec<Element>, field: &str, op: Option<Op>, value: &str, vars: &StrMap) -> (r:
    Vec<Element>)
    ensures
        views(r@) == first_passing(views(es@), field@, op, value@, vars@),
{
    let mut i: usize = 0;
    assert(views(es@).skip(0) =~= views(es@));
    while i < es.len()
        invariant
            i <= es@.len(),
            first_passing(views(es@), field@, op, value@, vars@) == first_passing(
                views(es@).skip(i as int),
                field@,
                op,
                value@,
                vars@,
            ),
        decreases es@.len() - i,
    {
        let ghost t = views(es@).skip(i as int);
        assert(t[0] == es@[i as int]@);
        if test_element(&es[i], field, op, value, vars) {
            let mut r: Vec<Element> = Vec::new();
            r.push(es[i].clone());
            assert(views(r@) =~= seq![t[0]]);
            return r;
        }
        assert(t.drop_first() =~= views(es@).skip(i + 1));
        i += 1;
    }
    let r: Vec<Element> = Vec::new();
    assert(views(r@) =~= Seq::<ElementView>::empty());
    r
}

/// Keep all elements that pass the test.
pub fn keep_passing(es: &Vec<Element>, field: &str, op: Op, value: &str, vars: &StrMap) -> (r: Vec<
    Element,
>)
    ensures
        views(r@) == all_passing(views(es@), field@, op, value@, vars@),
{
    let mut r: Vec<Element> = Vec::new();
    let mut i: usize = 0;
    while i < es.len()
        invariant
            i <= es@.len(),
            views(r@) == all_passing(views(es@.take(i as int)), field@, op, value@, vars@),
        decreases es@.len() - i,
    {
        proof {
            assert(views(es@.take(i + 1)).drop_last() =~= views(es@.take(i as int)));
            assert(views(es@.take(i + 1)).last() == es@[i as int]@);
        }
        if test_element(&es[i], field, Some(op), value, vars) {
            let ghost before = r@;
            r.push(es[i].clone());
            assert(views(r@) =~= views(before).push(es@[i as int]@));
        }
        i += 1;
    }
    assert(es@.take(es@.len() as int) =~= es@);
    r
}

/// Without an operator, a `find`/`filter` test is exact equality: an element
/// passes exactly when its field is present and equal to the value rendered
/// with the element's own variables (one that merely contains the value does
/// not), the same as with `eq`.
pub proof fn law_no_op_is_equality(
    e: ElementView,
    field: Seq<char>,
    value: Seq<char>,
    vars: Map<Seq<char>, Seq<char>>,
)
    ensures
        passes(e, field, None, value, vars) <==> field_value(e, field) == Some(
            render_template(value, element_vars_spec(e, vars)),
        ),
        passes(e, field, None, value, vars) == passes(e, field, Some(Op::Eq), value, vars),
{
}

/// `find` keeps at most one element: the first that passes, when one does;
/// nothing when none does.
pub proof fn law_find_keeps_first_passing(
    es: Seq<ElementView>,
    field: Seq<char>,
    op: Option<Op>,
    value: Seq<char>,
    vars: Map<Seq<char>, Seq<char>>,
)
    ensures
        first_passing(es, field, op, value, vars).len() <= 1,
        first_passing(es, field, op, value, vars).len() == 0 <==> (forall|j: int|
            0 <= j < es.len() ==> !#[trigger] passes(es[j], field, op, value, vars)),
        first_passing(es, field, op, value, vars).len() == 1 ==> exists|i: int|
            0 <= i < es.len() && es[i] == first_passing(es, field, op, value, vars)[0] && passes(
                es[i],
                field,
                op,
                value,
                vars,
            ) && forall|j: int| 0 <= j < i ==> !#[trigger] passes(es[j], field, op, value, vars),
    decreases es.len(),
{
    if es.len() > 0 {
        let t = es.drop_first();
        law_find_keeps_first_passing(t, field, op, value, vars);
        if passes(es[0], field, op, value, vars) {
            assert(es[0] == first_passing(es, field, op, value, vars)[0]);
        } else {
            assert forall|j: int| 0 <= j < t.len() && !passes(es[0], field, op, value, vars)
                implies (#[trigger] passes(t[j], field, op, value, vars)) == passes(
                es[j + 1],
                field,
                op,
                value,
                vars,
            ) by {
                assert(t[j] == es[j + 1]);
            }
            if first_passing(t, field, op, value, vars).len() == 0 {
                assert forall|j: int| 0 <= j < es.len() implies !#[trigger] passes(
                    es[j],
                    field,
                    op,
                    value,
                    vars,
                ) by {
                    if j > 0 {
                        assert(es[j] == t[j - 1]);
                    }
                }
            } else {
                let i = choose|i: int|
                    0 <= i < t.len() && t[i] == first_passing(t, field, op, value, vars)[0]
                        && passes(t[i], field, op, value, vars) && forall|j: int|
                        0 <= j < i ==> !#[trigger] passes(t[j], field, op, value, vars);
                assert(es[i + 1] == t[i]);
                assert forall|j: int| 0 <= j < i + 1 implies !#[trigger] passes(
                    es[j],
                    field,
                    op,
                    value,
                    vars,
                ) by {
                    if j > 0 {
                        assert(es[j] == t[j - 1]);
                    }
                }
                assert(passes(es[1], field, op, value, vars) ==> es.len() > 1);
                assert(passes(t[0], field, op, value, vars) ==> passes(es[1], field, op, value, vars));
            }
        }
    }
}

/// `filter` keeps exactly the elements that pass, in their order: what it
/// keeps passes and comes from the list, and everything in the list that
/// passes is kept.
pub proof fn law_filter_keeps_passing(
    es: Seq<ElementView>,
    field: Seq<char>,
    op: Op,
    value: Seq<char>,
    vars: Map<Seq<char>, Seq<char>>,
)
    ensures
        all_passing(es, field, op, value, vars).len() <= es.len(),
        forall|x: ElementView|
            #[trigger] all_passing(es, field, op, value, vars).contains(x) <==> (es.contains(x)
                && passes(x, field, Some(op), value, vars)),
    decreases es.len(),
{
    if es.len() > 0 {
        let d = es.drop_last();
        law_filter_keeps_passing(d, field, op, value, vars);
        let r = all_passing(es, field, op, value, vars);
        let rd = all_passing(d, field, op, value, vars);
        assert forall|x: ElementView| #[trigger] r.contains(x) <==> (es.contains(x) && passes(
            x,
            field,
            Some(op),
            value,
            vars,
        )) by {
            if r.contains(x) {
                if rd.contains(x) {
                    let j = choose|j: int| 0 <= j < d.len() && d[j] == x;
                    assert(es[j] == x);
                } else {
                    let j = choose|j: int| 0 <= j < r.len() && r[j] == x;
                    if j < rd.len() {
                        assert(rd.contains(x));
                    }
                    assert(x == es.last());
                    assert(es[es.len() - 1] == x);
                }
            }
            if es.contains(x) && passes(x, field, Some(op), value, vars) {
                let j = choose|j: int| 0 <= j < es.len() && es[j] == x;
                if j < es.len() - 1 {
                    assert(d[j] == x);
                    assert(d.contains(x));
                    assert(rd.contains(x));
                    let k = choose|k: int| 0 <= k < rd.len() && rd[k] == x;
                    if passes(es.last(), field, Some(op), value, vars) {
                        assert(r == rd.push(es.last()));
                        assert(r[k] == x);
                    } else {
                        assert(r == rd);
                    }
                    assert(r.contains(x));
                } else {
                    assert(x == es.last());
                    assert(r == rd.push(es.last()));
                    assert(r[rd.len() as int] == x);
                    assert(r.contains(x));
                }
            }
        }
    }
}

/// `compute` writes the template, rendered against each element, into
/// `field` of that element, and leaves the element count as it was.
pub proof fn law_compute_writes_field(
    es: Seq<ElementView>,
    field: Seq<char>,
    template: Seq<char>,
    vars: Map<Seq<char>, Seq<char>>,
)
    ensures
        computed(es, field, template, vars).len() == es.len(),
        forall|i: int|
            0 <= i < es.len() ==> field_value(#[trigger] computed(es, field, template, vars)[i], field)
                == Some(render_template(template, element_vars_spec(es[i], vars))),
{
    assert forall|i: int| 0 <= i < es.len() implies field_value(
        #[trigger] computed(es, field, template, vars)[i],
        field,
    ) == Some(render_template(template, element_vars_spec(es[i], vars))) by {
        crate::element::law_set_then_get(
            es[i],
            field,
            render_template(template, element_vars_spec(es[i], vars)),
        );
    }
}

/// The present values of `field`, in element order.
pub open spec fn field_values(es: Seq<ElementView>, field: Seq<char>) -> Seq<Seq<char>>
    decreases es.len(),
{
    if es.len() == 0 {
        seq![]
    } else {
        match field_value(es.last(), field) {
            Some(v) => field_values(es.drop_last(), field).push(v),
            None => field_values(es.drop_last(), field),
        }
    }
}

/// Collect the present values of `field`.
pub fn collect_field(es: &Vec<Element>, field: &str) -> (r: Vec<String>)
    ensures
        crate::text::strings_view(r@) == field_values(views(es@), field@),
{
    let mut r: Vec<String> = Vec::new();
    let mut i: usize = 0;
    while i < es.len()
        invariant
            i <= es@.len(),
            crate::text::strings_view(r@) == field_values(views(es@.take(i as int)), field@),
        decreases es@.len() - i,
    {
        proof {
            assert(views(es@.take(i + 1)).drop_last() =~= views(es@.take(i as int)));
            assert(views(es@.take(i + 1)).last() == es@[i as int]@);
        }
        match es[i].get_field(field) {
            Some(v) => {
                let ghost before = r@;
                r.push(v.to_owned());
                assert(crate::text::strings_view(r@) =~= crate::text::strings_view(before).push(
                    v@,
                ));
            },
            None => {},
        }
        i += 1;
    }
    assert(es@.take(es@.len() as int) =~= es@);
    r
}

/// Every element with `field` set to `template` rendered against it.
pub open spec fn computed(
    es: Seq<ElementView>,
    field: Seq<char>,
    template: Seq<char>,
    vars: Map<Seq<char>, Seq<char>>,
) -> Seq<ElementView> {
    es.map_values(
        |e: ElementView| with_field(e, field, render_template(template, element_vars_spec(e, vars))),
    )
}

/// Write `template`, rendered per element, into `field` of every element.
pub fn compute_field(es: &mut Vec<Element>, field: &str, template: &str, vars: &StrMap)
    ensures
        views(final(es)@) == computed(views(old(es)@), field@, template@, vars@),
{
    let mut i: usize = 0;
    while i < es.len()
        invariant
            i <= es@.len(),
            es@.len() == old(es)@.len(),
            forall|k: int| 0 <= k < i ==> es@[k]@ == with_field(old(es)@[k]@, field@, render_template(template@, element_vars_spec(old(es)@[k]@, vars@))),
            forall|k: int| i <= k < es@.len() ==> es@[k] == old(es)@[k],
        decreases es@.len() - i,
    {
        let ev = element_vars(&es[i], vars);
        let rendered = interpolate_template(template, &ev);
        let mut el = es[i].clone();
        el.set_field(field, rendered);
        es.set(i, el);
        i += 1;
    }
    assert(views(es@) =~= computed(views(old(es)@), field@, template@, vars@));
}

/// Lexicographic order of character sequences (by code point): `-1`, `0`, `1`.
pub open spec fn text_order(a: Seq<char>, b: Seq<char>) -> int
    decreases a.len(),
{
    if a.len() == 0 && b.len() == 0 {
        0
    } else if a.len() == 0 {
        -1
    } else if b.len() == 0 {
        1
    } else if a[0] < b[0] {
        -1
    } else if a[0] > b[0] {
        1
    } else {
        text_order(a.drop_first(), b.drop_first())
    }
}

pub(crate) fn text_order_exec(a: &Vec<char>, b: &Vec<char>) -> (r: i8)
    ensures
        r as int == text_order(a@, b@),
{
    let mut i: usize = 0;
    assert(a@.skip(0) =~= a@);
    assert(b@.skip(0) =~= b@);
    while i < a.len() && i < b.len() && a[i] == b[i]
        invariant
            i <= a@.len(),
            i <= b@.len(),
            text_order(a@, b@) == text_order(a@.skip(i as int), b@.skip(i as int)),
        decreases a@.len() - i,
    {
        assert(a@.skip(i as int).drop_first() =~= a@.skip(i + 1));
        assert(b@.skip(i as int).drop_first() =~= b@.skip(i + 1));
        i += 1;
    }
    if i == a.len() && i == b.len() {
        0
    } else if i == a.len() {
        -1
    } else if i == b.len() {
        1
    } else {
        assert(a@.skip(i as int)[0] == a@[i as int]);
        assert(b@.skip(i as int)[0] == b@[i as int]);
        if a[i] < b[i] {
            -1
        } else {
            1
        }
    }
}

/// The value of `field` in `e`, or empty text when absent.
pub open spec fn field_or_empty(e: ElementView, field: Seq<char>) -> Seq<char> {
    match field_value(e, field) {
        Some(v) => v,
        None => seq![],
    }
}

/// The order of two elements by `field`: as numbers (numeric values before
/// non-numeric ones) or as text.
pub open spec fn key_order(a: ElementView, b: ElementView, field: Seq<char>, numeric: bool) -> int {
    let av = field_or_empty(a, field);
    let bv = field_or_empty(b, field);
    if numeric {
        match (first_number(av), first_number(bv)) {
            (Some(x), Some(y)) => number_order(x, y),
            (Some(_), None) => -1,
            (None, Some(_)) => 1,
            (None, None) => 0,
        }
    } else {
        text_order(av, bv)
    }
}

/// `key_order` in the direction of `order`.
pub open spec fn directed_order(
    a: ElementView,
    b: ElementView,
    field: Seq<char>,
    numeric: bool,
    order: SortOrder,
) -> int {
    if order == SortOrder::Desc {
        -key_order(a, b, field, numeric)
    } else {
        key_order(a, b, field, numeric)
    }
}

/// Where `x` goes in `sorted`: before the first element that orders after it.
pub open spec fn insert_pos(
    sorted: Seq<ElementView>,
    x: ElementView,
    field: Seq<char>,
    numeric: bool,
    order: SortOrder,
) -> int
    decreases sorted.len(),
{
    if sorted.len() == 0 {
        0
    } else if directed_order(sorted[0], x, field, numeric, order) > 0 {
        0
    } else {
        1 + insert_pos(sorted.drop_first(), x, field, numeric, order)
    }
}

pub proof fn lemma_insert_pos(
    sorted: Seq<ElementView>,
    x: ElementView,
    field: Seq<char>,
    numeric: bool,
    order: SortOrder,
)
    ensures
        0 <= insert_pos(sorted, x, field, numeric, order) <= sorted.len(),
    decreases sorted.len(),
{
    if sorted.len() > 0 {
        lemma_insert_pos(sorted.drop_first(), x, field, numeric, order);
    }
}

/// The elements stably sorted by `field` in the direction of `order`:
/// elements that order equal keep their relative order.
pub open spec fn sorted_by(es: Seq<ElementView>, field: Seq<char>, numeric: bool, order: SortOrder) -> Seq<
    ElementView,
>
    decreases es.len(),
{
    if es.len() == 0 {
        seq![]
    } else {
        let s = sorted_by(es.drop_last(), field, numeric, order);
        let p = insert_pos(s, es.last(), field, numeric, order);
        s.take(p) + seq![es.last()] + s.skip(p)
    }
}

pub(crate) proof fn lemma_text_order_antisymmetric(a: Seq<char>, b: Seq<char>)
    ensures
        text_order(a, b) == -text_order(b, a),
    decreases a.len(),
{
    if a.len() > 0 && b.len() > 0 && a[0] == b[0] {
        lemma_text_order_antisymmetric(a.drop_first(), b.drop_first());
    }
}

pub(crate) proof fn lemma_text_order_transitive(a: Seq<char>, b: Seq<char>, c: Seq<char>)
    requires
        text_order(a, b) <= 0,
        text_order(b, c) <= 0,
    ensures
        text_order(a, c) <= 0,
    decreases a.len(),
{
    if a.len() > 0 && b.len() > 0 && c.len() > 0 && a[0] == b[0] && b[0] == c[0] {
        lemma_text_order_transitive(a.drop_first(), b.drop_first(), c.drop_first());
    }
}

proof fn lemma_key_order_antisymmetric(a: ElementView, b: ElementView, field: Seq<char>, numeric: bool)
    ensures
        key_order(a, b, field, numeric) == -key_order(b, a, field, numeric),
{
    let av = field_or_empty(a, field);
    let bv = field_or_empty(b, field);
    if numeric {
        if first_number(av) is Some && first_number(bv) is Some {
            lemma_number_order_antisymmetric(first_number(av)->0, first_number(bv)->0);
        }
    } else {
        lemma_text_order_antisymmetric(av, bv);
    }
}

proof fn lemma_key_order_transitive(
    a: ElementView,
    b: ElementView,
    c: ElementView,
    field: Seq<char>,
    numeric: bool,
)
    requires
        key_order(a, b, field, numeric) <= 0,
        key_order(b, c, field, numeric) <= 0,
    ensures
        key_order(a, c, field, numeric) <= 0,
{
    let av = field_or_empty(a, field);
    let bv = field_or_empty(b, field);
    let cv = field_or_empty(c, field);
    if numeric {
        if first_number(av) is Some && first_number(bv) is Some && first_number(cv) is Some {
            lemma_number_order_transitive(
                first_number(av)->0,
                first_number(bv)->0,
                first_number(cv)->0,
            );
        }
    } else {
        lemma_text_order_transitive(av, bv, cv);
    }
}

proof fn lemma_directed_antisymmetric(
    a: ElementView,
    b: ElementView,
    field: Seq<char>,
    numeric: bool,
    order: SortOrder,
)
    ensures
        directed_order(a, b, field, numeric, order) == -directed_order(b, a, field, numeric, order),
{
    lemma_key_order_antisymmetric(a, b, field, numeric);
}

proof fn lemma_directed_transitive(
    a: ElementView,
    b: ElementView,
    c: ElementView,
    field: Seq<char>,
    numeric: bool,
    order: SortOrder,
)
    requires
        directed_order(a, b, field, numeric, order) <= 0,
        directed_order(b, c, field, numeric, order) <= 0,
    ensures
        directed_order(a, c, field, numeric, order) <= 0,
{
    if order == SortOrder::Desc {
        lemma_key_order_antisymmetric(a, b, field, numeric);
        lemma_key_order_antisymmetric(b, c, field, numeric);
        lemma_key_order_antisymmetric(a, c, field, numeric);
        lemma_key_order_transitive(c, b, a, field, numeric);
    } else {
        lemma_key_order_transitive(a, b, c, field, numeric);
    }
}

/// Whether `s` is in order by `field` in the direction of `order`.
pub open spec fn in_order(s: Seq<ElementView>, field: Seq<char>, numeric: bool, order: SortOrder) -> bool {
    forall|i: int, j: int|
        0 <= i < j < s.len() ==> directed_order(#[trigger] s[i], #[trigger] s[j], field, numeric, order)
            <= 0
}

proof fn lemma_insert_pos_bounds(
    s: Seq<ElementView>,
    x: ElementView,
    field: Seq<char>,
    numeric: bool,
    order: SortOrder,
)
    ensures
        forall|i: int|
            0 <= i < insert_pos(s, x, field, numeric, order) ==> directed_order(
                #[trigger] s[i],
                x,
                field,
                numeric,
                order,
            ) <= 0,
        insert_pos(s, x, field, numeric, order) < s.len() ==> directed_order(
            s[insert_pos(s, x, field, numeric, order)],
            x,
            field,
            numeric,
            order,
        ) > 0,
    decreases s.len(),
{
    if s.len() > 0 && directed_order(s[0], x, field, numeric, order) <= 0 {
        let t = s.drop_first();
        lemma_insert_pos_bounds(t, x, field, numeric, order);
        lemma_insert_pos(t, x, field, numeric, order);
        assert forall|i: int|
            0 <= i < insert_pos(s, x, field, numeric, order) implies directed_order(
            #[trigger] s[i],
            x,
            field,
            numeric,
            order,
        ) <= 0 by {
            if i > 0 {
                assert(s[i] == t[i - 1]);
            }
        }
        if insert_pos(s, x, field, numeric, order) < s.len() {
            assert(s[insert_pos(s, x, field, numeric, order)] == t[insert_pos(
                t,
                x,
                field,
                numeric,
                order,
            )]);
        }
    }
}

proof fn lemma_sorted_by(es: Seq<ElementView>, field: Seq<char>, numeric: bool, order: SortOrder)
    ensures
        sorted_by(es, field, numeric, order).to_multiset() =~= es.to_multiset(),
        sorted_by(es, field, numeric, order).len() == es.len(),
        in_order(sorted_by(es, field, numeric, order), field, numeric, order),
    decreases es.len(),
{
    broadcast use vstd::seq_lib::group_to_multiset_ensures;
    broadcast use vstd::seq_lib::lemma_multiset_commutative;
    broadcast use vstd::multiset::group_multiset_axioms;

    if es.len() > 0 {
        let d = es.drop_last();
        let x = es.last();
        lemma_sorted_by(d, field, numeric, order);
        let s = sorted_by(d, field, numeric, order);
        lemma_insert_pos(s, x, field, numeric, order);
        lemma_insert_pos_bounds(s, x, field, numeric, order);
        let p = insert_pos(s, x, field, numeric, order);
        let r = s.take(p) + seq![x] + s.skip(p);
        assert(r == sorted_by(es, field, numeric, order));
        assert(s =~= s.take(p) + s.skip(p));
        assert(es =~= d.push(x));
        assert(r.to_multiset() =~= s.to_multiset().insert(x)) by {
            assert(r.to_multiset() =~= s.take(p).to_multiset().add(seq![x].to_multiset()).add(
                s.skip(p).to_multiset(),
            ));
            assert(seq![x] =~= Seq::<ElementView>::empty().push(x));
            assert(s.to_multiset() =~= s.take(p).to_multiset().add(s.skip(p).to_multiset()));
        }
        assert forall|i: int, j: int| 0 <= i < j < r.len() implies directed_order(
            #[trigger] r[i],
            #[trigger] r[j],
            field,
            numeric,
            order,
        ) <= 0 by {
            if j < p {
                assert(r[i] == s[i] && r[j] == s[j]);
            } else if j == p {
                assert(r[i] == s[i] && r[j] == x);
            } else if i < p {
                assert(r[i] == s[i] && r[j] == s[j - 1]);
            } else if i == p {
                assert(r[i] == x && r[j] == s[j - 1]);
                lemma_directed_antisymmetric(s[p], x, field, numeric, order);
                if p < j - 1 {
                    assert(directed_order(s[p], s[j - 1], field, numeric, order) <= 0);
                    lemma_directed_transitive(x, s[p], s[j - 1], field, numeric, order);
                }
            } else {
                assert(r[i] == s[i - 1] && r[j] == s[j - 1]);
            }
        }
    }
}

/// `sort` reorders without adding or losing elements, and leaves them in
/// order by `field` in the requested direction: as text, or as numbers with
/// non-numeric values last.
pub proof fn law_sort_permutes_into_order(
    es: Seq<ElementView>,
    field: Seq<char>,
    numeric: bool,
    order: SortOrder,
)
    ensures
        sorted_by(es, field, numeric, order).to_multiset() == es.to_multiset(),
        sorted_by(es, field, numeric, order).len() == es.len(),
        in_order(sorted_by(es, field, numeric, order), field, numeric, order),
{
    lemma_sorted_by(es, field, numeric, order);
}

pub(crate) proof fn lemma_text_order_reflexive(a: Seq<char>)
    ensures
        text_order(a, a) == 0,
    decreases a.len(),
{
    if a.len() > 0 {
        lemma_text_order_reflexive(a.drop_first());
    }
}

pub(crate) proof fn lemma_text_order_zero(a: Seq<char>, b: Seq<char>)
    requires
        text_order(a, b) == 0,
    ensures
        a == b,
    decreases a.len(),
{
    if a.len() > 0 && b.len() > 0 {
        lemma_text_order_zero(a.drop_first(), b.drop_first());
        assert(a =~= seq![a[0]] + a.drop_first());
        assert(b =~= seq![b[0]] + b.drop_first());
    }
}

/// The text order as a relation, in the direction of `order`.
pub open spec fn text_leq(order: SortOrder) -> spec_fn(Seq<char>, Seq<char>) -> bool {
    |a: Seq<char>, b: Seq<char>|
        if order == SortOrder::Desc {
            text_order(b, a) <= 0
        } else {
            text_order(a, b) <= 0
        }
}

proof fn lemma_text_leq_total(order: SortOrder)
    ensures
        vstd::relations::total_ordering(text_leq(order)),
{
    let leq = text_leq(order);
    assert forall|x: Seq<char>| #[trigger] leq(x, x) by {
        lemma_text_order_reflexive(x);
    }
    assert forall|x: Seq<char>, y: Seq<char>| #[trigger] leq(x, y) && #[trigger] leq(y, x) implies x
        == y by {
        lemma_text_order_antisymmetric(x, y);
        lemma_text_order_zero(x, y);
    }
    assert forall|x: Seq<char>, y: Seq<char>, z: Seq<char>| #[trigger] leq(x, y) && #[trigger] leq(
        y,
        z,
    ) implies leq(x, z) by {
        if order == SortOrder::Desc {
            lemma_text_order_transitive(z, y, x);
        } else {
            lemma_text_order_transitive(x, y, z);
        }
    }
    assert forall|x: Seq<char>, y: Seq<char>| #[trigger] leq(x, y) || #[trigger] leq(y, x) by {
        lemma_text_order_antisymmetric(x, y);
    }
}

proof fn lemma_field_values_concat(a: Seq<ElementView>, b: Seq<ElementView>, field: Seq<char>)
    ensures
        field_values(a + b, field) == field_values(a, field) + field_values(b, field),
    decreases b.len(),
{
    if b.len() == 0 {
        assert(a + b =~= a);
        assert(field_values(a, field) + field_values(b, field) =~= field_values(a, field));
    } else {
        lemma_field_values_concat(a, b.drop_last(), field);
        assert((a + b).drop_last() =~= a + b.drop_last());
        assert((a + b).last() == b.last());
        match field_value(b.last(), field) {
            Some(v) => {
                assert(field_values(a, field) + field_values(b.drop_last(), field).push(v) =~= (
                field_values(a, field) + field_values(b.drop_last(), field)).push(v));
            },
            None => {},
        }
    }
}

proof fn lemma_field_values_permutation(s1: Seq<ElementView>, s2: Seq<ElementView>, field: Seq<char>)
    requires
        s1.to_multiset() == s2.to_multiset(),
    ensures
        field_values(s1, field).to_multiset() == field_values(s2, field).to_multiset(),
    decreases s1.len(),
{
    broadcast use vstd::seq_lib::group_to_multiset_ensures;
    broadcast use vstd::seq_lib::lemma_multiset_commutative;
    broadcast use vstd::multiset::group_multiset_axioms;

    if s1.len() == 0 {
        assert(s1.to_multiset().len() == 0);
        assert(s2.to_multiset().len() == s2.len());
        assert(s2.len() == 0);
        assert(s1 =~= s2);
    } else {
        let x = s1.last();
        let d = s1.drop_last();
        assert(s1 =~= d.push(x));
        assert(s2.to_multiset().count(x) > 0);
        assert(s2.contains(x));
        let i = choose|i: int| 0 <= i < s2.len() && s2[i] == x;
        let s2r = s2.remove(i);
        assert(s2r.to_multiset() =~= s2.to_multiset().remove(x));
        assert(d.to_multiset() =~= s1.to_multiset().remove(x));
        lemma_field_values_permutation(d, s2r, field);
        let pre = s2.take(i);
        let post = s2.skip(i + 1);
        assert(s2r =~= pre + post);
        assert(s2 =~= pre + seq![x] + post);
        lemma_field_values_concat(pre, post, field);
        lemma_field_values_concat(pre, seq![x], field);
        lemma_field_values_concat(pre + seq![x], post, field);
        lemma_field_values_concat(d, seq![x], field);
        let fx = field_values(seq![x], field);
        assert(s1 =~= d + seq![x]);
        assert(seq![x].drop_last() =~= Seq::<ElementView>::empty());
        assert(field_values(s2, field).to_multiset() =~= field_values(pre, field).to_multiset().add(
            fx.to_multiset(),
        ).add(field_values(post, field).to_multiset()));
        assert(field_values(s1, field).to_multiset() =~= field_values(d, field).to_multiset().add(
            fx.to_multiset(),
        ));
    }
}

proof fn lemma_field_values_source(s: Seq<ElementView>, field: Seq<char>, u: Seq<char>)
    requires
        field_values(s, field).contains(u),
    ensures
        exists|k: int| 0 <= k < s.len() && field_value(#[trigger] s[k], field) == Some(u),
    decreases s.len(),
{
    let d = s.drop_last();
    let fd = field_values(d, field);
    if fd.contains(u) {
        lemma_field_values_source(d, field, u);
        let k = choose|k: int| 0 <= k < d.len() && field_value(#[trigger] d[k], field) == Some(u);
        assert(s[k] == d[k]);
    } else {
        let j = choose|j: int| 0 <= j < field_values(s, field).len() && field_values(s, field)[j] == u;
        match field_value(s.last(), field) {
            Some(v) => {
                if j < fd.len() {
                    assert(fd[j] == u);
                }
                assert(field_value(s[s.len() - 1], field) == Some(u));
            },
            None => {
                assert(fd[j] == u);
            },
        }
    }
}

proof fn lemma_field_values_in_order(s: Seq<ElementView>, field: Seq<char>, order: SortOrder)
    requires
        in_order(s, field, false, order),
    ensures
        vstd::relations::sorted_by(field_values(s, field), text_leq(order)),
    decreases s.len(),
{
    if s.len() > 0 {
        let d = s.drop_last();
        assert forall|i: int, j: int| 0 <= i < j < d.len() implies directed_order(
            #[trigger] d[i],
            #[trigger] d[j],
            field,
            false,
            order,
        ) <= 0 by {
            assert(d[i] == s[i] && d[j] == s[j]);
        }
        lemma_field_values_in_order(d, field, order);
        let fd = field_values(d, field);
        let leq = text_leq(order);
        match field_value(s.last(), field) {
            Some(v) => {
                let fs = fd.push(v);
                assert forall|i: int, j: int| 0 <= i < j < fs.len() implies #[trigger] leq(
                    fs[i],
                    fs[j],
                ) by {
                    if j < fd.len() {
                        assert(fs[i] == fd[i] && fs[j] == fd[j]);
                    } else {
                        let u = fd[i];
                        assert(fd.contains(u));
                        lemma_field_values_source(d, field, u);
                        let k = choose|k: int|
                            0 <= k < d.len() && field_value(#[trigger] d[k], field) == Some(u);
                        assert(d[k] == s[k]);
                        assert(directed_order(s[k], s[s.len() - 1], field, false, order) <= 0);
                        assert(fs[j] == v);
                        if order == SortOrder::Desc {
                            lemma_text_order_antisymmetric(u, v);
                        }
                    }
                }
            },
            None => {},
        }
    }
}

/// Sorting by text keeps the values of `field` in one order whatever order
/// the page listed the elements in: two lists holding the same elements give
/// the same values after the sort, and so the same `map` of that field.
pub proof fn law_text_sort_fingerprint_stable(
    es1: Seq<ElementView>,
    es2: Seq<ElementView>,
    field: Seq<char>,
    order: SortOrder,
)
    requires
        es1.to_multiset() == es2.to_multiset(),
    ensures
        field_values(sorted_by(es1, field, false, order), field) == field_values(
            sorted_by(es2, field, false, order),
            field,
        ),
        join(field_values(sorted_by(es1, field, false, order), field), ", "@) == join(
            field_values(sorted_by(es2, field, false, order), field),
            ", "@,
        ),
{
    let s1 = sorted_by(es1, field, false, order);
    let s2 = sorted_by(es2, field, false, order);
    lemma_sorted_by(es1, field, false, order);
    lemma_sorted_by(es2, field, false, order);
    lemma_field_values_permutation(s1, s2, field);
    lemma_field_values_in_order(s1, field, order);
    lemma_field_values_in_order(s2, field, order);
    lemma_text_leq_total(order);
    vstd::seq_lib::lemma_sorted_unique(
        field_values(s1, field),
        field_values(s2, field),
        text_leq(order),
    );
}

/// Executable `key_order`.
fn element_order(a: &Element, b: &Element, field: &str, numeric: bool) -> (r: i8)
    ensures
        r as int == key_order(a@, b@, field@, numeric),
{
    let av = match a.get_field(field) {
        Some(v) => v,
        None => "",
    };
    let bv = match b.get_field(field) {
        Some(v) => v,
        None => "",
    };
    proof {
        reveal_strlit("");
    }
    if numeric {
        match (parse_number(av), parse_number(bv)) {
            (Some(x), Some(y)) => x.compare(&y),
            (Some(_), None) => -1,
            (None, Some(_)) => 1,
            (None, None) => 0,
        }
    } else {
        let ac = chars_of(av);
        let bc = chars_of(bv);
        text_order_exec(&ac, &bc)
    }
}

/// Sort the elements stably by `field`.
pub fn sort_elements(es: &Vec<Element>, field: &str, order: SortOrder, numeric: bool) -> (r: Vec<
    Element,
>)
    ensures
        views(r@) == sorted_by(views(es@), field@, numeric, order),
{
    let mut out: Vec<Element> = Vec::new();
    let mut i: usize = 0;
    while i < es.len()
        invariant
            i <= es@.len(),
            views(out@) == sorted_by(views(es@.take(i as int)), field@, numeric, order),
        decreases es@.len() - i,
    {
        let ghost s = views(out@);
        let ghost x = es@[i as int]@;
        proof {
            assert(views(es@.take(i + 1)).drop_last() =~= views(es@.take(i as int)));
            assert(views(es@.take(i + 1)).last() == x);
            lemma_insert_pos(s, x, field@, numeric, order);
        }
        let mut p: usize = 0;
        let mut found = false;
        assert(s.skip(0) =~= s);
        while p < out.len() && !found
            invariant
                p <= out@.len(),
                i < es@.len(),
                x == es@[i as int]@,
                s == views(out@),
                found ==> p < out@.len() && directed_order(s[p as int], x, field@, numeric, order) > 0,
                insert_pos(s, x, field@, numeric, order) == p + insert_pos(
                    s.skip(p as int),
                    x,
                    field@,
                    numeric,
                    order,
                ),
            decreases out@.len() - p, if found { 0int } else { 1int },
        {
            let o = element_order(&out[p], &es[i], field, numeric);
            let after = if order == SortOrder::Desc { o < 0 } else { o > 0 };
            assert(s.skip(p as int)[0] == s[p as int]);
            if after {
                found = true;
            } else {
                assert(s.skip(p as int).drop_first() =~= s.skip(p + 1));
                p += 1;
            }
        }
        proof {
            if !found {
                assert(s.skip(p as int) =~= Seq::<ElementView>::empty());
            } else {
                assert(s.skip(p as int)[0] == s[p as int]);
            }
        }
        assert(insert_pos(s, x, field@, numeric, order) == p);
        let ghost before = out@;
        out.insert(p, es[i].clone());
        assert(views(out@) =~= s.take(p as int) + seq![x] + s.skip(p as int));
        i += 1;
    }
    assert(es@.take(es@.len() as int) =~= es@);
    out
}

} // verus!

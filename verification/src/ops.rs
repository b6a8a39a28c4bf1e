//! Comparison operators used by `find` and `filter`.
use vstd::prelude::*;
use crate::number::{first_number, lemma_number_order_antisymmetric, number_order, parse_number};
use crate::pattern::{compile_regex, regex_compiles, regex_finds, regex_is_match};
use crate::step::Op;
use crate::text::{seq_contains, seq_ends_with, seq_starts_with, str_contains, str_ends_with, str_eq, str_starts_with};

verus! {

/// Both sides read as numbers and their order satisfies `pred`.
pub open spec fn numeric_holds(f: Seq<char>, v: Seq<char>, pred: spec_fn(int) -> bool) -> bool {
    match (first_number(f), first_number(v)) {
        (Some(a), Some(b)) => pred(number_order(a, b)),
        _ => false,
    }
}

/// Whether `field_val op value` holds.
pub open spec fn op_holds(op: Op, f: Seq<char>, v: Seq<char>) -> bool {
    match op {
        Op::Eq => f == v,
        Op::NotEq => f != v,
        Op::Contains => seq_contains(f, v),
        Op::NotContains => !seq_contains(f, v),
        Op::Matches => regex_compiles(v) && regex_finds(v, f),
        Op::StartsWith => seq_starts_with(f, v),
        Op::EndsWith => seq_ends_with(f, v),
        Op::Gt => numeric_holds(f, v, |o: int| o > 0),
        Op::Lt => numeric_holds(f, v, |o: int| o < 0),
        Op::Gte => numeric_holds(f, v, |o: int| o >= 0),
        Op::Lte => numeric_holds(f, v, |o: int| o <= 0),
    }
}

/// The numeric order of the numbers in `field_val` and `value`, if both hold one.
fn numeric_order(field_val: &str, value: &str) -> (r: Option<i8>)
    ensures
        match (first_number(field_val@), first_number(value@)) {
            (Some(a), Some(b)) => r == Some(number_order(a, b) as i8),
            _ => r is None,
        },
{
    match (parse_number(field_val), parse_number(value)) {
        (Some(a), Some(b)) => Some(a.compare(&b)),
        _ => None,
    }
}

/// Evaluate `field_val op value`.
pub fn eval_op(field_val: &str, op: &Op, value: &str) -> (r: bool)
    ensures
        r == op_holds(*op, field_val@, value@),
{
    match op {
        Op::Eq => str_eq(field_val, value),
        Op::NotEq => !str_eq(field_val, value),
        Op::Contains => str_contains(field_val, value),
        Op::NotContains => !str_contains(field_val, value),
        Op::Matches => match compile_regex(value) {
            Ok(re) => regex_is_match(&re, field_val),
            Err(_) => false,
        },
        Op::StartsWith => str_starts_with(field_val, value),
        Op::EndsWith => str_ends_with(field_val, value),
        Op::Gt => match numeric_order(field_val, value) {
            Some(o) => o > 0,
            None => false,
        },
        Op::Lt => match numeric_order(field_val, value) {
            Some(o) => o < 0,
            None => false,
        },
        Op::Gte => match numeric_order(field_val, value) {
            Some(o) => o >= 0,
            None => false,
        },
        Op::Lte => match numeric_order(field_val, value) {
            Some(o) => o <= 0,
            None => false,
        },
    }
}

/// The numeric operators never match when either side holds no number.
pub proof fn law_numeric_ops_need_numbers(f: Seq<char>, v: Seq<char>)
    requires
        first_number(f) is None || first_number(v) is None,
    ensures
        !op_holds(Op::Gt, f, v),
        !op_holds(Op::Lt, f, v),
        !op_holds(Op::Gte, f, v),
        !op_holds(Op::Lte, f, v),
{
}

/// Swapping the sides turns `gt` into `lt` and `gte` into `lte`.
pub proof fn law_numeric_ops_mirror(f: Seq<char>, v: Seq<char>)
    ensures
        op_holds(Op::Gt, f, v) == op_holds(Op::Lt, v, f),
        op_holds(Op::Gte, f, v) == op_holds(Op::Lte, v, f),
{
    if first_number(f) is Some && first_number(v) is Some {
        lemma_number_order_antisymmetric(first_number(f)->0, first_number(v)->0);
    }
}

/// On two numbers exactly one of `lt`, equal value, `gt` holds, and `gte`,
/// `lte` are `gt`, `lt` widened by equality.
pub proof fn law_numeric_ops_trichotomy(f: Seq<char>, v: Seq<char>)
    requires
        first_number(f) is Some && first_number(v) is Some,
    ensures
        op_holds(Op::Gte, f, v) == !op_holds(Op::Lt, f, v),
        op_holds(Op::Lte, f, v) == !op_holds(Op::Gt, f, v),
        !(op_holds(Op::Gt, f, v) && op_holds(Op::Lt, f, v)),
{
}

/// `not_eq` and `not_contains` are the negations of `eq` and `contains`.
pub proof fn law_negated_ops(f: Seq<char>, v: Seq<char>)
    ensures
        op_holds(Op::NotEq, f, v) == !op_holds(Op::Eq, f, v),
        op_holds(Op::NotContains, f, v) == !op_holds(Op::Contains, f, v),
{
}

/// The text operators mean what their names say: `eq` is equality,
/// `starts_with` holds when the field is the value followed by something,
/// `ends_with` when it is something followed by the value, and `contains`
/// when it is the value with something on either side.
pub proof fn law_text_ops_meaning(f: Seq<char>, v: Seq<char>)
    ensures
        op_holds(Op::Eq, f, v) <==> f == v,
        op_holds(Op::StartsWith, f, v) <==> exists|b: Seq<char>| f == #[trigger] (v + b),
        op_holds(Op::EndsWith, f, v) <==> exists|a: Seq<char>| f == #[trigger] (a + v),
        op_holds(Op::Contains, f, v) <==> exists|a: Seq<char>, b: Seq<char>| f == #[trigger] (a + v + b),
{
    if op_holds(Op::StartsWith, f, v) {
        let b = f.skip(v.len() as int);
        assert(f =~= v + b);
    }
    if exists|b: Seq<char>| f == #[trigger] (v + b) {
        let b = choose|b: Seq<char>| f == #[trigger] (v + b);
        assert(f.subrange(0, v.len() as int) =~= v);
    }
    if op_holds(Op::EndsWith, f, v) {
        let a = f.take(f.len() - v.len());
        assert(f =~= a + v);
    }
    if exists|a: Seq<char>| f == #[trigger] (a + v) {
        let a = choose|a: Seq<char>| f == #[trigger] (a + v);
        assert(f.subrange(f.len() - v.len(), f.len() as int) =~= v);
    }
    if op_holds(Op::Contains, f, v) {
        let i = choose|i: int| crate::text::occurs_at(f, v, i);
        let a = f.take(i);
        let b = f.skip(i + v.len());
        assert(f =~= a + v + b);
    }
    if exists|a: Seq<char>, b: Seq<char>| f == #[trigger] (a + v + b) {
        let (a, b) = choose|a: Seq<char>, b: Seq<char>| f == #[trigger] (a + v + b);
        assert(f.subrange(a.len() as int, (a.len() + v.len()) as int) =~= v);
        assert(crate::text::occurs_at(f, v, a.len() as int));
    }
}

} // verus!

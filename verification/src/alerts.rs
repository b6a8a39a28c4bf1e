//! The `alert` step: when it fires, what it says, and the state it keeps
//! between runs.
use vstd::prelude::*;
use crate::element::{field_value, Element, ElementView};
use crate::lines::{lemma_lines_of_join, line_safe, lines, lines_of};
use crate::number::{first_number, number_order, parse_number};
use crate::stages::{collect_field, element_vars, element_vars_spec, field_or_empty, field_values, views};
use crate::step::AlertTrigger;
use crate::str_map::StrMap;
use crate::template::{interpolate_template, render_template};
use crate::text::{contains_string, join, join_strings, str_eq, strings_view};

verus! {

/// Why a pipeline step could not run.
#[derive(Debug, Clone, Copy, PartialEq, Eq, Structural)]
pub enum PipelineError {
    /// A `change`/`decrease`/`increase` alert has neither `field` nor `var`.
    AlertNeedsFieldOrVar,
    /// An `added`/`removed` alert has no `field`.
    AlertNeedsField,
}

impl PipelineError {
    /// The error message.
    pub fn message(&self) -> (r: &'static str)
        ensures
            r@ == (match *self {
                PipelineError::AlertNeedsFieldOrVar => "alert on=change/decrease/increase requires 'field' or 'var'"@,
                PipelineError::AlertNeedsField => "alert on=added/removed requires 'field'"@,
            }),
    {
        match self {
            PipelineError::AlertNeedsFieldOrVar => "alert on=change/decrease/increase requires 'field' or 'var'",
            PipelineError::AlertNeedsField => "alert on=added/removed requires 'field'",
        }
    }
}

/// Whether a `change`/`decrease`/`increase` alert fires for the `current`
/// reading against the `previous` one. `change` fires when the reading differs
/// (a missing previous reading counts as empty); the direction triggers need
/// both readings to hold numbers and fire on a strict drop or rise.
pub open spec fn fires(on: AlertTrigger, current: Seq<char>, previous: Option<Seq<char>>) -> bool {
    if on == AlertTrigger::Change {
        current != (match previous {
            Some(p) => p,
            None => seq![],
        })
    } else {
        match (
            first_number(current),
            match previous {
                Some(p) => first_number(p),
                None => None,
            },
        ) {
            (Some(c), Some(p)) => if on == AlertTrigger::Decrease {
                number_order(c, p) < 0
            } else {
                number_order(c, p) > 0
            },
            _ => false,
        }
    }
}

/// Alerts and state after a watch alert saw the reading `current`.
pub open spec fn watch_outcome(
    message: Seq<char>,
    on: AlertTrigger,
    current: Seq<char>,
    tvars: Map<Seq<char>, Seq<char>>,
    default: Option<Seq<char>>,
    key: Seq<char>,
    alerts: Seq<Seq<char>>,
    state: Map<Seq<char>, Seq<char>>,
) -> (Seq<Seq<char>>, Map<Seq<char>, Seq<char>>) {
    let previous = if state.contains_key(key) {
        Some(state[key])
    } else {
        default
    };
    let alerts2 = if fires(on, current, previous) {
        alerts.push(render_template(message, tvars))
    } else {
        alerts
    };
    let store = on == AlertTrigger::Change || first_number(current) is Some;
    (alerts2, if store {
        state.insert(key, current)
    } else {
        state
    })
}

/// The reading a `change`/`decrease`/`increase` alert watches, with the
/// variables its message is rendered with: the named `var` (empty when
/// unset) with the pipeline variables, else `field` of the first element
/// (empty when absent) with that element's variables. There is no reading
/// when only a `field` is named and there are no elements.
pub open spec fn watched(
    field: Option<Seq<char>>,
    var: Option<Seq<char>>,
    es: Seq<ElementView>,
    vars: Map<Seq<char>, Seq<char>>,
) -> Option<(Seq<char>, Map<Seq<char>, Seq<char>>)> {
    match var {
        Some(v) => Some(
            (if vars.contains_key(v) {
                vars[v]
            } else {
                seq![]
            }, vars),
        ),
        None => match field {
            Some(f) => if es.len() == 0 {
                None
            } else {
                Some((field_or_empty(es[0], f), element_vars_spec(es[0], vars)))
            },
            None => None,
        },
    }
}

/// One alert per element whose identity `field` is not among `previous`.
pub open spec fn added_alerts(
    es: Seq<ElementView>,
    field: Seq<char>,
    previous: Seq<Seq<char>>,
    message: Seq<char>,
    vars: Map<Seq<char>, Seq<char>>,
) -> Seq<Seq<char>>
    decreases es.len(),
{
    if es.len() == 0 {
        seq![]
    } else {
        let r = added_alerts(es.drop_last(), field, previous, message, vars);
        match field_value(es.last(), field) {
            Some(k) => if previous.contains(k) {
                r
            } else {
                r.push(render_template(message, element_vars_spec(es.last(), vars)))
            },
            None => r,
        }
    }
}

/// The entries of `s` without repeats, in order of first appearance.
pub open spec fn distinct(s: Seq<Seq<char>>) -> Seq<Seq<char>>
    decreases s.len(),
{
    if s.len() == 0 {
        seq![]
    } else {
        let d = distinct(s.drop_last());
        if d.contains(s.last()) {
            d
        } else {
            d.push(s.last())
        }
    }
}

/// One alert per key of `keys` that is not among `current`, with the key
/// exposed to the message under the field's name.
pub open spec fn removed_alerts(
    keys: Seq<Seq<char>>,
    current: Seq<Seq<char>>,
    field: Seq<char>,
    message: Seq<char>,
    vars: Map<Seq<char>, Seq<char>>,
) -> Seq<Seq<char>>
    decreases keys.len(),
{
    if keys.len() == 0 {
        seq![]
    } else {
        let r = removed_alerts(keys.drop_last(), current, field, message, vars);
        if current.contains(keys.last()) {
            r
        } else {
            r.push(render_template(message, vars.insert(field, keys.last())))
        }
    }
}

/// The alerts an alert step adds and the persisted state it leaves, or the
/// error for a step that lacks a required field.
pub open spec fn alert_outcome(
    message: Seq<char>,
    on: AlertTrigger,
    field: Option<Seq<char>>,
    var: Option<Seq<char>>,
    default: Option<Seq<char>>,
    key: Seq<char>,
    es: Seq<ElementView>,
    vars: Map<Seq<char>, Seq<char>>,
    alerts: Seq<Seq<char>>,
    state: Map<Seq<char>, Seq<char>>,
) -> Result<(Seq<Seq<char>>, Map<Seq<char>, Seq<char>>), PipelineError> {
    match on {
        AlertTrigger::Any => Ok(
            (if es.len() > 0 {
                alerts.push(render_template(message, element_vars_spec(es[0], vars)))
            } else {
                alerts
            }, state),
        ),
        AlertTrigger::Each => Ok(
            (alerts + es.map_values(
                |e: ElementView| render_template(message, element_vars_spec(e, vars)),
            ), state),
        ),
        AlertTrigger::Empty => Ok(
            (if es.len() == 0 {
                alerts.push(render_template(message, vars))
            } else {
                alerts
            }, state),
        ),
        AlertTrigger::Change | AlertTrigger::Decrease | AlertTrigger::Increase => if var is None
            && field is None {
            Err(PipelineError::AlertNeedsFieldOrVar)
        } else {
            match watched(field, var, es, vars) {
                Some((current, tvars)) => Ok(
                    watch_outcome(message, on, current, tvars, default, key, alerts, state),
                ),
                None => Ok((alerts, state)),
            }
        },
        AlertTrigger::Added | AlertTrigger::Removed => match field {
            None => Err(PipelineError::AlertNeedsField),
            Some(f) => {
                let previous = if state.contains_key(key) {
                    lines_of(state[key])
                } else {
                    seq![]
                };
                let current = field_values(es, f);
                let new_alerts = if on == AlertTrigger::Added {
                    added_alerts(es, f, previous, message, vars)
                } else {
                    removed_alerts(distinct(previous), current, f, message, vars)
                };
                Ok((alerts + new_alerts, state.insert(key, join(current, seq!['\n']))))
            },
        },
    }
}

/// A present field value of an element is among the field values.
proof fn lemma_field_values_member(es: Seq<ElementView>, f: Seq<char>, i: int)
    requires
        0 <= i < es.len(),
        field_value(es[i], f) is Some,
    ensures
        field_values(es, f).contains(field_value(es[i], f)->0),
    decreases es.len(),
{
    let k = field_value(es[i], f)->0;
    if i == es.len() - 1 {
        assert(field_values(es, f).last() == k);
    } else {
        lemma_field_values_member(es.drop_last(), f, i);
        let r = field_values(es.drop_last(), f);
        let j = choose|j: int| 0 <= j < r.len() && r[j] == k;
        match field_value(es.last(), f) {
            Some(v) => assert(r.push(v)[j] == k),
            None => {},
        }
    }
}

/// No element is new when every identity key is already known.
proof fn lemma_added_none(
    es: Seq<ElementView>,
    f: Seq<char>,
    previous: Seq<Seq<char>>,
    message: Seq<char>,
    vars: Map<Seq<char>, Seq<char>>,
)
    requires
        forall|i: int|
            0 <= i < es.len() && (#[trigger] field_value(es[i], f)) is Some ==> previous.contains(
                field_value(es[i], f)->0,
            ),
    ensures
        added_alerts(es, f, previous, message, vars) == Seq::<Seq<char>>::empty(),
    decreases es.len(),
{
    if es.len() > 0 {
        assert forall|i: int|
            0 <= i < es.drop_last().len() && (#[trigger] field_value(es.drop_last()[i], f)) is Some
                implies previous.contains(field_value(es.drop_last()[i], f)->0) by {
            assert(es.drop_last()[i] == es[i]);
        }
        lemma_added_none(es.drop_last(), f, previous, message, vars);
        if field_value(es.last(), f) is Some {
            assert(field_value(es[es.len() - 1], f) is Some);
        }
    }
}

/// Every entry of `distinct(s)` is an entry of `s`.
proof fn lemma_distinct_within(s: Seq<Seq<char>>)
    ensures
        forall|x: Seq<char>| distinct(s).contains(x) ==> s.contains(x),
    decreases s.len(),
{
    if s.len() > 0 {
        lemma_distinct_within(s.drop_last());
        assert forall|x: Seq<char>| distinct(s).contains(x) implies s.contains(x) by {
            let d = distinct(s.drop_last());
            if d.contains(x) {
                assert(s.drop_last().contains(x));
                let j = choose|j: int| 0 <= j < s.drop_last().len() && s.drop_last()[j] == x;
                assert(s.drop_last()[j] == s[j]);
            } else {
                assert(x == s.last());
                assert(s[s.len() - 1] == x);
            }
        }
    }
}

/// No key is gone when every key is still present.
proof fn lemma_removed_none(
    keys: Seq<Seq<char>>,
    current: Seq<Seq<char>>,
    f: Seq<char>,
    message: Seq<char>,
    vars: Map<Seq<char>, Seq<char>>,
)
    requires
        forall|x: Seq<char>| keys.contains(x) ==> current.contains(x),
    ensures
        removed_alerts(keys, current, f, message, vars) == Seq::<Seq<char>>::empty(),
    decreases keys.len(),
{
    if keys.len() > 0 {
        assert forall|x: Seq<char>| keys.drop_last().contains(x) implies current.contains(x) by {
            let j = choose|j: int| 0 <= j < keys.drop_last().len() && keys.drop_last()[j] == x;
            assert(keys[j] == x);
        }
        lemma_removed_none(keys.drop_last(), current, f, message, vars);
        assert(keys[keys.len() - 1] == keys.last());
    }
}

/// On the first run a `change` alert has no previous reading, so it fires
/// once for a non-empty reading, establishing the baseline it stores.
pub proof fn law_first_change_sets_baseline(
    message: Seq<char>,
    field: Option<Seq<char>>,
    var: Option<Seq<char>>,
    key: Seq<char>,
    es: Seq<ElementView>,
    vars: Map<Seq<char>, Seq<char>>,
    alerts: Seq<Seq<char>>,
    state: Map<Seq<char>, Seq<char>>,
)
    requires
        !state.contains_key(key),
    ensures
        watched(field, var, es, vars) matches Some((c, t)) ==> c.len() > 0 ==> alert_outcome(
            message,
            AlertTrigger::Change,
            field,
            var,
            None,
            key,
            es,
            vars,
            alerts,
            state,
        ) == Ok::<(Seq<Seq<char>>, Map<Seq<char>, Seq<char>>), PipelineError>(
            (alerts.push(render_template(message, t)), state.insert(key, c)),
        ),
{
}

/// A `change`, `decrease` or `increase` alert on a `field` (and no `var`)
/// watches the first element only: its outcome over the whole list is its
/// outcome over the first element alone. For `change`, the reading stored is
/// that element's field (empty when absent), and the alert fired, if any, is
/// the message rendered with that element's variables; it fires exactly
/// when the reading differs from the stored one (empty when none is stored
/// and there is no default).
pub proof fn law_watch_reads_first_element(
    message: Seq<char>,
    on: AlertTrigger,
    f: Seq<char>,
    default: Option<Seq<char>>,
    key: Seq<char>,
    es: Seq<ElementView>,
    vars: Map<Seq<char>, Seq<char>>,
    alerts: Seq<Seq<char>>,
    state: Map<Seq<char>, Seq<char>>,
)
    requires
        on == AlertTrigger::Change || on == AlertTrigger::Decrease || on == AlertTrigger::Increase,
        es.len() > 0,
    ensures
        alert_outcome(message, on, Some(f), None, default, key, es, vars, alerts, state)
            == alert_outcome(message, on, Some(f), None, default, key, seq![es[0]], vars, alerts, state),
        on == AlertTrigger::Change ==> ({
            let reading = match field_value(es[0], f) {
                Some(v) => v,
                None => Seq::<char>::empty(),
            };
            let before = if state.contains_key(key) {
                state[key]
            } else {
                match default {
                    Some(d) => d,
                    None => Seq::<char>::empty(),
                }
            };
            alert_outcome(message, on, Some(f), None, default, key, es, vars, alerts, state) matches Ok(
                (a, s),
            ) && s == state.insert(key, reading) && (if reading != before {
                a == alerts.push(render_template(message, element_vars_spec(es[0], vars)))
            } else {
                a == alerts
            })
        }),
{
    assert(seq![es[0]][0] == es[0]);
}

/// A `removed` alert exposes each vanished key under the alert's field name:
/// with the message `{f}` for its field `f`, the alerts it adds are exactly
/// the keys stored by the last run (each once, in order) that no current
/// element holds in `f`.
pub proof fn law_removed_exposes_key(
    f: Seq<char>,
    default: Option<Seq<char>>,
    key: Seq<char>,
    es: Seq<ElementView>,
    vars: Map<Seq<char>, Seq<char>>,
    alerts: Seq<Seq<char>>,
    state: Map<Seq<char>, Seq<char>>,
)
    requires
        !f.contains('}'),
    ensures
        ({
            let previous = if state.contains_key(key) {
                lines_of(state[key])
            } else {
                seq![]
            };
            alert_outcome(
                seq!['{'] + f + seq!['}'],
                AlertTrigger::Removed,
                Some(f),
                None,
                default,
                key,
                es,
                vars,
                alerts,
                state,
            ) matches Ok((a, _)) && a == alerts + distinct(previous).filter(
                |k: Seq<char>| !field_values(es, f).contains(k),
            )
        }),
{
    let previous = if state.contains_key(key) {
        lines_of(state[key])
    } else {
        seq![]
    };
    lemma_removed_keys(distinct(previous), field_values(es, f), f, vars);
}

proof fn lemma_removed_keys(
    keys: Seq<Seq<char>>,
    current: Seq<Seq<char>>,
    f: Seq<char>,
    vars: Map<Seq<char>, Seq<char>>,
)
    requires
        !f.contains('}'),
    ensures
        removed_alerts(keys, current, f, seq!['{'] + f + seq!['}'], vars) == keys.filter(
            |k: Seq<char>| !current.contains(k),
        ),
    decreases keys.len(),
{
    reveal(Seq::filter);
    if keys.len() > 0 {
        lemma_removed_keys(keys.drop_last(), current, f, vars);
        crate::template::lemma_render_single_key(f, vars.insert(f, keys.last()));
        let pred = |k: Seq<char>| !current.contains(k);
        reveal(Seq::filter);
        assert(keys.filter(pred) == (if pred(keys.last()) {
            keys.drop_last().filter(pred).push(keys.last())
        } else {
            keys.drop_last().filter(pred)
        }));
    }
}

/// On the first run `decrease` and `increase` alerts have a single reading
/// and stay silent.
pub proof fn law_first_direction_silent(
    message: Seq<char>,
    on: AlertTrigger,
    field: Option<Seq<char>>,
    var: Option<Seq<char>>,
    key: Seq<char>,
    es: Seq<ElementView>,
    vars: Map<Seq<char>, Seq<char>>,
    alerts: Seq<Seq<char>>,
    state: Map<Seq<char>, Seq<char>>,
)
    requires
        on == AlertTrigger::Decrease || on == AlertTrigger::Increase,
        field is Some || var is Some,
        !state.contains_key(key),
    ensures
        alert_outcome(message, on, field, var, None, key, es, vars, alerts, state) matches Ok((a, _))
            && a == alerts,
{
}

/// A `change`, `decrease` or `increase` alert that sees the same reading
/// again fires nothing and leaves the state as it was.
pub proof fn law_repeat_reading_silent(
    message: Seq<char>,
    on: AlertTrigger,
    field: Option<Seq<char>>,
    var: Option<Seq<char>>,
    default: Option<Seq<char>>,
    key: Seq<char>,
    es: Seq<ElementView>,
    vars: Map<Seq<char>, Seq<char>>,
    alerts: Seq<Seq<char>>,
    state: Map<Seq<char>, Seq<char>>,
)
    requires
        on == AlertTrigger::Change || on == AlertTrigger::Decrease || on == AlertTrigger::Increase,
    ensures
        alert_outcome(message, on, field, var, default, key, es, vars, alerts, state) matches Ok(
            (a, st),
        ) ==> alert_outcome(message, on, field, var, default, key, es, vars, a, st) == Ok::<
            (Seq<Seq<char>>, Map<Seq<char>, Seq<char>>),
            PipelineError,
        >((a, st)),
{
    if let Some((c, t)) = watched(field, var, es, vars) {
        if on == AlertTrigger::Change || first_number(c) is Some {
            let st = state.insert(key, c);
            assert(st.insert(key, c) =~= st);
        }
    }
}

/// An `added` or `removed` alert that sees the same identity keys again
/// fires nothing and leaves the state as it was.
pub proof fn law_repeat_members_silent(
    message: Seq<char>,
    on: AlertTrigger,
    f: Seq<char>,
    default: Option<Seq<char>>,
    key: Seq<char>,
    es: Seq<ElementView>,
    vars: Map<Seq<char>, Seq<char>>,
    alerts: Seq<Seq<char>>,
    state: Map<Seq<char>, Seq<char>>,
)
    requires
        on == AlertTrigger::Added || on == AlertTrigger::Removed,
        line_safe(field_values(es, f)),
    ensures
        alert_outcome(message, on, Some(f), None, default, key, es, vars, alerts, state) matches Ok(
            (a, st),
        ) ==> alert_outcome(message, on, Some(f), None, default, key, es, vars, a, st) == Ok::<
            (Seq<Seq<char>>, Map<Seq<char>, Seq<char>>),
            PipelineError,
        >((a, st)),
{
    let current = field_values(es, f);
    let stored = join(current, seq!['\n']);
    let st = state.insert(key, stored);
    lemma_lines_of_join(current);
    assert(st.contains_key(key) && st[key] == stored);
    if on == AlertTrigger::Added {
        assert forall|i: int|
            0 <= i < es.len() && (#[trigger] field_value(es[i], f)) is Some implies current.contains(
                field_value(es[i], f)->0,
            ) by {
            lemma_field_values_member(es, f, i);
        }
        lemma_added_none(es, f, current, message, vars);
    } else {
        lemma_distinct_within(current);
        lemma_removed_none(distinct(current), current, f, message, vars);
    }
    assert(st.insert(key, stored) =~= st);
    let first = alert_outcome(message, on, Some(f), None, default, key, es, vars, alerts, state);
    if let Ok((a, s1)) = first {
        assert(a + Seq::<Seq<char>>::empty() =~= a);
    }
}

/// On the first run every element with an identity key is new, so an
/// `added` alert fires once for each of them.
pub proof fn law_first_added_fires_per_key(
    message: Seq<char>,
    f: Seq<char>,
    es: Seq<ElementView>,
    vars: Map<Seq<char>, Seq<char>>,
)
    ensures
        added_alerts(es, f, seq![], message, vars).len() == field_values(es, f).len(),
    decreases es.len(),
{
    if es.len() > 0 {
        law_first_added_fires_per_key(message, f, es.drop_last(), vars);
    }
}

/// `any` fires once on a non-empty list, `each` once per element, `empty`
/// once on an empty list; none of them touches the persisted state.
pub proof fn law_list_triggers(
    message: Seq<char>,
    field: Option<Seq<char>>,
    var: Option<Seq<char>>,
    default: Option<Seq<char>>,
    key: Seq<char>,
    es: Seq<ElementView>,
    vars: Map<Seq<char>, Seq<char>>,
    alerts: Seq<Seq<char>>,
    state: Map<Seq<char>, Seq<char>>,
)
    ensures
        alert_outcome(message, AlertTrigger::Any, field, var, default, key, es, vars, alerts, state)
            matches Ok((a, st)) && a.len() == alerts.len() + (if es.len() > 0 { 1int } else { 0 })
            && st == state,
        alert_outcome(message, AlertTrigger::Each, field, var, default, key, es, vars, alerts, state)
            matches Ok((a, st)) && a.len() == alerts.len() + es.len() && st == state,
        alert_outcome(message, AlertTrigger::Empty, field, var, default, key, es, vars, alerts, state)
            matches Ok((a, st)) && a.len() == alerts.len() + (if es.len() == 0 { 1int } else { 0 })
            && st == state,
{
}

/// An alert keeps its state under its own key only: the state stored under
/// every other key is left as it was, so alerts with distinct ids coexist.
pub proof fn law_alert_state_is_per_key(
    message: Seq<char>,
    on: AlertTrigger,
    field: Option<Seq<char>>,
    var: Option<Seq<char>>,
    default: Option<Seq<char>>,
    key: Seq<char>,
    es: Seq<ElementView>,
    vars: Map<Seq<char>, Seq<char>>,
    alerts: Seq<Seq<char>>,
    state: Map<Seq<char>, Seq<char>>,
    other: Seq<char>,
)
    requires
        other != key,
    ensures
        alert_outcome(message, on, field, var, default, key, es, vars, alerts, state) matches Ok(
            (a, st),
        ) ==> st.contains_key(other) == state.contains_key(other) && st[other] == state[other],
{
}

fn opt_str<'a>(o: &'a Option<String>) -> (r: Option<&'a str>)
    ensures
        crate::element::opt_str_view(r) == crate::element::opt_view(*o),
{
    match o {
        Some(s) => Some(s.as_str()),
        None => None,
    }
}

/// Whether the readings fire the trigger.
fn fires_exec(on: AlertTrigger, current: &str, previous: Option<&str>) -> (r: bool)
    ensures
        r == fires(on, current@, crate::element::opt_str_view(previous)),
{
    if on == AlertTrigger::Change {
        match previous {
            Some(p) => !str_eq(current, p),
            None => {
                proof {
                    reveal_strlit("");
                    assert(""@ =~= Seq::<char>::empty());
                }
                !str_eq(current, "")
            },
        }
    } else {
        let c = parse_number(current);
        let p = match previous {
            Some(p) => parse_number(p),
            None => None,
        };
        match (c, p) {
            (Some(c), Some(p)) => {
                let o = c.compare(&p);
                if on == AlertTrigger::Decrease {
                    o < 0
                } else {
                    o > 0
                }
            },
            _ => false,
        }
    }
}

/// Apply a watch alert that saw the reading `current`.
fn watch(
    message: &str,
    on: AlertTrigger,
    current: String,
    tvars: &StrMap,
    default: &Option<String>,
    key: String,
    alerts: &mut Vec<String>,
    state: &mut StrMap,
)
    ensures
        (strings_view(final(alerts)@), final(state)@) == watch_outcome(
            message@,
            on,
            current@,
            tvars@,
            crate::element::opt_view(*default),
            key@,
            strings_view(old(alerts)@),
            old(state)@,
        ),
{
    let fire = match state.get(key.as_str()) {
        Some(p) => fires_exec(on, current.as_str(), Some(p.as_str())),
        None => fires_exec(on, current.as_str(), opt_str(default)),
    };
    if fire {
        let msg = interpolate_template(message, tvars);
        let ghost before = alerts@;
        alerts.push(msg);
        assert(strings_view(alerts@) =~= strings_view(before).push(msg@));
    }
    let store = on == AlertTrigger::Change || parse_number(current.as_str()).is_some();
    if store {
        state.insert(key, current);
    }
}

/// The alerts for elements whose identity field is new.
fn added(
    es: &Vec<Element>,
    field: &str,
    previous: &Vec<String>,
    message: &str,
    vars: &StrMap,
) -> (r: Vec<String>)
    ensures
        strings_view(r@) == added_alerts(views(es@), field@, strings_view(previous@), message@, vars@),
{
    let mut r: Vec<String> = Vec::new();
    let mut i: usize = 0;
    while i < es.len()
        invariant
            i <= es@.len(),
            strings_view(r@) == added_alerts(
                views(es@.take(i as int)),
                field@,
                strings_view(previous@),
                message@,
                vars@,
            ),
        decreases es@.len() - i,
    {
        proof {
            assert(views(es@.take(i + 1)).drop_last() =~= views(es@.take(i as int)));
            assert(views(es@.take(i + 1)).last() == es@[i as int]@);
        }
        match es[i].get_field(field) {
            Some(k) => {
                if !contains_string(previous, k) {
                    let ev = element_vars(&es[i], vars);
                    let msg = interpolate_template(message, &ev);
                    let ghost before = r@;
                    r.push(msg);
                    assert(strings_view(r@) =~= strings_view(before).push(msg@));
                }
            },
            None => {},
        }
        i += 1;
    }
    assert(es@.take(es@.len() as int) =~= es@);
    r
}

/// The entries without repeats, in order of first appearance.
fn distinct_strings(s: &Vec<String>) -> (r: Vec<String>)
    ensures
        strings_view(r@) == distinct(strings_view(s@)),
{
    let mut r: Vec<String> = Vec::new();
    let mut i: usize = 0;
    while i < s.len()
        invariant
            i <= s@.len(),
            strings_view(r@) == distinct(strings_view(s@.take(i as int))),
        decreases s@.len() - i,
    {
        proof {
            assert(strings_view(s@.take(i + 1)).drop_last() =~= strings_view(s@.take(i as int)));
            assert(strings_view(s@.take(i + 1)).last() == s@[i as int]@);
        }
        if !contains_string(&r, s[i].as_str()) {
            let ghost before = r@;
            r.push(s[i].clone());
            assert(strings_view(r@) =~= strings_view(before).push(s@[i as int]@));
        }
        i += 1;
    }
    assert(s@.take(s@.len() as int) =~= s@);
    r
}

/// The alerts for keys that disappeared.
fn removed(
    keys: &Vec<String>,
    current: &Vec<String>,
    field: &str,
    message: &str,
    vars: &StrMap,
) -> (r: Vec<String>)
    ensures
        strings_view(r@) == removed_alerts(
            strings_view(keys@),
            strings_view(current@),
            field@,
            message@,
            vars@,
        ),
{
    let mut r: Vec<String> = Vec::new();
    let mut i: usize = 0;
    while i < keys.len()
        invariant
            i <= keys@.len(),
            strings_view(r@) == removed_alerts(
                strings_view(keys@.take(i as int)),
                strings_view(current@),
                field@,
                message@,
                vars@,
            ),
        decreases keys@.len() - i,
    {
        proof {
            assert(strings_view(keys@.take(i + 1)).drop_last() =~= strings_view(
                keys@.take(i as int),
            ));
            assert(strings_view(keys@.take(i + 1)).last() == keys@[i as int]@);
        }
        if !contains_string(current, keys[i].as_str()) {
            let mut tvars = vars.clone();
            tvars.insert(field.to_owned(), keys[i].clone());
            let msg = interpolate_template(message, &tvars);
            let ghost before = r@;
            r.push(msg);
            assert(strings_view(r@) =~= strings_view(before).push(msg@));
        }
        i += 1;
    }
    assert(keys@.take(keys@.len() as int) =~= keys@);
    r
}

fn append_all(alerts: &mut Vec<String>, more: Vec<String>)
    ensures
        strings_view(final(alerts)@) == strings_view(old(alerts)@) + strings_view(more@),
{
    let mut i: usize = 0;
    while i < more.len()
        invariant
            i <= more@.len(),
            strings_view(alerts@) == strings_view(old(alerts)@) + strings_view(more@.take(i as int)),
        decreases more@.len() - i,
    {
        let ghost before = alerts@;
        alerts.push(more[i].clone());
        assert(strings_view(alerts@) =~= strings_view(before).push(more@[i as int]@));
        assert(strings_view(more@.take(i + 1)) =~= strings_view(more@.take(i as int)).push(
            more@[i as int]@,
        ));
        i += 1;
    }
    assert(more@.take(more@.len() as int) =~= more@);
}

/// Run an alert step against the elements `es` and variables `vars`, adding
/// to `alerts` and updating the persisted `state` under `key`.
pub fn run_alert(
    message: &str,
    on: AlertTrigger,
    field: &Option<String>,
    var: &Option<String>,
    default: &Option<String>,
    key: String,
    es: &Vec<Element>,
    vars: &StrMap,
    alerts: &mut Vec<String>,
    state: &mut StrMap,
) -> (r: Result<(), PipelineError>)
    ensures
        match alert_outcome(
            message@,
            on,
            crate::element::opt_view(*field),
            crate::element::opt_view(*var),
            crate::element::opt_view(*default),
            key@,
            views(es@),
            vars@,
            strings_view(old(alerts)@),
            old(state)@,
        ) {
            Ok((a, st)) => r is Ok && strings_view(final(alerts)@) == a && final(state)@ == st,
            Err(e) => r == Err::<(), PipelineError>(e) && final(alerts)@ == old(alerts)@
                && final(state)@ == old(state)@,
        },
{
    match on {
        AlertTrigger::Any => {
            if es.len() > 0 {
                let ev = element_vars(&es[0], vars);
                let msg = interpolate_template(message, &ev);
                let ghost before = alerts@;
                alerts.push(msg);
                assert(strings_view(alerts@) =~= strings_view(before).push(msg@));
            }
            Ok(())
        },
        AlertTrigger::Each => {
            let mut msgs: Vec<String> = Vec::new();
            let mut i: usize = 0;
            while i < es.len()
                invariant
                    i <= es@.len(),
                    strings_view(msgs@) == views(es@).take(i as int).map_values(
                        |e: ElementView| render_template(message@, element_vars_spec(e, vars@)),
                    ),
                decreases es@.len() - i,
            {
                let ev = element_vars(&es[i], vars);
                let msg = interpolate_template(message, &ev);
                let ghost before = msgs@;
                msgs.push(msg);
                assert(strings_view(msgs@) =~= strings_view(before).push(msg@));
                assert(views(es@).take(i + 1) =~= views(es@).take(i as int).push(es@[i as int]@));
                assert(strings_view(msgs@) =~= views(es@).take(i + 1).map_values(
                    |e: ElementView| render_template(message@, element_vars_spec(e, vars@)),
                ));
                i += 1;
            }
            assert(views(es@).take(es@.len() as int) =~= views(es@));
            append_all(alerts, msgs);
            Ok(())
        },
        AlertTrigger::Empty => {
            if es.len() == 0 {
                let msg = interpolate_template(message, vars);
                let ghost before = alerts@;
                alerts.push(msg);
                assert(strings_view(alerts@) =~= strings_view(before).push(msg@));
            }
            Ok(())
        },
        AlertTrigger::Change | AlertTrigger::Decrease | AlertTrigger::Increase => {
            match var {
                Some(v) => {
                    let current = match vars.get(v.as_str()) {
                        Some(c) => c.clone(),
                        None => String::new(),
                    };
                    watch(message, on, current, vars, default, key, alerts, state);
                    Ok(())
                },
                None => match field {
                    None => Err(PipelineError::AlertNeedsFieldOrVar),
                    Some(f) => {
                        if es.len() == 0 {
                            return Ok(());
                        }
                        let current = match es[0].get_field(f.as_str()) {
                            Some(c) => c.to_owned(),
                            None => String::new(),
                        };
                        let tvars = element_vars(&es[0], vars);
                        watch(message, on, current, &tvars, default, key, alerts, state);
                        Ok(())
                    },
                },
            }
        },
        AlertTrigger::Added | AlertTrigger::Removed => {
            match field {
                None => Err(PipelineError::AlertNeedsField),
                Some(f) => {
                    let previous: Vec<String> = match state.get(key.as_str()) {
                        Some(s) => lines(s.as_str()),
                        None => Vec::new(),
                    };
                    assert(previous@.len() == 0 ==> strings_view(previous@) =~= Seq::<
                        Seq<char>,
                    >::empty());
                    let current = collect_field(es, f.as_str());
                    let new_alerts = if on == AlertTrigger::Added {
                        added(es, f.as_str(), &previous, message, vars)
                    } else {
                        let keys = distinct_strings(&previous);
                        removed(&keys, &current, f.as_str(), message, vars)
                    };
                    append_all(alerts, new_alerts);
                    let joined = join_strings(&current, "\n");
                    proof {
                        reveal_strlit("\n");
                        assert("\n"@ =~= seq!['\n']);
                    }
                    state.insert(key, joined);
                    Ok(())
                },
            }
        },
    }
}

} // verus!

//! The DOM element type that the pipeline works on.
use vstd::prelude::*;
use crate::str_map::StrMap;
use crate::text::str_eq;

verus! {

/// The characters of an optional string.
pub open spec fn opt_view(o: Option<String>) -> Option<Seq<char>> {
    match o {
        Some(s) => Some(s@),
        None => None,
    }
}

/// The characters of an optional string slice.
pub open spec fn opt_str_view(o: Option<&str>) -> Option<Seq<char>> {
    match o {
        Some(s) => Some(s@),
        None => None,
    }
}

/// The abstract value of an [`Element`].
pub struct ElementView {
    pub text: Option<Seq<char>>,
    pub class: Option<Seq<char>>,
    pub href: Option<Seq<char>>,
    pub value: Option<Seq<char>>,
    pub attrs: Map<Seq<char>, Seq<char>>,
}

/// A DOM element extracted from a scraped page.
#[derive(Debug)]
pub struct Element {
    /// Visible text content.
    pub text: Option<String>,
    /// Full `class` attribute value.
    pub class: Option<String>,
    /// `href` attribute, if present.
    pub href: Option<String>,
    /// `value` attribute, if present.
    pub value: Option<String>,
    /// Extra attributes requested via `query_all`'s `attrs` list, keyed by
    /// attribute name (e.g. `data-price`, `aria-label`). Empty unless requested.
    pub attrs: StrMap,
}

impl View for Element {
    type V = ElementView;

    open spec fn view(&self) -> ElementView {
        ElementView {
            text: opt_view(self.text),
            class: opt_view(self.class),
            href: opt_view(self.href),
            value: opt_view(self.value),
            attrs: self.attrs@,
        }
    }
}

/// The value of the field called `name`: one of the built-in fields `text`,
/// `class`, `href`, `value`, or else the extra attribute of that name.
pub open spec fn field_value(e: ElementView, name: Seq<char>) -> Option<Seq<char>> {
    if name == "text"@ {
        e.text
    } else if name == "class"@ {
        e.class
    } else if name == "href"@ {
        e.href
    } else if name == "value"@ {
        e.value
    } else if e.attrs.contains_key(name) {
        Some(e.attrs[name])
    } else {
        None
    }
}

/// `e` with the field called `name` set to `v`: a built-in field is
/// overwritten, any other name is stored among the extra attributes.
pub open spec fn with_field(e: ElementView, name: Seq<char>, v: Seq<char>) -> ElementView {
    if name == "text"@ {
        ElementView { text: Some(v), ..e }
    } else if name == "class"@ {
        ElementView { class: Some(v), ..e }
    } else if name == "href"@ {
        ElementView { href: Some(v), ..e }
    } else if name == "value"@ {
        ElementView { value: Some(v), ..e }
    } else {
        ElementView { attrs: e.attrs.insert(name, v), ..e }
    }
}

/// An element with no fields at all.
pub open spec fn empty_element() -> ElementView {
    ElementView { text: None, class: None, href: None, value: None, attrs: Map::empty() }
}

fn opt_as_str(o: &Option<String>) -> (r: Option<&str>)
    ensures
        opt_str_view(r) == opt_view(*o),
{
    match o {
        Some(s) => Some(s.as_str()),
        None => None,
    }
}

fn opt_copy(o: &Option<String>) -> (r: Option<String>)
    ensures
        opt_view(r) == opt_view(*o),
{
    match o {
        Some(s) => Some(s.clone()),
        None => None,
    }
}

impl Clone for Element {
    fn clone(&self) -> (r: Element)
        ensures
            r@ == self@,
    {
        Element {
            text: opt_copy(&self.text),
            class: opt_copy(&self.class),
            href: opt_copy(&self.href),
            value: opt_copy(&self.value),
            attrs: self.attrs.clone(),
        }
    }
}

impl Default for Element {
    fn default() -> (r: Element)
        ensures
            r@ == empty_element(),
    {
        Element { text: None, class: None, href: None, value: None, attrs: StrMap::new() }
    }
}

impl Element {
    /// Return the value of a named field. The built-in fields are `"text"`,
    /// `"class"`, `"href"`, and `"value"`; any other name is looked up among the
    /// extra `attrs` captured by `query_all`.
    pub fn get_field(&self, field: &str) -> (r: Option<&str>)
        ensures
            opt_str_view(r) == field_value(self@, field@),
    {
        if str_eq(field, "text") {
            opt_as_str(&self.text)
        } else if str_eq(field, "class") {
            opt_as_str(&self.class)
        } else if str_eq(field, "href") {
            opt_as_str(&self.href)
        } else if str_eq(field, "value") {
            opt_as_str(&self.value)
        } else {
            match self.attrs.get(field) {
                Some(v) => Some(v.as_str()),
                None => None,
            }
        }
    }

    /// Set a named field. Built-in names (`text`/`class`/`href`/`value`) write
    /// the corresponding struct field; any other name is stored among `attrs`,
    /// so it round-trips through [`get_field`](Self::get_field).
    pub fn set_field(&mut self, field: &str, value: String)
        ensures
            final(self)@ == with_field(old(self)@, field@, value@),
    {
        if str_eq(field, "text") {
            self.text = Some(value);
        } else if str_eq(field, "class") {
            self.class = Some(value);
        } else if str_eq(field, "href") {
            self.href = Some(value);
        } else if str_eq(field, "value") {
            self.value = Some(value);
        } else {
            self.attrs.insert(field.to_owned(), value);
        }
    }
}

/// Setting a field and reading it back gives the value that was set.
pub proof fn law_set_then_get(e: ElementView, name: Seq<char>, v: Seq<char>)
    ensures
        field_value(with_field(e, name, v), name) == Some(v),
{
}

/// Setting a field leaves every other field as it was.
pub proof fn law_set_leaves_other_fields(e: ElementView, name: Seq<char>, other: Seq<char>, v: Seq<char>)
    requires
        name != other,
    ensures
        field_value(with_field(e, name, v), other) == field_value(e, other),
{
}

} // verus!

//! The `fijjit` element: the four built-in fields only.
use vstd::prelude::*;
use crate::element::{opt_str_view, opt_view};
use crate::text::str_eq;

verus! {

/// The abstract value of an [`Element`].
pub struct BasicElementView {
    pub text: Option<Seq<char>>,
    pub class: Option<Seq<char>>,
    pub href: Option<Seq<char>>,
    pub value: Option<Seq<char>>,
}

/// A DOM element extracted from a scraped page.
#[derive(Debug)]
pub struct Element {
    /// Visible text content.
    pub text: Option<String>,
    /// Full `class` attribute value.
    pub class: Option<String>,
    /// `href` attribute, if present.
    pub href: Option<String>,
    /// `value` attribute, if present.
    pub value: Option<String>,
}

impl View for Element {
    type V = BasicElementView;

    open spec fn view(&self) -> BasicElementView {
        BasicElementView {
            text: opt_view(self.text),
            class: opt_view(self.class),
            href: opt_view(self.href),
            value: opt_view(self.value),
        }
    }
}

/// The value of a named built-in field; any other name has none.
pub open spec fn basic_field(e: BasicElementView, name: Seq<char>) -> Option<Seq<char>> {
    if name == "text"@ {
        e.text
    } else if name == "class"@ {
        e.class
    } else if name == "href"@ {
        e.href
    } else if name == "value"@ {
        e.value
    } else {
        None
    }
}

fn opt_copy(o: &Option<String>) -> (r: Option<String>)
    ensures
        opt_view(r) == opt_view(*o),
{
    match o {
        Some(s) => Some(s.clone()),
        None => None,
    }
}

fn opt_as_str(o: &Option<String>) -> (r: Option<&str>)
    ensures
        opt_str_view(r) == opt_view(*o),
{
    match o {
        Some(s) => Some(s.as_str()),
        None => None,
    }
}

impl Clone for Element {
    fn clone(&self) -> (r: Element)
        ensures
            r@ == self@,
    {
        Element {
            text: opt_copy(&self.text),
            class: opt_copy(&self.class),
            href: opt_copy(&self.href),
            value: opt_copy(&self.value),
        }
    }
}

impl Default for Element {
    fn default() -> (r: Element)
        ensures
            r@ == (BasicElementView { text: None, class: None, href: None, value: None }),
    {
        Element { text: None, class: None, href: None, value: None }
    }
}

impl Element {
    /// Return the value of a named field (`"text"`, `"class"`, `"href"`, `"value"`).
    pub fn get_field(&self, field: &str) -> (r: Option<&str>)
        ensures
            opt_str_view(r) == basic_field(self@, field@),
    {
        if str_eq(field, "text") {
            opt_as_str(&self.text)
        } else if str_eq(field, "class") {
            opt_as_str(&self.class)
        } else if str_eq(field, "href") {
            opt_as_str(&self.href)
        } else if str_eq(field, "value") {
            opt_as_str(&self.value)
        } else {
            None
        }
    }
}

} // verus!

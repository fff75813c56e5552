//! The request envelope and the typed accessors that read its headers.

use vstd::prelude::*;
use vstd::string::*;
use crate::headers::{lookup, HeaderView, Headers};
use crate::text::{chars_of, parse_bool, parse_int, parsed_bool, parsed_int};
use crate::xml::option_text;

verus! {

/// How reading a field failed.
#[derive(Clone, Copy, Debug, PartialEq, Eq, Structural)]
pub enum ExtractErrorKind {
    /// A required field is absent.
    Missing,
    /// The field is present but its value cannot be read as the type asked
    /// for.
    Malformed,
}

/// A failure to build a request value, with the name of the field at fault.
#[derive(Clone, Debug, PartialEq, Eq)]
pub struct ExtractError {
    pub kind: ExtractErrorKind,
    pub field: String,
}

/// An extraction failure as plain values.
pub struct ExtractErrorView {
    pub kind: ExtractErrorKind,
    pub field: Seq<char>,
}

impl View for ExtractError {
    type V = ExtractErrorView;

    open spec fn view(&self) -> ExtractErrorView {
        ExtractErrorView { kind: self.kind, field: self.field@ }
    }
}

/// An inbound request as this layer receives it.
pub struct Request {
    pub method: String,
    pub path: String,
    pub query: String,
    pub headers: Headers,
    pub body: Vec<u8>,
}

/// A printable ASCII character, a space or a tab.
pub open spec fn visible(c: char) -> bool {
    c == '\t' || (' ' <= c && c <= '~')
}

/// A header value that can be read as text: visible ASCII throughout.
pub open spec fn visible_text(value: Seq<char>) -> bool {
    forall|i: int| 0 <= i < value.len() ==> visible(#[trigger] value[i])
}

/// What reading the header `name` as required raw value gives.
pub open spec fn required_field(headers: Seq<HeaderView>, name: Seq<char>) -> Result<
    Seq<char>,
    ExtractErrorView,
> {
    match lookup(headers, name) {
        Some(value) => Ok(value),
        None => Err(ExtractErrorView { kind: ExtractErrorKind::Missing, field: name }),
    }
}

/// What reading the header `name` as optional text gives: nothing when the
/// header is absent, its value when that is visible ASCII, and a failure
/// otherwise.
pub open spec fn text_field(headers: Seq<HeaderView>, name: Seq<char>) -> Result<
    Option<Seq<char>>,
    ExtractErrorView,
> {
    match lookup(headers, name) {
        None => Ok(None),
        Some(value) => if visible_text(value) {
            Ok(Some(value))
        } else {
            Err(ExtractErrorView { kind: ExtractErrorKind::Malformed, field: name })
        },
    }
}

/// What reading the header `name` as an optional integer gives: nothing
/// when the header is absent, the integer its value denotes, and a failure
/// when the value denotes no integer in range.
pub open spec fn int_field_of(headers: Seq<HeaderView>, name: Seq<char>) -> Result<
    Option<i64>,
    ExtractErrorView,
> {
    match lookup(headers, name) {
        None => Ok(None),
        Some(value) => match parsed_int(value) {
            Some(n) => Ok(Some(n)),
            None => Err(ExtractErrorView { kind: ExtractErrorKind::Malformed, field: name }),
        },
    }
}

/// What reading the header `name` as an optional boolean gives: nothing
/// when the header is absent, the boolean its value denotes, and a failure
/// when the value is neither `true` nor `false`.
pub open spec fn bool_field_of(headers: Seq<HeaderView>, name: Seq<char>) -> Result<
    Option<bool>,
    ExtractErrorView,
> {
    match lookup(headers, name) {
        None => Ok(None),
        Some(value) => match parsed_bool(value) {
            Some(b) => Ok(Some(b)),
            None => Err(ExtractErrorView { kind: ExtractErrorKind::Malformed, field: name }),
        },
    }
}

/// Whether `value` is visible ASCII throughout.
pub fn is_visible_text(value: &str) -> (r: bool)
    ensures
        r == visible_text(value@),
{
    let chars = chars_of(value);
    let mut i: usize = 0;
    while i < chars.len()
        invariant
            i <= chars.len(),
            chars@ == value@,
            forall|j: int| 0 <= j < i ==> visible(#[trigger] chars@[j]),
        decreases chars.len() - i,
    {
        let c = chars[i];
        if !(c == '\t' || (' ' <= c && c <= '~')) {
            return false;
        }
        i += 1;
    }
    true
}

impl Request {
    /// A request with the given method, path and query string, no headers
    /// and an empty body.
    pub fn new(method: &str, path: &str, query: &str) -> (req: Request)
        ensures
            req.method@ == method@,
            req.path@ == path@,
            req.query@ == query@,
            req.headers@ == Seq::<HeaderView>::empty(),
            req.headers.wf(),
            req.body@ == Seq::<u8>::empty(),
    {
        Request {
            method: String::from_str(method),
            path: String::from_str(path),
            query: String::from_str(query),
            headers: Headers::new(),
            body: Vec::new(),
        }
    }

    /// The raw value of the header `name`, if the request has one.
    pub fn get_optional(&self, name: &str) -> (r: Option<&str>)
        ensures
            match r {
                Some(value) => lookup(self.headers@, name@) == Some(value@),
                None => lookup(self.headers@, name@) is None,
            },
    {
        self.headers.get(name)
    }

    /// The raw value of the header `name`; its absence is an error.
    pub fn get_required(&self, name: &str) -> (r: Result<&str, ExtractError>)
        ensures
            match r {
                Ok(value) => required_field(self.headers@, name@) == Ok::<
                    Seq<char>,
                    ExtractErrorView,
                >(value@),
                Err(e) => required_field(self.headers@, name@) == Err::<
                    Seq<char>,
                    ExtractErrorView,
                >(e@),
            },
    {
        match self.headers.get(name) {
            Some(value) => Ok(value),
            None => Err(
                ExtractError { kind: ExtractErrorKind::Missing, field: String::from_str(name) },
            ),
        }
    }

    /// The header `name` read as text.
    pub fn get_optional_text(&self, name: &str) -> (r: Result<Option<String>, ExtractError>)
        ensures
            match r {
                Ok(value) => text_field(self.headers@, name@) == Ok::<
                    Option<Seq<char>>,
                    ExtractErrorView,
                >(option_text(value)),
                Err(e) => text_field(self.headers@, name@) == Err::<
                    Option<Seq<char>>,
                    ExtractErrorView,
                >(e@),
            },
    {
        match self.headers.get(name) {
            None => Ok(None),
            Some(value) => {
                if is_visible_text(value) {
                    Ok(Some(String::from_str(value)))
                } else {
                    Err(
                        ExtractError {
                            kind: ExtractErrorKind::Malformed,
                            field: String::from_str(name),
                        },
                    )
                }
            },
        }
    }

    /// The header `name` read as an integer.
    pub fn get_optional_int(&self, name: &str) -> (r: Result<Option<i64>, ExtractError>)
        ensures
            match r {
                Ok(value) => int_field_of(self.headers@, name@) == Ok::<
                    Option<i64>,
                    ExtractErrorView,
                >(value),
                Err(e) => int_field_of(self.headers@, name@) == Err::<
                    Option<i64>,
                    ExtractErrorView,
                >(e@),
            },
    {
        match self.headers.get(name) {
            None => Ok(None),
            Some(value) => match parse_int(value) {
                Some(n) => Ok(Some(n)),
                None => Err(
                    ExtractError {
                        kind: ExtractErrorKind::Malformed,
                        field: String::from_str(name),
                    },
                ),
            },
        }
    }

    /// The header `name` read as a boolean.
    pub fn get_optional_bool(&self, name: &str) -> (r: Result<Option<bool>, ExtractError>)
        ensures
            match r {
                Ok(value) => bool_field_of(self.headers@, name@) == Ok::<
                    Option<bool>,
                    ExtractErrorView,
                >(value),
                Err(e) => bool_field_of(self.headers@, name@) == Err::<
                    Option<bool>,
                    ExtractErrorView,
                >(e@),
            },
    {
        match self.headers.get(name) {
            None => Ok(None),
            Some(value) => match parse_bool(value) {
                Some(b) => Ok(Some(b)),
                None => Err(
                    ExtractError {
                        kind: ExtractErrorKind::Malformed,
                        field: String::from_str(name),
                    },
                ),
            },
        }
    }

    /// Overlays `field` with the header `name` read as text: a present
    /// header replaces the field, an absent one leaves it as it is, and a
    /// malformed one fails without touching it.
    pub fn assign_from_optional_header(&self, name: &str, field: &mut Option<String>) -> (r:
        Result<(), ExtractError>)
        ensures
            match text_field(self.headers@, name@) {
                Ok(Some(value)) => r is Ok && option_text(*final(field)) == Some(value),
                Ok(None) => r is Ok && *final(field) == *old(field),
                Err(e) => r is Err && r->Err_0@ == e && *final(field) == *old(field),
            },
    {
        match self.get_optional_text(name) {
            Ok(Some(value)) => {
                *field = Some(value);
                Ok(())
            },
            Ok(None) => Ok(()),
            Err(e) => Err(e),
        }
    }
}

} // verus!

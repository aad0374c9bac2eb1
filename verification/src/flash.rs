//! Data carried from one request to the next (validation errors and flash messages), and
//! the redirects that produce it.

use vstd::prelude::*;
use crate::json::{lookup, model_entries, JsonValue, SpecJson};

verus! {

/// Errors and flash data that survive one redirect. Each list is read as a map: a later
/// entry replaces an earlier one with the same key.
#[derive(Debug, PartialEq, Eq)]
pub struct FlashData {
    pub errors: Vec<(String, JsonValue)>,
    pub flash: Vec<(String, JsonValue)>,
    /// Clear the client's (encrypted) history on the next page, e.g. after logging out.
    pub clear_history: bool,
}

impl FlashData {
    /// No errors, no flash data, history kept.
    pub fn new() -> (r: FlashData)
        ensures
            r.errors@.len() == 0,
            r.flash@.len() == 0,
            !r.clear_history,
    {
        FlashData { errors: Vec::new(), flash: Vec::new(), clear_history: false }
    }

    /// Nothing to carry over.
    pub fn is_empty(&self) -> (r: bool)
        ensures
            r == (self.errors@.len() == 0 && self.flash@.len() == 0 && !self.clear_history),
    {
        self.errors.len() == 0 && self.flash.len() == 0 && !self.clear_history
    }

    /// A copy of this data.
    pub fn deep_clone(&self) -> (r: FlashData)
        ensures
            model_entries(r.errors@) == model_entries(self.errors@),
            model_entries(r.flash@) == model_entries(self.flash@),
            r.clear_history == self.clear_history,
    {
        FlashData {
            errors: clone_entries(&self.errors),
            flash: clone_entries(&self.flash),
            clear_history: self.clear_history,
        }
    }
}

/// A copy of object entries.
pub fn clone_entries(entries: &Vec<(String, JsonValue)>) -> (r: Vec<(String, JsonValue)>)
    ensures
        model_entries(r@) == model_entries(entries@),
{
    let mut out: Vec<(String, JsonValue)> = Vec::new();
    let mut i: usize = 0;
    while i < entries.len()
        invariant
            i <= entries@.len(),
            model_entries(out@) == model_entries(entries@.subrange(0, i as int)),
        decreases entries@.len() - i,
    {
        proof {
            crate::json::lemma_model_entries_step(entries@, i as int);
        }
        let v = entries[i].1.deep_clone();
        crate::json::push_entry(&mut out, entries[i].0.clone(), v);
        i = i + 1;
    }
    assert(entries@.subrange(0, entries@.len() as int) == entries@);
    out
}

/// Set on a response that rendered a page, so the store knows the incoming flash data has
/// been shown and can be dropped.
#[derive(Debug, Clone, Copy)]
pub struct FlashConsumed;

/// Why a value cannot be used as errors.
#[derive(Debug, PartialEq, Eq)]
pub enum ObjectError {
    /// The value could not be serialized; the serializer's message.
    Serialize(String),
    /// The value serializes to something other than an object or `null`.
    NotAnObject,
}

/// The entries of a serialized value that must be a JSON object (`null` counts as empty).
pub fn to_object(value: Result<JsonValue, String>) -> (r: Result<Vec<(String, JsonValue)>, ObjectError>)
    ensures
        match value {
            Ok(JsonValue::Object(m)) => r == Ok::<Vec<(String, JsonValue)>, ObjectError>(m),
            Ok(JsonValue::Null) => r matches Ok(m) && m@.len() == 0,
            Ok(_) => r matches Err(ObjectError::NotAnObject),
            Err(e) => r matches Err(ObjectError::Serialize(m)) && m == e,
        },
{
    match value {
        Ok(JsonValue::Object(m)) => Ok(m),
        Ok(JsonValue::Null) => Ok(Vec::new()),
        Ok(_) => Err(ObjectError::NotAnObject),
        Err(e) => Err(ObjectError::Serialize(e)),
    }
}

/// What went wrong while building a redirect; it answers with a server error.
#[derive(Debug, PartialEq, Eq)]
pub enum RedirectError {
    /// Validation errors that were not a JSON object.
    InvalidErrors(ObjectError),
    /// A flash value that could not be serialized; the serializer's message.
    InvalidFlash(String),
}

/// A redirect that can carry validation errors and flash data to the next page.
#[derive(Debug)]
pub struct InertiaRedirect {
    pub location: String,
    /// The error bag the request named (`X-Inertia-Error-Bag`), if any.
    pub error_bag: Option<String>,
    pub data: FlashData,
    pub error: Option<RedirectError>,
}

/// The entries of the object stored under `key`, when there is one.
pub open spec fn object_at(entries: Seq<(String, JsonValue)>, key: Seq<char>) -> Seq<(Seq<char>, SpecJson)> {
    match lookup(entries, key) {
        Some(JsonValue::Object(m)) => model_entries(m@),
        _ => Seq::empty(),
    }
}

/// Position of the last entry keyed `key`, if any.
fn find_last_key(entries: &Vec<(String, JsonValue)>, key: &str) -> (r: Option<usize>)
    ensures
        match r {
            Some(i) => i < entries@.len() && entries@[i as int].0@ == key@
                && lookup(entries@, key@) == Some(entries@[i as int].1),
            None => lookup(entries@, key@) is None,
        },
{
    let mut i: usize = entries.len();
    assert(entries@.subrange(0, i as int) == entries@);
    while i > 0
        invariant
            i <= entries@.len(),
            lookup(entries@, key@) == lookup(entries@.subrange(0, i as int), key@),
        decreases i,
    {
        assert(entries@.subrange(0, i as int).drop_last() == entries@.subrange(0, i - 1));
        if crate::json::str_eq(entries[i - 1].0.as_str(), key) {
            return Some(i - 1);
        }
        i = i - 1;
    }
    None
}

/// Appends `other` to `entries`.
fn extend_entries(entries: &mut Vec<(String, JsonValue)>, other: Vec<(String, JsonValue)>)
    ensures
        final(entries)@ == old(entries)@ + other@,
{
    let mut other = other;
    entries.append(&mut other);
}

impl InertiaRedirect {
    /// A redirect to `location`, for a request that named `error_bag`.
    pub fn new(location: String, error_bag: Option<String>) -> (r: InertiaRedirect)
        ensures
            r.location == location,
            r.error_bag == error_bag,
            r.data.errors@.len() == 0 && r.data.flash@.len() == 0 && !r.data.clear_history,
            r.error is None,
    {
        InertiaRedirect { location, error_bag, data: FlashData::new(), error: None }
    }

    /// Validation errors keyed by field, serialized: a message or a list of messages per
    /// field. They are added to the errors of the next page, under the request's error bag
    /// when it named one (added to the errors already in that bag).
    pub fn with_errors(self, errors: Result<JsonValue, String>) -> (r: InertiaRedirect)
        ensures
            r.location == self.location,
            r.error_bag == self.error_bag,
            r.data.flash == self.data.flash,
            r.data.clear_history == self.data.clear_history,
            match to_object_spec(errors) {
                Some(errs) => r.error == self.error && match self.error_bag {
                    Some(bag) if errs.len() > 0 => r.data.errors@.len() == self.data.errors@.len() + 1
                        && r.data.errors@.drop_last() == self.data.errors@
                        && r.data.errors@.last().0 == bag
                        && r.data.errors@.last().1.model() == SpecJson::Object(
                            object_at(self.data.errors@, bag@) + model_entries(errs)),
                    _ => r.data.errors@ == self.data.errors@ + errs,
                },
                None => r.error is Some && r.data.errors == self.data.errors,
            },
    {
        let mut s = self;
        match to_object(errors) {
            Ok(errs) => {
                let with_bag = match &s.error_bag {
                    Some(_) => errs.len() > 0,
                    None => false,
                };
                if with_bag {
                    let bag = match &s.error_bag {
                        Some(b) => b.clone(),
                        None => String::new(),
                    };
                    let mut existing: Vec<(String, JsonValue)> = match find_last_key(&s.data.errors, bag.as_str()) {
                        Some(i) => match &s.data.errors[i].1 {
                            JsonValue::Object(m) => clone_entries(m),
                            _ => Vec::new(),
                        },
                        None => Vec::new(),
                    };
                    let ghost ex = model_entries(existing@);
                    assert(ex == object_at(s.data.errors@, bag@));
                    proof {
                        crate::json::lemma_model_entries_concat(existing@, errs@);
                    }
                    let ghost errs_model = model_entries(errs@);
                    extend_entries(&mut existing, errs);
                    let ghost before = s.data.errors@;
                    s.data.errors.push((bag, JsonValue::Object(existing)));
                    assert(s.data.errors@.drop_last() == before);
                } else {
                    extend_entries(&mut s.data.errors, errs);
                }
            },
            Err(e) => {
                s.error = Some(RedirectError::InvalidErrors(e));
            },
        }
        s
    }

    /// Clear the client's history on the page this redirect leads to (e.g. after logout).
    pub fn clear_history(self) -> (r: InertiaRedirect)
        ensures
            r.location == self.location,
            r.error_bag == self.error_bag,
            r.data.errors == self.data.errors,
            r.data.flash == self.data.flash,
            r.data.clear_history,
            r.error == self.error,
    {
        let mut s = self;
        s.data.clear_history = true;
        s
    }

    /// One-time data for the next page, available as `page.flash`; `value` serialized.
    pub fn with_flash(self, key: String, value: Result<JsonValue, String>) -> (r: InertiaRedirect)
        ensures
            r.location == self.location,
            r.error_bag == self.error_bag,
            r.data.errors == self.data.errors,
            r.data.clear_history == self.data.clear_history,
            match value {
                Ok(v) => r.data.flash@ == self.data.flash@.push((key, v)) && r.error == self.error,
                Err(m) => r.data.flash == self.data.flash && r.error == Some(RedirectError::InvalidFlash(m)),
            },
    {
        let mut s = self;
        match value {
            Ok(v) => s.data.flash.push((key, v)),
            Err(m) => s.error = Some(RedirectError::InvalidFlash(m)),
        }
        s
    }

    /// The response: a server error when building the redirect failed or the location is
    /// not a valid header value, else a `302` to the location, handing the flash data to
    /// the store unless it is empty.
    pub fn into_response(self) -> (r: RedirectResponse)
        ensures
            redirect_answer(self, r),
    {
        if self.error.is_some() {
            return RedirectResponse::ServerError;
        }
        if !is_header_value(self.location.as_str()) {
            return RedirectResponse::ServerError;
        }
        let empty = self.data.is_empty();
        RedirectResponse::Found {
            location: self.location,
            flash: if empty { None } else { Some(self.data) },
        }
    }
}

/// What a redirect answers.
#[derive(Debug, PartialEq, Eq)]
pub enum RedirectResponse {
    /// `500`: the redirect could not be built.
    ServerError,
    /// `302` with `Location`; the flash data to store for the next request, if any.
    Found { location: String, flash: Option<FlashData> },
}

/// The answer to redirect `red`: a server error when building it failed or the location is
/// not a valid header value, else a `302` to the location with the flash data to store,
/// unless it is empty.
pub open spec fn redirect_answer(red: InertiaRedirect, r: RedirectResponse) -> bool {
    match red.error {
        Some(_) => r is ServerError,
        None => if header_value_ok(red.location@) {
            r matches RedirectResponse::Found { location, flash } && location == red.location
                && match flash {
                    Some(d) => d == red.data && !(red.data.errors@.len() == 0 && red.data.flash@.len() == 0 && !red.data.clear_history),
                    None => red.data.errors@.len() == 0 && red.data.flash@.len() == 0 && !red.data.clear_history,
                }
        } else {
            r is ServerError
        },
    }
}

/// The flash data of a request: what the previous one stored, or nothing.
pub open spec fn incoming_flash(incoming: Option<FlashData>, f: FlashData) -> bool {
    match incoming {
        Some(d) => f == d,
        None => f.errors@.len() == 0 && f.flash@.len() == 0 && !f.clear_history,
    }
}

/// What a redirect flashes is what the next request sees: the errors, the flash entries
/// and the clear-history flag that the store hands on arrive unchanged.
pub proof fn lemma_flash_survives_redirect(red: InertiaRedirect, answer: RedirectResponse, next: FlashData)
    requires
        redirect_answer(red, answer),
        answer matches RedirectResponse::Found { flash, .. } && incoming_flash(flash, next),
    ensures
        model_entries(next.errors@) == model_entries(red.data.errors@),
        model_entries(next.flash@) == model_entries(red.data.flash@),
        next.clear_history == red.data.clear_history,
{
    match answer {
        RedirectResponse::Found { flash, .. } => match flash {
            Some(_) => {},
            None => {
                assert(next.errors@ =~= red.data.errors@);
                assert(next.flash@ =~= red.data.flash@);
            },
        },
        _ => {},
    }
}

/// The errors as an object's entries, or `None` when they are not an object (or `null`).
pub open spec fn to_object_spec(value: Result<JsonValue, String>) -> Option<Seq<(String, JsonValue)>> {
    match value {
        Ok(JsonValue::Object(m)) => Some(m@),
        Ok(JsonValue::Null) => Some(Seq::empty()),
        _ => None,
    }
}

/// A character a header value may hold: a tab, or anything but control characters and DEL.
pub open spec fn header_char_ok(c: char) -> bool {
    c == '\t' || (c as u32 >= 32 && c as u32 != 127)
}

/// Whether `s` can be sent as an HTTP header value.
pub open spec fn header_value_ok(s: Seq<char>) -> bool {
    forall|i: int| 0 <= i < s.len() ==> header_char_ok(#[trigger] s[i])
}

/// Whether `s` can be sent as an HTTP header value.
pub fn is_header_value(s: &str) -> (r: bool)
    ensures
        r == header_value_ok(s@),
{
    let n = s.unicode_len();
    let mut i: usize = 0;
    while i < n
        invariant
            n == s@.len(),
            i <= n,
            forall|j: int| 0 <= j < i ==> header_char_ok(#[trigger] s@[j]),
        decreases n - i,
    {
        let c = s.get_char(i);
        if !(c == '\t' || (c as u32 >= 32 && c as u32 != 127)) {
            return false;
        }
        i = i + 1;
    }
    true
}

} // verus!

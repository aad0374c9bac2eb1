//! The per-request Inertia context: what the request's headers ask for, and the decisions
//! made from it (partial reloads, redirects back, Precognition answers, the page object).

use vstd::prelude::*;
use crate::config::{version_of, InertiaConfig};
use crate::flash::{clone_entries, to_object, to_object_spec, FlashData, InertiaRedirect, ObjectError};
use crate::json::{first_index, model_entries, JsonValue, SpecJson};
use crate::meta::{empty_meta, fold_events, Resolved};
use crate::narrow::strs;
use crate::page::{escape_script_json, escape_tags, mount_markup, spec_mount_markup, Page};
use crate::path::{covers, spec_covers};
use crate::props::{merged, plain, prop_keys, Kind, Prop, Props, Source};
use crate::resolve::{any_covers, resolve_level, PropRequest, ResolveError, SpecError, SpecRequest};
use crate::scroll::{is_prepend, MergeIntent};
use crate::ssr::SsrResponse;
use crate::text::{chars_eq_ignore_case, comma_list, eq_ignore_case, spec_comma_list, starts_with, to_chars};

verus! {

/// A comma separated header as a list: items trimmed, blanks dropped; none without the header.
pub open spec fn spec_header_list(value: Option<Seq<char>>) -> Seq<Seq<char>> {
    match value {
        Some(v) => spec_comma_list(v),
        None => Seq::empty(),
    }
}

/// A comma separated header as a list, ignoring blanks.
pub fn header_list(value: Option<&str>) -> (r: Vec<String>)
    ensures
        strs(r@) == spec_header_list(opt_view(value)),
{
    match value {
        Some(v) => comma_list(v),
        None => {
            let r: Vec<String> = Vec::new();
            assert(strs(r@) =~= Seq::<Seq<char>>::empty());
            r
        },
    }
}

/// The view of an optional string.
pub open spec fn opt_view(s: Option<&str>) -> Option<Seq<char>> {
    match s {
        Some(v) => Some(v@),
        None => None,
    }
}

/// The view of an optional owned string.
pub open spec fn opt_string(s: Option<String>) -> Option<Seq<char>> {
    match s {
        Some(v) => Some(v@),
        None => None,
    }
}

/// What `http::Uri` parses `s` into: scheme, authority and path-and-query, or `None` when
/// it is not a URI.
pub uninterp spec fn parsed_uri(s: Seq<char>) -> Option<(Option<Seq<char>>, Option<Seq<char>>, Option<Seq<char>>)>;

/// The parts of a parsed URI, as views.
pub open spec fn parts_view(p: Option<(Option<String>, Option<String>, Option<String>)>)
    -> Option<(Option<Seq<char>>, Option<Seq<char>>, Option<Seq<char>>)>
{
    match p {
        Some((s, a, q)) => Some((opt_string(s), opt_string(a), opt_string(q))),
        None => None,
    }
}

/// Parses `s` with `http::Uri`'s `FromStr` and returns its scheme (`Uri::scheme_str`),
/// authority (`Uri::authority`) and path and query (`Uri::path_and_query`). The contract
/// names the result after the parser and claims nothing else of it.
#[verifier::external_body]
pub(crate) fn parse_uri(s: &str) -> (r: Option<(Option<String>, Option<String>, Option<String>)>)
    ensures
        parts_view(r) == parsed_uri(s@),
{
    match s.parse::<axum::http::Uri>() {
        Ok(u) => Some((
            u.scheme_str().map(|x| x.to_string()),
            u.authority().map(|a| a.as_str().to_string()),
            u.path_and_query().map(|q| q.as_str().to_string()),
        )),
        Err(_) => None,
    }
}

/// A path that stays on this site: starts with `/`, but not `//` or `/\`, which browsers
/// read as another host.
pub open spec fn safe_path(p: Seq<char>) -> bool {
    starts_with(p, seq!['/']) && !starts_with(p, seq!['/', '/']) && !starts_with(p, seq!['/', '\\'])
}

/// `host` (when given) or one of `allowed` equals `authority` up to ASCII case.
pub open spec fn host_allowed(authority: Seq<char>, host: Option<Seq<char>>, allowed: Seq<Seq<char>>) -> bool {
    (host matches Some(h) && eq_ignore_case(h, authority))
        || exists|i: int| 0 <= i < allowed.len() && eq_ignore_case(#[trigger] allowed[i], authority)
}

/// Where `back()` may go, given the parsed `Referer`: the referer itself when it is a safe
/// relative path, or the path and query of an absolute http(s) referer on an allowed host.
pub open spec fn spec_same_site(referer: Seq<char>, parts: Option<(Option<Seq<char>>, Option<Seq<char>>, Option<Seq<char>>)>,
    host: Option<Seq<char>>, allowed: Seq<Seq<char>>) -> Option<Seq<char>>
{
    match parts {
        None => None,
        Some((scheme, authority, pq)) => {
            let path = match pq { Some(p) => p, None => seq!['/'] };
            match authority {
                None => if scheme is None && safe_path(referer) { Some(referer) } else { None },
                Some(a) => {
                    let scheme_ok = scheme == Some(seq!['h', 't', 't', 'p']) || scheme == Some(seq!['h', 't', 't', 'p', 's']);
                    if scheme_ok && host_allowed(a, host, allowed) && safe_path(path) { Some(path) } else { None }
                },
            }
        },
    }
}

fn is_safe_path(p: &str) -> (r: bool)
    ensures
        r == safe_path(p@),
{
    let v = to_chars(p);
    let slash = ['/'];
    let two = ['/', '/'];
    let back = ['/', '\\'];
    assert(slash@ == seq!['/']);
    assert(two@ == seq!['/', '/']);
    assert(back@ == seq!['/', '\\']);
    assert(v@.subrange(0, v@.len() as int) =~= v@);
    crate::text::chars_start_with_at(&v, 0, &slash) && !crate::text::chars_start_with_at(&v, 0, &two)
        && !crate::text::chars_start_with_at(&v, 0, &back)
}

fn same_text_ignoring_case(a: &str, b: &str) -> (r: bool)
    ensures
        r == eq_ignore_case(a@, b@),
{
    let x = to_chars(a);
    let y = to_chars(b);
    chars_eq_ignore_case(&x, &y)
}

fn is_http_scheme(s: &str) -> (r: bool)
    ensures
        r == (s@ == seq!['h', 't', 't', 'p'] || s@ == seq!['h', 't', 't', 'p', 's']),
{
    let v = to_chars(s);
    let http = ['h', 't', 't', 'p'];
    let https = ['h', 't', 't', 'p', 's'];
    assert(http@ == seq!['h', 't', 't', 'p']);
    assert(https@ == seq!['h', 't', 't', 'p', 's']);
    assert(v@.subrange(0, v@.len() as int) =~= v@);
    assert(v@.len() == 4 && starts_with(v@, http@) ==> v@ =~= http@);
    assert(v@.len() == 5 && starts_with(v@, https@) ==> v@ =~= https@);
    (v.len() == 4 && crate::text::chars_start_with_at(&v, 0, &http))
        || (v.len() == 5 && crate::text::chars_start_with_at(&v, 0, &https))
}

/// Where `back()` may go given the referer's parsed parts (see [`spec_same_site`]).
pub fn same_site_from_parts(referer: &str, parts: Option<(Option<String>, Option<String>, Option<String>)>,
    host: Option<&str>, allowed: &Vec<String>) -> (r: Option<String>)
    ensures
        opt_string(r) == spec_same_site(referer@, parts_view(parts), opt_view(host), strs(allowed@)),
{
    match parts {
        None => None,
        Some((scheme, authority, pq)) => {
            let path = match pq {
                Some(p) => p,
                None => {
                    proof {
                        reveal_strlit("/");
                    }
                    let s = "/".to_owned();
                    assert(s@ =~= seq!['/']);
                    s
                },
            };
            match authority {
                None => {
                    if scheme.is_none() && is_safe_path(referer) {
                        Some(referer.to_owned())
                    } else {
                        None
                    }
                },
                Some(a) => {
                    let scheme_ok = match &scheme {
                        Some(s) => is_http_scheme(s.as_str()),
                        None => false,
                    };
                    let mut same = match host {
                        Some(h) => same_text_ignoring_case(h, a.as_str()),
                        None => false,
                    };
                    let mut i: usize = 0;
                    while i < allowed.len() && !same
                        invariant
                            i <= allowed@.len(),
                            same == ((host matches Some(h) && eq_ignore_case(h@, a@))
                                || exists|j: int| 0 <= j < i && eq_ignore_case(#[trigger] strs(allowed@)[j], a@)),
                        decreases allowed@.len() - i,
                    {
                        if same_text_ignoring_case(allowed[i].as_str(), a.as_str()) {
                            assert(eq_ignore_case(strs(allowed@)[i as int], a@));
                            same = true;
                        }
                        i = i + 1;
                    }
                    assert(same == host_allowed(a@, opt_view(host), strs(allowed@)));
                    if scheme_ok && same && is_safe_path(path.as_str()) {
                        Some(path)
                    } else {
                        None
                    }
                },
            }
        },
    }
}

/// The `Referer` as a relative URL (`/path?query`) if it belongs to this site, so `back()`
/// can never become an open redirect. Absolute referers must be http(s) with the request's
/// `Host` or one of `allowed` (for proxies that rewrite `Host`); relative ones must be a
/// plain path, not `//host` or `/\host`.
pub fn same_site_location(referer: &str, host: Option<&str>, allowed: &Vec<String>) -> (r: Option<String>)
    ensures
        opt_string(r) == spec_same_site(referer@, parsed_uri(referer@), opt_view(host), strs(allowed@)),
{
    let parts = parse_uri(referer);
    same_site_from_parts(referer, parts, host, allowed)
}

/// The request headers the Inertia context reads, as sent (only those that are valid text).
#[derive(Debug, Clone, Default)]
pub struct RequestHeaders {
    /// Path and query of the request, e.g. `/users?page=2`.
    pub url: String,
    /// `X-Inertia` is present.
    pub inertia: bool,
    pub partial_component: Option<String>,
    pub partial_data: Option<String>,
    pub partial_except: Option<String>,
    pub reset: Option<String>,
    pub merge_intent: Option<String>,
    pub error_bag: Option<String>,
    pub except_once: Option<String>,
    pub referer: Option<String>,
    pub host: Option<String>,
    pub precognition: Option<String>,
    pub precognition_validate_only: Option<String>,
}

/// The raw partial reload headers; they only apply when the component matches.
pub struct PartialHeaders {
    pub component: String,
    pub only: Vec<String>,
    pub except: Vec<String>,
    pub reset: Vec<String>,
    pub merge_intent: MergeIntent,
}

/// Per-request Inertia context.
pub struct Inertia {
    pub config: InertiaConfig,
    pub is_inertia: bool,
    pub url: String,
    pub partial: Option<PartialHeaders>,
    pub error_bag: Option<String>,
    /// Where `back()` may go: the `Referer` when it is on this site, as a relative URL.
    pub back_location: Option<String>,
    /// Flashed by the previous request, plus anything added with [`Inertia::flash`].
    pub flash: FlashData,
    pub encrypt_history: Option<bool>,
    pub except_once: Vec<String>,
    /// `Some(validate_only)` for a Precognition (live validation) request.
    pub precognition: Option<Vec<String>>,
}

/// Answered when Inertia is not configured for a route.
#[derive(Debug)]
pub struct InertiaRejection;

impl InertiaRejection {
    /// The status of the answer: `500`.
    pub fn status(&self) -> (r: u16)
        ensures
            r == 500,
    {
        500
    }
}

fn opt_str(s: &Option<String>) -> (r: Option<&str>)
    ensures
        opt_view(r) == opt_string(*s),
{
    match s {
        Some(v) => Some(v.as_str()),
        None => None,
    }
}

/// The partial reload headers of an Inertia request that names a component.
pub open spec fn spec_partial(h: RequestHeaders) -> Option<(Seq<char>, Seq<Seq<char>>, Seq<Seq<char>>, Seq<Seq<char>>, MergeIntent)> {
    if h.inertia && h.partial_component is Some {
        Some((
            h.partial_component->0@,
            spec_header_list(opt_string(h.partial_data)),
            spec_header_list(opt_string(h.partial_except)),
            spec_header_list(opt_string(h.reset)),
            match h.merge_intent {
                Some(v) if is_prepend(v@) => MergeIntent::Prepend,
                _ => MergeIntent::Append,
            },
        ))
    } else {
        None
    }
}

/// The view of parsed partial headers.
pub open spec fn partial_view(p: Option<PartialHeaders>) -> Option<(Seq<char>, Seq<Seq<char>>, Seq<Seq<char>>, Seq<Seq<char>>, MergeIntent)> {
    match p {
        Some(x) => Some((x.component@, strs(x.only@), strs(x.except@), strs(x.reset@), x.merge_intent)),
        None => None,
    }
}

/// `true`, up to ASCII case.
pub open spec fn is_true_text(v: Seq<char>) -> bool {
    eq_ignore_case(v, seq!['t', 'r', 'u', 'e'])
}

impl Inertia {
    /// What the client asked for when rendering `component`, mathematically.
    pub open spec fn request_for(self, component: Seq<char>) -> SpecRequest {
        match partial_view(self.partial) {
            Some((c, only, except, reset, merge_intent)) if c == component => SpecRequest {
                partial: true,
                only,
                except,
                reset,
                merge_intent,
                except_once: strs(self.except_once@),
            },
            _ => SpecRequest {
                partial: false,
                only: Seq::empty(),
                except: Seq::empty(),
                reset: Seq::empty(),
                merge_intent: MergeIntent::Append,
                except_once: strs(self.except_once@),
            },
        }
    }

    /// The context of a request with these headers, this config and the flash data the
    /// store read (none when there is no store or nothing was flashed).
    pub fn from_request(config: InertiaConfig, headers: RequestHeaders, incoming: Option<FlashData>) -> (r: Inertia)
        ensures
            r.config == config,
            r.is_inertia == headers.inertia,
            r.url == headers.url,
            partial_view(r.partial) == spec_partial(headers),
            opt_string(r.error_bag) == match headers.error_bag {
                Some(b) if b@.len() > 0 => Some(b@),
                _ => None,
            },
            opt_string(r.back_location) == match headers.referer {
                Some(referer) => spec_same_site(referer@, parsed_uri(referer@), opt_string(headers.host), strs(config.allowed_redirect_hosts@)),
                None => None,
            },
            crate::flash::incoming_flash(incoming, r.flash),
            r.encrypt_history is None,
            strs(r.except_once@) == if headers.inertia { spec_header_list(opt_string(headers.except_once)) } else { Seq::empty() },
            match r.precognition {
                Some(only) => headers.precognition matches Some(v) && is_true_text(v@)
                    && strs(only@) == spec_header_list(opt_string(headers.precognition_validate_only)),
                None => !(headers.precognition matches Some(v) && is_true_text(v@)),
            },
    {
        let is_inertia = headers.inertia;
        let partial = if is_inertia {
            match &headers.partial_component {
                Some(c) => Some(PartialHeaders {
                    component: c.clone(),
                    only: header_list(opt_str(&headers.partial_data)),
                    except: header_list(opt_str(&headers.partial_except)),
                    reset: header_list(opt_str(&headers.reset)),
                    merge_intent: MergeIntent::from_header(opt_str(&headers.merge_intent)),
                }),
                None => None,
            }
        } else {
            None
        };
        let back_location = match &headers.referer {
            Some(referer) => same_site_location(referer.as_str(), opt_str(&headers.host), &config.allowed_redirect_hosts),
            None => None,
        };
        let error_bag = match &headers.error_bag {
            Some(b) => if b.unicode_len() > 0 { Some(b.clone()) } else { None },
            None => None,
        };
        let precognition = match &headers.precognition {
            Some(v) => {
                let c = to_chars(v.as_str());
                let t = ['t', 'r', 'u', 'e'];
                assert(t@ == seq!['t', 'r', 'u', 'e']);
                if chars_eq_ignore_case(&c, &t) {
                    Some(header_list(opt_str(&headers.precognition_validate_only)))
                } else {
                    None
                }
            },
            None => None,
        };
        let except_once = if is_inertia {
            header_list(opt_str(&headers.except_once))
        } else {
            let e: Vec<String> = Vec::new();
            assert(strs(e@) =~= Seq::<Seq<char>>::empty());
            e
        };
        let flash = match incoming {
            Some(d) => d,
            None => FlashData::new(),
        };
        Inertia {
            config,
            is_inertia,
            url: headers.url,
            partial,
            error_bag,
            back_location,
            flash,
            encrypt_history: None,
            except_once,
            precognition,
        }
    }

    /// Whether the current request was made by the Inertia client.
    pub fn is_inertia_request(&self) -> (r: bool)
        ensures
            r == self.is_inertia,
    {
        self.is_inertia
    }

    /// What the client asked for when rendering `component`: its partial reload headers
    /// when they name this component, else a full visit; with the once props it has.
    pub fn prop_request(&self, component: &str) -> (r: PropRequest)
        ensures
            r@ == self.request_for(component@),
    {
        let except_once = clone_strings(&self.except_once);
        match &self.partial {
            Some(p) => {
                if crate::json::str_eq(p.component.as_str(), component) {
                    return PropRequest {
                        partial: true,
                        only: clone_strings(&p.only),
                        except: clone_strings(&p.except),
                        reset: clone_strings(&p.reset),
                        merge_intent: p.merge_intent,
                        except_once,
                    };
                }
            },
            None => {},
        }
        let r = PropRequest {
            partial: false,
            only: Vec::new(),
            except: Vec::new(),
            reset: Vec::new(),
            merge_intent: MergeIntent::Append,
            except_once,
        };
        assert(r@ =~= self.request_for(component@)) by {
            assert(strs(r.only@) =~= Seq::<Seq<char>>::empty());
            assert(strs(r.except@) =~= Seq::<Seq<char>>::empty());
            assert(strs(r.reset@) =~= Seq::<Seq<char>>::empty());
        }
        r
    }

    /// Add one-time data to the page rendered by this request (`page.flash`); a value that
    /// could not be serialized is left out.
    pub fn flash(self, key: String, value: Result<JsonValue, String>) -> (r: Inertia)
        ensures
            r.flash.flash@ == match value {
                Ok(v) => self.flash.flash@.push((key, v)),
                Err(_) => self.flash.flash@,
            },
            r.flash.errors == self.flash.errors,
            r.flash.clear_history == self.flash.clear_history,
            r.is_inertia == self.is_inertia && r.url == self.url && r.error_bag == self.error_bag,
            r.back_location == self.back_location && r.encrypt_history == self.encrypt_history,
            r.config == self.config && r.partial == self.partial,
            r.except_once == self.except_once && r.precognition == self.precognition,
    {
        let mut s = self;
        match value {
            Ok(v) => s.flash.flash.push((key, v)),
            Err(_) => {},
        }
        s
    }

    /// Whether this is a Precognition request: the client only wants the submitted data
    /// validated; the action itself must not run.
    pub fn is_precognitive(&self) -> (r: bool)
        ensures
            r == self.precognition is Some,
    {
        self.precognition.is_some()
    }

    /// The answer to a Precognition request given the (serialized) validation errors of the
    /// submitted data: the errors of the fields the client asked about
    /// (`Precognition-Validate-Only`, all when it names none, a field counting when it or
    /// one of its parents is named); `204` when there are none, else `422` with them.
    pub fn precognition_response(&self, errors: Result<JsonValue, String>) -> (r: PrecognitionAnswer)
        ensures
            match to_object_spec(errors) {
                None => r is ServerError,
                Some(errs) => precognition_answer(self.precognition, errs, r),
            },
    {
        let errs = match to_object(errors) {
            Ok(e) => e,
            Err(_) => {
                return PrecognitionAnswer::ServerError;
            },
        };
        let only: Vec<String> = match &self.precognition {
            Some(o) => clone_strings(o),
            None => Vec::new(),
        };
        let ghost onlys = strs(only@);
        assert(onlys =~= match self.precognition { Some(o) => strs(o@), None => Seq::<Seq<char>>::empty() });
        let ghost orig = errs@;
        let mut src = errs;
        let mut kept: Vec<(String, JsonValue)> = Vec::new();
        let ghost mut i: int = 0;
        assert(orig.subrange(0, 0) =~= Seq::<(String, JsonValue)>::empty());
        while src.len() > 0
            invariant
                0 <= i <= orig.len(),
                orig.len() == i + src@.len(),
                src@ == orig.subrange(i, orig.len() as int),
                onlys == strs(only@),
                kept@ == asked_errors(orig.subrange(0, i), onlys),
            decreases src@.len(),
        {
            let (k, v) = src.remove(0);
            assert(orig[i] == (k, v));
            assert(orig.subrange(0, i + 1).drop_last() == orig.subrange(0, i));
            let keep = only.len() == 0 || any_covers_all(&only, k.as_str());
            if keep {
                kept.push((k, v));
            }
            proof {
                i = i + 1;
            }
        }
        assert(orig.subrange(0, orig.len() as int) == orig);
        if kept.len() == 0 {
            PrecognitionAnswer::Valid
        } else {
            PrecognitionAnswer::Invalid(kept)
        }
    }

    /// Encrypt (or not) this page in the client's history, overriding the config default.
    pub fn encrypt_history(self, encrypt: bool) -> (r: Inertia)
        ensures
            r == (Inertia { encrypt_history: Some(encrypt), ..self }),
    {
        Inertia { encrypt_history: Some(encrypt), ..self }
    }

    /// Clear the client's history when this page arrives.
    pub fn clear_history(self) -> (r: Inertia)
        ensures
            r == (Inertia { flash: FlashData { clear_history: true, ..self.flash }, ..self }),
    {
        let mut s = self;
        s.flash.clear_history = true;
        s
    }

    /// Redirect to `location`; errors go under the request's error bag, if any.
    pub fn redirect(&self, location: String) -> (r: InertiaRedirect)
        ensures
            r.location == location,
            r.error_bag == self.error_bag,
            r.data.errors@.len() == 0 && r.data.flash@.len() == 0 && !r.data.clear_history,
            r.error is None,
    {
        InertiaRedirect::new(location, self.error_bag.clone())
    }

    /// Redirect to the previous page (the `Referer`), or `/` when there is none or it points
    /// to another site.
    pub fn back(&self) -> (r: InertiaRedirect)
        ensures
            r.location@ == match self.back_location { Some(l) => l@, None => seq!['/'] },
            r.error_bag == self.error_bag,
            r.data.errors@.len() == 0 && r.data.flash@.len() == 0 && !r.data.clear_history,
            r.error is None,
    {
        proof {
            reveal_strlit("/");
        }
        let fallback = "/".to_owned();
        assert(fallback@ =~= seq!['/']);
        self.back_or(fallback)
    }

    /// Like [`Inertia::back`] with another fallback.
    pub fn back_or(&self, fallback: String) -> (r: InertiaRedirect)
        ensures
            r.location@ == match self.back_location { Some(l) => l@, None => fallback@ },
            r.error_bag == self.error_bag,
            r.data.errors@.len() == 0 && r.data.flash@.len() == 0 && !r.data.clear_history,
            r.error is None,
    {
        let location = match &self.back_location {
            Some(l) => l.clone(),
            None => fallback,
        };
        self.redirect(location)
    }

    /// A full page visit to `url`: `409` with `X-Inertia-Location` for Inertia requests
    /// (XHR cannot follow those), a plain `302` otherwise; a server error when `url` is not
    /// a valid header value.
    pub fn location(&self, url: &str) -> (r: LocationAnswer)
        ensures
            if !crate::flash::header_value_ok(url@) {
                r is ServerError
            } else if self.is_inertia {
                r matches LocationAnswer::Conflict(l) && l@ == url@
            } else {
                r matches LocationAnswer::Found(l) && l@ == url@
            },
    {
        if !crate::flash::is_header_value(url) {
            LocationAnswer::ServerError
        } else if self.is_inertia {
            LocationAnswer::Conflict(url.to_owned())
        } else {
            LocationAnswer::Found(url.to_owned())
        }
    }
}

/// The answer to a Precognition request.
#[derive(Debug, PartialEq, Eq)]
pub enum PrecognitionAnswer {
    /// `500`: the errors could not be read as an object.
    ServerError,
    /// `204` with `Precognition-Success: true`.
    Valid,
    /// `422` with `{ "message": "The given data was invalid.", "errors": ... }`.
    Invalid(Vec<(String, JsonValue)>),
}

/// The answer to a full page visit.
#[derive(Debug, PartialEq, Eq)]
pub enum LocationAnswer {
    ServerError,
    /// `409` with `X-Inertia-Location`.
    Conflict(String),
    /// `302` with `Location`.
    Found(String),
}

/// A copy of a list of strings.
pub fn clone_strings(v: &Vec<String>) -> (r: Vec<String>)
    ensures
        strs(r@) == strs(v@),
{
    let mut r: Vec<String> = Vec::new();
    let mut i: usize = 0;
    while i < v.len()
        invariant
            i <= v@.len(),
            strs(r@) == strs(v@.subrange(0, i as int)),
        decreases v@.len() - i,
    {
        let ghost before = r@;
        r.push(v[i].clone());
        assert(r@ == before.push(v@[i as int]));
        assert(v@.subrange(0, i + 1) == v@.subrange(0, i as int).push(v@[i as int]));
        assert(strs(r@) =~= strs(before).push(v@[i as int]@));
        assert(strs(v@.subrange(0, i + 1)) =~= strs(v@.subrange(0, i as int)).push(v@[i as int]@));
        i = i + 1;
    }
    assert(v@.subrange(0, v@.len() as int) == v@);
    r
}

/// The answer to a Precognition request that asked about `validate_only`, given the
/// validation errors: `Valid` (`204`) when none of the asked fields has an error, else
/// `Invalid` (`422`) with the errors of the asked fields.
pub open spec fn precognition_answer(validate_only: Option<Vec<String>>, errs: Seq<(String, JsonValue)>,
    r: PrecognitionAnswer) -> bool
{
    let only = match validate_only { Some(o) => strs(o@), None => Seq::empty() };
    let kept = asked_errors(errs, only);
    if kept.len() == 0 { r is Valid } else { r matches PrecognitionAnswer::Invalid(x) && x@ == kept }
}

/// The errors of the fields the client asked about: all when `only` is empty, else those
/// that an entry of `only` names or is a parent of.
pub open spec fn asked_errors(errs: Seq<(String, JsonValue)>, only: Seq<Seq<char>>) -> Seq<(String, JsonValue)>
    decreases errs.len(),
{
    if errs.len() == 0 {
        Seq::empty()
    } else {
        let before = asked_errors(errs.drop_last(), only);
        if only.len() == 0 || any_covers(only, errs.last().0@) {
            before.push(errs.last())
        } else {
            before
        }
    }
}

fn any_covers_all(patterns: &Vec<String>, path: &str) -> (r: bool)
    ensures
        r == any_covers(strs(patterns@), path@),
{
    let mut i: usize = 0;
    while i < patterns.len()
        invariant
            i <= patterns@.len(),
            forall|j: int| 0 <= j < i ==> !spec_covers(patterns@[j]@, path@),
        decreases patterns@.len() - i,
    {
        if covers(patterns[i].as_str(), path) {
            assert(spec_covers(strs(patterns@)[i as int], path@));
            return true;
        }
        i = i + 1;
    }
    assert(!any_covers(strs(patterns@), path@)) by {
        if any_covers(strs(patterns@), path@) {
            let j = choose|j: int| 0 <= j < strs(patterns@).len() && spec_covers(#[trigger] strs(patterns@)[j], path@);
            assert(!spec_covers(patterns@[j]@, path@));
        }
    }
    false
}

/// The key of the validation errors prop.
pub open spec fn errors_key() -> Seq<char> {
    seq!['e', 'r', 'r', 'o', 'r', 's']
}

/// The prop holding the flashed validation errors: always sent, a plain value.
pub open spec fn is_errors_prop(p: Prop, errors: Seq<(String, JsonValue)>) -> bool {
    &&& p.kind is Always
    &&& p.merge is None
    &&& p.scroll is None
    &&& p.once is None
    &&& p.source matches Source::Value(Ok(v)) && v.model() == SpecJson::Object(model_entries(errors))
}

/// The keys of `shared` that `page` does not have, in order.
pub open spec fn shared_only(shared: Seq<Seq<char>>, page: Seq<Seq<char>>) -> Seq<Seq<char>>
    decreases shared.len(),
{
    if shared.len() == 0 {
        Seq::empty()
    } else {
        let before = shared_only(shared.drop_last(), page);
        if page.contains(shared.last()) { before } else { before.push(shared.last()) }
    }
}

impl Inertia {
    /// The props of a page: the shared props with the page's own over them (page props win),
    /// plus `errors` (the flashed validation errors, always sent) unless the page sets it;
    /// and the keys that only the shared props have.
    pub fn assemble_props(&self, page_props: Props, shared: Props) -> (r: (Props, Vec<String>))
        ensures
            strs(r.1@) == shared_only(prop_keys(shared.entries@), prop_keys(page_props.entries@)),
            ({
                let m = merged(shared.entries@, page_props.entries@);
                if prop_keys(m).contains(errors_key()) {
                    r.0.entries@ == m
                } else {
                    &&& r.0.entries@.len() == m.len() + 1
                    &&& r.0.entries@.drop_last() == m
                    &&& r.0.entries@.last().0@ == errors_key()
                    &&& is_errors_prop(r.0.entries@.last().1, self.flash.errors@)
                }
            }),
            prop_keys(r.0.entries@).contains(errors_key()),
    {
        let keys = shared.keys();
        let ghost sk = prop_keys(shared.entries@);
        let ghost pk = prop_keys(page_props.entries@);
        assert(strs(keys@) == sk);
        let mut shared_keys: Vec<String> = Vec::new();
        let mut i: usize = 0;
        assert(sk.subrange(0, 0) =~= Seq::<Seq<char>>::empty());
        assert(strs(shared_keys@) =~= Seq::<Seq<char>>::empty());
        while i < keys.len()
            invariant
                i <= keys@.len(),
                strs(keys@) == sk,
                pk == prop_keys(page_props.entries@),
                strs(shared_keys@) == shared_only(sk.subrange(0, i as int), pk),
            decreases keys@.len() - i,
        {
            assert(sk.subrange(0, i + 1).drop_last() == sk.subrange(0, i as int));
            assert(sk.subrange(0, i + 1).last() == keys@[i as int]@);
            if !page_props.contains_key(keys[i].as_str()) {
                let ghost before = shared_keys@;
                shared_keys.push(keys[i].clone());
                assert(strs(shared_keys@) =~= strs(before).push(keys@[i as int]@));
            }
            i = i + 1;
        }
        assert(sk.subrange(0, sk.len() as int) == sk);
        let mut props = shared.merge(page_props);
        proof {
            reveal_strlit("errors");
        }
        let key = "errors".to_owned();
        assert(key@ =~= errors_key());
        if !props.contains_key(key.as_str()) {
            let ghost m = props.entries@;
            proof {
                assert forall|j: int| 0 <= j < m.len() implies m[j].0@ != errors_key() by {
                    if m[j].0@ == errors_key() {
                        assert(prop_keys(m)[j] == errors_key());
                    }
                }
                crate::json::lemma_no_index(m, errors_key());
            }
            let value = Prop::value(JsonValue::Object(clone_entries(&self.flash.errors)));
            props.insert(key, Prop::always(value));
            assert(prop_keys(props.entries@)[props.entries@.len() - 1] == errors_key());
        }
        (props, shared_keys)
    }

    /// Resolve `props` (see [`Inertia::assemble_props`]) for this request and build the page
    /// object for `component`: the resolved props and their metadata, this request's URL,
    /// the configured version, the shared keys, the flash data and the history flags.
    /// `vals` holds the resolved lazy values by resolver id (see [`Props::lazy_needed`]),
    /// `now` is the time in Unix milliseconds.
    pub fn build_page(&self, component: &str, props: Props, shared_keys: Vec<String>,
        vals: Vec<Option<Result<JsonValue, String>>>, now: u64) -> (r: Result<Page, ResolveError>)
        ensures
            match resolve_level(props.entries@, Seq::empty(), false, self.request_for(component@), vals@, now) {
                Ok((es, ev)) => r matches Ok(page) && {
                    &&& page.component@ == component@
                    &&& page.props.model() == SpecJson::Object(es)
                    &&& page.url == self.url
                    &&& page.version@ == version_of(self.config.version)
                    &&& page.meta() == fold_events(empty_meta(), ev)
                    &&& page.shared_props == shared_keys
                    &&& model_entries(page.flash@) == model_entries(self.flash.flash@)
                    &&& page.encrypt_history == match self.encrypt_history { Some(e) => e, None => self.config.encrypt_history }
                    &&& page.clear_history == self.flash.clear_history
                },
                Err(e) => r matches Err(x) && x.model() == e,
            },
    {
        let req = self.prop_request(component);
        let resolved = match props.resolve(&req, vals, now) {
            Ok(x) => x,
            Err(e) => {
                return Err(e);
            },
        };
        let Resolved { props, merge_props, prepend_props, deep_merge_props, match_props_on, deferred_props, scroll_props, once_props } = resolved;
        let mut page = Page::new(component.to_owned(), JsonValue::Object(props), self.url.clone(), self.config.version_str().to_owned());
        page.merge_props = merge_props;
        page.prepend_props = prepend_props;
        page.deep_merge_props = deep_merge_props;
        page.match_props_on = match_props_on;
        page.deferred_props = deferred_props;
        page.scroll_props = scroll_props;
        page.once_props = once_props;
        page.shared_props = shared_keys;
        page.flash = clone_entries(&self.flash.flash);
        page.encrypt_history = match self.encrypt_history {
            Some(e) => e,
            None => self.config.encrypt_history,
        };
        page.clear_history = self.flash.clear_history;
        Ok(page)
    }

    /// The mount markup for a first visit rendered on the client: the page JSON (as
    /// serialized) made safe for a script element, and the root element.
    pub fn client_markup(&self, page_json: &str) -> (r: String)
        ensures
            r@ == spec_mount_markup(self.config.app_id@, escape_tags(page_json@)),
    {
        let json = escape_script_json(page_json);
        mount_markup(self.config.app_id.as_str(), json.as_str())
    }
}

/// How a rendered page is answered.
#[derive(Debug, PartialEq, Eq)]
pub enum PageRoute {
    /// An Inertia request: the page object as JSON; the SSR server is never asked.
    Json,
    /// A first visit with a renderer configured: try server-side rendering.
    ServerRender,
    /// A first visit without a renderer: the root template with the client mount markup.
    ClientRender,
}

/// What a first visit's root template gets.
#[derive(Debug, PartialEq, Eq)]
pub enum FirstVisit {
    /// Server-rendered: the `<head>` tags, one per line, and the rendered body.
    Server { head: String, body: String },
    /// Rendered by the client: no head tags, the mount markup as body.
    Client,
}

/// Lines joined with `\n` between them.
pub open spec fn join_lines(lines: Seq<Seq<char>>) -> Seq<char>
    decreases lines.len(),
{
    if lines.len() == 0 {
        Seq::empty()
    } else if lines.len() == 1 {
        lines[0]
    } else {
        join_lines(lines.drop_last()) + seq!['\n'] + lines.last()
    }
}

fn join_lines_exec(lines: &Vec<String>) -> (r: String)
    ensures
        r@ == join_lines(strs(lines@)),
{
    let ghost ls = strs(lines@);
    let mut r = String::new();
    let mut i: usize = 0;
    assert(ls.subrange(0, 0) =~= Seq::<Seq<char>>::empty());
    while i < lines.len()
        invariant
            i <= lines@.len(),
            ls == strs(lines@),
            r@ == join_lines(ls.subrange(0, i as int)),
        decreases lines@.len() - i,
    {
        let ghost before = r@;
        assert(ls.subrange(0, i + 1).drop_last() =~= ls.subrange(0, i as int));
        assert(ls.subrange(0, i + 1).last() == lines@[i as int]@);
        if i > 0 {
            crate::text::push_char(&mut r, '\n');
        }
        crate::page::push_str(&mut r, lines[i].as_str());
        if i == 0 {
            assert(ls.subrange(0, 1) =~= seq![lines@[0]@]);
            assert(r@ =~= lines@[0]@);
        } else {
            assert(r@ =~= before + seq!['\n'] + lines@[i as int]@);
        }
        i = i + 1;
    }
    assert(ls.subrange(0, lines@.len() as int) == ls);
    r
}

impl Inertia {
    /// Inertia requests get the page as JSON and never reach the SSR server; first visits
    /// are server-rendered when a renderer is configured, else rendered by the client.
    pub fn page_route(&self, ssr_configured: bool) -> (r: PageRoute)
        ensures
            r == if self.is_inertia {
                PageRoute::Json
            } else if ssr_configured {
                PageRoute::ServerRender
            } else {
                PageRoute::ClientRender
            },
    {
        if self.is_inertia {
            PageRoute::Json
        } else if ssr_configured {
            PageRoute::ServerRender
        } else {
            PageRoute::ClientRender
        }
    }
}

/// A first visit uses what the SSR server returned (its head tags one per line, its body);
/// when rendering failed (`None`) it falls back to client-side rendering.
pub fn first_visit(ssr: Option<SsrResponse>) -> (r: FirstVisit)
    ensures
        match ssr {
            Some(x) => r matches FirstVisit::Server { head, body } && head@ == join_lines(strs(x.head@))
                && body == x.body,
            None => r == FirstVisit::Client,
        },
{
    match ssr {
        Some(x) => {
            let head = join_lines_exec(&x.head);
            FirstVisit::Server { head, body: x.body }
        },
        None => FirstVisit::Client,
    }
}

/// `errors` is always present: props that end with the errors prop send it on every
/// request they resolve for, with the flashed errors as its value.
pub proof fn lemma_errors_always_sent(m: Seq<(String, Prop)>, errors: Seq<(String, JsonValue)>, req: SpecRequest,
    vals: Seq<Option<Result<JsonValue, String>>>, now: u64)
    requires
        m.len() > 0,
        m.last().0@ == errors_key(),
        is_errors_prop(m.last().1, errors),
    ensures
        resolve_level(m, Seq::empty(), false, req, vals, now) is Ok ==> {
            let es = resolve_level(m, Seq::empty(), false, req, vals, now)->Ok_0.0;
            es.len() > 0 && es.last() == (errors_key(), SpecJson::Object(model_entries(errors)))
        },
{
    let p = m.last().1;
    let path = crate::path::spec_child_path(Seq::empty(), m.last().0@);
    assert(path == errors_key());
    let none = Seq::<crate::meta::SpecEvent>::empty();
    assert(crate::resolve::merge_events(p.merge, p.scroll, path, req) =~= none);
    assert(crate::resolve::plan(p.kind, p.once, path, false, req, now) == crate::resolve::Plan::Include(true, Seq::empty()));
    assert(!crate::resolve::once_skipped(p.once, path, req));
    assert(crate::resolve::once_events(p.once, path, now) =~= none);
    let v = p.source->Value_0->Ok_0;
    assert(crate::resolve::source_value(p, path, true, Seq::empty(), req, vals, now) == Ok::<(SpecJson, Seq<crate::meta::SpecEvent>), SpecError>((v.model(), none)));
    assert(none + none + none =~= none);
    assert(crate::resolve::resolve_prop(p, path, false, req, vals, now) == Ok::<(Option<SpecJson>, Seq<crate::meta::SpecEvent>), SpecError>((Some(v.model()), none)));
}

/// `back()` stays on this site: wherever it sends the client is a relative path (a single
/// leading `/`, neither `//` nor `/\`), and when the `Referer` named a host, that host is
/// the request's or an allowed one.
pub proof fn lemma_back_stays_on_site(referer: Seq<char>,
    parts: Option<(Option<Seq<char>>, Option<Seq<char>>, Option<Seq<char>>)>, host: Option<Seq<char>>,
    allowed: Seq<Seq<char>>)
    ensures
        safe_path(match spec_same_site(referer, parts, host, allowed) { Some(l) => l, None => seq!['/'] }),
        spec_same_site(referer, parts, host, allowed) is Some ==> match parts {
            Some((_, Some(a), _)) => host_allowed(a, host, allowed),
            _ => true,
        },
{
    assert(seq!['/'].subrange(0, 1) =~= seq!['/']);
    assert(starts_with(seq!['/'], seq!['/']));
}

} // verus!

//! Protocol-level decisions around every request: asset version conflicts, `303` after
//! redirected `PUT`/`PATCH`/`DELETE`, and `Vary: X-Inertia`.

use vstd::prelude::*;
use crate::flash::{header_value_ok, is_header_value};
use crate::narrow::strs;
use crate::text::{eq_ignore_case, spec_comma_list, spec_trim};

verus! {

/// The request methods the protocol tells apart.
#[derive(Clone, Copy, PartialEq, Eq, Structural, Debug)]
pub enum Method {
    Get,
    Head,
    Post,
    Put,
    Patch,
    Delete,
    Options,
    Trace,
    Other,
}

/// What to do before the handler runs.
#[derive(Debug, PartialEq, Eq)]
pub enum Before {
    /// Run the handler.
    Continue,
    /// Answer `409`: the client's assets are stale. `X-Inertia-Location` (the request URL)
    /// and `X-Inertia-Version` (the server's version) are set when they are valid header values.
    Conflict { location: Option<String>, version: Option<String> },
}

/// An Inertia `GET` whose `X-Inertia-Version` (missing counts as empty) differs from the
/// server's version gets a `409` asking for a full reload of the URL.
pub fn before_handler(is_inertia: bool, method: Method, client_version: Option<&str>, server_version: &str, url: &str) -> (r: Before)
    ensures
        match r {
            Before::Continue => !(is_inertia && method == Method::Get
                && (match client_version { Some(v) => v@, None => Seq::empty() }) != server_version@),
            Before::Conflict { location, version } => {
                &&& is_inertia && method == Method::Get
                &&& (match client_version { Some(v) => v@, None => Seq::empty() }) != server_version@
                &&& match location { Some(l) => l@ == url@ && header_value_ok(url@), None => !header_value_ok(url@) }
                &&& match version { Some(v) => v@ == server_version@ && header_value_ok(server_version@), None => !header_value_ok(server_version@) }
            },
        },
{
    if !(is_inertia && method == Method::Get) {
        return Before::Continue;
    }
    let same = match client_version {
        Some(v) => crate::json::str_eq(v, server_version),
        None => {
            let e = server_version.unicode_len() == 0;
            assert(e ==> server_version@ =~= Seq::<char>::empty());
            e
        },
    };
    if same {
        return Before::Continue;
    }
    let location = if is_header_value(url) { Some(url.to_owned()) } else { None };
    let version = if is_header_value(server_version) { Some(server_version.to_owned()) } else { None };
    Before::Conflict { location, version }
}

/// The status to send: a `302` answering an Inertia `PUT`, `PATCH` or `DELETE` becomes
/// `303`, so the client follows it with a `GET`.
pub fn after_handler(is_inertia: bool, method: Method, status: u16) -> (r: u16)
    ensures
        r == if is_inertia && status == 302 && (method == Method::Put || method == Method::Patch || method == Method::Delete) {
            303
        } else {
            status
        },
{
    if is_inertia && status == 302 && (method == Method::Put || method == Method::Patch || method == Method::Delete) {
        303
    } else {
        status
    }
}

/// `X-Inertia`, up to ASCII case.
pub open spec fn is_x_inertia(s: Seq<char>) -> bool {
    eq_ignore_case(s, seq!['x', '-', 'i', 'n', 'e', 'r', 't', 'i', 'a'])
}

/// Some item of some `Vary` value is `X-Inertia` (up to ASCII case).
pub open spec fn varies_on_inertia(values: Seq<Seq<char>>) -> bool {
    exists|i: int, j: int| 0 <= i < values.len() && 0 <= j < spec_comma_list(values[i]).len()
        && #[trigger] is_x_inertia(spec_comma_list(values[i])[j])
}

/// Several `Vary` values name `X-Inertia` exactly when one of them does on its own: the
/// answer looks at every value, in whatever order they come.
pub proof fn lemma_vary_any_value(values: Seq<Seq<char>>)
    ensures
        varies_on_inertia(values) == exists|i: int| 0 <= i < values.len() && #[trigger] varies_on_inertia(seq![values[i]]),
{
    if varies_on_inertia(values) {
        let (i, j) = choose|i: int, j: int| 0 <= i < values.len() && 0 <= j < spec_comma_list(values[i]).len()
            && #[trigger] is_x_inertia(spec_comma_list(values[i])[j]);
        let one = seq![values[i]];
        assert(one[0] == values[i]);
        assert(0 <= j < spec_comma_list(one[0]).len() && is_x_inertia(spec_comma_list(one[0])[j]));
        assert(varies_on_inertia(one));
    }
    if exists|i: int| 0 <= i < values.len() && #[trigger] varies_on_inertia(seq![values[i]]) {
        let i = choose|i: int| 0 <= i < values.len() && #[trigger] varies_on_inertia(seq![values[i]]);
        let one = seq![values[i]];
        let (a, j) = choose|a: int, j: int| 0 <= a < one.len() && 0 <= j < spec_comma_list(one[a]).len()
            && #[trigger] is_x_inertia(spec_comma_list(one[a])[j]);
        assert(a == 0);
        assert(is_x_inertia(spec_comma_list(values[i])[j]));
    }
}

/// The order of the `Vary` values does not matter.
pub proof fn lemma_vary_order(a: Seq<Seq<char>>, b: Seq<Seq<char>>)
    ensures
        varies_on_inertia(a + b) == varies_on_inertia(b + a),
{
    lemma_vary_any_value(a + b);
    lemma_vary_any_value(b + a);
    if exists|i: int| 0 <= i < (a + b).len() && #[trigger] varies_on_inertia(seq![(a + b)[i]]) {
        let i = choose|i: int| 0 <= i < (a + b).len() && #[trigger] varies_on_inertia(seq![(a + b)[i]]);
        let k = if i < a.len() { i + b.len() } else { i - a.len() };
        assert((b + a)[k] == (a + b)[i]);
    }
    if exists|i: int| 0 <= i < (b + a).len() && #[trigger] varies_on_inertia(seq![(b + a)[i]]) {
        let i = choose|i: int| 0 <= i < (b + a).len() && #[trigger] varies_on_inertia(seq![(b + a)[i]]);
        let k = if i < b.len() { i + a.len() } else { i - b.len() };
        assert((a + b)[k] == (b + a)[i]);
    }
}

/// Whether the response's `Vary` values (those that are valid text) already name
/// `X-Inertia`; if not, `Vary: X-Inertia` is appended.
pub fn has_inertia_vary(values: &Vec<String>) -> (r: bool)
    ensures
        r == varies_on_inertia(strs(values@)),
{
    let x = ['x', '-', 'i', 'n', 'e', 'r', 't', 'i', 'a'];
    assert(x@ == seq!['x', '-', 'i', 'n', 'e', 'r', 't', 'i', 'a']);
    let mut i: usize = 0;
    while i < values.len()
        invariant
            i <= values@.len(),
            x@ == seq!['x', '-', 'i', 'n', 'e', 'r', 't', 'i', 'a'],
            forall|a: int, b: int| 0 <= a < i && 0 <= b < spec_comma_list(values@[a]@).len()
                ==> !#[trigger] is_x_inertia(spec_comma_list(values@[a]@)[b]),
        decreases values@.len() - i,
    {
        let items = crate::text::comma_list(values[i].as_str());
        let mut j: usize = 0;
        while j < items.len()
            invariant
                i < values@.len(),
                j <= items@.len(),
                strs(items@) == spec_comma_list(values@[i as int]@),
                x@ == seq!['x', '-', 'i', 'n', 'e', 'r', 't', 'i', 'a'],
                forall|b: int| 0 <= b < j ==> !#[trigger] is_x_inertia(spec_comma_list(values@[i as int]@)[b]),
            decreases items@.len() - j,
        {
            let c = crate::text::to_chars(items[j].as_str());
            if crate::text::chars_eq_ignore_case(&c, &x) {
                assert(strs(values@)[i as int] == values@[i as int]@);
                assert(is_x_inertia(spec_comma_list(strs(values@)[i as int])[j as int]));
                return true;
            }
            j = j + 1;
        }
        i = i + 1;
    }
    assert(!varies_on_inertia(strs(values@))) by {
        if varies_on_inertia(strs(values@)) {
            let (a, b) = choose|a: int, b: int| 0 <= a < strs(values@).len() && 0 <= b < spec_comma_list(strs(values@)[a]).len()
                && #[trigger] is_x_inertia(spec_comma_list(strs(values@)[a])[b]);
            assert(strs(values@)[a] == values@[a]@);
            assert(!is_x_inertia(spec_comma_list(values@[a]@)[b]));
        }
    }
    false
}

} // verus!

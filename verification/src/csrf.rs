//! CSRF protection with a signed double-submit cookie: the server sets a signed
//! `XSRF-TOKEN` cookie that JavaScript can read, the client echoes it in `X-XSRF-TOKEN`, and
//! unsafe requests must send it back unchanged with a valid signature.

use vstd::prelude::*;
use vstd::utf8::{decode_utf8, encode_utf8, encode_utf8_decode_utf8, encode_utf8_valid_utf8, is_ascii_chars, is_ascii_chars_encode_utf8, valid_utf8};
use crate::middleware::Method;
use crate::narrow::strs;
use crate::num::{digit_char, hex_fixed, to_hex_fixed};
use crate::text::{segments, spec_trim, starts_with, to_chars, trim_range};

verus! {

/// Status for a missing or wrong token, as in Laravel ("page expired").
pub const CSRF_MISMATCH: u16 = 419;

/// Whether `raw` is a value of cookie `name` correctly signed with `key`, as
/// `axum_extra`'s `SignedCookieJar` checks it.
pub uninterp spec fn signed_cookie_ok(key: Seq<u8>, name: Seq<char>, raw: Seq<char>) -> bool;

/// Reads a `Cookie` header holding only `name=raw` with `axum_extra`'s
/// `SignedCookieJar::from_headers` keyed by `key` (`Key::from`, which needs 64 bytes) and
/// asks it for `name`: whether it finds a correctly signed cookie. The contract names the
/// answer after its arguments and claims nothing else of it.
#[verifier::external_body]
fn verify_signed(key: &[u8], name: &str, raw: &str) -> (r: bool)
    requires
        key@.len() >= 64,
    ensures
        r == signed_cookie_ok(key@, name@, raw@),
{
    let Ok(value) = format!("{name}={raw}").parse() else { return false };
    let mut single = axum::http::HeaderMap::new();
    single.insert(axum::http::header::COOKIE, value);
    let key = axum_extra::extract::cookie::Key::from(key);
    axum_extra::extract::cookie::SignedCookieJar::from_headers(&single, key).get(name).is_some()
}

/// 32 bytes from `getrandom::fill`, or `None` when the system source fails. Nothing is
/// claimed of the bytes but their number.
#[verifier::external_body]
fn random_bytes() -> (r: Option<Vec<u8>>)
    ensures
        r matches Some(b) ==> b@.len() == 32,
{
    let mut bytes = [0u8; 32];
    match getrandom::fill(&mut bytes) {
        Ok(()) => Some(bytes.to_vec()),
        Err(_) => None,
    }
}

/// `subtle`'s `ConstantTimeEq::ct_eq` on the bytes of two strings, as a `bool`: the slice
/// impl answers true exactly when the lengths and all bytes agree, so when the strings do.
#[verifier::external_body]
fn ct_eq_str(a: &str, b: &str) -> (r: bool)
    ensures
        r == (a@ == b@),
{
    bool::from(subtle::ConstantTimeEq::ct_eq(a.as_bytes(), b.as_bytes()))
}

/// `String::from_utf8`: the text when `bytes` are valid UTF-8.
#[verifier::external_body]
fn utf8_text(bytes: Vec<u8>) -> (r: Option<String>)
    ensures
        match r {
            Some(s) => valid_utf8(bytes@) && s@ == decode_utf8(bytes@),
            None => !valid_utf8(bytes@),
        },
{
    String::from_utf8(bytes).ok()
}

/// The value of an ASCII hexadecimal digit.
pub open spec fn hex_val(b: u8) -> Option<u8> {
    if 48 <= b <= 57 {
        Some((b - 48) as u8)
    } else if 97 <= b <= 102 {
        Some((b - 87) as u8)
    } else if 65 <= b <= 70 {
        Some((b - 55) as u8)
    } else {
        None
    }
}

/// The byte of the two characters after a `%`: two hex digits, or `+` and one digit (as
/// `u8::from_str_radix` reads them).
pub open spec fn escape_byte(b1: u8, b2: u8) -> Option<u8> {
    match (hex_val(b1), hex_val(b2)) {
        (Some(h), Some(l)) => Some((h * 16 + l) as u8),
        (None, Some(l)) if b1 == 43 => Some(l),
        _ => None,
    }
}

/// Bytes with every valid `%XX` escape decoded; anything else kept.
pub open spec fn pct_decode(b: Seq<u8>) -> Seq<u8>
    decreases b.len(),
{
    if b.len() == 0 {
        Seq::empty()
    } else if b[0] == 37 && b.len() >= 3 && escape_byte(b[1], b[2]) is Some {
        seq![escape_byte(b[1], b[2])->0] + pct_decode(b.subrange(3, b.len() as int))
    } else {
        seq![b[0]] + pct_decode(b.subrange(1, b.len() as int))
    }
}

/// Percent-decoded text: the decoded bytes as UTF-8, or `s` itself when they are not valid.
pub open spec fn spec_percent_decode(s: Seq<char>) -> Seq<char> {
    let d = pct_decode(encode_utf8(s));
    if valid_utf8(d) { decode_utf8(d) } else { s }
}

fn hex_digit(b: u8) -> (r: Option<u8>)
    ensures
        r == hex_val(b),
{
    if 48 <= b && b <= 57 {
        Some(b - 48)
    } else if 97 <= b && b <= 102 {
        Some(b - 87)
    } else if 65 <= b && b <= 70 {
        Some(b - 55)
    } else {
        None
    }
}

fn escape_byte_exec(b1: u8, b2: u8) -> (r: Option<u8>)
    ensures
        r == escape_byte(b1, b2),
{
    match (hex_digit(b1), hex_digit(b2)) {
        (Some(h), Some(l)) => Some(h * 16 + l),
        (None, Some(l)) => if b1 == 43 { Some(l) } else { None },
        _ => None,
    }
}

/// Undo percent-encoding. The signed value contains base64 (`+`, `/`, `=`), which the
/// cookie carries percent-encoded; clients decode it before echoing it, so both sides are
/// compared decoded.
pub fn percent_decode(s: &str) -> (r: String)
    ensures
        r@ == spec_percent_decode(s@),
{
    let bytes = s.as_bytes();
    let n = bytes.len();
    let ghost all = bytes@;
    let mut out: Vec<u8> = Vec::new();
    let mut i: usize = 0;
    assert(all.subrange(0, n as int) == all);
    while i < n
        invariant
            n == all.len(),
            all == bytes@,
            i <= n,
            out@ + pct_decode(all.subrange(i as int, n as int)) == pct_decode(all),
        decreases n - i,
    {
        let ghost rest = all.subrange(i as int, n as int);
        if bytes[i] == 37 && n - i > 2 {
            match escape_byte_exec(bytes[i + 1], bytes[i + 2]) {
                Some(b) => {
                    assert(rest.subrange(3, rest.len() as int) == all.subrange(i + 3, n as int));
                    assert(out@.push(b) + pct_decode(all.subrange(i + 3, n as int)) == out@ + pct_decode(rest));
                    out.push(b);
                    i = i + 3;
                    continue;
                },
                None => {},
            }
        }
        assert(rest.subrange(1, rest.len() as int) == all.subrange(i + 1, n as int));
        assert(out@.push(bytes@[i as int]) + pct_decode(all.subrange(i + 1, n as int)) == out@ + pct_decode(rest));
        out.push(bytes[i]);
        i = i + 1;
    }
    assert(all.subrange(n as int, n as int) =~= Seq::<u8>::empty());
    assert(out@ + Seq::<u8>::empty() == out@);
    match utf8_text(out) {
        Some(t) => t,
        None => s.to_owned(),
    }
}

/// Bytes without a `%` decode to themselves.
proof fn lemma_pct_decode_plain(b: Seq<u8>)
    requires
        forall|i: int| 0 <= i < b.len() ==> b[i] != 37,
    ensures
        pct_decode(b) == b,
    decreases b.len(),
{
    if b.len() > 0 {
        lemma_pct_decode_plain(b.subrange(1, b.len() as int));
        assert(b =~= seq![b[0]] + b.subrange(1, b.len() as int));
    }
}

/// A lower-case hexadecimal digit.
pub open spec fn is_hex_char(c: char) -> bool {
    ('0' <= c <= '9') || ('a' <= c <= 'f')
}

proof fn lemma_hex_fixed_chars(n: nat, width: nat)
    ensures
        forall|i: int| 0 <= i < hex_fixed(n, width).len() ==> is_hex_char(#[trigger] hex_fixed(n, width)[i]),
        hex_fixed(n, width).len() == width,
    decreases width,
{
    if width > 0 {
        lemma_hex_fixed_chars(n / 16, (width - 1) as nat);
        let d = n % 16;
        assert(is_hex_char(digit_char(d)));
    }
}

proof fn lemma_hex_bytes_chars(b: Seq<u8>)
    ensures
        forall|i: int| 0 <= i < spec_hex_bytes(b).len() ==> is_hex_char(#[trigger] spec_hex_bytes(b)[i]),
    decreases b.len(),
{
    if b.len() > 0 {
        lemma_hex_bytes_chars(b.drop_last());
        lemma_hex_fixed_chars(b.last() as nat, 2);
        let x = spec_hex_bytes(b.drop_last());
        let y = hex_fixed(b.last() as nat, 2);
        assert forall|i: int| 0 <= i < (x + y).len() implies is_hex_char(#[trigger] (x + y)[i]) by {
            if i >= x.len() {
                assert((x + y)[i] == y[i - x.len()]);
            }
        }
    }
}

/// Text of hexadecimal digits comes out of percent-decoding unchanged.
proof fn lemma_hex_text_decodes_to_itself(s: Seq<char>)
    requires
        forall|i: int| 0 <= i < s.len() ==> is_hex_char(#[trigger] s[i]),
    ensures
        spec_percent_decode(s) == s,
{
    assert(is_ascii_chars(s));
    is_ascii_chars_encode_utf8(s);
    let e = encode_utf8(s);
    assert forall|i: int| 0 <= i < e.len() implies e[i] != 37 by {
        assert(s[i] as u8 == e[i]);
        assert(is_hex_char(s[i]));
    }
    lemma_pct_decode_plain(e);
    encode_utf8_valid_utf8(s);
    encode_utf8_decode_utf8(s);
}

/// A token as issued is accepted as sent back unencoded: the check percent-decodes what the
/// client sends, and the hexadecimal text of any bytes decodes to itself.
pub proof fn lemma_issued_token_decodes_to_itself(b: Seq<u8>)
    ensures
        spec_percent_decode(spec_hex_bytes(b)) == spec_hex_bytes(b),
{
    lemma_hex_bytes_chars(b);
    lemma_hex_text_decodes_to_itself(spec_hex_bytes(b));
}

/// Lower-case hexadecimal text of bytes, two digits each.
pub open spec fn spec_hex_bytes(b: Seq<u8>) -> Seq<char>
    decreases b.len(),
{
    if b.len() == 0 {
        Seq::empty()
    } else {
        spec_hex_bytes(b.drop_last()) + hex_fixed(b.last() as nat, 2)
    }
}

/// Lower-case hexadecimal text of bytes, two digits each.
pub fn hex_bytes(b: &Vec<u8>) -> (r: String)
    ensures
        r@ == spec_hex_bytes(b@),
{
    let mut r = String::new();
    let mut i: usize = 0;
    while i < b.len()
        invariant
            i <= b@.len(),
            r@ == spec_hex_bytes(b@.subrange(0, i as int)),
        decreases b@.len() - i,
    {
        let h = to_hex_fixed(b[i] as u64, 2);
        assert(b@.subrange(0, i + 1).drop_last() == b@.subrange(0, i as int));
        r.append(h.as_str());
        i = i + 1;
    }
    assert(b@.subrange(0, b@.len() as int) == b@);
    r
}

/// The first occurrence of `c` splits `s` in two, without it.
pub open spec fn split_once(s: Seq<char>, c: char) -> Option<(Seq<char>, Seq<char>)>
    decreases s.len(),
{
    if s.len() == 0 {
        None
    } else if s[0] == c {
        Some((Seq::empty(), s.drop_first()))
    } else {
        match split_once(s.drop_first(), c) {
            Some((a, b)) => Some((seq![s[0]] + a, b)),
            None => None,
        }
    }
}

proof fn lemma_split_once_at(s: Seq<char>, c: char, i: int)
    requires
        0 <= i <= s.len(),
        forall|j: int| 0 <= j < i ==> s[j] != c,
    ensures
        split_once(s, c) == match split_once(s.subrange(i, s.len() as int), c) {
            Some((a, b)) => Some((s.subrange(0, i) + a, b)),
            None => None::<(Seq<char>, Seq<char>)>,
        },
    decreases i,
{
    if i == 0 {
        assert(s.subrange(0, s.len() as int) == s);
        assert(s.subrange(0, 0) + Seq::<char>::empty() == Seq::<char>::empty());
        match split_once(s, c) {
            Some((a, b)) => assert(Seq::<char>::empty() + a == a),
            None => {},
        }
    } else {
        lemma_split_once_at(s.drop_first(), c, i - 1);
        assert(s.drop_first().subrange(i - 1, s.drop_first().len() as int) == s.subrange(i, s.len() as int));
        match split_once(s.subrange(i, s.len() as int), c) {
            Some((a, b)) => {
                assert(seq![s[0]] + (s.drop_first().subrange(0, i - 1) + a) == s.subrange(0, i) + a);
            },
            None => {},
        }
    }
}

pub(crate) fn split_once_exec(s: &Vec<char>, c: char) -> (r: Option<(Vec<char>, Vec<char>)>)
    ensures
        match r {
            Some((a, b)) => split_once(s@, c) == Some((a@, b@)),
            None => split_once(s@, c) is None,
        },
{
    let mut i: usize = 0;
    while i < s.len()
        invariant
            i <= s@.len(),
            forall|j: int| 0 <= j < i ==> s@[j] != c,
        decreases s@.len() - i,
    {
        if s[i] == c {
            proof {
                lemma_split_once_at(s@, c, i as int);
                let t = s@.subrange(i as int, s@.len() as int);
                assert(t[0] == c);
                assert(t.drop_first() == s@.subrange(i + 1, s@.len() as int));
                assert(s@.subrange(0, i as int) + Seq::<char>::empty() == s@.subrange(0, i as int));
            }
            let mut a: Vec<char> = Vec::new();
            let mut b: Vec<char> = Vec::new();
            let mut j: usize = 0;
            while j < i
                invariant
                    j <= i < s@.len(),
                    a@ == s@.subrange(0, j as int),
                decreases i - j,
            {
                a.push(s[j]);
                j = j + 1;
            }
            let mut k: usize = i + 1;
            while k < s.len()
                invariant
                    i + 1 <= k <= s@.len(),
                    b@ == s@.subrange(i + 1, k as int),
                decreases s@.len() - k,
            {
                b.push(s[k]);
                k = k + 1;
            }
            return Some((a, b));
        }
        i = i + 1;
    }
    proof {
        lemma_split_once_at(s@, c, i as int);
        assert(s@.subrange(i as int, s@.len() as int).len() == 0);
    }
    None
}

/// The values of the `name=value` pairs among `pairs` (each trimmed) named `name`.
pub open spec fn pair_values(pairs: Seq<Seq<char>>, name: Seq<char>) -> Seq<Seq<char>>
    decreases pairs.len(),
{
    if pairs.len() == 0 {
        Seq::empty()
    } else {
        let before = pair_values(pairs.drop_last(), name);
        match split_once(spec_trim(pairs.last()), '=') {
            Some((k, v)) if k == name => before.push(v),
            _ => before,
        }
    }
}

/// The values of the cookies named `name` in the `Cookie` headers, as the browser sent them.
pub open spec fn spec_raw_cookies(headers: Seq<Seq<char>>, name: Seq<char>) -> Seq<Seq<char>>
    decreases headers.len(),
{
    if headers.len() == 0 {
        Seq::empty()
    } else {
        spec_raw_cookies(headers.drop_last(), name) + pair_values(segments(headers.last(), ';'), name)
    }
}

/// The pieces of `v` between the separators `sep`.
pub(crate) fn split_all(v: &Vec<char>, sep: char) -> (r: Vec<Vec<char>>)
    ensures
        r@.map_values(|x: Vec<char>| x@) == segments(v@, sep),
{
    let mut out: Vec<Vec<char>> = Vec::new();
    let mut cur: Vec<char> = Vec::new();
    let mut i: usize = 0;
    assert(v@.subrange(0, 0) =~= Seq::<char>::empty());
    assert(segments(Seq::<char>::empty(), sep) == seq![Seq::<char>::empty()]);
    assert(out@.map_values(|x: Vec<char>| x@).push(cur@) =~= segments(v@.subrange(0, 0), sep));
    while i < v.len()
        invariant
            i <= v@.len(),
            out@.map_values(|x: Vec<char>| x@).push(cur@) == segments(v@.subrange(0, i as int), sep),
        decreases v@.len() - i,
    {
        let ghost prev = segments(v@.subrange(0, i as int), sep);
        assert(v@.subrange(0, i + 1).drop_last() == v@.subrange(0, i as int));
        let ghost before = out@;
        if v[i] == sep {
            let done = cur;
            out.push(done);
            cur = Vec::new();
            assert(out@.map_values(|x: Vec<char>| x@) =~= before.map_values(|x: Vec<char>| x@).push(done@));
            assert(out@.map_values(|x: Vec<char>| x@).push(cur@) =~= prev.push(Seq::empty()));
        } else {
            let ghost c0 = cur@;
            cur.push(v[i]);
            assert(out@.map_values(|x: Vec<char>| x@).push(cur@) =~= prev.update(prev.len() - 1, prev.last().push(v@[i as int])));
        }
        i = i + 1;
    }
    assert(v@.subrange(0, v@.len() as int) == v@);
    let ghost before = out@;
    out.push(cur);
    assert(out@.map_values(|x: Vec<char>| x@) =~= before.map_values(|x: Vec<char>| x@).push(cur@));
    out
}

/// The values of the cookies named `name` in the `Cookie` headers (those that are valid
/// text), exactly as the browser sent them.
pub fn raw_cookies(headers: &Vec<String>, name: &str) -> (r: Vec<String>)
    ensures
        strs(r@) == spec_raw_cookies(strs(headers@), name@),
{
    let mut out: Vec<String> = Vec::new();
    let mut h: usize = 0;
    assert(strs(headers@).subrange(0, 0) =~= Seq::<Seq<char>>::empty());
    assert(strs(out@) =~= Seq::<Seq<char>>::empty());
    while h < headers.len()
        invariant
            h <= headers@.len(),
            strs(out@) == spec_raw_cookies(strs(headers@).subrange(0, h as int), name@),
        decreases headers@.len() - h,
    {
        let v = to_chars(headers[h].as_str());
        let pairs = split_all(&v, ';');
        let ghost segs = pairs@.map_values(|x: Vec<char>| x@);
        let ghost base = strs(out@);
        let mut j: usize = 0;
        assert(segs.subrange(0, 0) =~= Seq::<Seq<char>>::empty());
        assert(base + Seq::<Seq<char>>::empty() =~= base);
        while j < pairs.len()
            invariant
                h < headers@.len(),
                j <= pairs@.len(),
                segs == pairs@.map_values(|x: Vec<char>| x@),
                strs(out@) == base + pair_values(segs.subrange(0, j as int), name@),
            decreases pairs@.len() - j,
        {
            let t = trim_range(pairs[j].as_slice(), 0, pairs[j].len());
            assert(pairs@[j as int]@.subrange(0, pairs@[j as int]@.len() as int) == pairs@[j as int]@);
            assert(segs.subrange(0, j + 1).drop_last() == segs.subrange(0, j as int));
            assert(segs.subrange(0, j + 1).last() == pairs@[j as int]@);
            match split_once_exec(&t, '=') {
                Some((k, val)) => {
                    let ks = crate::text::from_chars(k.as_slice());
                    if crate::json::str_eq(ks.as_str(), name) {
                        let ghost before = out@;
                        out.push(crate::text::from_chars(val.as_slice()));
                        assert(strs(out@) =~= strs(before).push(val@));
                    }
                },
                None => {},
            }
            j = j + 1;
        }
        assert(segs.subrange(0, segs.len() as int) == segs);
        assert(strs(headers@).subrange(0, h + 1).drop_last() == strs(headers@).subrange(0, h as int));
        assert(strs(headers@).subrange(0, h + 1).last() == headers@[h as int]@);
        h = h + 1;
    }
    assert(strs(headers@).subrange(0, headers@.len() as int) == strs(headers@));
    out
}

/// The percent-decoded values of the raw token cookies whose signature is valid.
pub open spec fn spec_valid_tokens(key: Seq<u8>, name: Seq<char>, raws: Seq<Seq<char>>) -> Seq<Seq<char>>
    decreases raws.len(),
{
    if raws.len() == 0 {
        Seq::empty()
    } else {
        let before = spec_valid_tokens(key, name, raws.drop_last());
        if signed_cookie_ok(key, name, raws.last()) { before.push(spec_percent_decode(raws.last())) } else { before }
    }
}

/// `prefix` or a path below it (whole segments: `/api` covers `/api/x`, not `/apiary`).
pub open spec fn exempt_by(prefix: Seq<char>, path: Seq<char>) -> bool {
    starts_with(path, prefix) && {
        let rest = path.subrange(prefix.len() as int, path.len() as int);
        rest.len() == 0 || (prefix.len() > 0 && prefix.last() == '/') || starts_with(rest, seq!['/'])
    }
}

/// The methods that never need a token.
pub open spec fn safe_method(m: Method) -> bool {
    m == Method::Get || m == Method::Head || m == Method::Options || m == Method::Trace
}

/// What the CSRF check decides for a request.
#[derive(Debug, PartialEq, Eq)]
pub enum CsrfVerdict {
    /// Answer [`CSRF_MISMATCH`]: an unsafe request without a matching token.
    Reject,
    /// Run the handler; issue a new token cookie when the client has no valid one.
    Pass { issue_token: bool },
}

/// Configuration of the CSRF check.
pub struct Csrf {
    /// Signing key material (64 bytes or more).
    pub key: Vec<u8>,
    pub cookie_name: String,
    pub header_name: String,
    pub secure: bool,
    pub exempt: Vec<String>,
}

impl Csrf {
    /// Well formed: the key is long enough to sign with.
    pub open spec fn wf(self) -> bool {
        self.key@.len() >= 64
    }

    /// The token cookie `XSRF-TOKEN`, echoed in `X-XSRF-TOKEN`, signed with `key`.
    pub fn new(key: Vec<u8>) -> (r: Csrf)
        requires
            key@.len() >= 64,
        ensures
            r.wf(),
            r.key == key,
            r.cookie_name@ == seq!['X', 'S', 'R', 'F', '-', 'T', 'O', 'K', 'E', 'N'],
            r.header_name@ == seq!['x', '-', 'x', 's', 'r', 'f', '-', 't', 'o', 'k', 'e', 'n'],
            !r.secure,
            r.exempt@.len() == 0,
    {
        proof {
            reveal_strlit("XSRF-TOKEN");
            reveal_strlit("x-xsrf-token");
        }
        let cookie_name = "XSRF-TOKEN".to_owned();
        let header_name = "x-xsrf-token".to_owned();
        assert(cookie_name@ =~= seq!['X', 'S', 'R', 'F', '-', 'T', 'O', 'K', 'E', 'N']);
        assert(header_name@ =~= seq!['x', '-', 'x', 's', 'r', 'f', '-', 't', 'o', 'k', 'e', 'n']);
        Csrf { key, cookie_name, header_name, secure: false, exempt: Vec::new() }
    }

    /// Mark the cookie `Secure` (HTTPS only).
    pub fn secure(self, secure: bool) -> (r: Csrf)
        ensures
            r == (Csrf { secure, ..self }),
    {
        Csrf { secure, ..self }
    }

    /// Skip the check for `prefix` and the paths below it.
    pub fn exempt(self, prefix: String) -> (r: Csrf)
        ensures
            r.exempt@ == self.exempt@.push(prefix),
            r.key == self.key && r.cookie_name == self.cookie_name && r.header_name == self.header_name,
            r.secure == self.secure,
    {
        let mut s = self;
        s.exempt.push(prefix);
        s
    }

    /// Whether `path` is exempt from the check.
    pub fn is_exempt(&self, path: &str) -> (r: bool)
        ensures
            r == exists|i: int| 0 <= i < self.exempt@.len() && exempt_by(#[trigger] self.exempt@[i]@, path@),
    {
        let p = to_chars(path);
        let slash = ['/'];
        assert(slash@ == seq!['/']);
        let mut i: usize = 0;
        while i < self.exempt.len()
            invariant
                i <= self.exempt@.len(),
                p@ == path@,
                slash@ == seq!['/'],
                forall|j: int| 0 <= j < i ==> !exempt_by(#[trigger] self.exempt@[j]@, path@),
            decreases self.exempt@.len() - i,
        {
            let q = to_chars(self.exempt[i].as_str());
            assert(p@.subrange(0, p@.len() as int) == p@);
            if crate::text::chars_start_with_at(&p, 0, &q) {
                let rest_empty = p.len() == q.len();
                let ends_slash = q.len() > 0 && q[q.len() - 1] == '/';
                let rest_slash = crate::text::chars_start_with_at(&p, q.len(), &slash);
                if rest_empty || ends_slash || rest_slash {
                    assert(exempt_by(self.exempt@[i as int]@, path@));
                    return true;
                }
            }
            i = i + 1;
        }
        false
    }

    /// The token cookies with a valid signature, as the client sees them (decoded). Each
    /// value is verified on its own: with duplicate cookies (another path or domain), a
    /// jar would verify one of them while a raw lookup returned another.
    pub fn valid_tokens(&self, cookie_headers: &Vec<String>) -> (r: Vec<String>)
        requires
            self.wf(),
        ensures
            strs(r@) == spec_valid_tokens(self.key@, self.cookie_name@,
                spec_raw_cookies(strs(cookie_headers@), self.cookie_name@)),
    {
        let raws = raw_cookies(cookie_headers, self.cookie_name.as_str());
        let ghost rs = strs(raws@);
        let mut out: Vec<String> = Vec::new();
        let mut i: usize = 0;
        assert(rs.subrange(0, 0) =~= Seq::<Seq<char>>::empty());
        assert(strs(out@) =~= Seq::<Seq<char>>::empty());
        while i < raws.len()
            invariant
                self.wf(),
                i <= raws@.len(),
                rs == strs(raws@),
                strs(out@) == spec_valid_tokens(self.key@, self.cookie_name@, rs.subrange(0, i as int)),
            decreases raws@.len() - i,
        {
            assert(rs.subrange(0, i + 1).drop_last() == rs.subrange(0, i as int));
            assert(rs.subrange(0, i + 1).last() == raws@[i as int]@);
            if verify_signed(self.key.as_slice(), self.cookie_name.as_str(), raws[i].as_str()) {
                let ghost before = out@;
                out.push(percent_decode(raws[i].as_str()));
                assert(strs(out@) =~= strs(before).push(out@.last()@));
            }
            i = i + 1;
        }
        assert(rs.subrange(0, rs.len() as int) == rs);
        out
    }

    /// The CSRF decision for a request: an unsafe method on a path that is not exempt must
    /// send (in the token header, percent-decoded) one of the valid tokens of its cookies,
    /// compared in constant time; the client gets a new token when it has no valid one.
    pub fn check(&self, method: Method, path: &str, cookie_headers: &Vec<String>, sent: Option<&str>) -> (r: CsrfVerdict)
        requires
            self.wf(),
        ensures
            ({
                let tokens = spec_valid_tokens(self.key@, self.cookie_name@,
                    spec_raw_cookies(strs(cookie_headers@), self.cookie_name@));
                let exempt = exists|i: int| 0 <= i < self.exempt@.len() && exempt_by(#[trigger] self.exempt@[i]@, path@);
                let matches_token = sent matches Some(s) && tokens.contains(spec_percent_decode(s@));
                if !safe_method(method) && !exempt && !matches_token {
                    r is Reject
                } else {
                    r == CsrfVerdict::Pass { issue_token: tokens.len() == 0 }
                }
            }),
    {
        let tokens = self.valid_tokens(cookie_headers);
        let ghost ts = strs(tokens@);
        let safe = method == Method::Get || method == Method::Head || method == Method::Options || method == Method::Trace;
        if !safe && !self.is_exempt(path) {
            let ok = match sent {
                Some(s) => {
                    let d = percent_decode(s);
                    let mut found = false;
                    let mut i: usize = 0;
                    while i < tokens.len() && !found
                        invariant
                            i <= tokens@.len(),
                            ts == strs(tokens@),
                            found == exists|j: int| 0 <= j < i && ts[j] == d@,
                        decreases tokens@.len() - i,
                    {
                        assert(ts[i as int] == tokens@[i as int]@);
                        if ct_eq_str(tokens[i].as_str(), d.as_str()) {
                            found = true;
                        }
                        i = i + 1;
                    }
                    assert(found == ts.contains(d@));
                    found
                },
                None => false,
            };
            if !ok {
                return CsrfVerdict::Reject;
            }
        }
        CsrfVerdict::Pass { issue_token: tokens.len() == 0 }
    }

    /// A fresh token: 32 random bytes as 64 lower-case hex digits; `None` when the system
    /// has no randomness to give.
    pub fn new_token(&self) -> (r: Option<String>)
        ensures
            r matches Some(t) ==> exists|b: Seq<u8>| b.len() == 32 && t@ == spec_hex_bytes(b),
    {
        match random_bytes() {
            Some(b) => Some(hex_bytes(&b)),
            None => None,
        }
    }
}

} // verus!

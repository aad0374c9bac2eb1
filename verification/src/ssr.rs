//! Server-side rendering of first visits: what an SSR server returns, its settings, and the
//! circuit breaker that stops calling a failing renderer for a while.

use vstd::prelude::*;

verus! {

/// What an SSR server returns for a page.
#[derive(Debug, Clone, Default, PartialEq, Eq)]
pub struct SsrResponse {
    /// Tags for `<head>` (from `<Head>` components).
    pub head: Vec<String>,
    /// Replaces the mount markup: page data script plus the server-rendered root element.
    pub body: String,
}

/// Consecutive SSR failures before [`CircuitBreaker`] opens.
pub const DEFAULT_SSR_FAILURE_THRESHOLD: u32 = 3;
/// How long (in milliseconds) [`CircuitBreaker`] skips SSR once open.
pub const DEFAULT_SSR_COOLDOWN_MS: u64 = 30000;

/// Stops calling a failing renderer for a while, so a hung or crashed SSR server costs one
/// timeout per few requests instead of one per first visit.
///
/// After `threshold` consecutive failures the circuit opens: pages render client-side
/// without trying SSR. After `cooldown_ms`, one request probes the renderer again; success
/// closes the circuit, failure reopens it. Times are milliseconds on a monotonic clock.
#[derive(Debug, Clone, Copy, PartialEq, Eq)]
pub struct CircuitBreaker {
    pub threshold: u32,
    pub cooldown_ms: u64,
    /// Failures in a row (wrapping, as an atomic counter does).
    pub failures: u32,
    /// While open: when the cooldown ends.
    pub open_until: Option<u64>,
    /// A half-open probe is running.
    pub probing: bool,
}

/// `a + b`, or the largest time when that does not fit.
pub open spec fn later(a: u64, b: u64) -> u64 {
    if a + b > u64::MAX { u64::MAX } else { (a + b) as u64 }
}

/// Whether a request at `now` may call the renderer, and the breaker after asking.
pub open spec fn permit_step(b: CircuitBreaker, now: u64) -> (CircuitBreaker, Option<bool>) {
    match b.open_until {
        None => (b, Some(false)),
        Some(until) => if now < until || b.probing {
            (b, None)
        } else {
            (CircuitBreaker { probing: true, ..b }, Some(true))
        },
    }
}

/// The breaker after a success: no failures, closed.
pub open spec fn succeed_step(b: CircuitBreaker) -> CircuitBreaker {
    CircuitBreaker { failures: 0, open_until: None, ..b }
}

/// The breaker after a failure at `now`.
pub open spec fn fail_step(b: CircuitBreaker, probe: bool, now: u64) -> CircuitBreaker {
    let failures = if b.failures == u32::MAX { 0 } else { (b.failures + 1) as u32 };
    CircuitBreaker {
        failures,
        open_until: if probe || failures >= b.threshold { Some(later(now, b.cooldown_ms)) } else { b.open_until },
        ..b
    }
}

/// The breaker after `n` failures in a row at `now`, none of them a probe.
pub open spec fn fail_n(b: CircuitBreaker, n: nat, now: u64) -> CircuitBreaker
    decreases n,
{
    if n == 0 { b } else { fail_step(fail_n(b, (n - 1) as nat, now), false, now) }
}

impl CircuitBreaker {
    /// The threshold is at least one.
    pub open spec fn wf(self) -> bool {
        self.threshold >= 1
    }

    /// Open after `threshold` failures in a row (at least 1), for `cooldown_ms`.
    pub fn new(threshold: u32, cooldown_ms: u64) -> (r: CircuitBreaker)
        ensures
            r.wf(),
            r.threshold == if threshold < 1 { 1 } else { threshold },
            r.cooldown_ms == cooldown_ms,
            r.failures == 0,
            r.open_until is None,
            !r.probing,
    {
        CircuitBreaker {
            threshold: if threshold < 1 { 1 } else { threshold },
            cooldown_ms,
            failures: 0,
            open_until: None,
            probing: false,
        }
    }

    /// Whether a request at `now` may call the renderer; `Some(true)` marks the half-open
    /// probe, which only one request at a time gets once the cooldown is over.
    pub fn permit(&mut self, now: u64) -> (r: Option<bool>)
        ensures
            (*final(self), r) == permit_step(*old(self), now),
    {
        match self.open_until {
            None => Some(false),
            Some(until) => {
                if now < until || self.probing {
                    None
                } else {
                    self.probing = true;
                    Some(true)
                }
            },
        }
    }

    /// The renderer succeeded: the failure count restarts and the circuit closes.
    pub fn succeeded(&mut self)
        ensures
            *final(self) == succeed_step(*old(self)),
    {
        self.failures = 0;
        self.open_until = None;
    }

    /// The renderer failed at `now` (`probe`: on the half-open probe): one more failure in a
    /// row; a failed probe, or reaching the threshold, opens the circuit for the cooldown.
    pub fn failed(&mut self, probe: bool, now: u64)
        ensures
            *final(self) == fail_step(*old(self), probe, now),
    {
        let failures = if self.failures == u32::MAX { 0 } else { self.failures + 1 };
        self.failures = failures;
        if probe || failures >= self.threshold {
            let until = if now > u64::MAX - self.cooldown_ms { u64::MAX } else { now + self.cooldown_ms };
            self.open_until = Some(until);
        }
    }

    /// The probe ended (however it ended, cancellation included): another may run.
    pub fn probe_done(&mut self)
        ensures
            *final(self) == (CircuitBreaker { probing: false, ..*old(self) }),
    {
        self.probing = false;
    }
}

/// One render through the breaker at `now` whose renderer call (if it is made) succeeds
/// when `ok`: ask for a permit, call the renderer, record the outcome, end the probe. The
/// breaker after it, and whether the renderer was called.
pub open spec fn render_step(b: CircuitBreaker, now: u64, ok: bool) -> (CircuitBreaker, bool) {
    let (b1, permit) = permit_step(b, now);
    match permit {
        None => (b1, false),
        Some(probe) => {
            let b2 = if ok { succeed_step(b1) } else { fail_step(b1, probe, now) };
            (if probe { CircuitBreaker { probing: false, ..b2 } } else { b2 }, true)
        },
    }
}

/// Renders one after another, each `(now, ok)`: the breaker after them and how many
/// called the renderer.
pub open spec fn render_all(b: CircuitBreaker, renders: Seq<(u64, bool)>) -> (CircuitBreaker, nat)
    decreases renders.len(),
{
    if renders.len() == 0 {
        (b, 0)
    } else {
        let (b1, calls) = render_all(b, renders.drop_last());
        let (b2, called) = render_step(b1, renders.last().0, renders.last().1);
        (b2, calls + if called { 1nat } else { 0nat })
    }
}

/// `n` failing renders at `now`.
pub open spec fn failing_renders(n: nat, now: u64) -> Seq<(u64, bool)> {
    Seq::new(n, |i: int| (now, false))
}

proof fn lemma_failing_renders_prefix(n: nat, now: u64)
    requires
        n > 0,
    ensures
        failing_renders(n, now).drop_last() == failing_renders((n - 1) as nat, now),
        failing_renders(n, now).last() == (now, false),
{
    assert(failing_renders(n, now).drop_last() =~= failing_renders((n - 1) as nat, now));
}

/// Through the renders: from a closed breaker with no failures, `threshold` failing renders
/// in a row all call the renderer and open the circuit until the cooldown after them;
/// fewer keep it closed. Then, until the cooldown ends, renders skip the renderer.
pub proof fn lemma_renders_open_after_threshold(b: CircuitBreaker, n: nat, now: u64, later_now: u64, ok: bool)
    requires
        b.wf(),
        b.failures == 0,
        b.open_until is None,
        !b.probing,
        n <= b.threshold,
    ensures
        render_all(b, failing_renders(n, now)) == (fail_n(b, n, now), n),
        !fail_n(b, n, now).probing,
        n < b.threshold ==> fail_n(b, n, now).open_until is None,
        n == b.threshold ==> fail_n(b, n, now).open_until == Some(later(now, b.cooldown_ms)),
        (n == b.threshold && later_now < later(now, b.cooldown_ms))
            ==> render_step(fail_n(b, n, now), later_now, ok) == (fail_n(b, n, now), false),
    decreases n,
{
    if n > 0 {
        lemma_failing_renders_prefix(n, now);
        lemma_renders_open_after_threshold(b, (n - 1) as nat, now, later_now, ok);
        lemma_opens_after_threshold(b, n, now);
        if n > 1 {
            lemma_opens_after_threshold(b, (n - 1) as nat, now);
        } else {
            assert(fail_n(b, 0, now) == b);
        }
    } else {
        assert(fail_n(b, 0, now) == b);
        assert(failing_renders(0, now) =~= Seq::<(u64, bool)>::empty());
    }
}

/// A render that calls the renderer and succeeds leaves the circuit closed with no
/// failures counted, so occasional failures never add up across a success.
pub proof fn lemma_success_resets(b: CircuitBreaker, now: u64)
    requires
        render_step(b, now, true).1,
    ensures
        render_step(b, now, true).0.failures == 0,
        render_step(b, now, true).0.open_until is None,
        render_step(b, now, true).0.threshold == b.threshold,
        render_step(b, now, true).0.cooldown_ms == b.cooldown_ms,
{
}

/// After the cooldown, the one probing render calls the renderer; if it fails, the circuit
/// reopens for another cooldown, and the probe slot is free again.
pub proof fn lemma_failed_probe_reopens(b: CircuitBreaker, now: u64)
    requires
        b.open_until matches Some(until) && until <= now,
        !b.probing,
    ensures
        render_step(b, now, false).1,
        render_step(b, now, false).0.open_until == Some(later(now, b.cooldown_ms)),
        !render_step(b, now, false).0.probing,
{
}

/// The failure count after one more failure (wrapping, as an atomic counter does).
pub open spec fn one_more(failures: u32) -> u32 {
    if failures == u32::MAX { 0 } else { (failures + 1) as u32 }
}

/// What one render does to a breaker `b` that no probe holds, at `now`, when the renderer
/// (if called) succeeds exactly when `ok`:
/// - closed: the renderer is called; a success resets the count, a failure counts and opens
///   the circuit for the cooldown once `threshold` failures are reached;
/// - open before the cooldown ends: the renderer is not called and nothing changes;
/// - open after the cooldown: this render is the probe; a success closes the circuit, a
///   failure reopens it for another cooldown.
/// Threshold and cooldown never change, and no probe is left holding the slot.
pub open spec fn breaker_law(b: CircuitBreaker, now: u64, ok: bool, after: CircuitBreaker, called: bool) -> bool {
    &&& after.threshold == b.threshold
    &&& after.cooldown_ms == b.cooldown_ms
    &&& !after.probing
    &&& match b.open_until {
        None => called && if ok {
            after.failures == 0 && after.open_until is None
        } else {
            &&& after.failures == one_more(b.failures)
            &&& after.open_until == if one_more(b.failures) >= b.threshold { Some(later(now, b.cooldown_ms)) } else { None::<u64> }
        },
        Some(until) => if now < until {
            !called && after == b
        } else {
            called && if ok {
                after.failures == 0 && after.open_until is None
            } else {
                after.failures == one_more(b.failures) && after.open_until == Some(later(now, b.cooldown_ms))
            }
        },
    }
}

/// Renders one after another never leave the probe slot taken, nor change the threshold
/// or the cooldown.
proof fn lemma_renders_keep_settings(b: CircuitBreaker, renders: Seq<(u64, bool)>)
    requires
        b.wf(),
        !b.probing,
    ensures
        render_all(b, renders).0.wf(),
        !render_all(b, renders).0.probing,
        render_all(b, renders).0.threshold == b.threshold,
        render_all(b, renders).0.cooldown_ms == b.cooldown_ms,
    decreases renders.len(),
{
    if renders.len() > 0 {
        lemma_renders_keep_settings(b, renders.drop_last());
    }
}

/// The circuit breaker over any sequence of renders from a breaker no probe holds: every
/// render follows [`breaker_law`] from the state the renders before it left.
pub proof fn lemma_every_render_follows_the_law(b: CircuitBreaker, renders: Seq<(u64, bool)>, k: int)
    requires
        b.wf(),
        !b.probing,
        0 <= k < renders.len(),
    ensures
        ({
            let before = render_all(b, renders.subrange(0, k)).0;
            let (after, called) = render_step(before, renders[k].0, renders[k].1);
            &&& render_all(b, renders.subrange(0, k + 1)).0 == after
            &&& breaker_law(before, renders[k].0, renders[k].1, after, called)
        }),
{
    assert(renders.subrange(0, k + 1).drop_last() == renders.subrange(0, k));
    assert(renders.subrange(0, k + 1).last() == renders[k]);
    lemma_renders_keep_settings(b, renders.subrange(0, k));
}

/// Only one probe at a time: once a request got the half-open probe, no other request may
/// call the renderer until the probe is over.
pub proof fn lemma_single_probe(b: CircuitBreaker, now1: u64, now2: u64)
    requires
        permit_step(b, now1).1 == Some(true),
    ensures
        permit_step(permit_step(b, now1).0, now2).1 is None,
{
}

/// While the circuit is open, no request calls the renderer before the cooldown ends.
pub proof fn lemma_open_skips(b: CircuitBreaker, now: u64)
    requires
        b.open_until matches Some(until) && now < until,
    ensures
        permit_step(b, now) == (b, None::<bool>),
{
}

/// A success closes the circuit: the next request may call the renderer.
pub proof fn lemma_success_closes(b: CircuitBreaker, now: u64)
    ensures
        permit_step(succeed_step(b), now) == (succeed_step(b), Some(false)),
{
}

/// From a closed breaker with no failures, fewer than `threshold` failures in a row keep it
/// closed, and the `threshold`-th opens it until the cooldown after it.
pub proof fn lemma_opens_after_threshold(b: CircuitBreaker, n: nat, now: u64)
    requires
        b.wf(),
        b.failures == 0,
        b.open_until is None,
        1 <= n <= b.threshold,
    ensures
        fail_n(b, n, now).failures == n,
        fail_n(b, n, now).threshold == b.threshold,
        fail_n(b, n, now).cooldown_ms == b.cooldown_ms,
        n < b.threshold ==> fail_n(b, n, now).open_until is None,
        n == b.threshold ==> fail_n(b, n, now).open_until == Some(later(now, b.cooldown_ms)),
    decreases n,
{
    assert(fail_n(b, 0, now) == b);
    if n > 1 {
        lemma_opens_after_threshold(b, (n - 1) as nat, now);
    }
}

/// Settings of the SSR server client.
#[derive(Debug, Clone, Default)]
pub struct SsrSettings {
    /// Defaults to `true` when the section is present.
    pub enabled: Option<bool>,
    /// Base URL of the SSR server; defaults to `http://127.0.0.1:13714`.
    pub url: Option<String>,
    /// Defaults to 2000.
    pub timeout_ms: Option<u64>,
    /// Consecutive failures before SSR is skipped for `cooldown_secs`; defaults to 3.
    pub failure_threshold: Option<u32>,
    /// Defaults to 30.
    pub cooldown_secs: Option<u64>,
}

/// Where to reach the SSR server and how long to wait for it.
#[derive(Debug, Clone, PartialEq, Eq)]
pub struct RendererSettings {
    /// `POST {base}/render`.
    pub render_url: String,
    pub timeout_ms: u64,
}

/// The default SSR server URL.
pub open spec fn default_ssr_url() -> Seq<char> {
    "http://127.0.0.1:13714"@
}

/// `s` without trailing `/`.
pub open spec fn trim_end_slashes(s: Seq<char>) -> Seq<char>
    decreases s.len(),
{
    if s.len() > 0 && s.last() == '/' { trim_end_slashes(s.drop_last()) } else { s }
}

/// The render endpoint under a base URL.
pub open spec fn render_url_of(base: Seq<char>) -> Seq<char> {
    trim_end_slashes(base) + "/render"@
}

/// The render endpoint under a base URL: `{url without trailing /}/render`.
pub fn render_url(base: &str) -> (r: String)
    ensures
        r@ == render_url_of(base@),
{
    let mut n = base.unicode_len();
    assert(base@.subrange(0, base@.len() as int) == base@);
    while n > 0 && base.get_char(n - 1) == '/'
        invariant
            n <= base@.len(),
            trim_end_slashes(base@) == trim_end_slashes(base@.subrange(0, n as int)),
        decreases n,
    {
        assert(base@.subrange(0, n as int).drop_last() == base@.subrange(0, n - 1));
        n = n - 1;
    }
    assert(base@.subrange(0, base@.len() as int) == base@);
    let mut r = String::new();
    let mut i: usize = 0;
    while i < n
        invariant
            n <= base@.len(),
            i <= n,
            r@ == base@.subrange(0, i as int),
        decreases n - i,
    {
        crate::text::push_char(&mut r, base.get_char(i));
        assert(base@.subrange(0, i + 1) == base@.subrange(0, i as int).push(base@[i as int]));
        i = i + 1;
    }
    assert(trim_end_slashes(base@.subrange(0, n as int)) == base@.subrange(0, n as int));
    r.append("/render");
    r
}

impl SsrSettings {
    /// The renderer settings, or `None` when disabled: the URL (default
    /// `http://127.0.0.1:13714`) and timeout (default 2000 ms).
    pub fn renderer(&self) -> (r: Option<RendererSettings>)
        ensures
            self.enabled == Some(false) ==> r is None,
            self.enabled != Some(false) ==> (r matches Some(x) && {
                &&& x.render_url@ == render_url_of(match self.url { Some(u) => u@, None => default_ssr_url() })
                &&& x.timeout_ms == match self.timeout_ms { Some(t) => t, None => 2000 }
            }),
    {
        if self.enabled == Some(false) {
            return None;
        }
        let url = match &self.url {
            Some(u) => render_url(u.as_str()),
            None => render_url("http://127.0.0.1:13714"),
        };
        let timeout_ms = match self.timeout_ms {
            Some(t) => t,
            None => 2000,
        };
        Some(RendererSettings { render_url: url, timeout_ms })
    }

    /// The circuit breaker for these settings: threshold default 3, cooldown default 30 s.
    pub fn breaker(&self) -> (r: CircuitBreaker)
        ensures
            r.wf(),
            r.threshold == ({
                let t = match self.failure_threshold { Some(t) => t, None => DEFAULT_SSR_FAILURE_THRESHOLD };
                if t < 1 { 1 } else { t }
            }),
            r.cooldown_ms == match self.cooldown_secs {
                Some(s) => if s * 1000 > u64::MAX { u64::MAX } else { (s * 1000) as u64 },
                None => DEFAULT_SSR_COOLDOWN_MS,
            },
            r.failures == 0 && r.open_until is None && !r.probing,
    {
        let threshold = match self.failure_threshold {
            Some(t) => t,
            None => DEFAULT_SSR_FAILURE_THRESHOLD,
        };
        let cooldown = match self.cooldown_secs {
            Some(s) => if s > u64::MAX / 1000 { u64::MAX } else { s * 1000 },
            None => DEFAULT_SSR_COOLDOWN_MS,
        };
        CircuitBreaker::new(threshold, cooldown)
    }
}

} // verus!

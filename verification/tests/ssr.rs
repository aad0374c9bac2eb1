use inertia_axum::ssr::{render_url, CircuitBreaker};

#[test]
fn opens_after_threshold_failures_and_probes_once_after_the_cooldown() {
    let mut b = CircuitBreaker::new(3, 1000);
    for _ in 0..2 {
        assert_eq!(b.permit(0), Some(false));
        b.failed(false, 0);
    }
    assert_eq!(b.permit(0), Some(false));
    b.failed(false, 10);
    assert_eq!(b.permit(500), None, "open");
    assert_eq!(b.permit(1010), Some(true), "the probe");
    assert_eq!(b.permit(1020), None, "only one probe at a time");
    b.failed(true, 1030);
    b.probe_done();
    assert_eq!(b.permit(1500), None, "a failed probe reopens");
    assert_eq!(b.permit(2030), Some(true));
    b.succeeded();
    b.probe_done();
    assert_eq!(b.permit(2040), Some(false), "success closes");
    assert_eq!(b.failures, 0);
}

#[test]
fn threshold_is_at_least_one() {
    let mut b = CircuitBreaker::new(0, 10);
    assert_eq!(b.threshold, 1);
    b.failed(false, u64::MAX - 5);
    assert_eq!(b.open_until, Some(u64::MAX));
}

#[test]
fn render_url_strips_trailing_slashes() {
    assert_eq!(render_url("http://h:1//"), "http://h:1/render");
    assert_eq!(render_url("http://h:1"), "http://h:1/render");
}

/// A renderer that fails until it is healthy, driven through the breaker as the glue does:
/// ask for a permit, render, report the outcome, free the probe slot.
struct Flaky {
    breaker: CircuitBreaker,
    calls: usize,
    healthy: bool,
}

impl Flaky {
    fn new(threshold: u32, cooldown_ms: u64) -> Self {
        Flaky { breaker: CircuitBreaker::new(threshold, cooldown_ms), calls: 0, healthy: false }
    }

    /// Whether the visit at `now` was rendered on the server.
    fn visit(&mut self, now: u64) -> bool {
        let Some(probe) = self.breaker.permit(now) else {
            return false;
        };
        self.calls += 1;
        let ok = self.healthy;
        if ok {
            self.breaker.succeeded();
        } else {
            self.breaker.failed(probe, now);
        }
        if probe {
            self.breaker.probe_done();
        }
        ok
    }
}

#[test]
fn opens_after_consecutive_failures_and_probes_after_the_cooldown() {
    let mut f = Flaky::new(3, 200);
    for _ in 0..6 {
        assert!(!f.visit(0));
    }
    assert_eq!(f.calls, 3, "calls stop once the circuit opens");
    f.visit(250);
    assert_eq!(f.calls, 4, "one probe after the cooldown");
    f.visit(260);
    assert_eq!(f.calls, 4, "a failed probe reopens the circuit");
}

#[test]
fn a_successful_probe_closes_the_circuit() {
    let mut f = Flaky::new(2, 150);
    f.visit(0);
    f.visit(0);
    f.visit(0);
    assert_eq!(f.calls, 2);
    f.healthy = true;
    assert!(f.visit(200));
    assert!(f.visit(200));
    assert_eq!(f.calls, 4);
}

#[test]
fn occasional_failures_do_not_open_it() {
    let mut f = Flaky::new(3, 60_000);
    for _ in 0..3 {
        f.healthy = false;
        f.visit(0);
        f.visit(0);
        f.healthy = true;
        assert!(f.visit(0), "a success resets the count");
    }
    assert_eq!(f.calls, 9);
}

#[test]
fn only_one_request_probes_a_half_open_circuit() {
    let mut b = CircuitBreaker::new(1, 100);
    assert_eq!(b.permit(0), Some(false));
    b.failed(false, 0);
    // Five visits arrive together after the cooldown, before the probe answers.
    let permits: Vec<Option<bool>> = (0..5).map(|_| b.permit(150)).collect();
    assert_eq!(permits.iter().filter(|p| p.is_some()).count(), 1, "one probe among concurrent visits");
    assert_eq!(permits[0], Some(true));
}

#[test]
fn a_hung_renderer_stops_costing_latency() {
    let mut f = Flaky::new(2, 60_000);
    f.visit(0);
    f.visit(300);
    f.visit(600);
    assert_eq!(f.calls, 2, "the third visit does not wait for the renderer");
}

#[test]
fn a_cancelled_probe_does_not_block_later_probes() {
    let mut b = CircuitBreaker::new(1, 50);
    assert_eq!(b.permit(0), Some(false));
    b.failed(false, 0);
    // The probe's client disconnects before the renderer answers: only the slot is freed.
    assert_eq!(b.permit(80), Some(true));
    b.probe_done();
    assert_eq!(b.permit(100), Some(true), "the next request probes");
    b.succeeded();
    b.probe_done();
    assert_eq!(b.permit(110), Some(false));
}

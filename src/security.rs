//! Request-level security helpers: permissions, rate-limit settings, and
//! the collection of validation errors.

use vstd::prelude::*;

use crate::text::{owned, str_eq};

verus! {

/// How generous an API client's rate limits are.
#[derive(Debug, Clone, Copy, PartialEq, Eq, Structural)]
pub enum RateLimitTier {
    Basic,
    Premium,
    Admin,
}

/// Who a request comes from and what it may do.
#[derive(Debug, Clone)]
pub struct AuthContext {
    pub user_did: Option<String>,
    pub permissions: Vec<String>,
    pub rate_limit_tier: RateLimitTier,
    pub session_id: Option<String>,
    pub api_key_id: Option<String>,
}

/// `perms` holds the permission `p`.
pub open spec fn holds_permission(perms: Seq<String>, p: Seq<char>) -> bool {
    exists|i: int| 0 <= i < perms.len() && perms[i]@ == p
}

fn contains_permission(perms: &Vec<String>, p: &str) -> (r: bool)
    ensures
        r == holds_permission(perms@, p@),
{
    let mut i: usize = 0;
    while i < perms.len()
        invariant
            i <= perms@.len(),
            forall|m: int| 0 <= m < i ==> perms@[m]@ != p@,
        decreases perms@.len() - i,
    {
        if str_eq(perms[i].as_str(), p) {
            return true;
        }
        i = i + 1;
    }
    false
}

impl Default for AuthContext {
    /// An anonymous caller with only the `public` permission.
    fn default() -> (r: AuthContext)
        ensures
            r.user_did is None,
            r.permissions@.len() == 1,
            r.permissions@[0]@ == "public"@,
            r.rate_limit_tier == RateLimitTier::Basic,
            r.session_id is None,
            r.api_key_id is None,
    {
        AuthContext {
            user_did: None,
            permissions: vec![owned("public")],
            rate_limit_tier: RateLimitTier::Basic,
            session_id: None,
            api_key_id: None,
        }
    }
}

impl AuthContext {
    /// Succeeds when the caller has `required_permission` (or `admin`);
    /// otherwise the error names the permission.
    pub fn require_permission(&self, required_permission: &str) -> (r: Result<(), String>)
        ensures
            r is Ok <==> (holds_permission(self.permissions@, required_permission@) || holds_permission(
                self.permissions@,
                "admin"@,
            )),
            r matches Err(e) ==> e@ == "Required permission: "@ + required_permission@,
    {
        if !self.has_permission(required_permission) {
            return Err(crate::text::concat("Required permission: ", required_permission));
        }
        Ok(())
    }

    /// Whether the caller has `required_permission`; `admin` has them all.
    pub fn has_permission(&self, required_permission: &str) -> (r: bool)
        ensures
            r == (holds_permission(self.permissions@, required_permission@) || holds_permission(
                self.permissions@,
                "admin"@,
            )),
    {
        contains_permission(&self.permissions, required_permission) || contains_permission(
            &self.permissions,
            "admin",
        )
    }
}

/// Limits on how often one client may call an endpoint.
#[derive(Debug, Clone, Copy, PartialEq, Eq, Structural)]
pub struct RateLimitConfig {
    pub requests_per_minute: u32,
    pub burst_size: u32,
}

impl Default for RateLimitConfig {
    /// Sixty requests a minute, ten in a burst.
    fn default() -> (r: RateLimitConfig)
        ensures
            r == (RateLimitConfig { requests_per_minute: 60, burst_size: 10 }),
    {
        RateLimitConfig { requests_per_minute: 60, burst_size: 10 }
    }
}

/// Milliseconds in the rate window of one minute.
pub const RATE_WINDOW_MS: u64 = 60000;

/// Milliseconds in the burst window of ten seconds.
pub const BURST_WINDOW_MS: u64 = 10000;

/// A request time still inside a window of `window` ms at `now`.
pub open spec fn recent(t: u64, now: u64, window: u64) -> bool {
    if now >= window {
        t > now - window
    } else {
        true
    }
}

/// The times of `s` still inside the window.
pub open spec fn recent_times(s: Seq<u64>, now: u64, window: u64) -> Seq<u64> {
    s.filter(|t: u64| recent(t, now, window))
}

/// The request times of one client.
#[derive(Debug, Clone)]
pub struct RateLimitState {
    pub requests: Vec<u64>,
}

impl RateLimitState {
    pub fn new() -> (r: RateLimitState)
        ensures
            r.requests@.len() == 0,
    {
        RateLimitState { requests: Vec::new() }
    }

    fn count_recent(requests: &Vec<u64>, now: u64, window: u64) -> (r: Vec<u64>)
        ensures
            r@ == recent_times(requests@, now, window),
    {
        let mut out: Vec<u64> = Vec::new();
        let mut i: usize = 0;
        while i < requests.len()
            invariant
                i <= requests@.len(),
                out@ == recent_times(requests@.subrange(0, i as int), now, window),
            decreases requests@.len() - i,
        {
            proof {
                let f = |t: u64| recent(t, now, window);
                requests@.subrange(0, i as int).lemma_filter_push(requests@[i as int], f);
                assert(requests@.subrange(0, i as int).push(requests@[i as int])
                    =~= requests@.subrange(0, i + 1));
            }
            let t = requests[i];
            let keep = if now >= window {
                t > now - window
            } else {
                true
            };
            if keep {
                out.push(t);
            }
            i = i + 1;
        }
        assert(requests@.subrange(0, requests@.len() as int) =~= requests@);
        out
    }

    /// Whether a request at `now` (milliseconds on a monotonic clock) is
    /// allowed: requests older than a minute are forgotten; the request is
    /// refused when the last minute already holds `requests_per_minute`
    /// requests or the last ten seconds `burst_size`; an allowed request is
    /// recorded.
    pub fn is_allowed(&mut self, config: &RateLimitConfig, now: u64) -> (r: bool)
        ensures
            ({
                let kept = recent_times(old(self).requests@, now, RATE_WINDOW_MS);
                let burst = recent_times(kept, now, BURST_WINDOW_MS);
                &&& r == (kept.len() < config.requests_per_minute && burst.len()
                    < config.burst_size)
                &&& r ==> final(self).requests@ == kept.push(now)
                &&& !r ==> final(self).requests@ == kept
            }),
    {
        let kept = RateLimitState::count_recent(&self.requests, now, RATE_WINDOW_MS);
        self.requests = kept;
        if self.requests.len() >= config.requests_per_minute as usize {
            return false;
        }
        let burst = RateLimitState::count_recent(&self.requests, now, BURST_WINDOW_MS);
        if burst.len() >= config.burst_size as usize {
            return false;
        }
        self.requests.push(now);
        true
    }
}

/// Errors per field of a submitted form.
#[derive(Debug, Clone)]
pub struct ValidationResult {
    pub is_valid: bool,
    pub errors: Vec<(String, Vec<String>)>,
}

/// The messages recorded for `field`, in order.
pub open spec fn messages_for(errors: Seq<(String, Vec<String>)>, field: Seq<char>) -> Seq<String>
    decreases errors.len(),
{
    if errors.len() == 0 {
        Seq::empty()
    } else if errors.last().0@ == field {
        errors.last().1@
    } else {
        messages_for(errors.drop_last(), field)
    }
}

proof fn lemma_messages_update(s: Seq<(String, Vec<String>)>, j: int, e: (String, Vec<String>), f: Seq<char>)
    requires
        0 <= j < s.len(),
        e.0@ == s[j].0@,
        forall|i: int| j < i < s.len() ==> s[i].0@ != s[j].0@,
    ensures
        messages_for(s.update(j, e), f) == if f == s[j].0@ {
            e.1@
        } else {
            messages_for(s, f)
        },
    decreases s.len(),
{
    let t = s.update(j, e);
    if j == s.len() - 1 {
        assert(t.drop_last() =~= s.drop_last());
    } else {
        assert(t.drop_last() =~= s.drop_last().update(j, e));
        lemma_messages_update(s.drop_last(), j, e, f);
    }
}

impl ValidationResult {
    pub fn new() -> (r: ValidationResult)
        ensures
            r.is_valid,
            r.errors@.len() == 0,
    {
        ValidationResult { is_valid: true, errors: Vec::new() }
    }

    /// Records `message` against `field`; the result is then invalid.
    pub fn add_error(&mut self, field: String, message: String)
        ensures
            !final(self).is_valid,
            forall|f: Seq<char>|
                #[trigger] messages_for(final(self).errors@, f) == if f == field@ {
                    messages_for(old(self).errors@, f).push(message)
                } else {
                    messages_for(old(self).errors@, f)
                },
    {
        self.is_valid = false;
        let ghost s = self.errors@;
        let mut i: usize = self.errors.len();
        assert(s.subrange(0, i as int) =~= s);
        while i > 0
            invariant
                !self.is_valid,
                self.errors@ == s,
                s == old(self).errors@,
                i <= s.len(),
                forall|m: int| i <= m < s.len() ==> s[m].0@ != field@,
                forall|f: Seq<char>|
                    f == field@ ==> messages_for(s, f) == messages_for(s.subrange(0, i as int), f),
            decreases i,
        {
            let ghost pre = s.subrange(0, i as int);
            assert(pre.drop_last() =~= s.subrange(0, i - 1));
            if str_eq(self.errors[i - 1].0.as_str(), field.as_str()) {
                self.errors[i - 1].1.push(message);
                proof {
                    let j = (i - 1) as int;
                    assert(self.errors@ == s.update(j, self.errors@[j]));
                    assert(messages_for(s.subrange(0, i as int), field@) == s[j].1@);
                    assert(messages_for(s, field@) == s[j].1@);
                    assert(s == old(self).errors@);
                    assert(self.errors@[j].1@ == s[j].1@.push(message));
                    assert forall|f: Seq<char>| #[trigger] messages_for(self.errors@, f) == if f
                        == field@ {
                        messages_for(s, f).push(message)
                    } else {
                        messages_for(s, f)
                    } by {
                        lemma_messages_update(s, j, self.errors@[j], f);
                    }
                }
                return;
            }
            i = i - 1;
        }
        let ghost before = self.errors@;
        self.errors.push((field, vec![message]));
        proof {
            assert(self.errors@.drop_last() =~= before);
        }
    }

    /// Whether any error has been recorded.
    pub fn has_errors(&self) -> (r: bool)
        ensures
            r == !self.is_valid,
    {
        !self.is_valid
    }
}

} // verus!

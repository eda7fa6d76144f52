use vstd::prelude::*;

use crate::reply::Reply;

verus! {

#[verifier::external_type_specification]
#[verifier::external_body]
pub struct ExRateLimiter(leaky_bucket::RateLimiter);

#[verifier::external_type_specification]
#[verifier::external_body]
pub struct ExBuilder(leaky_bucket::Builder);

/// Permits the bucket starts with.
pub const MILK_INITIAL: usize = 5;

/// Permits the bucket gains at each interval.
pub const MILK_REFILL: usize = 1;

/// Seconds between two refills.
pub const MILK_INTERVAL_SECS: u64 = 1;

/// Most permits the bucket holds.
pub const MILK_MAX: usize = 5;

/// The settings chosen so far on a rate limiter builder.
pub struct BuilderSettings {
    pub max: Option<usize>,
    pub initial: usize,
    pub refill: usize,
    pub interval_ms: u128,
    pub fair: bool,
}

/// The settings that a rate limiter was built with: the permits it held when
/// built, and the maximum, refill, interval and fairness it keeps for its
/// life.
pub struct LimiterSettings {
    pub initial: usize,
    pub max: usize,
    pub refill: usize,
    pub interval_ms: u128,
    pub fair: bool,
}

/// The settings chosen so far on a builder (leaky_bucket's `Builder` keeps
/// them in private fields).
pub uninterp spec fn builder_settings(builder: leaky_bucket::Builder) -> BuilderSettings;

/// The settings a rate limiter was built with (leaky_bucket's `RateLimiter`
/// keeps maximum, refill, interval and fairness in private fields that
/// nothing changes after `build`; the initial count is the balance that
/// `build` stores in its state).
pub uninterp spec fn limiter_settings(limiter: leaky_bucket::RateLimiter) -> LimiterSettings;

/// The largest balance a leaky_bucket rate limiter supports.
pub open spec fn max_balance() -> int {
    isize::MAX as int
}

/// The smaller of two numbers.
pub open spec fn min_of(a: int, b: int) -> int {
    if a <= b {
        a
    } else {
        b
    }
}

/// The settings that `Builder::build` gives a rate limiter: counts capped at
/// the largest supported balance, and, when no maximum was chosen, ten times
/// the larger of refill and initial count, capped the same way; the initial
/// balance is the capped initial count, at most the maximum.
pub open spec fn built_settings(b: BuilderSettings) -> LimiterSettings {
    let initial = min_of(b.initial as int, max_balance());
    let refill = min_of(b.refill as int, max_balance());
    let max = match b.max {
        Some(m) => min_of(m as int, max_balance()),
        None => min_of(
            (if refill >= initial {
                refill
            } else {
                initial
            }) * 10,
            max_balance(),
        ),
    };
    LimiterSettings {
        initial: min_of(initial, max) as usize,
        max: max as usize,
        refill: refill as usize,
        interval_ms: b.interval_ms,
        fair: b.fair,
    }
}

/// `RateLimiter::builder` (leaky_bucket): a builder with no maximum chosen, no
/// initial permits, a refill of one permit every 100 ms, and fair scheduling,
/// as `Builder::default` in the crate's source sets them.
#[verifier::external_body]
fn limiter_builder() -> (b: leaky_bucket::Builder)
    ensures
        builder_settings(b) == (BuilderSettings {
            max: None,
            initial: 0,
            refill: 1,
            interval_ms: 100,
            fair: true,
        }),
{
    leaky_bucket::RateLimiter::builder()
}

/// `Builder::initial` (leaky_bucket): sets the initial number of permits and
/// nothing else.
#[verifier::external_body]
fn builder_initial(builder: &mut leaky_bucket::Builder, initial: usize)
    ensures
        builder_settings(*final(builder)) == (BuilderSettings {
            initial,
            ..builder_settings(*old(builder))
        }),
{
    builder.initial(initial);
}

/// `Builder::refill` (leaky_bucket): sets the permits added at each interval
/// and nothing else; it panics on zero, which `requires` leaves out.
#[verifier::external_body]
fn builder_refill(builder: &mut leaky_bucket::Builder, refill: usize)
    requires
        refill > 0,
    ensures
        builder_settings(*final(builder)) == (BuilderSettings {
            refill,
            ..builder_settings(*old(builder))
        }),
{
    builder.refill(refill);
}

/// `Builder::interval` (leaky_bucket), given a whole number of seconds turned
/// into a `Duration`: sets the time between refills and nothing else; it
/// panics when the interval is zero milliseconds or more than `u64::MAX`
/// milliseconds, which `requires` leaves out.
#[verifier::external_body]
fn builder_interval_secs(builder: &mut leaky_bucket::Builder, secs: u64)
    requires
        0 < secs,
        secs * 1000 <= u64::MAX,
    ensures
        builder_settings(*final(builder)) == (BuilderSettings {
            interval_ms: (secs * 1000) as u128,
            ..builder_settings(*old(builder))
        }),
{
    builder.interval(std::time::Duration::from_secs(secs));
}

/// `Builder::max` (leaky_bucket): sets the most permits the bucket holds and
/// nothing else.
#[verifier::external_body]
fn builder_max(builder: &mut leaky_bucket::Builder, max: usize)
    ensures
        builder_settings(*final(builder)) == (BuilderSettings {
            max: Some(max),
            ..builder_settings(*old(builder))
        }),
{
    builder.max(max);
}

/// `Builder::build` (leaky_bucket): a rate limiter with the builder's
/// settings, capped as the crate's source caps them, holding its initial
/// balance. The balance afterwards lives in an atomic that the limiter
/// changes behind shared references and is not stated.
#[verifier::external_body]
fn builder_build(builder: &leaky_bucket::Builder) -> (limiter: leaky_bucket::RateLimiter)
    ensures
        limiter_settings(limiter) == built_settings(builder_settings(*builder)),
{
    builder.build()
}

/// `RateLimiter::try_acquire` (leaky_bucket): takes `permits` from the bucket
/// if it holds that many after refilling for the time that passed. What it
/// answers depends on the clock and on earlier calls; the crate documents
/// that zero permits are always granted.
#[verifier::external_body]
fn try_acquire(limiter: &leaky_bucket::RateLimiter, permits: usize) -> (granted: bool)
    ensures
        permits == 0 ==> granted,
{
    limiter.try_acquire(permits)
}

/// `granted` is an answer that the bucket can give when asked for `permits`
/// permits: what [`try_acquire`] may return for those arguments.
pub closed spec fn acquire_answer(limiter: leaky_bucket::RateLimiter, permits: usize, granted: bool) -> bool {
    call_ensures(try_acquire, (&limiter, permits), granted)
}

/// The rate limiter of the milk bucket: it starts with five permits, gains one
/// each second, and holds at most five.
pub fn new_rate_limiter() -> (limiter: leaky_bucket::RateLimiter)
    ensures
        limiter_settings(limiter) == (LimiterSettings {
            initial: MILK_INITIAL,
            max: MILK_MAX,
            refill: MILK_REFILL,
            interval_ms: (MILK_INTERVAL_SECS * 1000) as u128,
            fair: true,
        }),
{
    let mut builder = limiter_builder();
    builder_initial(&mut builder, MILK_INITIAL);
    builder_refill(&mut builder, MILK_REFILL);
    builder_interval_secs(&mut builder, MILK_INTERVAL_SECS);
    builder_max(&mut builder, MILK_MAX);
    builder_build(&builder)
}

/// The answer to a request for milk: 200 when a permit was granted, 429 when
/// the bucket is empty.
pub fn milk_reply(granted: bool) -> (r: Reply)
    ensures
        granted ==> r.is_text(200, "Milk withdrawn\n"@),
        !granted ==> r.is_text(429, "No milk available\n"@),
{
    if granted {
        Reply::text(200, String::from_str("Milk withdrawn\n"))
    } else {
        Reply::text(429, String::from_str("No milk available\n"))
    }
}

/// Asks the bucket for one permit and answers as [`milk_reply`] does for the
/// bucket's answer. Which answer the bucket gives depends on the clock and on
/// earlier requests.
pub fn milk(limiter: &leaky_bucket::RateLimiter) -> (r: Reply)
    ensures
        exists|granted: bool|
            {
                &&& acquire_answer(*limiter, 1, granted)
                &&& granted ==> r.is_text(200, "Milk withdrawn\n"@)
                &&& !granted ==> r.is_text(429, "No milk available\n"@)
            },
{
    let granted = try_acquire(limiter, 1);
    assert(acquire_answer(*limiter, 1, granted));
    milk_reply(granted)
}

} // verus!

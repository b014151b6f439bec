//! Finding relays in DNS by the reverse name of a source.

use crate::dns::{append_label, joined};
use crate::net::{
    ipv4_octets, ipv6_octets, AddressText, IpAddr, Ipv4Addr, Ipv6Addr, SocketAddr,
};
use crate::random::{drawn_or, random_u64};
use crate::text::{
    append_decimal, chars_of, decimal, hex_digit, hex_of, is_white_space, lemma_ascii_is_utf8,
    lemma_decimal_is_ascii, same_text, text_of, white_space,
};
use crate::time::{Duration, Instant};
use std::collections::VecDeque;
use vstd::arithmetic::power::pow;
use vstd::prelude::*;
use vstd::utf8::{encode_utf8, valid_utf8};
pub use crate::dns::{
    parse_amtrelay_rdata, AmtRelayRecord, AmtRelayTarget, AMTRELAY_RRTYPE,
};

verus! {

/// Why no relay was found.
#[derive(Debug, PartialEq, Eq)]
#[allow(inconsistent_fields)]
pub enum DriadError {
    NoResolvers,
    InsecureResolver(SocketAddr),
    NoRecords(String),
    NoUsableRelay,
    NoRelayPresent,
    AliasLoop(String),
    AliasDepthExceeded(String),
    Truncated(&'static str),
    InvalidDnsName(String),
    InvalidDnsPointer,
    InvalidResponseId { expected: u16, actual: u16 },
    DnsResponseCode(u8),
    InvalidDnsFlags(u16),
    InvalidQuestion,
    InvalidRelayType(u8),
    InvalidRelayLength { relay_type: u8, expected: usize, actual: usize },
    InvalidRelayName,
    InvalidConfig(&'static str),
    Randomness(String),
    Io(String),
}

/// A [`DriadError`] with its names as UTF-8 bytes.
#[allow(inconsistent_fields)]
pub enum DriadErrorModel {
    NoResolvers,
    InsecureResolver(SocketAddr),
    NoRecords(Seq<u8>),
    NoUsableRelay,
    NoRelayPresent,
    AliasLoop(Seq<u8>),
    AliasDepthExceeded(Seq<u8>),
    Truncated(Seq<char>),
    InvalidDnsName(Seq<u8>),
    InvalidDnsPointer,
    InvalidResponseId { expected: u16, actual: u16 },
    DnsResponseCode(u8),
    InvalidDnsFlags(u16),
    InvalidQuestion,
    InvalidRelayType(u8),
    InvalidRelayLength { relay_type: u8, expected: int, actual: int },
    InvalidRelayName,
    InvalidConfig(Seq<char>),
    Randomness(Seq<u8>),
    Io(Seq<u8>),
}

impl View for DriadError {
    type V = DriadErrorModel;

    open spec fn view(&self) -> DriadErrorModel {
        match *self {
            DriadError::NoResolvers => DriadErrorModel::NoResolvers,
            DriadError::InsecureResolver(resolver) => DriadErrorModel::InsecureResolver(resolver),
            DriadError::NoRecords(name) => DriadErrorModel::NoRecords(encode_utf8(name@)),
            DriadError::NoUsableRelay => DriadErrorModel::NoUsableRelay,
            DriadError::NoRelayPresent => DriadErrorModel::NoRelayPresent,
            DriadError::AliasLoop(name) => DriadErrorModel::AliasLoop(encode_utf8(name@)),
            DriadError::AliasDepthExceeded(name) => DriadErrorModel::AliasDepthExceeded(
                encode_utf8(name@),
            ),
            DriadError::Truncated(context) => DriadErrorModel::Truncated(context@),
            DriadError::InvalidDnsName(name) => DriadErrorModel::InvalidDnsName(
                encode_utf8(name@),
            ),
            DriadError::InvalidDnsPointer => DriadErrorModel::InvalidDnsPointer,
            DriadError::InvalidResponseId { expected, actual } => {
                DriadErrorModel::InvalidResponseId { expected, actual }
            },
            DriadError::DnsResponseCode(code) => DriadErrorModel::DnsResponseCode(code),
            DriadError::InvalidDnsFlags(flags) => DriadErrorModel::InvalidDnsFlags(flags),
            DriadError::InvalidQuestion => DriadErrorModel::InvalidQuestion,
            DriadError::InvalidRelayType(relay_type) => {
                DriadErrorModel::InvalidRelayType(relay_type)
            },
            DriadError::InvalidRelayLength { relay_type, expected, actual } => {
                DriadErrorModel::InvalidRelayLength {
                    relay_type,
                    expected: expected as int,
                    actual: actual as int,
                }
            },
            DriadError::InvalidRelayName => DriadErrorModel::InvalidRelayName,
            DriadError::InvalidConfig(what) => DriadErrorModel::InvalidConfig(what@),
            DriadError::Randomness(error) => DriadErrorModel::Randomness(encode_utf8(error@)),
            DriadError::Io(error) => DriadErrorModel::Io(encode_utf8(error@)),
        }
    }
}

/// The anycast address of relays, 192.52.193.1, as a number.
pub const AMT_ANYCAST_IPV4_BITS: u32 = 0xc034_c101;

/// The anycast address of relays, 2001:3::1, as a number.
pub const AMT_ANYCAST_IPV6_BITS: u128 = 0x2001_0003_0000_0000_0000_0000_0000_0001;

/// The port of a DNS resolver.
pub const DNS_PORT: u16 = 53;

/// How many names are asked for, aliases among them, before a lookup is given
/// up.
pub const MAX_ALIAS_DEPTH: usize = 8;

/// The anycast address of relays, 192.52.193.1.
pub fn amt_anycast_ipv4() -> (address: Ipv4Addr)
    ensures
        address == (Ipv4Addr { bits: AMT_ANYCAST_IPV4_BITS }),
{
    Ipv4Addr { bits: AMT_ANYCAST_IPV4_BITS }
}

/// The anycast address of relays, 2001:3::1.
pub fn amt_anycast_ipv6() -> (address: Ipv6Addr)
    ensures
        address == (Ipv6Addr { bits: AMT_ANYCAST_IPV6_BITS }),
{
    Ipv6Addr { bits: AMT_ANYCAST_IPV6_BITS }
}

/// How names are looked up.
#[derive(Debug, PartialEq, Eq)]
pub struct DriadResolverConfig {
    pub resolvers: Vec<SocketAddr>,
    pub timeout: Duration,
    pub attempts: usize,
    pub allow_insecure_dns: bool,
    pub max_candidates: usize,
    pub max_queries_per_window: usize,
    pub query_rate_window: Duration,
}

impl DriadResolverConfig {
    /// One second for an answer, two attempts, at most 64 candidates, and ten
    /// queries in 100 milliseconds.
    pub fn new(resolvers: Vec<SocketAddr>) -> (config: Self)
        ensures
            config == (DriadResolverConfig {
                resolvers,
                timeout: Duration::secs_spec(1),
                attempts: 2,
                allow_insecure_dns: false,
                max_candidates: 64,
                max_queries_per_window: 10,
                query_rate_window: Duration::millis_spec(100),
            }),
    {
        DriadResolverConfig {
            resolvers,
            timeout: Duration::from_secs(1),
            attempts: 2,
            allow_insecure_dns: false,
            max_candidates: 64,
            max_queries_per_window: 10,
            query_rate_window: Duration::from_millis(100),
        }
    }
}

impl Clone for DriadResolverConfig {
    fn clone(&self) -> (copy: Self)
        ensures
            copy.resolvers@ == self.resolvers@,
            copy.timeout == self.timeout,
            copy.attempts == self.attempts,
            copy.allow_insecure_dns == self.allow_insecure_dns,
            copy.max_candidates == self.max_candidates,
            copy.max_queries_per_window == self.max_queries_per_window,
            copy.query_rate_window == self.query_rate_window,
    {
        let mut resolvers: Vec<SocketAddr> = Vec::new();
        let mut i: usize = 0;
        while i < self.resolvers.len()
            invariant
                i <= self.resolvers@.len(),
                resolvers@ == self.resolvers@.take(i as int),
            decreases self.resolvers@.len() - i,
        {
            resolvers.push(self.resolvers[i]);
            proof {
                assert(self.resolvers@.take(i + 1) =~= self.resolvers@.take(i as int).push(
                    self.resolvers@[i as int],
                ));
            }
            i += 1;
        }
        proof {
            assert(self.resolvers@.take(i as int) =~= self.resolvers@);
        }
        DriadResolverConfig {
            resolvers,
            timeout: self.timeout,
            attempts: self.attempts,
            allow_insecure_dns: self.allow_insecure_dns,
            max_candidates: self.max_candidates,
            max_queries_per_window: self.max_queries_per_window,
            query_rate_window: self.query_rate_window,
        }
    }
}

/// The first resolver that is not on this host.
pub open spec fn first_remote(resolvers: Seq<SocketAddr>) -> Option<SocketAddr>
    decreases resolvers.len(),
{
    if resolvers.len() == 0 {
        None
    } else {
        match first_remote(resolvers.drop_last()) {
            Some(resolver) => Some(resolver),
            None => if resolvers.last().ip_spec().loopback_spec() {
                None
            } else {
                Some(resolvers.last())
            },
        }
    }
}

/// What is wrong with how names are to be looked up.
pub open spec fn lookup_config_error(
    resolvers: Seq<SocketAddr>,
    timeout: Duration,
    attempts: int,
    allow_insecure_dns: bool,
    max_candidates: int,
    max_queries_per_window: int,
    query_rate_window: Duration,
) -> Option<DriadErrorModel> {
    if resolvers.len() == 0 {
        Some(DriadErrorModel::NoResolvers)
    } else if !allow_insecure_dns && first_remote(resolvers) is Some {
        Some(DriadErrorModel::InsecureResolver(first_remote(resolvers)->Some_0))
    } else if timeout.nanos == 0 {
        Some(DriadErrorModel::InvalidConfig("timeout must not be zero"@))
    } else if attempts == 0 {
        Some(DriadErrorModel::InvalidConfig("attempts must not be zero"@))
    } else if max_candidates == 0 {
        Some(DriadErrorModel::InvalidConfig("maximum candidate count must not be zero"@))
    } else if max_queries_per_window == 0 {
        Some(DriadErrorModel::InvalidConfig("DNS query limit must not be zero"@))
    } else if query_rate_window.nanos == 0 {
        Some(DriadErrorModel::InvalidConfig("DNS query-rate window must not be zero"@))
    } else {
        None
    }
}

/// What is wrong with a configuration.
pub open spec fn config_error(config: DriadResolverConfig) -> Option<DriadErrorModel> {
    lookup_config_error(
        config.resolvers@,
        config.timeout,
        config.attempts as int,
        config.allow_insecure_dns,
        config.max_candidates as int,
        config.max_queries_per_window as int,
        config.query_rate_window,
    )
}

fn find_remote(resolvers: &Vec<SocketAddr>) -> (found: Option<SocketAddr>)
    ensures
        found == first_remote(resolvers@),
{
    let mut i: usize = 0;
    while i < resolvers.len()
        invariant
            i <= resolvers@.len(),
            first_remote(resolvers@.take(i as int)) is None,
        decreases resolvers@.len() - i,
    {
        proof {
            assert(resolvers@.take(i + 1).drop_last() =~= resolvers@.take(i as int));
        }
        if !resolvers[i].ip().is_loopback() {
            proof {
                lemma_first_remote_stays(resolvers@, i + 1);
            }
            return Some(resolvers[i]);
        }
        i += 1;
    }
    proof {
        assert(resolvers@.take(i as int) =~= resolvers@);
    }
    None
}

proof fn lemma_first_remote_stays(resolvers: Seq<SocketAddr>, n: int)
    requires
        0 <= n <= resolvers.len(),
        first_remote(resolvers.take(n)) is Some,
    ensures
        first_remote(resolvers) == first_remote(resolvers.take(n)),
    decreases resolvers.len() - n,
{
    if n == resolvers.len() {
        assert(resolvers.take(n) =~= resolvers);
    } else {
        assert(resolvers.take(n + 1).drop_last() =~= resolvers.take(n));
        lemma_first_remote_stays(resolvers, n + 1);
    }
}

/// Looks names up, not faster than configured.
#[derive(Debug, PartialEq, Eq)]
pub struct DriadResolver {
    pub config: DriadResolverConfig,
    pub query_limiter: DnsQueryLimiter,
}

impl DriadResolver {
    pub fn new(config: DriadResolverConfig) -> (resolver: Self)
        ensures
            resolver.config == config,
            resolver.query_limiter@ == (LimiterModel {
                maximum: if config.max_queries_per_window == 0 {
                    1
                } else {
                    config.max_queries_per_window as int
                },
                window: config.query_rate_window.max_spec(Duration::millis_spec(1)),
                queries: Seq::empty(),
            }),
    {
        let maximum: usize = if config.max_queries_per_window == 0 {
            1
        } else {
            config.max_queries_per_window
        };
        let window = config.query_rate_window.max(Duration::from_millis(1));
        DriadResolver { config, query_limiter: DnsQueryLimiter::new(maximum, window) }
    }

    pub fn config(&self) -> (config: &DriadResolverConfig)
        ensures
            *config == self.config,
    {
        &self.config
    }

    /// Whether the configuration can be used.
    pub fn validate(&self) -> (result: Result<(), DriadError>)
        ensures
            match result {
                Ok(()) => config_error(self.config) is None,
                Err(error) => config_error(self.config) == Some(error@),
            },
    {
        if self.config.resolvers.len() == 0 {
            return Err(DriadError::NoResolvers);
        }
        if !self.config.allow_insecure_dns {
            if let Some(resolver) = find_remote(&self.config.resolvers) {
                return Err(DriadError::InsecureResolver(resolver));
            }
        }
        if self.config.timeout.is_zero() {
            return Err(DriadError::InvalidConfig("timeout must not be zero"));
        }
        if self.config.attempts == 0 {
            return Err(DriadError::InvalidConfig("attempts must not be zero"));
        }
        if self.config.max_candidates == 0 {
            return Err(DriadError::InvalidConfig("maximum candidate count must not be zero"));
        }
        if self.config.max_queries_per_window == 0 {
            return Err(DriadError::InvalidConfig("DNS query limit must not be zero"));
        }
        if self.config.query_rate_window.is_zero() {
            return Err(DriadError::InvalidConfig("DNS query-rate window must not be zero"));
        }
        Ok(())
    }

    /// How long to wait for an answer at the given attempt, drawn between the
    /// configured timeout and that timeout doubled with each attempt.
    pub fn retry_timeout(&self, attempt: usize) -> (timeout: Duration)
        ensures
            exists|random: u64| timeout == #[trigger] retry_timeout_spec(
                self.config.timeout,
                attempt,
                random,
            ),
    {
        let (lower, upper) = retry_bounds(self.config.timeout, attempt);
        let timeout = randomized_duration(lower, upper);
        proof {
            let random = choose|random: u64| timeout == duration_between(lower, upper, random);
            assert(timeout == retry_timeout_spec(self.config.timeout, attempt, random));
        }
        timeout
    }
}

/// The longest time that an answer is waited for.
pub open spec fn retry_upper(timeout: Duration, attempt: usize) -> Duration {
    let factor = vstd::arithmetic::power2::pow2(
        if attempt < 6 {
            attempt as nat
        } else {
            6
        },
    );
    let maximum = Duration::secs_spec(120);
    if timeout.nanos * factor <= maximum.nanos {
        Duration { nanos: (timeout.nanos * factor) as u128 }
    } else {
        maximum
    }
}

/// The time that an answer is waited for, given a random number.
pub open spec fn retry_timeout_spec(timeout: Duration, attempt: usize, random: u64) -> Duration {
    let upper = retry_upper(timeout, attempt);
    duration_between(timeout.min_spec(upper), upper, random)
}

fn retry_bounds(timeout: Duration, attempt: usize) -> (bounds: (Duration, Duration))
    ensures
        bounds.1 == retry_upper(timeout, attempt),
        bounds.0 == timeout.min_spec(bounds.1),
        bounds.1.nanos <= 120_000_000_000,
{
    let factor: u32 = match attempt {
        0 => 1,
        1 => 2,
        2 => 4,
        3 => 8,
        4 => 16,
        5 => 32,
        _ => 64,
    };
    proof {
        vstd::arithmetic::power2::lemma2_to64();
    }
    let maximum = Duration::from_secs(120);
    let upper = match timeout.checked_mul(factor) {
        Some(span) => span.min(maximum),
        None => maximum,
    };
    (timeout.min(upper), upper)
}

/// The milliseconds of a span, as far as 64 bits hold them.
pub open spec fn low_millis(span: Duration) -> u64 {
    (span.nanos / 1_000_000) as u64
}

/// The span between two bounds, in whole milliseconds, that a random number
/// picks; the lower bound itself where there is nothing to pick.
pub open spec fn duration_between(lower: Duration, upper: Duration, random: u64) -> Duration {
    if low_millis(lower) >= low_millis(upper) {
        lower
    } else {
        Duration::millis_spec(
            (low_millis(lower) + random as int % (low_millis(upper) - low_millis(lower)
                + 1)) as u64,
        )
    }
}

#[verifier::truncate]
fn millis_of(span: Duration) -> (millis: u64)
    ensures
        millis == low_millis(span),
{
    span.as_millis() as u64
}

/// The span between two bounds that a random number picks.
pub fn randomized_duration_with(lower: Duration, upper: Duration, random: u64) -> (span: Duration)
    requires
        low_millis(upper) - low_millis(lower) < u64::MAX,
    ensures
        span == duration_between(lower, upper, random),
{
    let lower_ms: u64 = millis_of(lower);
    let upper_ms: u64 = millis_of(upper);
    if lower_ms >= upper_ms {
        return lower;
    }
    Duration::from_millis(lower_ms + random % (upper_ms - lower_ms + 1))
}

/// A random span between two bounds; where randomness fails, the upper one picks.
pub fn randomized_duration(lower: Duration, upper: Duration) -> (span: Duration)
    requires
        low_millis(upper) - low_millis(lower) < u64::MAX,
    ensures
        exists|random: u64| span == #[trigger] duration_between(lower, upper, random),
{
    let random: u64 = drawn_or(random_u64(), millis_of(upper));
    randomized_duration_with(lower, upper, random)
}

/// A randomized span lies between its bounds.
pub proof fn law_randomized_durations_stay_in_bounds(
    lower: Duration,
    upper: Duration,
    random: u64,
)
    requires
        lower.nanos / 1_000_000 <= u64::MAX,
        upper.nanos / 1_000_000 <= u64::MAX,
        lower.nanos <= upper.nanos,
    ensures
        low_millis(lower) <= low_millis(duration_between(lower, upper, random)),
        duration_between(lower, upper, random).nanos <= upper.nanos,
{
    let l = low_millis(lower);
    let u = low_millis(upper);
    if l < u {
        let span = duration_between(lower, upper, random);
        assert(span.nanos == (l + random as int % (u - l + 1)) * 1_000_000);
        assert(upper.nanos >= u * 1_000_000);
    }
}

/// Keeps queries apart: at most so many in any window of time.
#[derive(Debug, PartialEq, Eq)]
pub struct DnsQueryLimiter {
    pub maximum: usize,
    pub window: Duration,
    pub queries: VecDeque<Instant>,
}

/// A [`DnsQueryLimiter`] as a mathematical value.
#[verifier::ext_equal]
pub struct LimiterModel {
    pub maximum: int,
    pub window: Duration,
    pub queries: Seq<Instant>,
}

impl View for DnsQueryLimiter {
    type V = LimiterModel;

    open spec fn view(&self) -> LimiterModel {
        LimiterModel {
            maximum: self.maximum as int,
            window: self.window,
            queries: self.queries@,
        }
    }
}

/// The time from `earlier` to `now`, zero where `now` comes first.
pub open spec fn elapsed(now: Instant, earlier: Instant) -> int {
    if now.nanos >= earlier.nanos {
        now.nanos - earlier.nanos
    } else {
        0
    }
}

/// Queries without those at the front that lie a whole window back.
pub open spec fn fresh(queries: Seq<Instant>, window: Duration, now: Instant) -> Seq<Instant>
    decreases queries.len(),
{
    if queries.len() > 0 && elapsed(now, queries[0]) >= window.nanos {
        fresh(queries.skip(1), window, now)
    } else {
        queries
    }
}

/// The limiter after a request at the given time, and how long to wait, where
/// the query may not be sent yet.
pub open spec fn reserved(limiter: LimiterModel, now: Instant) -> (LimiterModel, Option<Duration>) {
    let queries = fresh(limiter.queries, limiter.window, now);
    if queries.len() < limiter.maximum {
        (LimiterModel { queries: queries.push(now), ..limiter }, None)
    } else if queries.len() == 0 {
        (LimiterModel { queries, ..limiter }, None)
    } else {
        (
            LimiterModel { queries, ..limiter },
            Some(
                Duration {
                    nanos: if limiter.window.nanos >= elapsed(now, queries[0]) {
                        (limiter.window.nanos - elapsed(now, queries[0])) as u128
                    } else {
                        0
                    },
                },
            ),
        )
    }
}

impl DnsQueryLimiter {
    pub fn new(maximum: usize, window: Duration) -> (limiter: Self)
        ensures
            limiter@ == (LimiterModel { maximum: maximum as int, window, queries: Seq::empty() }),
    {
        let limiter = DnsQueryLimiter { maximum, window, queries: VecDeque::new() };
        proof {
            assert(limiter@.queries =~= Seq::empty());
        }
        limiter
    }

    /// Takes note of a query that is sent now, or says how long to wait.
    pub fn reserve_at(&mut self, now: Instant) -> (wait: Option<Duration>)
        ensures
            (final(self)@, wait) == reserved(old(self)@, now),
    {
        while self.queries.len() > 0 && now.duration_since(self.queries[0]).nanos
            >= self.window.nanos
            invariant
                self.maximum == old(self).maximum,
                self.window == old(self).window,
                fresh(self.queries@, self.window, now) == fresh(
                    old(self).queries@,
                    self.window,
                    now,
                ),
            decreases self.queries@.len(),
        {
            let ghost before = self.queries@;
            self.queries.pop_front();
            proof {
                assert(self.queries@ =~= before.skip(1));
            }
        }
        if self.queries.len() < self.maximum {
            self.queries.push_back(now);
            return None;
        }
        if self.queries.len() == 0 {
            return None;
        }
        Some(self.window.saturating_sub(now.duration_since(self.queries[0])))
    }
}

/// When queries were let through, over requests at the given times.
pub open spec fn let_through(limiter: LimiterModel, requests: Seq<Instant>) -> Seq<Instant>
    decreases requests.len(),
{
    if requests.len() == 0 {
        Seq::empty()
    } else {
        let now = requests.last();
        let earlier = let_through(limiter, requests.drop_last());
        if reserved(after_requests(limiter, requests.drop_last()), now).1 is None {
            earlier.push(now)
        } else {
            earlier
        }
    }
}

/// The limiter after requests at the given times.
pub open spec fn after_requests(limiter: LimiterModel, requests: Seq<Instant>) -> LimiterModel
    decreases requests.len(),
{
    if requests.len() == 0 {
        limiter
    } else {
        reserved(after_requests(limiter, requests.drop_last()), requests.last()).0
    }
}

/// Whether the times do not run backwards.
pub open spec fn in_time_order(times: Seq<Instant>) -> bool {
    forall|i: int, j: int|
        0 <= i <= j < times.len() ==> (#[trigger] times[i]).nanos <= (#[trigger] times[j]).nanos
}

proof fn lemma_fresh(queries: Seq<Instant>, window: Duration, now: Instant) -> (dropped: int)
    ensures
        0 <= dropped <= queries.len(),
        fresh(queries, window, now) == queries.skip(dropped),
        forall|i: int| 0 <= i < dropped ==> elapsed(now, #[trigger] queries[i]) >= window.nanos,
    decreases queries.len(),
{
    if queries.len() > 0 && elapsed(now, queries[0]) >= window.nanos {
        let rest = queries.skip(1);
        let n = lemma_fresh(rest, window, now);
        assert(rest.skip(n) =~= queries.skip(n + 1));
        assert forall|i: int| 0 <= i < n + 1 implies elapsed(now, #[trigger] queries[i])
            >= window.nanos by {
            if i > 0 {
                assert(rest[i - 1] == queries[i]);
            }
        }
        n + 1
    } else {
        assert(queries.skip(0) =~= queries);
        0
    }
}

proof fn lemma_let_through(limiter: LimiterModel, requests: Seq<Instant>) -> (gone: int)
    requires
        limiter.queries.len() == 0,
        limiter.maximum > 0,
        limiter.window.nanos > 0,
        in_time_order(requests),
    ensures
        ({
            let sent = let_through(limiter, requests);
            let after = after_requests(limiter, requests);
            &&& after.maximum == limiter.maximum
            &&& after.window == limiter.window
            &&& 0 <= gone <= sent.len()
            &&& after.queries == sent.skip(gone)
            &&& after.queries.len() <= limiter.maximum
            &&& forall|i: int|
                0 <= i < sent.len() ==> (#[trigger] sent[i]).nanos <= requests.last().nanos
            &&& sent.len() > 0 ==> requests.len() > 0
            &&& forall|i: int|
                0 <= i < gone ==> requests.last().nanos - (#[trigger] sent[i]).nanos
                    >= limiter.window.nanos
            &&& forall|i: int|
                0 <= i && i + limiter.maximum < sent.len() ==> sent[i + limiter.maximum].nanos - (
                #[trigger] sent[i]).nanos >= limiter.window.nanos
        }),
    decreases requests.len(),
{
    if requests.len() == 0 {
        assert(let_through(limiter, requests).skip(0) =~= limiter.queries);
        0
    } else {
        let earlier = requests.drop_last();
        let now = requests.last();
        let g = lemma_let_through(limiter, earlier);
        let sent = let_through(limiter, earlier);
        let before = after_requests(limiter, earlier);
        let dropped = lemma_fresh(before.queries, limiter.window, now);
        let queries = fresh(before.queries, limiter.window, now);
        let all = let_through(limiter, requests);
        let gone = g + dropped;
        assert(queries =~= sent.skip(gone));
        if earlier.len() > 0 {
            assert(requests[earlier.len() - 1].nanos <= requests[earlier.len() as int].nanos);
            assert(earlier.last() == requests[earlier.len() - 1]);
        }
        assert forall|i: int| 0 <= i < gone implies now.nanos - (#[trigger] sent[i]).nanos
            >= limiter.window.nanos by {
            if i >= g {
                assert(before.queries[i - g] == sent[i]);
                assert(elapsed(now, before.queries[i - g]) >= limiter.window.nanos);
            }
        }
        if queries.len() < limiter.maximum {
            assert(all == sent.push(now));
            assert(all.skip(gone) =~= queries.push(now));
            assert forall|i: int| 0 <= i < gone implies now.nanos - (#[trigger] all[i]).nanos
                >= limiter.window.nanos by {
                assert(all[i] == sent[i]);
            }
            assert forall|i: int| 0 <= i && i + limiter.maximum < all.len() implies all[i
                + limiter.maximum].nanos - (#[trigger] all[i]).nanos >= limiter.window.nanos by {
                assert(all[i] == sent[i]);
                if i + limiter.maximum < sent.len() {
                    assert(all[i + limiter.maximum] == sent[i + limiter.maximum]);
                    assert(sent[i + limiter.maximum].nanos - sent[i].nanos
                        >= limiter.window.nanos);
                } else {
                    assert(i < gone);
                }
            }
            assert forall|i: int| 0 <= i < all.len() implies (#[trigger] all[i]).nanos
                <= now.nanos by {
                if i < sent.len() {
                    assert(all[i] == sent[i]);
                }
            }
        } else {
            assert(queries.len() > 0);
            assert(all == sent);
        }
        gone
    }
}

/// However often queries are asked for, as long as the clock does not run
/// backwards, at most the maximum is let through in any window: a query and the
/// one that comes `maximum` queries later lie a window apart.
pub proof fn law_queries_are_kept_apart(limiter: LimiterModel, requests: Seq<Instant>, i: int)
    requires
        limiter.queries.len() == 0,
        limiter.maximum > 0,
        limiter.window.nanos > 0,
        in_time_order(requests),
        0 <= i,
        i + limiter.maximum < let_through(limiter, requests).len(),
    ensures
        let_through(limiter, requests)[i + limiter.maximum].nanos - let_through(
            limiter,
            requests,
        )[i].nanos >= limiter.window.nanos,
{
    let _ = lemma_let_through(limiter, requests);
}

/// The name under which the relays for an IPv4 source are found: its octets in
/// reverse.
pub open spec fn reverse_ipv4(address: Ipv4Addr) -> Seq<u8> {
    let octets = ipv4_octets(address);
    joined(
        seq![
            decimal(octets[3] as nat),
            decimal(octets[2] as nat),
            decimal(octets[1] as nat),
            decimal(octets[0] as nat),
        ],
    ) + encode_utf8(".in-addr.arpa"@)
}

/// The hexadecimal digits of an IPv6 address, the last one first, each a label.
pub open spec fn reverse_digits(address: Ipv6Addr) -> Seq<Seq<u8>> {
    Seq::new(
        32,
        |i: int|
            {
                let octet = ipv6_octets(address)[15 - i / 2] as int;
                seq![
                    hex_digit(
                        if i % 2 == 0 {
                            octet % 16
                        } else {
                            octet / 16
                        },
                    ),
                ]
            },
    )
}

/// The name under which the relays for a source are found.
pub open spec fn reverse_name(source: IpAddr) -> Seq<u8> {
    match source {
        IpAddr::V4(address) => reverse_ipv4(address),
        IpAddr::V6(address) => joined(reverse_digits(address)) + encode_utf8(".ip6.arpa"@),
    }
}

fn decimal_label(n: u8) -> (label: Vec<u8>)
    ensures
        label@ == decimal(n as nat),
        valid_utf8(label@),
{
    let mut label: Vec<u8> = Vec::new();
    append_decimal(&mut label, n as u64);
    proof {
        assert(label@ =~= decimal(n as nat));
        lemma_decimal_is_ascii(n as nat);
        lemma_ascii_is_utf8(label@);
    }
    label
}

fn with_suffix(name: Vec<u8>, suffix: &str) -> (text: String)
    requires
        valid_utf8(name@),
    ensures
        encode_utf8(text@) == name@ + encode_utf8(suffix@),
{
    let mut all: Vec<u8> = name;
    crate::bytes::append_bytes(&mut all, suffix.as_bytes());
    proof {
        crate::text::lemma_text_is_utf8(suffix@);
        vstd::utf8::valid_utf8_concat(name@, encode_utf8(suffix@));
    }
    text_of(all)
}

/// The name under which the relays for a source are found.
pub fn reverse_source_name(source: IpAddr) -> (name: String)
    ensures
        encode_utf8(name@) == reverse_name(source),
{
    let mut out: Vec<u8> = Vec::new();
    proof {
        lemma_ascii_is_utf8(out@);
    }
    match source {
        IpAddr::V4(address) => {
            let octets = address.octets();
            let ghost mut labels: Seq<Seq<u8>> = Seq::empty();
            proof {
                assert(out@ =~= joined(labels));
            }
            let mut i: usize = 4;
            while i > 0
                invariant
                    i <= 4,
                    octets@ == ipv4_octets(address),
                    labels.len() == 4 - i,
                    forall|k: int|
                        0 <= k < labels.len() ==> #[trigger] labels[k] == decimal(
                            octets@[3 - k] as nat,
                        ),
                    out@ == joined(labels),
                    valid_utf8(out@),
                decreases i,
            {
                i -= 1;
                let label = decimal_label(octets[i]);
                append_label(&mut out, i == 3, label.as_slice(), Ghost(labels));
                proof {
                    labels = labels.push(label@);
                }
            }
            proof {
                assert(labels =~= seq![
                    decimal(octets@[3] as nat),
                    decimal(octets@[2] as nat),
                    decimal(octets@[1] as nat),
                    decimal(octets@[0] as nat),
                ]);
            }
            with_suffix(out, ".in-addr.arpa")
        },
        IpAddr::V6(address) => {
            let octets = address.octets();
            let ghost all = reverse_digits(address);
            proof {
                assert(all.take(0) =~= Seq::empty());
                assert(out@ =~= joined(all.take(0)));
            }
            let mut i: usize = 0;
            while i < 32
                invariant
                    i <= 32,
                    octets@ == ipv6_octets(address),
                    all == reverse_digits(address),
                    out@ == joined(all.take(i as int)),
                    valid_utf8(out@),
                decreases 32 - i,
            {
                let octet: u8 = octets[15 - i / 2];
                let digit: u8 = hex_of(
                    if i % 2 == 0 {
                        octet % 16
                    } else {
                        octet / 16
                    },
                );
                let mut label: Vec<u8> = Vec::new();
                label.push(digit);
                proof {
                    lemma_ascii_is_utf8(label@);
                    assert(label@ =~= all[i as int]);
                    assert(all.take(i + 1) =~= all.take(i as int).push(all[i as int]));
                }
                append_label(&mut out, i == 0, label.as_slice(), Ghost(all.take(i as int)));
                i += 1;
            }
            proof {
                assert(all.take(32) =~= all);
            }
            with_suffix(out, ".ip6.arpa")
        },
    }
}

/// The resolver that a text names: a socket address, or an IP address with the
/// DNS port.
pub open spec fn resolver_addr(value: AddressText) -> Result<SocketAddr, DriadErrorModel> {
    match (value.socket, value.ip) {
        (Some(socket), _) => Ok(socket),
        (None, Some(ip)) => Ok(SocketAddr::of(ip, DNS_PORT)),
        (None, None) => Err(DriadErrorModel::InvalidDnsName(encode_utf8(value.text@))),
    }
}

/// The resolver that a text names.
pub fn parse_resolver_addr(value: &AddressText) -> (result: Result<SocketAddr, DriadError>)
    ensures
        match result {
            Ok(resolver) => resolver_addr(*value) == Ok::<SocketAddr, DriadErrorModel>(resolver),
            Err(error) => resolver_addr(*value) == Err::<SocketAddr, DriadErrorModel>(error@),
        },
{
    if let Some(socket) = value.socket {
        return Ok(socket);
    }
    if let Some(ip) = value.ip {
        return Ok(SocketAddr::new(ip, DNS_PORT));
    }
    Err(DriadError::InvalidDnsName(value.text.clone()))
}

/// Where white space that starts at `i` ends.
pub open spec fn word_start(s: Seq<char>, i: int) -> int
    decreases s.len() - i,
{
    if 0 <= i < s.len() && white_space(s[i]) {
        word_start(s, i + 1)
    } else {
        i
    }
}

/// Where the word that starts at `i` ends.
pub open spec fn word_end(s: Seq<char>, i: int) -> int
    decreases s.len() - i,
{
    if 0 <= i < s.len() && !white_space(s[i]) {
        word_end(s, i + 1)
    } else {
        i
    }
}

/// Where the first `c` at `i` or later stands, or the end of the text.
pub open spec fn char_at(s: Seq<char>, i: int, c: char) -> int
    decreases s.len() - i,
{
    if 0 <= i < s.len() && s[i] != c {
        char_at(s, i + 1, c)
    } else {
        i
    }
}

/// The resolver that a line of a resolver configuration names: the word behind
/// `nameserver`, where that is the first word of the line without its comment.
pub open spec fn nameserver_in(line: Seq<char>) -> Option<Seq<char>> {
    let text = line.take(char_at(line, 0, '#'));
    let a = word_start(text, 0);
    let b = word_end(text, a);
    let c = word_start(text, b);
    let d = word_end(text, c);
    if text.subrange(a, b) == "nameserver"@ && c < d {
        Some(text.subrange(c, d))
    } else {
        None
    }
}

/// The resolvers that the lines of a resolver configuration name.
pub open spec fn nameservers_in(contents: Seq<char>) -> Seq<Seq<char>>
    decreases contents.len(),
{
    if contents.len() == 0 {
        Seq::empty()
    } else {
        let end = char_at(contents, 0, '\n');
        let first = match nameserver_in(contents.take(end)) {
            Some(name) => seq![name],
            None => Seq::empty(),
        };
        if 0 <= end < contents.len() {
            first + nameservers_in(contents.skip(end + 1))
        } else {
            first
        }
    }
}

proof fn lemma_scan_bounds(s: Seq<char>, i: int, c: char)
    requires
        0 <= i <= s.len(),
    ensures
        i <= word_start(s, i) <= s.len(),
        i <= word_end(s, i) <= s.len(),
        i <= char_at(s, i, c) <= s.len(),
        char_at(s, i, c) < s.len() ==> s[char_at(s, i, c)] == c,
    decreases s.len() - i,
{
    if i < s.len() {
        lemma_scan_bounds(s, i + 1, c);
    }
}

fn find_char(s: &Vec<char>, from: usize, to: usize, c: char) -> (at: usize)
    requires
        from <= to <= s@.len(),
    ensures
        from <= at <= to,
        at - from == char_at(s@.subrange(from as int, to as int), 0, c),
{
    let ghost part = s@.subrange(from as int, to as int);
    let mut at: usize = from;
    while at < to && s[at] != c
        invariant
            from <= at <= to <= s@.len(),
            part == s@.subrange(from as int, to as int),
            char_at(part, at - from, c) == char_at(part, 0, c),
        decreases to - at,
    {
        at += 1;
    }
    at
}

fn skip_white_space(s: &Vec<char>, start: usize, from: usize, to: usize) -> (at: usize)
    requires
        start <= from <= to <= s@.len(),
    ensures
        from <= at <= to,
        at - start == word_start(s@.subrange(start as int, to as int), from - start),
{
    let ghost part = s@.subrange(start as int, to as int);
    let mut at: usize = from;
    while at < to && is_white_space(s[at])
        invariant
            start <= from <= at <= to <= s@.len(),
            part == s@.subrange(start as int, to as int),
            word_start(part, at - start) == word_start(part, from - start),
        decreases to - at,
    {
        at += 1;
    }
    at
}

fn skip_word(s: &Vec<char>, start: usize, from: usize, to: usize) -> (at: usize)
    requires
        start <= from <= to <= s@.len(),
    ensures
        from <= at <= to,
        at - start == word_end(s@.subrange(start as int, to as int), from - start),
{
    let ghost part = s@.subrange(start as int, to as int);
    let mut at: usize = from;
    while at < to && !is_white_space(s[at])
        invariant
            start <= from <= at <= to <= s@.len(),
            part == s@.subrange(start as int, to as int),
            word_end(part, at - start) == word_end(part, from - start),
        decreases to - at,
    {
        at += 1;
    }
    at
}

fn read_nameserver(contents: &str, chars: &Vec<char>, from: usize, to: usize) -> (name: Option<
    String,
>)
    requires
        chars@ == contents@,
        from <= to <= chars@.len(),
    ensures
        match name {
            Some(name) => nameserver_in(contents@.subrange(from as int, to as int)) == Some(name@),
            None => nameserver_in(contents@.subrange(from as int, to as int)) is None,
        },
{
    let ghost line = contents@.subrange(from as int, to as int);
    let end: usize = find_char(chars, from, to, '#');
    let ghost text = contents@.subrange(from as int, end as int);
    proof {
        assert(line.take(end - from) =~= text);
    }
    let a: usize = skip_white_space(chars, from, from, end);
    let b: usize = skip_word(chars, from, a, end);
    let c: usize = skip_white_space(chars, from, b, end);
    let d: usize = skip_word(chars, from, c, end);
    proof {
        assert(text.subrange(a - from, b - from) =~= contents@.subrange(a as int, b as int));
        assert(text.subrange(c - from, d - from) =~= contents@.subrange(c as int, d as int));
    }
    if same_text(contents.substring_char(a, b), "nameserver") && c < d {
        Some(contents.substring_char(c, d).to_owned())
    } else {
        None
    }
}

/// The texts in a list.
pub open spec fn texts(list: Seq<String>) -> Seq<Seq<char>> {
    list.map_values(|text: String| text@)
}

/// The resolvers that the contents of a resolver configuration name.
pub fn nameserver_entries(contents: &str) -> (names: Vec<String>)
    ensures
        texts(names@) == nameservers_in(contents@),
{
    let chars = chars_of(contents);
    let length: usize = chars.len();
    let mut names: Vec<String> = Vec::new();
    let mut start: usize = 0;
    proof {
        assert(contents@.skip(0) =~= contents@);
        assert(texts(names@) + nameservers_in(contents@) =~= nameservers_in(contents@));
    }
    while start < length
        invariant
            chars@ == contents@,
            length == contents@.len(),
            start <= length,
            nameservers_in(contents@) == texts(names@) + nameservers_in(
                contents@.skip(start as int),
            ),
        decreases length - start,
    {
        let end: usize = find_char(&chars, start, length, '\n');
        let ghost before = texts(names@);
        let ghost rest = contents@.skip(start as int);
        proof {
            assert(contents@.subrange(start as int, length as int) =~= rest);
            assert(rest.take(end - start) =~= contents@.subrange(start as int, end as int));
        }
        let found = read_nameserver(contents, &chars, start, end);
        if let Some(name) = found {
            names.push(name);
            proof {
                assert(texts(names@) =~= before.push(name@));
            }
        }
        proof {
            if end < length {
                assert(rest.skip(end - start + 1) =~= contents@.skip(end + 1));
                let tail = nameservers_in(contents@.skip(end + 1));
                assert(nameservers_in(contents@) =~= texts(names@) + tail);
            } else {
                assert(contents@.skip(length as int) =~= Seq::empty());
                assert(nameservers_in(contents@) =~= texts(names@) + nameservers_in(
                    contents@.skip(length as int),
                ));
            }
        }
        start = if end < length {
            end + 1
        } else {
            length
        };
    }
    proof {
        assert(contents@.skip(start as int) =~= Seq::empty());
        assert(texts(names@) + Seq::<Seq<char>>::empty() =~= texts(names@));
    }
    names
}

/// The resolvers that texts name, or what is wrong with the first that names
/// none.
pub open spec fn resolver_addrs(entries: Seq<AddressText>) -> Result<
    Seq<SocketAddr>,
    DriadErrorModel,
>
    decreases entries.len(),
{
    if entries.len() == 0 {
        Ok(Seq::empty())
    } else {
        match resolver_addrs(entries.drop_last()) {
            Err(error) => Err(error),
            Ok(found) => match resolver_addr(entries.last()) {
                Err(error) => Err(error),
                Ok(resolver) => Ok(found.push(resolver)),
            },
        }
    }
}

proof fn lemma_first_bad_resolver_stays(entries: Seq<AddressText>, n: int)
    requires
        0 <= n <= entries.len(),
        resolver_addrs(entries.take(n)) is Err,
    ensures
        resolver_addrs(entries) == resolver_addrs(entries.take(n)),
    decreases entries.len() - n,
{
    if n == entries.len() {
        assert(entries.take(n) =~= entries);
    } else {
        assert(entries.take(n + 1).drop_last() =~= entries.take(n));
        lemma_first_bad_resolver_stays(entries, n + 1);
    }
}

/// The resolvers that the entries of a resolver configuration name.
pub fn system_resolvers(entries: &Vec<AddressText>) -> (result: Result<
    Vec<SocketAddr>,
    DriadError,
>)
    ensures
        match result {
            Ok(found) => resolver_addrs(entries@) == Ok::<Seq<SocketAddr>, DriadErrorModel>(
                found@,
            ) && entries@.len() > 0,
            Err(error) => if entries@.len() == 0 {
                error@ == DriadErrorModel::NoResolvers
            } else {
                resolver_addrs(entries@) == Err::<Seq<SocketAddr>, DriadErrorModel>(error@)
            },
        },
{
    let mut found: Vec<SocketAddr> = Vec::new();
    let mut i: usize = 0;
    proof {
        assert(entries@.take(0) =~= Seq::empty());
    }
    while i < entries.len()
        invariant
            i <= entries@.len(),
            resolver_addrs(entries@.take(i as int)) == Ok::<Seq<SocketAddr>, DriadErrorModel>(
                found@,
            ),
        decreases entries@.len() - i,
    {
        proof {
            assert(entries@.take(i + 1).drop_last() =~= entries@.take(i as int));
        }
        match parse_resolver_addr(&entries[i]) {
            Ok(resolver) => found.push(resolver),
            Err(error) => {
                proof {
                    lemma_first_bad_resolver_stays(entries@, i + 1);
                }
                return Err(error);
            },
        }
        i += 1;
    }
    proof {
        assert(entries@.take(i as int) =~= entries@);
    }
    if found.len() == 0 {
        proof {
            lemma_resolver_count(entries@);
        }
        return Err(DriadError::NoResolvers);
    }
    Ok(found)
}

proof fn lemma_resolver_count(entries: Seq<AddressText>)
    ensures
        resolver_addrs(entries) matches Ok(found) ==> found.len() == entries.len(),
    decreases entries.len(),
{
    if entries.len() > 0 {
        lemma_resolver_count(entries.drop_last());
    }
}

proof fn lemma_short_labels(labels: Seq<Seq<u8>>)
    requires
        labels.len() > 0,
        forall|k: int| 0 <= k < labels.len() ==> (#[trigger] labels[k]).len() == 1,
    ensures
        joined(labels).len() == 2 * labels.len() - 1,
        forall|k: int|
            0 <= k < labels.len() ==> joined(labels)[2 * k] == (#[trigger] labels[k])[0],
        forall|k: int| 0 <= k < labels.len() - 1 ==> #[trigger] joined(labels)[2 * k + 1] == 46,
    decreases labels.len(),
{
    if labels.len() > 1 {
        let front = labels.drop_last();
        lemma_short_labels(front);
        let before = joined(front);
        assert(joined(labels) == before.push(46u8) + labels.last());
        assert forall|k: int| 0 <= k < labels.len() implies joined(labels)[2 * k] == (
        #[trigger] labels[k])[0] by {
            if k < front.len() {
                assert(front[k] == labels[k]);
            }
        }
        assert forall|k: int| 0 <= k < labels.len() - 1 implies #[trigger] joined(labels)[2 * k
            + 1] == 46 by {
            if k < front.len() - 1 {
                assert(before[2 * k + 1] == 46);
            }
        }
    }
}

proof fn lemma_half_octets(v: int, p: int)
    requires
        0 <= v,
        0 < p,
    ensures
        (v / p) % 16 == (v / p % 256) % 16,
        (v / (p * 16)) % 16 == (v / p % 256) / 16,
{
    vstd::arithmetic::div_mod::lemma_div_pos_is_pos(v, p);
    vstd::arithmetic::div_mod::lemma_div_denominator(v, p, 16);
    let w = v / p;
    assert((w % 256) % 16 == w % 16);
    assert((w / 16) % 16 == (w % 256) / 16);
}

proof fn lemma_nibbles(bits: u128, k: int)
    requires
        0 <= k < 32,
    ensures
        ({
            let octet = ipv6_octets(Ipv6Addr { bits })[15 - k / 2] as int;
            (bits as int / pow(16, k as nat)) % 16 == if k % 2 == 0 {
                octet % 16
            } else {
                octet / 16
            }
        }),
{
    let j = (k / 2) as nat;
    let p = pow(256, j);
    let octet = ipv6_octets(Ipv6Addr { bits })[15 - k / 2] as int;
    assert(octet == (bits as int / p) % 256) by {
        crate::bytes::law_bytes_are_digits(bits as nat, 16, 15 - j);
    }
    vstd::arithmetic::power::lemma_pow_positive(256, j);
    assert(pow(16, 2 * j) == p) by {
        assert(pow(16, 2) == 256) by {
            reveal_with_fuel(pow, 3);
        }
        vstd::arithmetic::power::lemma_pow_multiplies(16, 2, j);
    }
    assert(pow(16, 2 * j + 1) == p * 16) by {
        vstd::arithmetic::power::lemma_pow_adds(16, 2 * j, 1);
        vstd::arithmetic::power::lemma_pow1(16);
    }
    lemma_half_octets(bits as int, p);
    if k % 2 == 0 {
        assert(k as nat == 2 * j);
    } else {
        assert(k as nat == 2 * j + 1);
    }
}

/// The name under which the relays for an IPv6 source are found: its label `k` is
/// the hexadecimal digit of the bits from `4 * k` on, so that read from the end
/// the labels spell the address; then comes `ip6.arpa`.
pub proof fn law_reverse_names_spell_ipv6_sources(source: Ipv6Addr, k: int)
    requires
        0 <= k < 32,
    ensures
        ({
            let name = reverse_name(IpAddr::V6(source));
            let digit = (source.bits as int / pow(16, k as nat)) % 16;
            &&& name[2 * k] == if digit < 10 {
                48 + digit
            } else {
                97 + (digit - 10)
            }
            &&& k < 31 ==> name[2 * k + 1] == 46
            &&& name.skip(63) == encode_utf8(".ip6.arpa"@)
        }),
{
    let labels = reverse_digits(source);
    lemma_short_labels(labels);
    lemma_nibbles(source.bits, k);
    let suffix = encode_utf8(".ip6.arpa"@);
    let name = reverse_name(IpAddr::V6(source));
    assert(name.skip(63) =~= suffix);
    assert(labels[k] == reverse_digits(source)[k]);
    if k < 31 {
        assert(joined(labels)[2 * k + 1] == 46);
    }
}

/// The name under which the relays for an IPv4 source are found: its four bytes
/// in decimal, the lowest first, then `in-addr.arpa`.
pub proof fn law_reverse_names_spell_ipv4_sources(source: Ipv4Addr)
    ensures
        reverse_name(IpAddr::V4(source)) == decimal((source.bits % 256) as nat) + seq![46u8]
            + decimal((source.bits / 0x100 % 256) as nat) + seq![46u8] + decimal(
            (source.bits / 0x1_0000 % 256) as nat,
        ) + seq![46u8] + decimal((source.bits / 0x100_0000) as nat) + encode_utf8(".in-addr.arpa"@),
{
    let octets = ipv4_octets(source);
    let a = decimal(octets[3] as nat);
    let b = decimal(octets[2] as nat);
    let c = decimal(octets[1] as nat);
    let d = decimal(octets[0] as nat);
    let labels = seq![a, b, c, d];
    lemma_one_more_label(seq![a], b);
    lemma_one_more_label(seq![a, b], c);
    lemma_one_more_label(seq![a, b, c], d);
    assert(seq![a].push(b) =~= seq![a, b]);
    assert(seq![a, b].push(c) =~= seq![a, b, c]);
    assert(seq![a, b, c].push(d) =~= labels);
    assert(joined(labels) =~= a + seq![46u8] + b + seq![46u8] + c + seq![46u8] + d);
    assert(source.bits % 256 == octets[3] && source.bits / 0x100 % 256 == octets[2] && source.bits
        / 0x1_0000 % 256 == octets[1] && source.bits / 0x100_0000 == octets[0]) by {
        crate::net::law_octets_spell_the_address(IpAddr::V4(source));
        lemma_bytes_of_a_word(
            source.bits as int,
            octets[0] as int,
            octets[1] as int,
            octets[2] as int,
            octets[3] as int,
        );
    }
}

proof fn lemma_one_more_label(labels: Seq<Seq<u8>>, label: Seq<u8>)
    requires
        labels.len() > 0,
    ensures
        joined(labels.push(label)) == joined(labels) + seq![46u8] + label,
        labels.len() == 1 ==> joined(labels) == labels[0],
{
    assert(labels.push(label).drop_last() =~= labels);
    assert(joined(labels.push(label)) =~= joined(labels) + seq![46u8] + label);
}

pub(crate) proof fn lemma_bytes_of_a_word(word: int, a: int, b: int, c: int, d: int)
    requires
        0 <= a < 256,
        0 <= b < 256,
        0 <= c < 256,
        0 <= d < 256,
        word == a * 0x100_0000 + b * 0x1_0000 + c * 0x100 + d,
    ensures
        word % 256 == d,
        word / 0x100 % 256 == c,
        word / 0x1_0000 % 256 == b,
        word / 0x100_0000 == a,
{
    assert(word / 0x100 == a * 0x1_0000 + b * 0x100 + c);
    assert(word / 0x1_0000 == a * 0x100 + b);
}

/// A query that is not let through is told how long to wait, and is let through
/// when it asks again then; one that comes while fewer than the maximum were let
/// through in the last window is let through at once.
pub proof fn law_queries_wait_no_longer_than_told(limiter: LimiterModel, now: Instant)
    requires
        in_time_order(limiter.queries),
        limiter.maximum > 0,
        limiter.queries.len() <= limiter.maximum,
        limiter.queries.len() > 0 ==> limiter.queries.last().nanos <= now.nanos,
        now.can_add(limiter.window),
    ensures
        limiter.queries.len() < limiter.maximum ==> reserved(limiter, now).1 is None,
        reserved(limiter, now).1 matches Some(wait) ==> {
            &&& wait.nanos <= limiter.window.nanos
            &&& reserved(reserved(limiter, now).0, now.after_spec(wait)).1 is None
        },
        reserved(limiter, now).1 is None ==> reserved(limiter, now).0.queries.len() > 0
            && reserved(limiter, now).0.queries.last() == now,
{
    lemma_fresh_is_a_suffix(limiter.queries, limiter.window, now);
    let queries = fresh(limiter.queries, limiter.window, now);
    if let Some(wait) = reserved(limiter, now).1 {
        let later = now.after_spec(wait);
        let k = limiter.queries.len() - queries.len();
        assert(queries[0] == limiter.queries[k]);
        assert(limiter.queries[k].nanos <= limiter.queries[limiter.queries.len() - 1].nanos);
        assert(elapsed(later, queries[0]) >= limiter.window.nanos);
        lemma_fresh_is_a_suffix(queries.skip(1), limiter.window, later);
    }
}

proof fn lemma_fresh_is_a_suffix(queries: Seq<Instant>, window: Duration, now: Instant)
    ensures
        ({
            let left = fresh(queries, window, now);
            &&& left.len() <= queries.len()
            &&& forall|i: int|
                0 <= i < left.len() ==> #[trigger] left[i] == queries[queries.len() - left.len()
                    + i]
            &&& left.len() > 0 ==> elapsed(now, left[0]) < window.nanos
        }),
    decreases queries.len(),
{
    if queries.len() > 0 && elapsed(now, queries[0]) >= window.nanos {
        lemma_fresh_is_a_suffix(queries.skip(1), window, now);
    }
}

/// The time that an answer is waited for doubles with every attempt, up to two
/// minutes, and no further than the sixth.
pub proof fn law_timeouts_double(timeout: Duration, attempt: usize)
    requires
        timeout.nanos <= 120_000_000_000,
    ensures
        retry_upper(timeout, 0) == timeout,
        attempt < 6 ==> retry_upper(timeout, (attempt + 1) as usize).nanos == if 2 * retry_upper(
            timeout,
            attempt,
        ).nanos <= 120_000_000_000 {
            2 * retry_upper(timeout, attempt).nanos
        } else {
            120_000_000_000
        },
        attempt >= 6 ==> retry_upper(timeout, attempt) == retry_upper(timeout, 6),
{
    vstd::arithmetic::power2::lemma2_to64();
    if attempt < 6 {
        let factor = vstd::arithmetic::power2::pow2(attempt as nat);
        vstd::arithmetic::power2::lemma_pow2_unfold((attempt + 1) as nat);
        assert(timeout.nanos * (2 * factor) == 2 * (timeout.nanos * factor)) by (nonlinear_arith);
        assert(timeout.nanos * factor >= 0) by (nonlinear_arith);
    }
}

/// Which configurations are refused: those without resolvers, those with one on
/// another host unless that is allowed, and those with a zero where there has to
/// be something.
pub proof fn law_configurations_are_checked(config: DriadResolverConfig)
    ensures
        config_error(config) is None <==> {
            &&& config.resolvers@.len() > 0
            &&& config.allow_insecure_dns || forall|i: int|
                0 <= i < config.resolvers@.len() ==> (
                #[trigger] config.resolvers@[i]).ip_spec().loopback_spec()
            &&& config.timeout.nanos > 0 && config.attempts > 0 && config.max_candidates > 0
            &&& config.max_queries_per_window > 0 && config.query_rate_window.nanos > 0
        },
{
    lemma_first_remote(config.resolvers@);
}

proof fn lemma_first_remote(resolvers: Seq<SocketAddr>)
    ensures
        first_remote(resolvers) is None <==> forall|i: int|
            0 <= i < resolvers.len() ==> (#[trigger] resolvers[i]).ip_spec().loopback_spec(),
    decreases resolvers.len(),
{
    if resolvers.len() > 0 {
        let front = resolvers.drop_last();
        lemma_first_remote(front);
        if forall|i: int|
            0 <= i < resolvers.len() ==> (#[trigger] resolvers[i]).ip_spec().loopback_spec() {
            assert forall|i: int| 0 <= i < front.len() implies (
            #[trigger] front[i]).ip_spec().loopback_spec() by {
                assert(front[i] == resolvers[i]);
            }
            assert(resolvers[resolvers.len() - 1].ip_spec().loopback_spec());
        }
        if first_remote(resolvers) is None {
            assert forall|i: int| 0 <= i < resolvers.len() implies (
            #[trigger] resolvers[i]).ip_spec().loopback_spec() by {
                if i < front.len() {
                    assert(front[i] == resolvers[i]);
                }
            }
        }
    }
}

/// Resolvers are given in order, each by an address with a port or by one that
/// stands for port 53; any other text among them is refused.
pub proof fn law_resolvers_are_given_in_order(entries: Seq<AddressText>, k: int)
    requires
        0 <= k < entries.len(),
    ensures
        entries[k].socket is None && entries[k].ip is None ==> resolver_addrs(entries) is Err,
        resolver_addrs(entries) is Ok ==> {
            let resolvers = resolver_addrs(entries)->Ok_0;
            &&& resolvers.len() == entries.len()
            &&& entries[k].socket is Some ==> resolvers[k] == entries[k].socket->Some_0
            &&& entries[k].socket is None ==> resolvers[k].port_spec() == 53
                && resolvers[k].ip_spec() == entries[k].ip->Some_0
        },
        resolver_addrs(entries) is Err ==> exists|j: int|
            0 <= j < entries.len() && (#[trigger] entries[j]).socket is None && entries[j].ip is None,
    decreases entries.len(),
{
    let before = entries.drop_last();
    let last = entries[entries.len() - 1];
    assert(last == entries.last());
    if before.len() > 0 {
        law_resolvers_are_given_in_order(before, if k < before.len() { k } else { 0 });
        if resolver_addrs(before) is Err {
            let j = choose|j: int|
                0 <= j < before.len() && (#[trigger] before[j]).socket is None
                    && before[j].ip is None;
            assert(entries[j] == before[j]);
        }
    } else {
        assert(resolver_addrs(before) is Ok);
    }
    if k < before.len() {
        assert(before[k] == entries[k]);
    }
}

proof fn lemma_words_end(s: Seq<char>, i: int, j: int)
    requires
        0 <= i <= j <= s.len(),
        forall|k: int| i <= k < j ==> !white_space(#[trigger] s[k]),
        j == s.len() || white_space(s[j]),
    ensures
        word_end(s, i) == j,
    decreases j - i,
{
    if i < j {
        assert(!white_space(s[i]));
        lemma_words_end(s, i + 1, j);
    }
}

proof fn lemma_words_start(s: Seq<char>, i: int, j: int)
    requires
        0 <= i <= j <= s.len(),
        forall|k: int| i <= k < j ==> white_space(#[trigger] s[k]),
        j == s.len() || !white_space(s[j]),
    ensures
        word_start(s, i) == j,
    decreases j - i,
{
    if i < j {
        assert(white_space(s[i]));
        lemma_words_start(s, i + 1, j);
    }
}

proof fn lemma_chars_are_found(s: Seq<char>, i: int, j: int, c: char)
    requires
        0 <= i <= j <= s.len(),
        forall|k: int| i <= k < j ==> #[trigger] s[k] != c,
        j == s.len() || s[j] == c,
    ensures
        char_at(s, i, c) == j,
    decreases j - i,
{
    if i < j {
        assert(s[i] != c);
        lemma_chars_are_found(s, i + 1, j, c);
    }
}

/// A line whose first word is `nameserver` names a resolver by its second word.
/// Words stand between white space, and what follows `#` does not count.
pub proof fn law_lines_name_resolvers(line: Seq<char>, a: int, b: int, c: int, d: int, e: int)
    requires
        0 <= a <= b <= c <= d <= e <= line.len(),
        forall|k: int| 0 <= k < e ==> #[trigger] line[k] != '#',
        e == line.len() || line[e] == '#',
        forall|k: int| 0 <= k < a ==> white_space(#[trigger] line[k]),
        forall|k: int| a <= k < b ==> !white_space(#[trigger] line[k]),
        forall|k: int| b <= k < c ==> white_space(#[trigger] line[k]),
        forall|k: int| c <= k < d ==> !white_space(#[trigger] line[k]),
        a == e || !white_space(line[a]),
        b == e || white_space(line[b]),
        c == e || !white_space(line[c]),
        d == e || white_space(line[d]),
    ensures
        nameserver_in(line) == if line.subrange(a, b) == "nameserver"@ && c < d {
            Some(line.subrange(c, d))
        } else {
            None
        },
{
    lemma_chars_are_found(line, 0, e, '#');
    let text = line.take(e);
    assert forall|k: int| 0 <= k < e implies (#[trigger] text[k]) == line[k] by {}
    lemma_words_start(text, 0, a);
    lemma_words_end(text, a, b);
    lemma_words_start(text, b, c);
    lemma_words_end(text, c, d);
    assert(text.subrange(a, b) =~= line.subrange(a, b));
    assert(text.subrange(c, d) =~= line.subrange(c, d));
}

/// The resolvers that a text names are those of its lines, in order.
pub proof fn law_resolvers_are_named_line_by_line(line: Seq<char>, rest: Seq<char>)
    requires
        forall|k: int| 0 <= k < line.len() ==> #[trigger] line[k] != '\n',
    ensures
        nameserver_in(line) is Some ==> nameservers_in(line + seq!['\n'] + rest) == seq![
            nameserver_in(line)->Some_0,
        ] + nameservers_in(rest),
        nameserver_in(line) is None ==> nameservers_in(line + seq!['\n'] + rest) == nameservers_in(
            rest,
        ),
        nameserver_in(line) is Some ==> nameservers_in(line) == seq![nameserver_in(line)->Some_0],
        nameserver_in(line) is None ==> nameservers_in(line).len() == 0,
{
    let n = line.len() as int;
    let all = line + seq!['\n'] + rest;
    assert forall|k: int| 0 <= k < n implies #[trigger] all[k] != '\n' by {
        assert(all[k] == line[k]);
    }
    lemma_chars_are_found(all, 0, n, '\n');
    lemma_chars_are_found(line, 0, n, '\n');
    assert(all.take(n) =~= line);
    assert(all.skip(n + 1) =~= rest);
    assert(line.take(n) =~= line);
    assert(Seq::<Seq<char>>::empty() + nameservers_in(rest) =~= nameservers_in(rest));
    if n == 0 {
        reveal_strlit("nameserver");
        assert("nameserver"@.len() == 10);
        lemma_chars_are_found(line, 0, 0, '#');
        lemma_words_start(line, 0, 0);
        lemma_words_end(line, 0, 0);
        assert(line.take(0) =~= line);
        assert(line.subrange(0, 0).len() == 0);
    }
}

/// Any whole millisecond between the bounds can be picked, by the random number
/// that counts from the lower one.
pub proof fn law_every_millisecond_can_be_picked(lower: Duration, upper: Duration, random: u64)
    requires
        upper.nanos / 1_000_000 <= u64::MAX,
        lower.nanos / 1_000_000 < upper.nanos / 1_000_000,
        lower.nanos / 1_000_000 + random <= upper.nanos / 1_000_000,
    ensures
        duration_between(lower, upper, random).nanos == (lower.nanos / 1_000_000 + random)
            * 1_000_000,
{
    vstd::arithmetic::div_mod::lemma_small_mod(
        random as nat,
        (upper.nanos / 1_000_000 - lower.nanos / 1_000_000 + 1) as nat,
    );
}

/// What is said of a configuration of lookups that is refused is true of it.
pub proof fn law_lookup_refusals_are_true(
    resolvers: Seq<SocketAddr>,
    timeout: Duration,
    attempts: int,
    allow_insecure_dns: bool,
    max_candidates: int,
    max_queries_per_window: int,
    query_rate_window: Duration,
)
    ensures
        lookup_config_error(
            resolvers,
            timeout,
            attempts,
            allow_insecure_dns,
            max_candidates,
            max_queries_per_window,
            query_rate_window,
        ) matches Some(error) ==> match error {
            DriadErrorModel::NoResolvers => resolvers.len() == 0,
            DriadErrorModel::InsecureResolver(resolver) => !allow_insecure_dns
                && resolvers.contains(resolver) && !resolver.ip_spec().loopback_spec(),
            DriadErrorModel::InvalidConfig(_) => timeout.nanos == 0 || attempts == 0
                || max_candidates == 0 || max_queries_per_window == 0 || query_rate_window.nanos
                == 0,
            _ => false,
        },
{
    lemma_first_remote_is_one(resolvers);
}

proof fn lemma_first_remote_is_one(resolvers: Seq<SocketAddr>)
    ensures
        first_remote(resolvers) matches Some(resolver) ==> resolvers.contains(resolver)
            && !resolver.ip_spec().loopback_spec(),
    decreases resolvers.len(),
{
    if resolvers.len() > 0 {
        let before = resolvers.drop_last();
        lemma_first_remote_is_one(before);
        if first_remote(before) is Some {
            let i = choose|i: int| 0 <= i < before.len() && before[i] == first_remote(before)->Some_0;
            assert(resolvers[i] == before[i]);
        } else {
            assert(resolvers[resolvers.len() - 1] == resolvers.last());
        }
    }
}

} // verus!

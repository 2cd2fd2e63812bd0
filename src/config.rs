use vstd::prelude::*;
use crate::utils::is_digit;

verus! {

/// Settings of the daemon.
#[derive(Clone, Debug)]
pub struct Config {
    pub db_path: String,
    pub poll_interval: u64,
    pub api_host: String,
    pub api_port: u16,
    pub metrics_host: String,
    pub metrics_port: u16,
}

/// Why the settings were refused.
#[derive(Clone, Copy, Debug, PartialEq, Eq, Structural)]
pub enum ConfigError {
    /// The poll interval is not a valid number.
    InvalidPollInterval,
    /// The poll interval is zero.
    ZeroPollInterval,
    /// The API port is not a number from 0 to 65535.
    InvalidApiPort,
    /// The metrics port is not a number from 0 to 65535.
    InvalidMetricsPort,
}

pub open spec fn digit_value(c: char) -> int {
    c as int - '0' as int
}

/// The number written by the decimal digits `s`.
pub open spec fn decimal_value(s: Seq<char>) -> int
    decreases s.len(),
{
    if s.len() == 0 {
        0
    } else {
        decimal_value(s.drop_last()) * 10 + digit_value(s.last())
    }
}

/// `s` without a leading `+`.
pub open spec fn unsigned_digits(s: Seq<char>) -> Seq<char> {
    if s.len() > 0 && s[0] == '+' {
        s.drop_first()
    } else {
        s
    }
}

/// The unsigned integer that `s` writes in decimal, optionally after a `+`,
/// if it is at most `max`.
pub open spec fn parsed_unsigned(s: Seq<char>, max: int) -> Option<int> {
    let d = unsigned_digits(s);
    if d.len() > 0 && (forall|i: int| 0 <= i < d.len() ==> is_digit(#[trigger] d[i]))
        && decimal_value(d) <= max {
        Some(decimal_value(d))
    } else {
        None
    }
}

proof fn lemma_decimal_grows(d: Seq<char>, k: int)
    requires
        0 <= k <= d.len(),
        forall|i: int| 0 <= i < d.len() ==> is_digit(#[trigger] d[i]),
    ensures
        decimal_value(d.take(k)) <= decimal_value(d),
        decimal_value(d) >= 0,
    decreases d.len(),
{
    if d.len() > 0 {
        let init = d.drop_last();
        assert forall|i: int| 0 <= i < init.len() implies is_digit(#[trigger] init[i]) by {
            assert(is_digit(d[i]));
        }
        assert(is_digit(d[d.len() - 1]));
        if k < d.len() {
            assert(init.take(k) =~= d.take(k));
            lemma_decimal_grows(init, k);
            assert(decimal_value(init) * 10 >= decimal_value(init)) by (nonlinear_arith)
                requires decimal_value(init) >= 0;
        } else {
            assert(d.take(k) =~= d);
            lemma_decimal_grows(init, 0);
        }
    } else {
        assert(d.take(k) =~= d);
    }
}

/// Reads an unsigned decimal integer of at most `max`, with an optional
/// leading `+`, as the standard integer parsers do.
pub fn parse_unsigned(s: &str, max: u64) -> (r: Option<u64>)
    ensures
        r matches Some(x) ==> x <= max,
        match parsed_unsigned(s@, max as int) {
            Some(v) => r matches Some(x) && x as int == v,
            None => r is None,
        },
{
    let n = s.unicode_len();
    let mut start: usize = 0;
    if n > 0 && s.get_char(0) == '+' {
        start = 1;
    }
    let ghost d = unsigned_digits(s@);
    assert(d =~= s@.subrange(start as int, n as int));
    if start == n {
        return None;
    }
    let mut acc: u64 = 0;
    let mut i: usize = start;
    while i < n
        invariant
            start <= i <= n,
            n == s@.len(),
            d =~= s@.subrange(start as int, n as int),
            d == unsigned_digits(s@),
            forall|j: int| 0 <= j < i - start ==> is_digit(#[trigger] d[j]),
            acc as int == decimal_value(d.take(i - start)),
            acc <= max,
        decreases n - i,
    {
        let c = s.get_char(i);
        let ghost k = i - start;
        assert(d[k] == c);
        if !('0' <= c && c <= '9') {
            assert(!is_digit(d[k]));
            return None;
        }
        let v = (c as u32 - '0' as u32) as u64;
        assert(d.take(k + 1).drop_last() =~= d.take(k));
        assert(decimal_value(d.take(k + 1)) == acc * 10 + v);
        if v > max || acc > (max - v) / 10 {
            proof {
                assert(acc * 10 + v > max) by (nonlinear_arith)
                    requires v > max || acc > (max - v) / 10, acc >= 0;
                if forall|j: int| 0 <= j < d.len() ==> is_digit(#[trigger] d[j]) {
                    lemma_decimal_grows(d, k + 1);
                }
            }
            return None;
        }
        assert(acc * 10 + v <= max) by (nonlinear_arith)
            requires acc <= (max - v) / 10, v <= max;
        acc = acc * 10 + v;
        i = i + 1;
    }
    assert(d.take(n - start) =~= d);
    Some(acc)
}

/// The number a setting gives: its default when unset, else its reading.
pub open spec fn setting_number(v: Option<&str>, default: int, max: int) -> Option<int> {
    match v {
        Some(s) => parsed_unsigned(s@, max),
        None => Some(default),
    }
}

/// The text a setting gives: its default when unset.
pub open spec fn setting_text(v: Option<String>, default: Seq<char>) -> Seq<char> {
    match v {
        Some(s) => s@,
        None => default,
    }
}

pub const DEFAULT_POLL_INTERVAL: u64 = 1;

pub const DEFAULT_API_PORT: u16 = 3030;

pub const DEFAULT_METRICS_PORT: u16 = 9090;

fn number_setting(v: Option<&str>, default: u64, max: u64) -> (r: Option<u64>)
    requires
        default <= max,
    ensures
        r matches Some(x) ==> x <= max,
        match setting_number(v, default as int, max as int) {
            Some(n) => r matches Some(x) && x as int == n,
            None => r is None,
        },
{
    match v {
        Some(s) => parse_unsigned(s, max),
        None => Some(default),
    }
}

fn text_setting(v: Option<String>, default: &str) -> (r: String)
    ensures
        r@ == setting_text(v, default@),
{
    match v {
        Some(s) => s,
        None => default.to_owned(),
    }
}

impl Config {
    /// Builds the settings from the values given for them, each `None` when
    /// unset: the database path (default `samson.db`), the poll interval in
    /// seconds (default 1, never 0), the API and metrics hosts (default
    /// `0.0.0.0`) and ports (default 3030 and 9090).
    pub fn from_values(
        db_path: Option<String>,
        poll_interval: Option<&str>,
        api_host: Option<String>,
        api_port: Option<&str>,
        metrics_host: Option<String>,
        metrics_port: Option<&str>,
    ) -> (r: Result<Config, ConfigError>)
        ensures
            setting_number(poll_interval, 1, u64::MAX as int) is None ==> r matches Err(
                ConfigError::InvalidPollInterval,
            ),
            setting_number(poll_interval, 1, u64::MAX as int) == Some(0int) ==> r matches Err(
                ConfigError::ZeroPollInterval,
            ),
            match setting_number(poll_interval, 1, u64::MAX as int) {
                Some(p) => p > 0 ==> match (
                    setting_number(api_port, 3030, u16::MAX as int),
                    setting_number(metrics_port, 9090, u16::MAX as int),
                ) {
                    (None, _) => r matches Err(ConfigError::InvalidApiPort),
                    (Some(_), None) => r matches Err(ConfigError::InvalidMetricsPort),
                    (Some(a), Some(m)) => r matches Ok(c) && {
                        &&& c.poll_interval == p
                        &&& c.api_port == a
                        &&& c.metrics_port == m
                        &&& c.db_path@ == setting_text(db_path, "samson.db"@)
                        &&& c.api_host@ == setting_text(api_host, "0.0.0.0"@)
                        &&& c.metrics_host@ == setting_text(metrics_host, "0.0.0.0"@)
                    },
                },
                None => true,
            },
    {
        let poll = match number_setting(poll_interval, DEFAULT_POLL_INTERVAL, u64::MAX) {
            Some(p) => p,
            None => return Err(ConfigError::InvalidPollInterval),
        };
        if poll == 0 {
            return Err(ConfigError::ZeroPollInterval);
        }
        let api = match number_setting(api_port, DEFAULT_API_PORT as u64, u16::MAX as u64) {
            Some(p) => p as u16,
            None => return Err(ConfigError::InvalidApiPort),
        };
        let metrics = match number_setting(metrics_port, DEFAULT_METRICS_PORT as u64, u16::MAX as u64) {
            Some(p) => p as u16,
            None => return Err(ConfigError::InvalidMetricsPort),
        };
        Ok(Config {
            db_path: text_setting(db_path, "samson.db"),
            poll_interval: poll,
            api_host: text_setting(api_host, "0.0.0.0"),
            api_port: api,
            metrics_host: text_setting(metrics_host, "0.0.0.0"),
            metrics_port: metrics,
        })
    }
}

} // verus!

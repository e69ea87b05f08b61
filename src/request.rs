//! The sweep's configuration and the static parts of every login request.

use vstd::prelude::*;
use crate::text::{lower_of, lowercase, same_text};

verus! {

/// The characters of each key and value of a list of pairs.
pub open spec fn pairs_view(v: Seq<(String, String)>) -> Seq<(Seq<char>, Seq<char>)> {
    v.map_values(|p: (String, String)| (p.0@, p.1@))
}

/// A byte that `HeaderValue` accepts, read on the character that holds it:
/// visible ASCII, space, tab, or any non-ASCII character (its UTF-8 bytes are all at least 128).
pub open spec fn header_char_ok(c: char) -> bool {
    (c as u32 >= 32 && c as u32 != 127) || c == '\t'
}

/// A string that can stand as an HTTP header value.
pub open spec fn header_value_ok(s: Seq<char>) -> bool {
    forall|i: int| 0 <= i < s.len() ==> header_char_ok(#[trigger] s[i])
}

/// Whether reqwest accepts a proxy URL (the string is parsed as a URL, and
/// failing that with `http://` put in front).
pub uninterp spec fn proxy_accepted_of(s: Seq<char>) -> bool;

/// Relies on `reqwest::header::HeaderValue::from_str`, which accepts exactly the
/// strings whose bytes are all at least 32 and not 127, or are a tab.
#[verifier::external_body]
fn header_value_accepted(s: &str) -> (r: bool)
    ensures
        r == header_value_ok(s@),
{
    reqwest::header::HeaderValue::from_str(s).is_ok()
}

/// Relies on `reqwest::Proxy::all`: whether it accepts the proxy URL, which
/// depends on the string alone.
#[verifier::external_body]
fn proxy_accepted(s: &str) -> (r: bool)
    ensures
        r == proxy_accepted_of(s@),
{
    reqwest::Proxy::all(s).is_ok()
}

/// Why a sweep cannot start.
#[derive(Debug, PartialEq, Eq, Structural, Clone, Copy)]
pub enum ConfigError {
    /// The proxy URL is not accepted.
    InvalidProxy,
    /// The cookie string cannot stand as a header value.
    InvalidCookie,
    /// No usernames were given.
    NoUsernames,
    /// No passwords were given.
    NoPasswords,
    /// The worker budget is zero.
    NoWorkers,
}

/// Which scheduling policy a sweep follows.
#[derive(Debug, PartialEq, Eq, Structural, Clone, Copy)]
pub enum AttackMode {
    /// Usernames split into `max_workers` chunks, each worked through by one
    /// worker, with at most `max_workers` attempts in flight.
    Fast,
    /// One task per credential pair, all started at once.
    Normal,
    /// One attempt at a time, with a fixed pause before each.
    Stealth,
    /// At most `max_workers` attempts in flight, and each pair tried up to
    /// three times while the transport fails.
    Aggressive,
}

/// The form field names, request headers and pacing of a sweep.
pub struct SweepConfig {
    pub url: String,
    pub username_field: String,
    pub password_field: String,
    pub max_workers: usize,
    pub timeout_secs: u64,
    pub mode: AttackMode,
    pub rate_limit: Option<u32>,
    pub proxy: Option<String>,
    pub cookie: Option<String>,
    pub extra_headers: Vec<(String, String)>,
    pub extra_fields: Vec<(String, String)>,
    pub stealth_delay_ms: u64,
}

/// The form fields sent besides username and password, unless configured otherwise.
pub open spec fn default_extra_fields() -> Seq<(Seq<char>, Seq<char>)> {
    seq![("submit"@, "Login"@), ("csrf_token"@, "test"@)]
}

/// The headers of every login request, before the configured ones.
pub open spec fn default_headers() -> Seq<(Seq<char>, Seq<char>)> {
    seq![
        ("User-Agent"@, "Mozilla/5.0 (Windows NT 10.0; Win64; x64) AppleWebKit/537.36 (KHTML, like Gecko) Chrome/120.0.0.0 Safari/537.36"@),
        ("Content-Type"@, "application/x-www-form-urlencoded"@),
        ("Accept"@, "text/html,application/xhtml+xml,application/xml;q=0.9,*/*;q=0.8"@),
        ("Accept-Language"@, "en-US,en;q=0.9"@),
        ("Accept-Encoding"@, "gzip, deflate, br"@),
        ("Connection"@, "keep-alive"@),
        ("Upgrade-Insecure-Requests"@, "1"@),
    ]
}

/// Pause before each stealth attempt, unless configured otherwise.
pub const DEFAULT_STEALTH_DELAY_MS: u64 = 100;

fn pair(k: &str, v: &str) -> (r: (String, String))
    ensures
        r.0@ == k@,
        r.1@ == v@,
{
    (k.to_owned(), v.to_owned())
}

fn copy_pairs(v: &Vec<(String, String)>, out: &mut Vec<(String, String)>)
    ensures
        pairs_view(final(out)@) == pairs_view(old(out)@) + pairs_view(v@),
{
    let ghost start = out@;
    let mut i: usize = 0;
    while i < v.len()
        invariant
            i <= v@.len(),
            out@.len() == start.len() + i,
            forall|j: int| 0 <= j < start.len() ==> #[trigger] out@[j] == start[j],
            forall|j: int| 0 <= j < i ==> #[trigger] out@[start.len() + j] == v@[j],
        decreases v@.len() - i,
    {
        let (k, x) = &v[i];
        out.push((k.clone(), x.clone()));
        i += 1;
    }
    assert forall|j: int| 0 <= j < out@.len() implies #[trigger] pairs_view(out@)[j] == (
        pairs_view(start) + pairs_view(v@))[j] by {
        if j >= start.len() {
            assert(out@[start.len() + (j - start.len())] == v@[j - start.len()]);
        }
    }
    assert(pairs_view(out@) =~= pairs_view(start) + pairs_view(v@));
}

/// The header list of every login request: the defaults, then the configured
/// headers, then the cookie string, sent verbatim, if one is configured.
pub open spec fn header_list(extra: Seq<(String, String)>, cookie: Option<String>) -> Seq<(Seq<char>, Seq<char>)> {
    default_headers() + pairs_view(extra) + match cookie {
        Some(c) => seq![("Cookie"@, c@)],
        None => Seq::empty(),
    }
}

/// The first reason, if any, why a sweep with this configuration over
/// `n_users` usernames and `n_passwords` passwords cannot start.
pub open spec fn config_error(cfg: SweepConfig, n_users: nat, n_passwords: nat) -> Option<ConfigError> {
    if cfg.proxy is Some && !proxy_accepted_of(cfg.proxy->0@) {
        Some(ConfigError::InvalidProxy)
    } else if cfg.cookie is Some && !header_value_ok(cfg.cookie->0@) {
        Some(ConfigError::InvalidCookie)
    } else if n_users == 0 {
        Some(ConfigError::NoUsernames)
    } else if n_passwords == 0 {
        Some(ConfigError::NoPasswords)
    } else if cfg.max_workers == 0 {
        Some(ConfigError::NoWorkers)
    } else {
        None
    }
}

impl SweepConfig {
    /// A configuration with the usual form field names (`username`,
    /// `password`), the default extra fields, no proxy, cookie or extra
    /// headers, and the default stealth pause.
    pub fn new(url: &str, max_workers: usize, timeout_secs: u64, mode: AttackMode) -> (c: Self)
        ensures
            c.url@ == url@,
            c.username_field@ == "username"@,
            c.password_field@ == "password"@,
            c.max_workers == max_workers,
            c.timeout_secs == timeout_secs,
            c.mode == mode,
            c.rate_limit is None,
            c.proxy is None,
            c.cookie is None,
            c.extra_headers@.len() == 0,
            pairs_view(c.extra_fields@) == default_extra_fields(),
            c.stealth_delay_ms == DEFAULT_STEALTH_DELAY_MS,
    {
        let mut extra_fields: Vec<(String, String)> = Vec::new();
        extra_fields.push(pair("submit", "Login"));
        extra_fields.push(pair("csrf_token", "test"));
        assert(pairs_view(extra_fields@) =~= default_extra_fields());
        SweepConfig {
            url: url.to_owned(),
            username_field: "username".to_owned(),
            password_field: "password".to_owned(),
            max_workers,
            timeout_secs,
            mode,
            rate_limit: None,
            proxy: None,
            cookie: None,
            extra_headers: Vec::new(),
            extra_fields,
            stealth_delay_ms: DEFAULT_STEALTH_DELAY_MS,
        }
    }

    /// Sets the requests-per-second cap.
    pub fn set_rate_limit(&mut self, requests_per_second: u32)
        ensures
            final(self).rate_limit == Some(requests_per_second),
            final(self).url == old(self).url,
            final(self).username_field == old(self).username_field,
            final(self).password_field == old(self).password_field,
            final(self).max_workers == old(self).max_workers,
            final(self).timeout_secs == old(self).timeout_secs,
            final(self).mode == old(self).mode,
            final(self).proxy == old(self).proxy,
            final(self).cookie == old(self).cookie,
            final(self).extra_headers == old(self).extra_headers,
            final(self).extra_fields == old(self).extra_fields,
            final(self).stealth_delay_ms == old(self).stealth_delay_ms,
    {
        self.rate_limit = Some(requests_per_second);
    }

    /// Sets the cookie string sent with every request.
    pub fn set_cookies(&mut self, cookies: &str)
        ensures
            final(self).cookie matches Some(c) && c@ == cookies@,
            final(self).url == old(self).url,
            final(self).username_field == old(self).username_field,
            final(self).password_field == old(self).password_field,
            final(self).max_workers == old(self).max_workers,
            final(self).timeout_secs == old(self).timeout_secs,
            final(self).mode == old(self).mode,
            final(self).rate_limit == old(self).rate_limit,
            final(self).proxy == old(self).proxy,
            final(self).extra_headers == old(self).extra_headers,
            final(self).extra_fields == old(self).extra_fields,
            final(self).stealth_delay_ms == old(self).stealth_delay_ms,
    {
        self.cookie = Some(cookies.to_owned());
    }

    /// The form fields of the login request for one credential pair: the
    /// username and password under their configured names, then the extra fields.
    pub fn form_fields(&self, username: &str, password: &str) -> (r: Vec<(String, String)>)
        ensures
            pairs_view(r@) == seq![(self.username_field@, username@), (self.password_field@, password@)]
                + pairs_view(self.extra_fields@),
    {
        let mut r: Vec<(String, String)> = Vec::new();
        r.push((self.username_field.clone(), username.to_owned()));
        r.push((self.password_field.clone(), password.to_owned()));
        assert(pairs_view(r@) =~= seq![(self.username_field@, username@), (self.password_field@, password@)]);
        copy_pairs(&self.extra_fields, &mut r);
        r
    }

    /// The headers of every login request, or `InvalidCookie` where the cookie
    /// string cannot stand as a header value.
    pub fn request_headers(&self) -> (r: Result<Vec<(String, String)>, ConfigError>)
        ensures
            match r {
                Ok(h) => (self.cookie is None || header_value_ok(self.cookie->0@))
                    && pairs_view(h@) == header_list(self.extra_headers@, self.cookie),
                Err(e) => self.cookie is Some && !header_value_ok(self.cookie->0@)
                    && e == ConfigError::InvalidCookie,
            },
    {
        let mut h: Vec<(String, String)> = Vec::new();
        h.push(pair("User-Agent", "Mozilla/5.0 (Windows NT 10.0; Win64; x64) AppleWebKit/537.36 (KHTML, like Gecko) Chrome/120.0.0.0 Safari/537.36"));
        h.push(pair("Content-Type", "application/x-www-form-urlencoded"));
        h.push(pair("Accept", "text/html,application/xhtml+xml,application/xml;q=0.9,*/*;q=0.8"));
        h.push(pair("Accept-Language", "en-US,en;q=0.9"));
        h.push(pair("Accept-Encoding", "gzip, deflate, br"));
        h.push(pair("Connection", "keep-alive"));
        h.push(pair("Upgrade-Insecure-Requests", "1"));
        assert(pairs_view(h@) =~= default_headers());
        copy_pairs(&self.extra_headers, &mut h);
        match &self.cookie {
            Some(c) => {
                if !header_value_accepted(c.as_str()) {
                    return Err(ConfigError::InvalidCookie);
                }
                let ghost before = h@;
                h.push(pair("Cookie", c.as_str()));
                assert(pairs_view(h@) =~= pairs_view(before) + seq![("Cookie"@, c@)]);
            },
            None => {
                assert(pairs_view(h@) =~= pairs_view(h@) + Seq::<(Seq<char>, Seq<char>)>::empty());
            },
        }
        Ok(h)
    }

    /// Checks the configuration against credential lists of the given sizes:
    /// the proxy, the cookie, then both lists, then the worker budget.
    pub fn check(&self, n_users: usize, n_passwords: usize) -> (r: Result<(), ConfigError>)
        ensures
            match config_error(*self, n_users as nat, n_passwords as nat) {
                Some(e) => r == Err::<(), ConfigError>(e),
                None => r is Ok,
            },
    {
        if let Some(p) = &self.proxy {
            if !proxy_accepted(p.as_str()) {
                return Err(ConfigError::InvalidProxy);
            }
        }
        if let Some(c) = &self.cookie {
            if !header_value_accepted(c.as_str()) {
                return Err(ConfigError::InvalidCookie);
            }
        }
        if n_users == 0 {
            return Err(ConfigError::NoUsernames);
        }
        if n_passwords == 0 {
            return Err(ConfigError::NoPasswords);
        }
        if self.max_workers == 0 {
            return Err(ConfigError::NoWorkers);
        }
        Ok(())
    }
}

/// The strategy a lowercase name stands for.
pub open spec fn mode_of_name(name: Seq<char>) -> Option<AttackMode> {
    if name == "fast"@ {
        Some(AttackMode::Fast)
    } else if name == "normal"@ {
        Some(AttackMode::Normal)
    } else if name == "stealth"@ {
        Some(AttackMode::Stealth)
    } else if name == "aggressive"@ {
        Some(AttackMode::Aggressive)
    } else {
        None
    }
}

/// The strategy named by an already lowercased name, if any.
pub fn mode_from_lowered(name: &str) -> (r: Option<AttackMode>)
    ensures
        r == mode_of_name(name@),
{
    if same_text(name, "fast") {
        Some(AttackMode::Fast)
    } else if same_text(name, "normal") {
        Some(AttackMode::Normal)
    } else if same_text(name, "stealth") {
        Some(AttackMode::Stealth)
    } else if same_text(name, "aggressive") {
        Some(AttackMode::Aggressive)
    } else {
        None
    }
}

/// The strategy named by `name` in any letter case (`fast`, `normal`,
/// `stealth`, `aggressive`), or an error that repeats the name.
pub fn parse_attack_mode(name: &str) -> (r: Result<AttackMode, String>)
    ensures
        match mode_of_name(lower_of(name@)) {
            Some(m) => r == Ok::<AttackMode, String>(m),
            None => r matches Err(e) && e@ == "invalid mode: "@ + name@,
        },
{
    let lowered = lowercase(name);
    match mode_from_lowered(lowered.as_str()) {
        Some(m) => Ok(m),
        None => {
            let mut e = "invalid mode: ".to_owned();
            e.append(name);
            Err(e)
        },
    }
}

/// The strategy named by `name` in any letter case; any other name means `Normal`.
pub fn attack_mode_or_normal(name: &str) -> (r: AttackMode)
    ensures
        r == match mode_of_name(lower_of(name@)) {
            Some(m) => m,
            None => AttackMode::Normal,
        },
{
    match parse_attack_mode(name) {
        Ok(m) => m,
        Err(_) => AttackMode::Normal,
    }
}

impl std::str::FromStr for AttackMode {
    type Err = String;

    fn from_str(s: &str) -> Result<Self, Self::Err> {
        parse_attack_mode(s)
    }
}

} // verus!

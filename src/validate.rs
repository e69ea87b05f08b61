//! Checks on a sweep's inputs before it starts: target URL, proxy, worker
//! budget, timeout and report file name. Each check collects errors, which
//! make the input unusable, and warnings, which do not.

use vstd::prelude::*;
use crate::parse::{has_char, split_on, split_seq};
use crate::text::{
    char_vec, contains_seq, contains_text, has_prefix, starts_with_text, string_from, strings_view,
    trim_of, trimmed,
};

verus! {

/// The outcome of a check: valid exactly when no error was added.
#[derive(Debug)]
pub struct ValidationResult {
    pub is_valid: bool,
    pub errors: Vec<String>,
    pub warnings: Vec<String>,
}

impl View for ValidationResult {
    type V = (bool, Seq<Seq<char>>, Seq<Seq<char>>);

    open spec fn view(&self) -> Self::V {
        (self.is_valid, strings_view(self.errors@), strings_view(self.warnings@))
    }
}

/// The view of a check's outcome with these errors and warnings.
pub open spec fn report(errors: Seq<Seq<char>>, warnings: Seq<Seq<char>>) -> (bool, Seq<Seq<char>>, Seq<Seq<char>>) {
    (errors.len() == 0, errors, warnings)
}

/// `[m]` where `cond` holds, else nothing.
pub open spec fn when(cond: bool, m: Seq<char>) -> Seq<Seq<char>> {
    if cond {
        seq![m]
    } else {
        Seq::empty()
    }
}

impl ValidationResult {
    /// An outcome with no errors and no warnings.
    pub fn new() -> (r: Self)
        ensures
            r@ == report(Seq::empty(), Seq::empty()),
    {
        let r = ValidationResult { is_valid: true, errors: Vec::new(), warnings: Vec::new() };
        assert(r@.1 =~= Seq::<Seq<char>>::empty());
        assert(r@.2 =~= Seq::<Seq<char>>::empty());
        r
    }

    /// Adds an error; the outcome is no longer valid.
    pub fn add_error(&mut self, error: String)
        ensures
            final(self)@ == (false, old(self)@.1.push(error@), old(self)@.2),
    {
        self.is_valid = false;
        self.errors.push(error);
        assert(strings_view(self.errors@) =~= old(self)@.1.push(error@));
    }

    /// Adds a warning.
    pub fn add_warning(&mut self, warning: String)
        ensures
            final(self)@ == (old(self)@.0, old(self)@.1, old(self)@.2.push(warning@)),
    {
        self.warnings.push(warning);
        assert(strings_view(self.warnings@) =~= old(self)@.2.push(warning@));
    }

    /// Whether any error was added.
    pub fn has_errors(&self) -> (r: bool)
        ensures
            r == (self@.1.len() > 0),
    {
        self.errors.len() > 0
    }

    /// Adds the errors, then the warnings, of `other`.
    pub fn absorb(&mut self, other: ValidationResult)
        requires
            old(self)@.0 == (old(self)@.1.len() == 0),
        ensures
            final(self)@ == report(old(self)@.1 + other@.1, old(self)@.2 + other@.2),
    {
        let ghost e0 = self@.1;
        let ghost w0 = self@.2;
        let mut i: usize = 0;
        while i < other.errors.len()
            invariant
                i <= other.errors@.len(),
                self@ == report(e0 + strings_view(other.errors@).subrange(0, i as int), w0),
            decreases other.errors@.len() - i,
        {
            self.add_error(other.errors[i].clone());
            assert(e0 + strings_view(other.errors@).subrange(0, i + 1) =~= (e0 + strings_view(
                other.errors@,
            ).subrange(0, i as int)).push(other.errors@[i as int]@));
            i += 1;
        }
        let mut j: usize = 0;
        while j < other.warnings.len()
            invariant
                j <= other.warnings@.len(),
                self@ == report(e0 + other@.1, w0 + strings_view(other.warnings@).subrange(0, j as int)),
            decreases other.warnings@.len() - j,
        {
            self.add_warning(other.warnings[j].clone());
            assert(w0 + strings_view(other.warnings@).subrange(0, j + 1) =~= (w0 + strings_view(
                other.warnings@,
            ).subrange(0, j as int)).push(other.warnings@[j as int]@));
            j += 1;
        }
        assert(strings_view(other.errors@).subrange(0, other.errors@.len() as int) =~= other@.1);
        assert(strings_view(other.warnings@).subrange(0, other.warnings@.len() as int) =~= other@.2);
    }
}

/// The text of a decimal digit.
pub open spec fn digit_char(d: nat) -> char {
    if d == 0 { '0' } else if d == 1 { '1' } else if d == 2 { '2' } else if d == 3 { '3' }
    else if d == 4 { '4' } else if d == 5 { '5' } else if d == 6 { '6' } else if d == 7 { '7' }
    else if d == 8 { '8' } else { '9' }
}

/// `n` written in decimal, without leading zeros.
pub open spec fn decimal(n: nat) -> Seq<char>
    decreases n,
{
    if n < 10 {
        seq![digit_char(n)]
    } else {
        decimal(n / 10) + seq![digit_char(n % 10)]
    }
}

fn push_decimal(n: u128, out: &mut Vec<char>)
    ensures
        final(out)@ == old(out)@ + decimal(n as nat),
    decreases n,
{
    if n >= 10 {
        push_decimal(n / 10, out);
    }
    let d = n % 10;
    let c = if d == 0 { '0' } else if d == 1 { '1' } else if d == 2 { '2' } else if d == 3 { '3' }
        else if d == 4 { '4' } else if d == 5 { '5' } else if d == 6 { '6' } else if d == 7 { '7' }
        else if d == 8 { '8' } else { '9' };
    let ghost mid = out@;
    out.push(c);
    proof {
        if n >= 10 {
            assert(out@ =~= old(out)@ + decimal(n as nat));
        } else {
            assert(out@ =~= old(out)@ + decimal(n as nat));
        }
    }
}

/// `prefix` followed by `n` in decimal and then `suffix`.
fn with_number(prefix: &str, n: u128, suffix: &str) -> (r: String)
    ensures
        r@ == prefix@ + decimal(n as nat) + suffix@,
{
    let mut digits: Vec<char> = Vec::new();
    push_decimal(n, &mut digits);
    assert(digits@ =~= decimal(n as nat));
    let mut r = prefix.to_owned();
    r.append(crate::text::string_from_chars(&digits).as_str());
    r.append(suffix);
    r
}

// ---------------------------------------------------------------- timeout

/// What a check of a request timeout of `timeout` seconds reports.
pub open spec fn timeout_report(timeout: u64) -> (bool, Seq<Seq<char>>, Seq<Seq<char>>) {
    if timeout == 0 {
        report(seq!["the timeout cannot be zero"@], Seq::empty())
    } else if timeout > 300 {
        report(Seq::empty(), seq!["the timeout is very long (at most 60 seconds is advised)"@])
    } else if timeout < 5 {
        report(Seq::empty(), seq!["the timeout is very short; requests may fail"@])
    } else {
        report(Seq::empty(), Seq::empty())
    }
}

/// Checks a request timeout in seconds: zero is an error; over 300 or under 5 is warned of.
pub fn validate_timeout(timeout: u64) -> (r: ValidationResult)
    ensures
        r@ == timeout_report(timeout),
{
    let mut r = ValidationResult::new();
    if timeout == 0 {
        r.add_error("the timeout cannot be zero".to_owned());
    } else if timeout > 300 {
        r.add_warning("the timeout is very long (at most 60 seconds is advised)".to_owned());
    } else if timeout < 5 {
        r.add_warning("the timeout is very short; requests may fail".to_owned());
    }
    proof {
        assert(r@.1 =~= timeout_report(timeout).1);
        assert(r@.2 =~= timeout_report(timeout).2);
    }
    r
}

// ---------------------------------------------------------------- threads

/// Relies on `num_cpus::get`, which documents a result of at least 1.
#[verifier::external_body]
fn cpu_count() -> (n: usize)
    ensures
        n >= 1,
{
    num_cpus::get()
}

/// What a check of a worker budget of `threads` reports on a machine with `cpus` CPUs.
pub open spec fn threads_report(threads: nat, cpus: nat) -> (bool, Seq<Seq<char>>, Seq<Seq<char>>) {
    if threads == 0 {
        report(seq!["the thread count cannot be zero"@], Seq::empty())
    } else if threads > 4 * cpus {
        report(
            Seq::empty(),
            seq!["the thread count is very high ("@ + decimal(threads) + "); suggested limit: "@
                + decimal(2 * cpus)],
        )
    } else if threads < 2 {
        report(Seq::empty(), seq!["a low thread count may reduce performance"@])
    } else {
        report(Seq::empty(), Seq::empty())
    }
}

/// Checks a worker budget against `cpus` CPUs: zero is an error; more than
/// four per CPU, or fewer than two, is warned of.
pub fn validate_threads_with(threads: usize, cpus: usize) -> (r: ValidationResult)
    ensures
        r@ == threads_report(threads as nat, cpus as nat),
{
    let mut r = ValidationResult::new();
    if threads == 0 {
        r.add_error("the thread count cannot be zero".to_owned());
    } else if threads as u128 > 4 * (cpus as u128) {
        let mut m = with_number("the thread count is very high (", threads as u128, "); suggested limit: ");
        let limit = with_number("", 2 * (cpus as u128), "");
        proof {
            reveal_strlit("");
            assert(limit@ =~= decimal(2 * cpus as nat));
        }
        m.append(limit.as_str());
        r.add_warning(m);
    } else if threads < 2 {
        r.add_warning("a low thread count may reduce performance".to_owned());
    }
    proof {
        assert(r@.1 =~= threads_report(threads as nat, cpus as nat).1);
        assert(r@.2 =~= threads_report(threads as nat, cpus as nat).2);
    }
    r
}

/// Checks a worker budget against the CPUs of this machine (at least one).
pub fn validate_threads(threads: usize) -> (r: ValidationResult)
    ensures
        exists|cpus: nat| cpus >= 1 && r@ == threads_report(threads as nat, cpus),
{
    let cpus = cpu_count();
    validate_threads_with(threads, cpus)
}

// ---------------------------------------------------------------- file name

/// Characters a report file name may not hold, in the order they are looked for.
pub open spec fn forbidden_chars() -> Seq<char> {
    seq!['/', '\\', ':', '*', '?', '"', '<', '>', '|']
}

/// The first character of `forbidden_chars()`, from position `k` on, that occurs in `name`.
pub open spec fn first_forbidden_from(name: Seq<char>, k: nat) -> Option<char>
    decreases 9 - k,
{
    if k >= 9 {
        None
    } else if name.contains(forbidden_chars()[k as int]) {
        Some(forbidden_chars()[k as int])
    } else {
        first_forbidden_from(name, k + 1)
    }
}

/// What a check of the file name `name` reports.
pub open spec fn filename_report(name: Seq<char>) -> (bool, Seq<Seq<char>>, Seq<Seq<char>>) {
    report(
        match first_forbidden_from(name, 0) {
            Some(c) => seq!["the file name holds a disallowed character: '"@ + seq![c] + "'"@],
            None => Seq::empty(),
        } + when(vstd::utf8::encode_utf8(name).len() > 255, "the file name is too long (at most 255 bytes)"@)
            + when(trim_of(name).len() == 0, "the file name cannot be empty"@),
        when(!name.contains('.'), "the file name has no extension"@),
    )
}

/// The first character of `forbidden_chars()` that occurs in `name`.
fn first_forbidden(name: &str) -> (r: Option<char>)
    ensures
        r == first_forbidden_from(name@, 0),
{
    let mut forbidden: Vec<char> = Vec::new();
    forbidden.push('/');
    forbidden.push('\\');
    forbidden.push(':');
    forbidden.push('*');
    forbidden.push('?');
    forbidden.push('"');
    forbidden.push('<');
    forbidden.push('>');
    forbidden.push('|');
    assert(forbidden@ =~= forbidden_chars());
    let mut k: usize = 0;
    while k < forbidden.len()
        invariant
            forbidden@ == forbidden_chars(),
            k <= 9,
            first_forbidden_from(name@, 0) == first_forbidden_from(name@, k as nat),
        decreases 9 - k,
    {
        let c = forbidden[k];
        if has_char(name, c) {
            return Some(c);
        }
        k += 1;
    }
    None
}

/// Checks a report file name: a disallowed character (the first of
/// `/ \ : * ? " < > |` found, in that order), more than 255 bytes, or only
/// whitespace is an error; no `.` is warned of.
pub fn validate_filename(filename: &str) -> (r: ValidationResult)
    ensures
        r@ == filename_report(filename@),
{
    let mut r = ValidationResult::new();
    match first_forbidden(filename) {
        Some(c) => {
            let mut one: Vec<char> = Vec::new();
            one.push(c);
            assert(one@ =~= seq![c]);
            let mut m = "the file name holds a disallowed character: '".to_owned();
            m.append(crate::text::string_from_chars(&one).as_str());
            m.append("'");
            r.add_error(m);
        },
        None => {},
    }
    let ghost e1 = r@.1;
    assert(e1 =~= match first_forbidden_from(filename@, 0) {
        Some(c) => seq!["the file name holds a disallowed character: '"@ + seq![c] + "'"@],
        None => Seq::empty(),
    });
    if filename.as_bytes().len() > 255 {
        r.add_error("the file name is too long (at most 255 bytes)".to_owned());
    }
    let ghost e2 = r@.1;
    assert(e2 =~= e1 + when(vstd::utf8::encode_utf8(filename@).len() > 255, "the file name is too long (at most 255 bytes)"@));
    let t = trimmed(filename);
    if t.as_str().is_empty() {
        r.add_error("the file name cannot be empty".to_owned());
    }
    assert(r@.1 =~= e2 + when(trim_of(filename@).len() == 0, "the file name cannot be empty"@));
    if !has_char(filename, '.') {
        r.add_warning("the file name has no extension".to_owned());
    }
    proof {
        let want = filename_report(filename@);
        assert(r@.1 =~= want.1);
        assert(r@.2 =~= want.2);
    }
    r
}

// ---------------------------------------------------------------- proxy

/// Whether `c` is an ASCII decimal digit.
pub open spec fn is_digit(c: char) -> bool {
    '0' <= c <= '9'
}

/// The value of a string of decimal digits.
pub open spec fn digits_value(d: Seq<char>) -> nat
    decreases d.len(),
{
    if d.len() == 0 {
        0
    } else {
        digits_value(d.drop_last()) * 10 + (d.last() as nat - '0' as nat) as nat
    }
}

/// `s` without one leading `+`.
pub open spec fn port_digits(s: Seq<char>) -> Seq<char> {
    if s.len() > 0 && s[0] == '+' {
        s.subrange(1, s.len() as int)
    } else {
        s
    }
}

/// What `u16::from_str` makes of `s`: an optional `+`, then at least one
/// decimal digit, with a value that fits in 16 bits.
pub open spec fn port_value(s: Seq<char>) -> Option<nat> {
    let d = port_digits(s);
    if d.len() == 0 || exists|i: int| 0 <= i < d.len() && !is_digit(#[trigger] d[i]) {
        None
    } else if digits_value(d) > 65535 {
        None
    } else {
        Some(digits_value(d))
    }
}

proof fn lemma_digits_grow(d: Seq<char>, i: int)
    requires
        0 <= i <= d.len(),
        forall|j: int| 0 <= j < d.len() ==> is_digit(#[trigger] d[j]),
    ensures
        digits_value(d.subrange(0, i)) <= digits_value(d),
    decreases d.len() - i,
{
    if i < d.len() {
        lemma_digits_grow(d, i + 1);
        assert(d.subrange(0, i + 1).drop_last() =~= d.subrange(0, i));
    } else {
        assert(d.subrange(0, i) =~= d);
    }
}

/// The port number in `s`, read as `u16::from_str` reads it.
pub fn parse_port(s: &str) -> (r: Option<u16>)
    ensures
        match port_value(s@) {
            Some(v) => r == Some(v as u16),
            None => r is None,
        },
{
    let cs = char_vec(s);
    let start: usize = if cs.len() > 0 && cs[0] == '+' {
        1
    } else {
        0
    };
    let ghost d = port_digits(s@);
    assert(d =~= s@.subrange(start as int, s@.len() as int));
    if start >= cs.len() {
        assert(d.len() == 0);
        return None;
    }
    let mut value: u32 = 0;
    let mut i: usize = start;
    while i < cs.len()
        invariant
            cs@ == s@,
            start <= i <= cs@.len(),
            d == s@.subrange(start as int, s@.len() as int),
            d == port_digits(s@),
            forall|j: int| start <= j < i ==> is_digit(#[trigger] cs@[j]),
            value == digits_value(s@.subrange(start as int, i as int)),
            value <= 65535,
        decreases cs@.len() - i,
    {
        let c = cs[i];
        if c < '0' || c > '9' {
            assert(d[i - start] == c);
            assert(!is_digit(d[i - start]));
            assert(exists|j: int| 0 <= j < d.len() && !is_digit(#[trigger] d[j]));
            return None;
        }
        let ghost prefix = s@.subrange(start as int, i + 1);
        assert(prefix.drop_last() =~= s@.subrange(start as int, i as int));
        let next = value * 10 + (c as u32 - '0' as u32);
        if next > 65535 {
            proof {
                if forall|j: int| 0 <= j < d.len() ==> is_digit(#[trigger] d[j]) {
                    lemma_digits_grow(d, i + 1 - start);
                    assert(d.subrange(0, i + 1 - start) =~= prefix);
                }
            }
            return None;
        }
        value = next;
        i += 1;
    }
    assert(d =~= s@.subrange(start as int, i as int));
    Some(value as u16)
}

/// Proxy schemes that are accepted, each with the port used when none is given.
pub open spec fn proxy_schemes() -> Seq<(Seq<char>, Seq<char>)> {
    seq![("http://"@, "80"@), ("https://"@, "443"@), ("socks4://"@, "1080"@), ("socks5://"@, "1080"@)]
}

/// The first scheme of `proxy_schemes()`, from position `k` on, that starts `url`.
pub open spec fn proxy_scheme_from(url: Seq<char>, k: nat) -> Option<(Seq<char>, Seq<char>)>
    decreases 4 - k,
{
    if k >= 4 {
        None
    } else if has_prefix(url, proxy_schemes()[k as int].0) {
        Some(proxy_schemes()[k as int])
    } else {
        proxy_scheme_from(url, k + 1)
    }
}

/// What a check of the proxy URL `url` reports.
pub open spec fn proxy_report(url: Seq<char>) -> (bool, Seq<Seq<char>>, Seq<Seq<char>>) {
    match proxy_scheme_from(url, 0) {
        None => report(
            seq!["invalid proxy format; use http://, https://, socks4:// or socks5://"@],
            Seq::empty(),
        ),
        Some(scheme) => {
            let rest = url.subrange(scheme.0.len() as int, url.len() as int);
            if !rest.contains(':') {
                report(Seq::empty(), seq!["the proxy has no port; port "@ + scheme.1 + " will be used"@])
            } else if split_seq(rest, ':').len() == 2 {
                match port_value(split_seq(rest, ':')[1]) {
                    Some(p) => if p == 0 {
                        report(seq!["invalid port number: 0"@], Seq::empty())
                    } else {
                        report(Seq::empty(), Seq::empty())
                    },
                    None => report(seq!["invalid port number"@], Seq::empty()),
                }
            } else {
                report(Seq::empty(), Seq::empty())
            }
        },
    }
}

fn proxy_scheme(url: &str) -> (r: Option<(String, String)>)
    ensures
        match proxy_scheme_from(url@, 0) {
            Some(sch) => r matches Some(p) && p.0@ == sch.0 && p.1@ == sch.1,
            None => r is None,
        },
{
    proof {
        reveal_with_fuel(proxy_scheme_from, 5);
    }
    if starts_with_text(url, "http://") {
        Some(("http://".to_owned(), "80".to_owned()))
    } else if starts_with_text(url, "https://") {
        Some(("https://".to_owned(), "443".to_owned()))
    } else if starts_with_text(url, "socks4://") {
        Some(("socks4://".to_owned(), "1080".to_owned()))
    } else if starts_with_text(url, "socks5://") {
        Some(("socks5://".to_owned(), "1080".to_owned()))
    } else {
        None
    }
}

/// Checks a proxy URL: it must start with `http://`, `https://`, `socks4://`
/// or `socks5://`. After the scheme, no `:` is warned of (the scheme's default
/// port is used); with exactly one `:`, what follows it must be a port number
/// other than 0.
pub fn validate_proxy(proxy_url: &str) -> (r: ValidationResult)
    ensures
        r@ == proxy_report(proxy_url@),
{
    let mut r = ValidationResult::new();
    match proxy_scheme(proxy_url) {
        None => {
            r.add_error("invalid proxy format; use http://, https://, socks4:// or socks5://".to_owned());
        },
        Some((prefix, default_port)) => {
            proof {
                reveal_with_fuel(proxy_scheme_from, 5);
            }
            let cs = char_vec(proxy_url);
            let pl = char_vec(prefix.as_str()).len();
            let rest = string_from(&cs, pl);
            if !has_char(rest.as_str(), ':') {
                let mut m = "the proxy has no port; port ".to_owned();
                m.append(default_port.as_str());
                m.append(" will be used");
                r.add_warning(m);
            } else {
                let parts = split_on(rest.as_str(), ':');
                if parts.len() == 2 {
                    match parse_port(parts[1].as_str()) {
                        Some(p) => {
                            if p == 0 {
                                r.add_error("invalid port number: 0".to_owned());
                            }
                        },
                        None => {
                            r.add_error("invalid port number".to_owned());
                        },
                    }
                }
            }
        },
    }
    proof {
        let want = proxy_report(proxy_url@);
        assert(r@.1 =~= want.1);
        assert(r@.2 =~= want.2);
    }
    r
}

// ---------------------------------------------------------------- url

/// What `url::Url::parse` makes of a string: whether the URL has a host and
/// its explicit port, or the text of the parse error.
pub uninterp spec fn url_facts_of(s: Seq<char>) -> Result<(bool, Option<u16>), Seq<char>>;

/// Relies on `url::Url::parse`, reading `has_host` and `port` off the parsed
/// URL and the parse error's text otherwise; the result depends on the string alone.
#[verifier::external_body]
fn url_facts(s: &str) -> (r: Result<(bool, Option<u16>), String>)
    ensures
        match r {
            Ok(f) => url_facts_of(s@) == Ok::<(bool, Option<u16>), Seq<char>>(f),
            Err(e) => url_facts_of(s@) == Err::<(bool, Option<u16>), Seq<char>>(e@),
        },
{
    match url::Url::parse(s) {
        Ok(u) => Ok((u.has_host(), u.port())),
        Err(e) => Err(e.to_string()),
    }
}

/// The view of a parse outcome.
pub open spec fn facts_view(f: Result<(bool, Option<u16>), String>) -> Result<(bool, Option<u16>), Seq<char>> {
    match f {
        Ok(x) => Ok(x),
        Err(e) => Err(e@),
    }
}

/// The warnings about a target URL.
pub open spec fn url_warnings(url: Seq<char>) -> Seq<Seq<char>> {
    when(
        contains_seq(url, "localhost"@) || contains_seq(url, "127.0.0.1"@),
        "the url points to the local host"@,
    ) + when(contains_seq(url, ":80/"@) && has_prefix(url, "http://"@), "port 80 is the default for HTTP"@)
        + when(contains_seq(url, ":443/"@) && has_prefix(url, "https://"@), "port 443 is the default for HTTPS"@)
}

/// What a check of the target URL `url` reports, given what parsing made of it.
pub open spec fn url_report(url: Seq<char>, facts: Result<(bool, Option<u16>), Seq<char>>) -> (bool, Seq<Seq<char>>, Seq<Seq<char>>) {
    if !has_prefix(url, "http://"@) && !has_prefix(url, "https://"@) {
        report(seq!["the url must start with http:// or https://"@], Seq::empty())
    } else {
        report(
            match facts {
                Ok(f) => when(!f.0, "invalid url: no host"@) + when(f.1 == Some(0u16), "invalid port number: 0"@),
                Err(e) => seq!["invalid url: "@ + e],
            },
            url_warnings(url),
        )
    }
}

/// Checks a target URL given what parsing made of it: it must be `http://` or
/// `https://`, parse, have a host and no port 0; a local host, or a default
/// port written out, is warned of.
pub fn validate_url_parsed(url: &str, facts: &Result<(bool, Option<u16>), String>) -> (r: ValidationResult)
    ensures
        r@ == url_report(url@, facts_view(*facts)),
{
    let mut r = ValidationResult::new();
    if !starts_with_text(url, "http://") && !starts_with_text(url, "https://") {
        r.add_error("the url must start with http:// or https://".to_owned());
        proof {
            let want = url_report(url@, facts_view(*facts));
            assert(r@.1 =~= want.1);
            assert(r@.2 =~= want.2);
        }
        return r;
    }
    match facts {
        Ok((has_host, port)) => {
            if !*has_host {
                r.add_error("invalid url: no host".to_owned());
            }
            match port {
                Some(p) => {
                    if *p == 0 {
                        r.add_error("invalid port number: 0".to_owned());
                    }
                },
                None => {},
            }
        },
        Err(e) => {
            let mut m = "invalid url: ".to_owned();
            m.append(e.as_str());
            r.add_error(m);
        },
    }
    if contains_text(url, "localhost") || contains_text(url, "127.0.0.1") {
        r.add_warning("the url points to the local host".to_owned());
    }
    if contains_text(url, ":80/") && starts_with_text(url, "http://") {
        r.add_warning("port 80 is the default for HTTP".to_owned());
    }
    if contains_text(url, ":443/") && starts_with_text(url, "https://") {
        r.add_warning("port 443 is the default for HTTPS".to_owned());
    }
    proof {
        let want = url_report(url@, facts_view(*facts));
        assert(r@.1 =~= want.1);
        assert(r@.2 =~= want.2);
    }
    r
}

/// Checks a target URL; it is parsed only where its scheme is right.
pub fn validate_url(url: &str) -> (r: ValidationResult)
    ensures
        r@ == url_report(url@, url_facts_of(url@)),
{
    if !starts_with_text(url, "http://") && !starts_with_text(url, "https://") {
        let none: Result<(bool, Option<u16>), String> = Ok((true, None));
        return validate_url_parsed(url, &none);
    }
    let facts = url_facts(url);
    validate_url_parsed(url, &facts)
}

// ---------------------------------------------------------------- target

/// Checks everything a sweep needs from its user: the target URL, the worker
/// budget (against this machine's CPUs) and the timeout, in that order; the
/// errors and warnings of the three are kept in that order.
pub fn validate_target(url: &str, threads: usize, timeout: u64) -> (r: ValidationResult)
    ensures
        exists|cpus: nat|
            cpus >= 1 && r@ == report(
                url_report(url@, url_facts_of(url@)).1 + threads_report(threads as nat, cpus).1
                    + timeout_report(timeout).1,
                url_report(url@, url_facts_of(url@)).2 + threads_report(threads as nat, cpus).2
                    + timeout_report(timeout).2,
            ),
{
    let mut r = ValidationResult::new();
    let u = validate_url(url);
    let cpus = cpu_count();
    let t = validate_threads_with(threads, cpus);
    let o = validate_timeout(timeout);
    r.absorb(u);
    r.absorb(t);
    r.absorb(o);
    proof {
        assert(Seq::<Seq<char>>::empty() + url_report(url@, url_facts_of(url@)).1 =~= url_report(url@, url_facts_of(url@)).1);
        assert(Seq::<Seq<char>>::empty() + url_report(url@, url_facts_of(url@)).2 =~= url_report(url@, url_facts_of(url@)).2);
        assert(r@ == report(
            url_report(url@, url_facts_of(url@)).1 + threads_report(threads as nat, cpus as nat).1
                + timeout_report(timeout).1,
            url_report(url@, url_facts_of(url@)).2 + threads_report(threads as nat, cpus as nat).2
                + timeout_report(timeout).2,
        ));
    }
    r
}

// ---------------------------------------------------------------- password file

/// The first ten lines of `content` that hold more than whitespace, trimmed.
pub open spec fn head_entries(content: Seq<char>) -> Seq<Seq<char>> {
    let lines = split_seq(content, '\n');
    let head = if lines.len() > 10 {
        lines.subrange(0, 10)
    } else {
        lines
    };
    head.map_values(|p: Seq<char>| trim_of(p)).filter(|p: Seq<char>| p.len() > 0)
}

/// What a check of a password file reports, given what the file system said
/// of it: whether it exists, its permission bits, its size in bytes and its
/// text, or the error text of each failed look.
pub open spec fn password_file_report(
    path: Seq<char>,
    exists: bool,
    mode: Result<u32, Seq<char>>,
    size: Result<u64, Seq<char>>,
    content: Result<Seq<char>, Seq<char>>,
) -> (bool, Seq<Seq<char>>, Seq<Seq<char>>) {
    if !exists {
        report(seq!["file not found: "@ + path], Seq::empty())
    } else {
        report(
            match mode {
                Ok(_) => Seq::empty(),
                Err(e) => seq!["cannot read the file's metadata: "@ + e],
            } + match size {
                Ok(n) => when(n == 0, "the file is empty"@),
                Err(e) => seq!["cannot read the file's size: "@ + e],
            } + match content {
                Ok(c) => when(head_entries(c).len() == 0, "the file holds no usable data"@),
                Err(e) => seq!["cannot read the file: "@ + e],
            },
            match mode {
                Ok(m) => when(m & 0o400u32 == 0, "the file's read permission is limited"@),
                Err(_) => Seq::empty(),
            } + match size {
                Ok(n) => when(n > 104857600, "the file is very large; performance may suffer"@)
                    + when(0 < n < 100, "the file is very small; it may not be useful"@),
                Err(_) => Seq::empty(),
            } + match content {
                Ok(c) => when(
                    exists|k: int|
                        0 <= k < head_entries(c).len() && vstd::utf8::encode_utf8(
                            #[trigger] head_entries(c)[k],
                        ).len() > 100,
                    "some passwords are very long; performance may suffer"@,
                ),
                Err(_) => Seq::empty(),
            },
        )
    }
}

/// The view of a result whose error is a `String`.
pub open spec fn result_view<T>(r: Result<T, String>) -> Result<T, Seq<char>> {
    match r {
        Ok(x) => Ok(x),
        Err(e) => Err(e@),
    }
}

fn append_error(r: &mut ValidationResult, prefix: &str, e: &String)
    ensures
        final(r)@ == (false, old(r)@.1.push(prefix@ + e@), old(r)@.2),
{
    let mut m = prefix.to_owned();
    m.append(e.as_str());
    r.add_error(m);
}

/// The first ten lines of `content` that hold more than whitespace, trimmed.
fn first_entries(content: &str) -> (r: Vec<String>)
    ensures
        strings_view(r@) == head_entries(content@),
{
    let lines = split_on(content, '\n');
    let mut head: Vec<String> = Vec::new();
    let mut i: usize = 0;
    while i < lines.len() && i < 10
        invariant
            i <= lines@.len(),
            i <= 10,
            head@.len() == i,
            forall|j: int| 0 <= j < i ==> #[trigger] head@[j]@ == lines@[j]@,
        decreases lines@.len() - i,
    {
        head.push(lines[i].clone());
        i += 1;
    }
    let ghost sv = strings_view(lines@);
    assert(strings_view(head@) =~= if sv.len() > 10 { sv.subrange(0, 10) } else { sv });
    crate::parse::keep_entries(crate::parse::trim_all(&head), false)
}

/// Checks a password file from what the file system said of it: a missing
/// or empty file, one without a usable line among its first ten, or a failed
/// look is an error; limited read permission, a size over 100 MiB or under
/// 100 bytes, or a password over 100 bytes among the first ten lines is warned of.
pub fn validate_password_file_facts(
    path: &str,
    exists: bool,
    mode: &Result<u32, String>,
    size: &Result<u64, String>,
    content: &Result<String, String>,
) -> (r: ValidationResult)
    ensures
        r@ == password_file_report(path@, exists, result_view(*mode), result_view(*size), match content {
            Ok(c) => Ok(c@),
            Err(e) => Err(e@),
        }),
{
    let mut r = ValidationResult::new();
    if !exists {
        let mut m = "file not found: ".to_owned();
        m.append(path);
        r.add_error(m);
        proof {
            let want = password_file_report(path@, exists, result_view(*mode), result_view(*size), match content {
                Ok(c) => Ok(c@),
                Err(e) => Err(e@),
            });
            assert(r@.1 =~= want.1);
            assert(r@.2 =~= want.2);
        }
        return r;
    }
    match mode {
        Ok(m) => {
            if *m & 0o400u32 == 0 {
                r.add_warning("the file's read permission is limited".to_owned());
            }
        },
        Err(e) => append_error(&mut r, "cannot read the file's metadata: ", e),
    }
    match size {
        Ok(n) => {
            if *n == 0 {
                r.add_error("the file is empty".to_owned());
            } else if *n > 104857600 {
                r.add_warning("the file is very large; performance may suffer".to_owned());
            } else if *n < 100 {
                r.add_warning("the file is very small; it may not be useful".to_owned());
            }
        },
        Err(e) => append_error(&mut r, "cannot read the file's size: ", e),
    }
    match content {
        Ok(c) => {
            let entries = first_entries(c.as_str());
            if entries.len() == 0 {
                r.add_error("the file holds no usable data".to_owned());
            } else {
                let mut k: usize = 0;
                let mut long = false;
                while k < entries.len()
                    invariant
                        k <= entries@.len(),
                        long == exists|j: int| 0 <= j < k && vstd::utf8::encode_utf8(#[trigger] entries@[j]@).len() > 100,
                    decreases entries@.len() - k,
                {
                    if entries[k].as_str().as_bytes().len() > 100 {
                        long = true;
                    }
                    k += 1;
                }
                if long {
                    r.add_warning("some passwords are very long; performance may suffer".to_owned());
                }
                proof {
                    let he = head_entries(c@);
                    assert(strings_view(entries@) == he);
                    assert(long == exists|j: int| 0 <= j < he.len() && vstd::utf8::encode_utf8(#[trigger] he[j]).len() > 100) by {
                        if long {
                            let j = choose|j: int| 0 <= j < entries@.len() && vstd::utf8::encode_utf8(#[trigger] entries@[j]@).len() > 100;
                            assert(he[j] == entries@[j]@);
                        }
                        if exists|j: int| 0 <= j < he.len() && vstd::utf8::encode_utf8(#[trigger] he[j]).len() > 100 {
                            let j = choose|j: int| 0 <= j < he.len() && vstd::utf8::encode_utf8(#[trigger] he[j]).len() > 100;
                            assert(he[j] == entries@[j]@);
                        }
                    }
                }
            }
        },
        Err(e) => append_error(&mut r, "cannot read the file: ", e),
    }
    proof {
        let want = password_file_report(path@, exists, result_view(*mode), result_view(*size), match content {
            Ok(c) => Ok(c@),
            Err(e) => Err(e@),
        });
        assert(r@.1 =~= want.1);
        assert(r@.2 =~= want.2);
    }
    r
}

} // verus!

//! Sizes, spans of time and versions, as they are written and read.

use crate::text::cat2;
use crate::text::cat4;
use crate::text::cat5;
use crate::text::chars_of;
use crate::text::decimal;
use crate::text::digit;
use crate::text::is_digit;
use crate::text::parse_u64;
use crate::text::parsed;
use crate::text::pieces;
use crate::text::split;
use crate::text::text_between;
use crate::text::to_decimal;
use vstd::prelude::*;

verus! {

/// A size of memory in MiB: `<n>G`, `<n>M` or a bare number of MiB, and none where that is
/// nothing.
pub open spec fn mem_mib(s: Seq<char>) -> Option<nat> {
    let (digits, scale) = if s.len() > 0 && s.last() == 'G' {
        (s.drop_last(), 1024nat)
    } else if s.len() > 0 && s.last() == 'M' {
        (s.drop_last(), 1nat)
    } else {
        (s, 1nat)
    };
    match parsed(digits, u64::MAX as nat) {
        Some(n) => if 0 < n && n * scale <= u64::MAX {
            Some(n * scale)
        } else {
            None
        },
        None => None,
    }
}

pub fn parse_mem_mib(s: &str) -> (r: Option<u64>)
    ensures
        match r {
            Some(n) => mem_mib(s@) == Some(n as nat),
            None => mem_mib(s@) is None,
        },
{
    let v = chars_of(s);
    let n: usize = v.len();
    if n > 0 && (v[n - 1] == 'G' || v[n - 1] == 'M') {
        let digits = text_between(&v, 0, n - 1);
        assert(digits@ =~= s@.drop_last());
        let scale: u64 = if v[n - 1] == 'G' {
            1024
        } else {
            1
        };
        match parse_u64(digits.as_str()) {
            Some(n) => if n == 0 {
                None
            } else {
                n.checked_mul(scale)
            },
            None => None,
        }
    } else {
        match parse_u64(s) {
            Some(n) => if n == 0 {
                None
            } else {
                Some(n)
            },
            None => None,
        }
    }
}

/// The text splits into the digits at its start and the rest.
pub open spec fn digits_end(s: Seq<char>, from: int) -> int
    decreases s.len() - from,
{
    if from < 0 || from >= s.len() || !is_digit(s[from]) {
        from
    } else {
        digits_end(s, from + 1)
    }
}

/// What a duration's unit counts, in seconds.
pub open spec fn unit_secs(u: Seq<char>) -> Option<nat> {
    if u == "s"@ || u.len() == 0 {
        Some(1)
    } else if u == "m"@ {
        Some(60)
    } else if u == "h"@ {
        Some(3600)
    } else {
        None
    }
}

/// A duration in seconds: `90s`, `10m`, `1h`, or a bare number of seconds. One too long to
/// count is as long as can be counted.
pub open spec fn duration(s: Seq<char>) -> Option<nat> {
    let at = digits_end(s, 0);
    match (parsed(s.take(at), u64::MAX as nat), unit_secs(s.skip(at))) {
        (Some(n), Some(u)) => Some(if n * u <= u64::MAX {
            n * u
        } else {
            u64::MAX as nat
        }),
        _ => None,
    }
}

pub open spec fn duration_error() -> Seq<char> {
    "expected a duration such as 90s, 10m or 1h"@
}

/// `90s`, `10m`, `1h`, or a bare number of seconds; the seconds.
pub fn parse_duration(text: &str) -> (r: Result<u64, crate::text::Error>)
    ensures
        match r {
            Ok(n) => duration(text@) == Some(n as nat),
            Err(e) => duration(text@) is None && e.deep_view() == duration_error(),
        },
{
    let v = chars_of(text);
    let mut at: usize = 0;
    while at < v.len() && digit(v[at])
        invariant
            at <= v@.len(),
            v@ == text@,
            digits_end(text@, at as int) == digits_end(text@, 0),
        decreases v@.len() - at,
    {
        at = at + 1;
    }
    let digits = text_between(&v, 0, at);
    let unit = text_between(&v, at, v.len());
    assert(digits@ =~= text@.take(at as int));
    assert(unit@ =~= text@.skip(at as int));
    let scale: u64 = if crate::text::same(unit.as_str(), "s") || unit.as_str().is_empty() {
        1
    } else if crate::text::same(unit.as_str(), "m") {
        60
    } else if crate::text::same(unit.as_str(), "h") {
        3600
    } else {
        return Err(crate::text::error("expected a duration such as 90s, 10m or 1h".to_owned()));
    };
    match parse_u64(digits.as_str()) {
        Some(n) => match n.checked_mul(scale) {
            Some(secs) => Ok(secs),
            None => Ok(u64::MAX),
        },
        None => Err(crate::text::error("expected a duration such as 90s, 10m or 1h".to_owned())),
    }
}

/// A release.
#[derive(Debug, Clone, Copy, PartialEq, Eq, Structural)]
pub struct Version {
    pub major: u64,
    pub minor: u64,
    pub patch: u64,
}

impl Version {
    /// `self` was released before `other`.
    pub open spec fn older_than(self, other: Version) -> bool {
        self.major < other.major || (self.major == other.major && (self.minor < other.minor || (self.minor
            == other.minor && self.patch < other.patch)))
    }

    pub fn is_older_than(self, other: Version) -> (r: bool)
        ensures
            r == self.older_than(other),
    {
        self.major < other.major || (self.major == other.major && (self.minor < other.minor || (self.minor
            == other.minor && self.patch < other.patch)))
    }

    pub open spec fn spelling(self) -> Seq<char> {
        decimal(self.major as nat) + "."@ + decimal(self.minor as nat) + "."@ + decimal(self.patch as nat)
    }

    pub fn to_text(self) -> (r: String)
        ensures
            r@ == self.spelling(),
    {
        let a = to_decimal(self.major);
        let b = to_decimal(self.minor);
        let c = to_decimal(self.patch);
        cat5(a.as_str(), ".", b.as_str(), ".", c.as_str())
    }
}

/// The release a text names: three numbers with dots between them.
pub open spec fn version_of(s: Seq<char>) -> Option<Version> {
    let p = pieces(s, '.');
    let max = u64::MAX as nat;
    if p.len() == 3 && parsed(p[0], max) is Some && parsed(p[1], max) is Some && parsed(p[2], max) is Some {
        Some(
            Version {
                major: parsed(p[0], max)->0 as u64,
                minor: parsed(p[1], max)->0 as u64,
                patch: parsed(p[2], max)->0 as u64,
            },
        )
    } else {
        None
    }
}

pub fn parse_version(s: &str) -> (r: Option<Version>)
    ensures
        r == version_of(s@),
{
    let p = split(s, '.');
    assert(p@.len() == p.deep_view().len());
    if p.len() != 3 {
        return None;
    }
    let a = parse_u64(p[0].as_str());
    let b = parse_u64(p[1].as_str());
    let c = parse_u64(p[2].as_str());
    assert(p.deep_view()[0] == p@[0]@ && p.deep_view()[1] == p@[1]@ && p.deep_view()[2] == p@[2]@);
    match (a, b, c) {
        (Some(major), Some(minor), Some(patch)) => Some(Version { major, minor, patch }),
        _ => None,
    }
}

pub open spec fn version_error() -> Seq<char> {
    "expected a version such as 0.64.0"@
}

/// A number of bytes as a whole count of the largest binary unit it reaches.
pub open spec fn bytes_shown(n: u64) -> Seq<char> {
    if n < 1024 {
        decimal(n as nat) + " B"@
    } else if n < 1048576 {
        decimal((n / 1024) as nat) + " KiB"@
    } else if n < 1073741824 {
        decimal((n / 1048576) as nat) + " MiB"@
    } else if n < 1099511627776 {
        decimal((n / 1073741824) as nat) + " GiB"@
    } else {
        decimal((n / 1099511627776) as nat) + " TiB"@
    }
}

pub fn fmt_bytes(n: u64) -> (r: String)
    ensures
        r@ == bytes_shown(n),
{
    if n < 1024 {
        cat2(to_decimal(n).as_str(), " B")
    } else if n < 1048576 {
        cat2(to_decimal(n / 1024).as_str(), " KiB")
    } else if n < 1073741824 {
        cat2(to_decimal(n / 1048576).as_str(), " MiB")
    } else if n < 1099511627776 {
        cat2(to_decimal(n / 1073741824).as_str(), " GiB")
    } else {
        cat2(to_decimal(n / 1099511627776).as_str(), " TiB")
    }
}

/// A span of seconds by its two largest units.
pub open spec fn uptime_shown(n: u64) -> Seq<char> {
    if n < 60 {
        decimal(n as nat) + "s"@
    } else if n < 3600 {
        decimal((n / 60) as nat) + "m"@ + decimal((n % 60) as nat) + "s"@
    } else if n < 86400 {
        decimal((n / 3600) as nat) + "h"@ + decimal((n % 3600 / 60) as nat) + "m"@
    } else {
        decimal((n / 86400) as nat) + "d"@ + decimal((n % 86400 / 3600) as nat) + "h"@
    }
}

pub fn fmt_uptime(n: u64) -> (r: String)
    ensures
        r@ == uptime_shown(n),
{
    if n < 60 {
        cat2(to_decimal(n).as_str(), "s")
    } else if n < 3600 {
        cat4(to_decimal(n / 60).as_str(), "m", to_decimal(n % 60).as_str(), "s")
    } else if n < 86400 {
        cat4(to_decimal(n / 3600).as_str(), "h", to_decimal(n % 3600 / 60).as_str(), "m")
    } else {
        cat4(to_decimal(n / 86400).as_str(), "d", to_decimal(n % 86400 / 3600).as_str(), "h")
    }
}

} // verus!

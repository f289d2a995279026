//! Host facts shown by the System panel and the Uptime widget.

use vstd::prelude::*;
use crate::text::{decimal, push_decimal};

verus! {

/// How an uptime of `secs` seconds is shown: whole days, hours and minutes,
/// leaving out leading units that are zero ("1d 1h 1m", "1h 1m", "1m").
pub open spec fn uptime_text(secs: nat) -> Seq<char> {
    let days = secs / 86_400;
    let hours = (secs % 86_400) / 3_600;
    let mins = (secs % 3_600) / 60;
    if days > 0 {
        decimal(days) + seq!['d', ' '] + decimal(hours) + seq!['h', ' '] + decimal(mins) + seq!['m']
    } else if hours > 0 {
        decimal(hours) + seq!['h', ' '] + decimal(mins) + seq!['m']
    } else {
        decimal(mins) + seq!['m']
    }
}

/// The shown units are whole days, hours below 24 and minutes below 60, and
/// together they are the uptime rounded down to the minute.
pub proof fn lemma_uptime_parts(secs: nat)
    ensures
        (secs % 86_400) / 3_600 < 24,
        (secs % 3_600) / 60 < 60,
        (secs / 86_400) * 86_400 + ((secs % 86_400) / 3_600) * 3_600 + ((secs % 3_600) / 60) * 60 <= secs,
        secs < (secs / 86_400) * 86_400 + ((secs % 86_400) / 3_600) * 3_600 + ((secs % 3_600) / 60) * 60 + 60,
{
    let d = secs / 86_400;
    let r = secs % 86_400;
    let h = r / 3_600;
    let m = (secs % 3_600) / 60;
    assert(secs == d * 86_400 + r) by (nonlinear_arith)
        requires d == secs / 86_400, r == secs % 86_400;
    assert(r == h * 3_600 + r % 3_600) by (nonlinear_arith)
        requires h == r / 3_600;
    assert(secs % 3_600 == r % 3_600) by (nonlinear_arith)
        requires secs == d * 86_400 + r, r >= 0, d >= 0;
    assert(secs % 3_600 == m * 60 + (secs % 3_600) % 60) by (nonlinear_arith)
        requires m == (secs % 3_600) / 60;
}

/// The text for an uptime of `days` days, `hours` hours and `mins`
/// minutes, leaving out leading units that are zero.
pub open spec fn units_text(days: nat, hours: nat, mins: nat) -> Seq<char> {
    if days > 0 {
        decimal(days) + seq!['d', ' '] + decimal(hours) + seq!['h', ' '] + decimal(mins) + seq!['m']
    } else if hours > 0 {
        decimal(hours) + seq!['h', ' '] + decimal(mins) + seq!['m']
    } else {
        decimal(mins) + seq!['m']
    }
}

/// An uptime of `d` days, `h < 24` hours, `m < 60` minutes and `s < 60`
/// seconds is shown as exactly those days, hours and minutes: the units
/// shown, weighted by 86400, 3600 and 60 seconds, are the uptime rounded
/// down to the minute.
pub proof fn lemma_uptime_shows_units(d: nat, h: nat, m: nat, s: nat)
    requires
        h < 24,
        m < 60,
        s < 60,
    ensures
        uptime_text(d * 86_400 + h * 3_600 + m * 60 + s) == units_text(d, h, m),
{
    let secs = d * 86_400 + h * 3_600 + m * 60 + s;
    let rest = h * 3_600 + m * 60 + s;
    assert(rest < 86_400) by (nonlinear_arith)
        requires rest == h * 3_600 + m * 60 + s, h < 24, m < 60, s < 60;
    vstd::arithmetic::div_mod::lemma_fundamental_div_mod_converse(secs as int, 86_400, d as int, rest as int);
    vstd::arithmetic::div_mod::lemma_fundamental_div_mod_converse(rest as int, 3_600, h as int, (m * 60 + s) as int);
    assert(secs == (d * 24 + h) * 3_600 + (m * 60 + s)) by (nonlinear_arith)
        requires secs == d * 86_400 + h * 3_600 + m * 60 + s;
    vstd::arithmetic::div_mod::lemma_fundamental_div_mod_converse(
        secs as int,
        3_600,
        (d * 24 + h) as int,
        (m * 60 + s) as int,
    );
    vstd::arithmetic::div_mod::lemma_fundamental_div_mod_converse((m * 60 + s) as int, 60, m as int, s as int);
}

/// Formats an uptime given in seconds as days, hours and minutes.
pub fn format_uptime(secs: u64) -> (res: String)
    ensures
        res@ == uptime_text(secs as nat),
        res@ == units_text(secs as nat / 86_400, (secs as nat % 86_400) / 3_600, (secs as nat % 3_600) / 60),
{
    let days = secs / 86_400;
    let hours = (secs % 86_400) / 3_600;
    let mins = (secs % 3_600) / 60;
    let mut s = String::new();
    if days > 0 {
        push_decimal(&mut s, days as u128);
        s.append("d ");
        push_decimal(&mut s, hours as u128);
        s.append("h ");
        push_decimal(&mut s, mins as u128);
        s.append("m");
    } else if hours > 0 {
        push_decimal(&mut s, hours as u128);
        s.append("h ");
        push_decimal(&mut s, mins as u128);
        s.append("m");
    } else {
        push_decimal(&mut s, mins as u128);
        s.append("m");
    }
    proof {
        reveal_strlit("d ");
        reveal_strlit("h ");
        reveal_strlit("m");
        assert("d "@ == seq!['d', ' ']);
        assert("h "@ == seq!['h', ' ']);
        assert("m"@ == seq!['m']);
    }
    s
}


/// A reported name, or "unknown" when the OS did not report one.
pub open spec fn or_unknown(s: Option<String>) -> Seq<char> {
    match s {
        Some(v) => v@,
        None => seq!['u', 'n', 'k', 'n', 'o', 'w', 'n'],
    }
}

/// A reported name, or "unknown".
fn name_or_unknown(s: Option<String>) -> (res: String)
    ensures
        res@ == or_unknown(s),
{
    proof {
        reveal_strlit("unknown");
        assert("unknown"@ =~= seq!['u', 'n', 'k', 'n', 'o', 'w', 'n']);
    }
    match s {
        Some(v) => v,
        None => String::from_str("unknown"),
    }
}

/// Host facts: name, OS, kernel and uptime.
pub struct SystemWidget {
    pub host: String,
    /// OS name and version, separated by a space.
    pub os: String,
    pub kernel: String,
    /// Seconds since boot.
    pub uptime: u64,
}

impl SystemWidget {
    /// Nothing read yet: empty names, zero uptime.
    pub fn new() -> (res: SystemWidget)
        ensures
            res.host@.len() == 0,
            res.os@.len() == 0,
            res.kernel@.len() == 0,
            res.uptime == 0,
    {
        SystemWidget { host: String::new(), os: String::new(), kernel: String::new(), uptime: 0 }
    }

    /// Takes what the OS reports: host name, OS name and version, kernel
    /// version and uptime. Missing names read "unknown"; a missing OS version
    /// leaves the version empty.
    pub fn refresh(
        &mut self,
        host: Option<String>,
        os_name: Option<String>,
        os_version: Option<String>,
        kernel: Option<String>,
        uptime: u64,
    )
        ensures
            final(self).host@ == or_unknown(host),
            final(self).os@ == or_unknown(os_name) + seq![' '] + match os_version {
                Some(v) => v@,
                None => Seq::<char>::empty(),
            },
            final(self).kernel@ == or_unknown(kernel),
            final(self).uptime == uptime,
    {
        self.host = name_or_unknown(host);
        let mut os = name_or_unknown(os_name);
        os.append(" ");
        match os_version {
            Some(v) => os.append(v.as_str()),
            None => {},
        }
        proof {
            reveal_strlit(" ");
            assert(" "@ =~= seq![' ']);
        }
        self.os = os;
        self.kernel = name_or_unknown(kernel);
        self.uptime = uptime;
    }

    /// The uptime as days, hours and minutes.
    pub fn uptime_text(&self) -> (res: String)
        ensures
            res@ == uptime_text(self.uptime as nat),
    {
        format_uptime(self.uptime)
    }
}

} // verus!

//! The provider health check behind `ani-dl sync`: the report it writes, the
//! line it logs, and the daemon's period.
use vstd::prelude::*;
use crate::api::ShowResult;
use crate::providers::{heights, is_first_max, opt_string, select_quality_index, Stream};
use crate::text::{append_str, chars_of, decimal, push_decimal, string_of};

verus! {

/// The outcome of one health check.
pub struct HealthReport {
    /// Build that wrote this report — a stale file is otherwise hard to spot.
    pub ani_dl_version: String,
    pub ani_cli_parity: String,
    pub timestamp: String,
    pub query: String,
    pub show_id: String,
    pub show_name: String,
    pub episode: String,
    pub ok: bool,
    pub latency_ms: u128,
    pub stream_count: usize,
    pub sample_url: Option<String>,
    pub error: Option<String>,
}

/// The report of a check that reached a show: it is healthy when streams
/// resolved, and then samples the URL of the best stream.
pub fn report_found(
    version: String,
    parity: String,
    timestamp: String,
    query: String,
    episode: String,
    show: &ShowResult,
    streams: &[Stream],
    latency_ms: u128,
) -> (r: HealthReport)
    ensures
        r.ani_dl_version@ == version@,
        r.ani_cli_parity@ == parity@,
        r.timestamp@ == timestamp@,
        r.query@ == query@,
        r.episode@ == episode@,
        r.show_id@ == show.id@,
        r.show_name@ == show.name@,
        r.stream_count == streams@.len(),
        r.ok == (streams@.len() > 0),
        r.latency_ms == latency_ms,
        streams@.len() == 0 ==> r.sample_url is None && opt_string(r.error) == Some(
            "no streams resolved"@,
        ),
        streams@.len() > 0 ==> r.error is None && exists|i: int|
            is_first_max(heights(streams@), i) && opt_string(r.sample_url) == Some(
                streams@[i].url@,
            ),
{
    let n = streams.len();
    let (sample_url, error) = if n == 0 {
        (None, Some(String::from_str("no streams resolved")))
    } else {
        match select_quality_index(streams, "best") {
            Some(i) => {
                assert(is_first_max(heights(streams@), i as int));
                (Some(streams[i].url.clone()), None)
            },
            None => (None, None),
        }
    };
    HealthReport {
        ani_dl_version: version,
        ani_cli_parity: parity,
        timestamp,
        query,
        show_id: show.id.clone(),
        show_name: show.name.clone(),
        episode,
        ok: n > 0,
        latency_ms,
        stream_count: n,
        sample_url,
        error,
    }
}

/// The report of a check that failed before any stream (`error` says why).
pub fn report_failed(
    version: String,
    parity: String,
    timestamp: String,
    query: String,
    episode: String,
    error: String,
    latency_ms: u128,
) -> (r: HealthReport)
    ensures
        r.ani_dl_version@ == version@,
        r.ani_cli_parity@ == parity@,
        r.timestamp@ == timestamp@,
        r.query@ == query@,
        r.episode@ == episode@,
        r.show_id@ == Seq::<char>::empty(),
        r.show_name@ == Seq::<char>::empty(),
        !r.ok,
        r.latency_ms == latency_ms,
        r.stream_count == 0,
        r.sample_url is None,
        opt_string(r.error) == Some(error@),
{
    HealthReport {
        ani_dl_version: version,
        ani_cli_parity: parity,
        timestamp,
        query,
        show_id: String::new(),
        show_name: String::new(),
        episode,
        ok: false,
        latency_ms,
        stream_count: 0,
        sample_url: None,
        error: Some(error),
    }
}

/// Why a search gave nothing to check.
pub open spec fn no_results_spec(query: Seq<char>) -> Seq<char> {
    "no search results for '"@ + query + "'"@
}

/// The error of a check whose search found nothing.
pub fn no_results_message(query: &str) -> (r: String)
    ensures
        r@ == no_results_spec(query@),
{
    let mut out = chars_of("no search results for '");
    append_str(&mut out, query);
    append_str(&mut out, "'");
    proof {
        reveal_strlit("no search results for '");
        reveal_strlit("'");
    }
    assert(out@ =~= no_results_spec(query@));
    string_of(&out)
}

/// Decimal rendering of a 128-bit number.
fn push_decimal_u128(out: &mut Vec<char>, n: u128)
    ensures
        final(out)@ == old(out)@ + decimal(n as nat),
    decreases n,
{
    if n >= 10 {
        push_decimal_u128(out, n / 10);
    }
    let c = crate::text::char_of_digit((n % 10) as u32);
    out.push(c);
    proof {
        if n >= 10 {
            assert(decimal(n as nat) == decimal((n / 10) as nat).push(c));
        } else {
            assert(decimal(n as nat) == seq![c]);
        }
    }
}

/// The log line of a check.
pub open spec fn summary_spec(
    ok: bool,
    show_name: Seq<char>,
    episode: Seq<char>,
    stream_count: usize,
    latency_ms: u128,
    error: Option<Seq<char>>,
) -> Seq<char> {
    if ok {
        "ok: "@ + show_name + " ep "@ + episode + " — "@ + decimal(stream_count as nat)
            + " stream(s) in "@ + decimal(latency_ms as nat) + "ms"@
    } else {
        "FAIL: "@ + show_name + " — "@ + match error {
            Some(e) => e,
            None => "unknown"@,
        }
    }
}

/// The line logged (and printed) for a report.
pub fn health_summary(report: &HealthReport) -> (r: String)
    ensures
        r@ == summary_spec(
            report.ok,
            report.show_name@,
            report.episode@,
            report.stream_count,
            report.latency_ms,
            opt_string(report.error),
        ),
{
    let mut out: Vec<char>;
    if report.ok {
        out = chars_of("ok: ");
        append_str(&mut out, report.show_name.as_str());
        append_str(&mut out, " ep ");
        append_str(&mut out, report.episode.as_str());
        append_str(&mut out, " — ");
        push_decimal(&mut out, report.stream_count as u64);
        append_str(&mut out, " stream(s) in ");
        push_decimal_u128(&mut out, report.latency_ms);
        append_str(&mut out, "ms");
    } else {
        out = chars_of("FAIL: ");
        append_str(&mut out, report.show_name.as_str());
        append_str(&mut out, " — ");
        match &report.error {
            Some(e) => append_str(&mut out, e.as_str()),
            None => append_str(&mut out, "unknown"),
        }
    }
    assert(out@ =~= summary_spec(
        report.ok,
        report.show_name@,
        report.episode@,
        report.stream_count,
        report.latency_ms,
        opt_string(report.error),
    ));
    string_of(&out)
}

/// Seconds between daemon checks: the configured hours, at least one.
pub fn daemon_interval_secs(interval_hours: u64) -> (r: u64)
    requires
        (if interval_hours < 1 {
            1
        } else {
            interval_hours
        }) * 3600 <= u64::MAX,
    ensures
        r == (if interval_hours < 1 {
            1
        } else {
            interval_hours
        }) * 3600,
{
    let h = if interval_hours < 1 {
        1
    } else {
        interval_hours
    };
    h * 3600
}

} // verus!

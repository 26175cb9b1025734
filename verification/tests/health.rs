use ani_dl::api::ShowResult;
use ani_dl::providers::Stream;
use ani_dl::sync::{daemon_interval_secs, health_summary, no_results_message, report_failed, report_found};

fn stream(url: &str, height: u32) -> Stream {
    Stream {
        height,
        url: url.to_string(),
        referer: String::new(),
        provider: "hianime".to_string(),
        subtitle: None,
    }
}

fn show() -> ShowResult {
    ShowResult { id: "cyberpunk-edgerunners-1048".to_string(), name: "Cyberpunk: Edgerunners".to_string(), episodes: 10, year: 0 }
}

#[test]
fn healthy_report_samples_the_best_stream() {
    let streams = vec![stream("low", 360), stream("high", 1080), stream("mid", 720)];
    let r = report_found("1.0.0".into(), "5.0.4".into(), "now".into(), "q".into(), "1".into(), &show(), &streams, 42);
    assert!(r.ok);
    assert_eq!(r.stream_count, 3);
    assert_eq!(r.sample_url.as_deref(), Some("high"));
    assert_eq!(r.error, None);
    assert_eq!(health_summary(&r), "ok: Cyberpunk: Edgerunners ep 1 — 3 stream(s) in 42ms");
}

#[test]
fn report_without_streams_fails() {
    let r = report_found("v".into(), "p".into(), "t".into(), "q".into(), "1".into(), &show(), &[], 7);
    assert!(!r.ok);
    assert_eq!(r.error.as_deref(), Some("no streams resolved"));
    assert_eq!(health_summary(&r), "FAIL: Cyberpunk: Edgerunners — no streams resolved");
}

#[test]
fn failed_report_keeps_the_error() {
    let msg = no_results_message("cyberpunk edgerunners");
    assert_eq!(msg, "no search results for 'cyberpunk edgerunners'");
    let r = report_failed("v".into(), "p".into(), "t".into(), "q".into(), "1".into(), msg.clone(), 9);
    assert!(!r.ok && r.show_id.is_empty() && r.sample_url.is_none());
    assert_eq!(health_summary(&r), format!("FAIL:  — {msg}"));
    let mut r2 = r;
    r2.error = None;
    assert_eq!(health_summary(&r2), "FAIL:  — unknown");
}

#[test]
fn daemon_runs_at_least_hourly() {
    assert_eq!(daemon_interval_secs(0), 3600);
    assert_eq!(daemon_interval_secs(24), 86400);
}

use pacman_mirrorup::{
    header_at, next_fetch_step, transfer_rate, Error, ExcludeKind, ExcludedMirrors, FetchStep,
    Mirror, Mirrors, MirrorsStatus, ProbeOutcome, TargetDb, FIXED_ONE,
};

fn synced_mirror(url: &str, delay: i64) -> Mirror {
    let mut m = Mirror::default();
    m.url = url.to_string();
    m.protocol = "https".to_string();
    m.completion_pct = Some(FIXED_ONE);
    m.delay = Some(delay);
    m.active = true;
    m.country = "Somewhere".to_string();
    m.country_code = "SW".to_string();
    m
}

fn status(urls: Vec<Mirror>) -> MirrorsStatus {
    MirrorsStatus {
        cutoff: 3600,
        last_check: "2024-01-01T00:00:00Z".to_string(),
        num_checks: 1,
        check_frequency: 300,
        urls: Mirrors(urls),
        version: 3,
    }
}

fn urls(ms: &Mirrors) -> Vec<String> {
    ms.0.iter().map(|m| m.url.clone()).collect()
}

fn measured(length: u64, secs: u64) -> ProbeOutcome {
    ProbeOutcome::Completed { length: Some(length), elapsed_nanos: secs * 1_000_000_000 }
}

#[test]
fn sync_filter_keeps_only_synced_mirrors_by_delay() {
    let mut inactive = synced_mirror("https://inactive.example/", 10);
    inactive.active = false;
    let mut rsync = synced_mirror("rsync://rsync.example/", 10);
    rsync.protocol = "rsync".to_string();
    let mut partial = synced_mirror("https://partial.example/", 10);
    partial.completion_pct = Some(FIXED_ONE - 1);
    let mut unknown = synced_mirror("https://unknown.example/", 10);
    unknown.completion_pct = None;
    let late = synced_mirror("https://late.example/", 3600);
    let mut http = synced_mirror("http://plain.example/", 50);
    http.protocol = "http".to_string();
    let s = status(vec![
        synced_mirror("https://b.example/", 300),
        inactive,
        rsync,
        partial,
        unknown,
        late,
        http,
        synced_mirror("https://a.example/", 3599),
        synced_mirror("https://c.example/", 0),
    ]);
    let out = s.best_synced_mirrors(None, None).unwrap();
    assert_eq!(
        urls(&out),
        vec![
            "https://c.example/",
            "http://plain.example/",
            "https://b.example/",
            "https://a.example/"
        ]
    );
    for m in out.0.iter() {
        assert!(m.active);
        assert!(m.protocol == "http" || m.protocol == "https");
        assert_eq!(m.completion_pct, Some(FIXED_ONE));
        assert!(m.delay.unwrap() < 3600);
    }
    for n in 1..out.len() {
        assert!(out.0[n - 1].delay <= out.0[n].delay);
    }
}

#[test]
fn equal_delays_keep_catalog_order() {
    let s = status(vec![
        synced_mirror("https://x.example/", 20),
        synced_mirror("https://y.example/", 10),
        synced_mirror("https://z.example/", 20),
        synced_mirror("https://w.example/", 10),
    ]);
    let out = s.best_synced_mirrors(Some(0), None).unwrap();
    assert_eq!(
        urls(&out),
        vec!["https://y.example/", "https://w.example/", "https://x.example/", "https://z.example/"]
    );
}

#[test]
fn max_check_truncates() {
    let s = status(vec![
        synced_mirror("https://a.example/", 30),
        synced_mirror("https://b.example/", 20),
        synced_mirror("https://c.example/", 10),
    ]);
    assert_eq!(urls(&s.best_synced_mirrors(Some(2), None).unwrap()), vec!["https://c.example/", "https://b.example/"]);
    assert_eq!(s.best_synced_mirrors(Some(5), None).unwrap().len(), 3);
    assert_eq!(s.best_synced_mirrors(Some(0), None).unwrap().len(), 3);
    assert_eq!(s.best_synced_mirrors(Some(3), None).unwrap().len(), 3);
    assert_eq!(s.best_synced_mirrors(Some(1), None).unwrap().len(), 1);
}

#[test]
fn missing_delay_is_never_synced() {
    let mut m = synced_mirror("https://nodelay.example/", 0);
    m.delay = None;
    let s = status(vec![m, synced_mirror("https://ok.example/", 5)]);
    let out = s.best_synced_mirrors(None, None).unwrap();
    assert_eq!(urls(&out), vec!["https://ok.example/"]);

    let mut only = synced_mirror("https://nodelay.example/", 0);
    only.delay = None;
    let s = status(vec![only]);
    assert_eq!(s.best_synced_mirrors(None, None).unwrap_err(), Error::NoBestSyncedMirrors);
}

#[test]
fn no_candidates_is_an_error() {
    let s = status(vec![]);
    assert_eq!(s.best_synced_mirrors(Some(10), None).unwrap_err(), Error::NoBestSyncedMirrors);
}

#[test]
fn exclusion_drops_mirrors() {
    let s = status(vec![
        synced_mirror("https://mirrors.kernel.org/archlinux/", 1),
        synced_mirror("https://mirror.xtom.com.hk/archlinux/", 2),
        synced_mirror("https://kept.example/", 3),
    ]);
    let mut excluded_mirrors = ExcludedMirrors::new();
    excluded_mirrors.add(ExcludeKind::Domain("mirrors.kernel.org".to_string()));
    excluded_mirrors.add(ExcludeKind::Domain("mirror.xtom.com.hk".to_string()));
    let out = s.best_synced_mirrors(None, Some(excluded_mirrors)).unwrap();
    assert_eq!(urls(&out), vec!["https://kept.example/"]);

    let mut all = ExcludedMirrors::new();
    all.add(ExcludeKind::CountryCode("sw".to_string()));
    assert_eq!(s.best_synced_mirrors(None, Some(all)).unwrap_err(), Error::NoBestSyncedMirrors);
}

#[test]
fn probe_urls() {
    let m = synced_mirror("https://mirror.example/archlinux/", 0);
    assert_eq!(
        m.probe_url(TargetDb::Core).unwrap(),
        "https://mirror.example/archlinux/core/os/x86_64/core.db"
    );
    assert_eq!(
        m.probe_url(TargetDb::Extra).unwrap(),
        "https://mirror.example/archlinux/extra/os/x86_64/extra.db"
    );
    let bad = synced_mirror("no scheme here", 0);
    assert_eq!(bad.probe_url(TargetDb::Core).unwrap_err(), Error::InvalidUrl);
}

#[test]
fn transfer_rates() {
    assert_eq!(transfer_rate(10, 1_000_000_000), 10);
    assert_eq!(transfer_rate(1_000, 500_000_000), 2_000);
    assert_eq!(transfer_rate(7, 2_000_000_000), 3);
    assert_eq!(transfer_rate(u64::MAX, 1), u64::MAX);
}

#[test]
fn probe_outcomes() {
    let mut m = synced_mirror("https://a.example/", 0);
    assert_eq!(m.record_probe(&measured(100, 2)), Ok(()));
    assert_eq!(m.transfer_rate, Some(50));
    assert_eq!(m.record_probe(&ProbeOutcome::Completed { length: None, elapsed_nanos: 5 }), Ok(()));
    assert_eq!(m.transfer_rate, None);
    m.transfer_rate = Some(1);
    assert_eq!(m.record_probe(&ProbeOutcome::Status(404)), Err(Error::HttpStatus(404)));
    assert_eq!(m.transfer_rate, None);
    m.transfer_rate = Some(1);
    assert_eq!(m.record_probe(&ProbeOutcome::Failed), Ok(()));
    assert_eq!(m.transfer_rate, None);
    assert_eq!(m.record_probe(&ProbeOutcome::Completed { length: Some(9), elapsed_nanos: 0 }), Ok(()));
    assert_eq!(m.transfer_rate, None);
    assert_eq!(m.url, "https://a.example/");
}

#[test]
fn record_probes_by_index() {
    let mut ms = Mirrors(vec![
        synced_mirror("https://a.example/", 0),
        synced_mirror("https://b.example/", 0),
        synced_mirror("https://c.example/", 0),
    ]);
    let reports = ms.record_probes(&vec![measured(30, 1), ProbeOutcome::Status(500), ProbeOutcome::Failed]);
    assert_eq!(reports, vec![Ok(()), Err(Error::HttpStatus(500)), Ok(())]);
    assert_eq!(ms.0[0].transfer_rate, Some(30));
    assert_eq!(ms.0[1].transfer_rate, None);
    assert_eq!(ms.0[2].transfer_rate, None);
    assert_eq!(urls(&ms), vec!["https://a.example/", "https://b.example/", "https://c.example/"]);
}

#[test]
fn weighted_scores_are_exact() {
    let mut a = synced_mirror("https://a.example/", 0);
    a.transfer_rate = Some(1_000);
    a.score = Some(1_500_000_000);
    let mut b = synced_mirror("https://b.example/", 0);
    b.transfer_rate = Some(2_000);
    b.score = Some(4_000_000_000);
    let mut c = synced_mirror("https://c.example/", 0);
    c.transfer_rate = None;
    c.score = Some(250_000_000);
    let mut d = synced_mirror("https://d.example/", 0);
    d.transfer_rate = Some(5);
    d.score = None;
    let mut ms = Mirrors(vec![a, b, c, d]);
    ms.score();
    // The largest score is 4.0; a: 1000 * (4.0 - 1.5), b: 2000 * 0, c: 0 * 3.75.
    assert_eq!(ms.0[0].weighted_score, Some(1_000 * 2_500_000_000));
    assert_eq!(ms.0[1].weighted_score, Some(0));
    assert_eq!(ms.0[2].weighted_score, Some(0));
    assert_eq!(ms.0[3].weighted_score, None);
    assert_eq!(ms.0[0].transfer_rate, Some(1_000));
}

#[test]
fn weighted_scores_with_negative_and_extreme_scores() {
    let mut a = synced_mirror("https://a.example/", 0);
    a.transfer_rate = Some(u64::MAX);
    a.score = Some(i64::MIN);
    let mut b = synced_mirror("https://b.example/", 0);
    b.transfer_rate = Some(3);
    b.score = Some(i64::MAX);
    let mut ms = Mirrors(vec![a, b]);
    ms.score();
    assert_eq!(ms.0[0].weighted_score, Some(u64::MAX as u128 * u64::MAX as u128));
    assert_eq!(ms.0[1].weighted_score, Some(0));
}

#[test]
fn sort_by_weighted_score_descending_unscored_last() {
    let mut ms = Mirrors(vec![
        synced_mirror("https://none.example/", 0),
        synced_mirror("https://low.example/", 0),
        synced_mirror("https://high.example/", 0),
        synced_mirror("https://low2.example/", 0),
    ]);
    ms.0[1].weighted_score = Some(5);
    ms.0[2].weighted_score = Some(9);
    ms.0[3].weighted_score = Some(5);
    ms.sort_by_weighted_score();
    assert_eq!(
        urls(&ms),
        vec!["https://high.example/", "https://low.example/", "https://low2.example/", "https://none.example/"]
    );
}

#[test]
fn test_select_n_mirrors() {
    let mut ms = Mirrors((0..30).map(|i| synced_mirror(&format!("https://m{i}.example/"), i)).collect());
    ms.select(20);
    assert_eq!(ms.len(), 20);
    ms.select(25);
    assert_eq!(ms.len(), 20);
    ms.select(0);
    assert!(ms.is_empty());
}

#[test]
fn evaluate_picks_faster_mirror() {
    let mut slow = synced_mirror("https://slow.example/", 10);
    slow.score = Some(1_000_000_000);
    let mut fast = synced_mirror("https://fast.example/", 20);
    fast.score = Some(500_000_000);
    let mut out_of_sync = synced_mirror("https://stale.example/", 7200);
    out_of_sync.score = Some(100_000_000);
    let s = status(vec![slow, fast, out_of_sync]);
    let mut candidates = s.best_synced_mirrors(None, None).unwrap();
    assert_eq!(candidates.len(), 2);
    candidates.record_probes(&vec![measured(10, 1), measured(20, 1)]);
    let best = candidates.evaluate(1).unwrap();
    assert_eq!(urls(&best), vec!["https://fast.example/"]);
    assert_eq!(best.0[0].transfer_rate, Some(20));
}

#[test]
fn evaluate_with_equal_scores_keeps_delay_order() {
    // With identical upstream scores every weighted score is zero, so the delay order
    // decides: the rate-20 mirror wins only because it is the less delayed one.
    let mut m10 = synced_mirror("https://rate10.example/", 50);
    m10.score = Some(FIXED_ONE as i64);
    let mut m20 = synced_mirror("https://rate20.example/", 5);
    m20.score = Some(FIXED_ONE as i64);
    let mut rejected = synced_mirror("https://rejected.example/", 1);
    rejected.active = false;
    let s = status(vec![m10, rejected, m20]);
    let mut candidates = s.best_synced_mirrors(None, None).unwrap();
    assert_eq!(urls(&candidates), vec!["https://rate20.example/", "https://rate10.example/"]);
    candidates.record_probes(&vec![measured(20, 1), measured(10, 1)]);
    let best = candidates.evaluate(1).unwrap();
    assert_eq!(best.len(), 1);
    assert_eq!(best.0[0].url, "https://rate20.example/");
    assert_eq!(best.0[0].transfer_rate, Some(20));
}

#[test]
fn evaluate_bounds_and_failures() {
    let mut a = synced_mirror("https://a.example/", 0);
    a.score = Some(1);
    let mut b = synced_mirror("https://b.example/", 0);
    b.score = Some(2);
    let ms = Mirrors(vec![a, b]);
    assert_eq!(ms.evaluate(5).unwrap().len(), 2);
    assert_eq!(ms.evaluate(1).unwrap().len(), 1);
    assert_eq!(ms.evaluate(0).unwrap_err(), Error::NoBestMirrors);
    assert_eq!(Mirrors(vec![]).evaluate(3).unwrap_err(), Error::NoBestMirrors);
    // The input is left as it was.
    assert_eq!(ms.0[0].weighted_score, None);
}

#[test]
fn test_to_pacman_mirror_list() {
    let m = synced_mirror("https://mirror.example/archlinux/", 0);
    assert_eq!(m.to_pacman_mirror_list(), "Server = https://mirror.example/archlinux/$repo/os/$arch");
    let ms = Mirrors(vec![m, synced_mirror("http://b.example/", 0)]);
    let list = ms.to_pacman_mirror_list();
    assert_eq!(
        list,
        "Server = https://mirror.example/archlinux/$repo/os/$arch\nServer = http://b.example/$repo/os/$arch\n"
    );
    let re = regex::Regex::new(r"Server\x20=\x20(http(s?)|rsync|ftp)://(\S+\.\S+/)(\$repo/os/\$arch)").unwrap();
    for line in list.lines() {
        assert!(re.is_match(line));
    }
    assert_eq!(Mirrors(vec![]).to_pacman_mirror_list(), "");
}

#[test]
fn test_mirrorlist_file_header() {
    let header = header_at("https://www.archlinux.org/mirrors/status/json/", "Mon, 1 Jan 2024 00:00:00 +0000");
    assert_eq!(
        header,
        "#\n# /etc/pacman.d/mirrorlist\n#\n#\n# Arch Linux mirrorlist generated by pacman-mirrorup\n#\n# pacman-mirrorup: https://github.com/bpetlert/pacman-mirrorup\n# source: https://www.archlinux.org/mirrors/status/json/\n# when: Mon, 1 Jan 2024 00:00:00 +0000\n#\n\n"
    );
    let now = Mirrors(vec![]).header("https://www.archlinux.org/mirrors/status/json/");
    let re = regex::Regex::new(
        r"^#\n# /etc/pacman.d/mirrorlist\n#\n#\n# Arch Linux mirrorlist generated by pacman-mirrorup\n#\n# pacman-mirrorup: https://github.com/bpetlert/pacman-mirrorup\n# source: https://www.archlinux.org/mirrors/status/json/\n# when: .+\n#\n\n$",
    )
    .unwrap();
    assert!(re.is_match(&now));
}

#[test]
fn fetch_backoff_doubles_then_gives_up() {
    assert_eq!(next_fetch_step(0), FetchStep::Retry { delay_ms: 0 });
    assert_eq!(next_fetch_step(1), FetchStep::Retry { delay_ms: 1000 });
    assert_eq!(next_fetch_step(2), FetchStep::Retry { delay_ms: 2000 });
    assert_eq!(next_fetch_step(3), FetchStep::Retry { delay_ms: 4000 });
    assert_eq!(next_fetch_step(4), FetchStep::Retry { delay_ms: 8000 });
    assert_eq!(next_fetch_step(5), FetchStep::GiveUp);
    assert_eq!(next_fetch_step(u32::MAX), FetchStep::GiveUp);
}

#[test]
fn equal_scores_tie_goes_to_smaller_delay() {
    // Identical upstream scores make every weighted score zero: the faster mirror is not
    // preferred, the less delayed one is kept.
    let mut m10 = synced_mirror("https://rate10.example/", 5);
    m10.score = Some(FIXED_ONE as i64);
    let mut m20 = synced_mirror("https://rate20.example/", 50);
    m20.score = Some(FIXED_ONE as i64);
    let s = status(vec![m10, m20]);
    let mut candidates = s.best_synced_mirrors(None, None).unwrap();
    candidates.record_probes(&vec![measured(10, 1), measured(20, 1)]);
    let best = candidates.evaluate(1).unwrap();
    assert_eq!(urls(&best), vec!["https://rate10.example/"]);
    assert_eq!(best.0[0].weighted_score, Some(0));
}

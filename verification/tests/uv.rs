use ntep_launcher::splash::wait_update_fits;
use ntep_launcher::pipe::LineSplitter;
use ntep_launcher::splash::{
    dependency_wait_update, runtime_wait_update, scale_progress, splash_retry_update,
    uv_download_progress, SplashUpdate,
};
use ntep_launcher::uv::{
    extract_uv_package_name, is_uv_progress_line, splash_update_for_dependency_output,
    DependencySync, LogLevel, SeenPackages,
};

#[test]
fn uv_package_name_is_extracted_from_progress_lines() {
    assert_eq!(
        extract_uv_package_name("Downloading numpy==2.4.3 (8.2 MiB)").as_deref(),
        Some("numpy")
    );
    assert_eq!(
        extract_uv_package_name("Downloading rich @ https://example.invalid/rich.whl")
            .as_deref(),
        Some("rich")
    );
}

#[test]
fn uv_package_name_other_forms() {
    assert_eq!(extract_uv_package_name("Downloading PyYAML (1.0 MiB)").as_deref(), Some("pyyaml"));
    assert_eq!(extract_uv_package_name("Downloading Torch").as_deref(), Some("torch"));
    assert_eq!(extract_uv_package_name("Downloading   ==1.0"), None);
    assert_eq!(extract_uv_package_name("Downloaded numpy"), None);
    assert_eq!(extract_uv_package_name("downloading numpy"), None);
    assert_eq!(extract_uv_package_name("Downloading "), None);
}

#[test]
fn progress_lines_are_recognised() {
    for line in [
        "Resolved 10 packages", "Downloading x", "Downloaded y", "Prepared 3", "Installed 4",
        "Audited 5", "warning: w", "hint: h", "note: n",
    ] {
        assert!(is_uv_progress_line(line), "{}", line);
    }
    for line in ["error: failed", " Resolved 1", "resolved", "", "Warning: x"] {
        assert!(!is_uv_progress_line(line), "{}", line);
    }
}

#[test]
fn download_progress_counts_packages_up_to_ten() {
    assert_eq!(uv_download_progress(0), 72);
    assert_eq!(uv_download_progress(3), 75);
    assert_eq!(uv_download_progress(10), 82);
    assert_eq!(uv_download_progress(1000), 82);
}

#[test]
fn scale_progress_interpolates() {
    assert_eq!(scale_progress(0, 11, 13), 11);
    assert_eq!(scale_progress(50, 11, 13), 12);
    assert_eq!(scale_progress(120, 11, 13), 13);
    assert_eq!(scale_progress(100, 0, 255), 255);
    assert_eq!(scale_progress(33, 0, 100), 33);
}

#[test]
fn loading_caps_progress() {
    let u = SplashUpdate::loading("t".into(), "d".into(), 150, "s".into());
    assert_eq!(u.progress, 100);
    assert!(!u.is_error);
    let e = SplashUpdate::error("t".into(), "d".into(), 42, "s".into());
    assert_eq!(e.progress, 42);
    assert!(e.is_error);
    let w = e.with_subtitle("other".into());
    assert_eq!(w.subtitle, "other");
    assert_eq!(w.title, "t");
    assert_eq!(w.detail, "d");
}

#[test]
fn dependency_wait_update_grows_slowly() {
    let u = dependency_wait_update(0, 64, "T".into(), "S".into(), "parse".into(), "sync".into());
    assert_eq!(u.progress, 64);
    assert_eq!(u.detail, "parse");
    let u = dependency_wait_update(40, 64, "T".into(), "S".into(), "parse".into(), "sync".into());
    assert_eq!(u.progress, 74);
    assert_eq!(u.detail, "sync");
    let u = dependency_wait_update(400, 64, "T".into(), "S".into(), "p".into(), "s".into());
    assert_eq!(u.progress, 89);
    let u = dependency_wait_update(12, 95, "T".into(), "S".into(), "p".into(), "s".into());
    assert_eq!(u.progress, 95);
}

#[test]
fn runtime_wait_update_reports_seconds() {
    let u = runtime_wait_update("T".into(), "wait".into(), "elapsed".into(), 10, 11, 13, "S".into());
    assert_eq!(u.detail, "wait");
    assert_eq!(u.progress, 11);
    let u = runtime_wait_update("T".into(), "wait".into(), "elapsed".into(), 600, 11, 13, "S".into());
    assert_eq!(u.detail, "elapsed");
    assert_eq!(u.progress, 12);
    let u = runtime_wait_update("T".into(), "w".into(), "e".into(), 60000, 11, 13, "S".into());
    assert_eq!(u.progress, 13);
}

#[test]
fn retry_update_is_at_sixty_four() {
    let u = splash_retry_update("T".into(), "D".into(), "S".into());
    assert_eq!(u.progress, 64);
    assert_eq!(u.subtitle, "S");
}

#[test]
fn dependency_output_updates() {
    let mut seen = SeenPackages::new();
    let u = splash_update_for_dependency_output("  Resolved 3 packages  ", &mut seen, "sub", "deps").unwrap();
    assert_eq!(u.progress, 70);
    assert_eq!(u.detail, "Resolved 3 packages");
    assert_eq!(u.title, "deps");
    assert_eq!(u.subtitle, "sub");
    let u = splash_update_for_dependency_output("Downloading numpy==2 (1 MiB)", &mut seen, "s", "d").unwrap();
    assert_eq!(u.progress, 73);
    let u = splash_update_for_dependency_output("Downloading NumPy (1 MiB)", &mut seen, "s", "d").unwrap();
    assert_eq!(u.progress, 73);
    assert_eq!(seen.len(), 1);
    let u = splash_update_for_dependency_output("Downloading rich", &mut seen, "s", "d").unwrap();
    assert_eq!(u.progress, 74);
    assert_eq!(splash_update_for_dependency_output("Prepared 2", &mut seen, "s", "d").unwrap().progress, 84);
    assert_eq!(splash_update_for_dependency_output("Installed 2", &mut seen, "s", "d").unwrap().progress, 88);
    assert_eq!(splash_update_for_dependency_output(" + rich==1", &mut seen, "s", "d").unwrap().progress, 90);
    assert_eq!(splash_update_for_dependency_output("Audited 9", &mut seen, "s", "d").unwrap().progress, 90);
    assert!(splash_update_for_dependency_output("   ", &mut seen, "s", "d").is_none());
    assert!(splash_update_for_dependency_output("error: boom", &mut seen, "s", "d").is_none());
}

#[test]
fn dependency_sync_progress_never_goes_back() {
    let mut sync = DependencySync::new();
    assert_eq!(sync.progress(), 64);
    let (u, level) = sync.on_output(false, "Installed 3 packages", "s", "d");
    assert_eq!(u.unwrap().progress, 88);
    assert_eq!(level, LogLevel::Info);
    let (u, _) = sync.on_output(false, "Resolved 3 packages", "s", "d");
    assert_eq!(u.unwrap().progress, 88);
    assert_eq!(sync.progress(), 88);
    assert_eq!(sync.on_quiet_second(), 1);
    let w = sync.wait_update("T".into(), "S".into(), "p".into(), "q".into());
    assert_eq!(w.progress, 88);
    assert_eq!(sync.progress(), 88);
}

#[test]
fn dependency_sync_keeps_last_error() {
    let mut sync = DependencySync::new();
    let (_, level) = sync.on_output(true, "warning: slow", "s", "d");
    assert_eq!(level, LogLevel::Info);
    assert_eq!(sync.outcome(false, "fallback".into()), Err("fallback".to_string()));
    let (u, level) = sync.on_output(true, "error: no such package", "s", "d");
    assert!(u.is_none());
    assert_eq!(level, LogLevel::Warn);
    assert_eq!(sync.outcome(false, "fallback".into()), Err("error: no such package".to_string()));
    assert_eq!(sync.outcome(true, "fallback".into()), Ok(()));
}

#[test]
fn quiet_seconds_saturate() {
    let mut sync = DependencySync::new();
    for _ in 0..70000u32 {
        sync.on_quiet_second();
    }
    assert_eq!(sync.quiet_secs(), u16::MAX);
}

fn split_all(bytes: &[u8]) -> (Vec<String>, Option<String>) {
    let mut s = LineSplitter::new();
    let lines = s.push_chunk(bytes);
    (lines, s.finish())
}

#[test]
fn splitter_breaks_on_control_bytes() {
    let (lines, rest) = split_all(b"Resolved 3\nInstalled 2\r\n\n tail");
    assert_eq!(lines, vec!["Resolved 3".to_string(), "Installed 2".to_string()]);
    assert_eq!(rest.as_deref(), Some(" tail"));
    let (lines, rest) = split_all(b"a\xffb\x00");
    assert_eq!(lines, vec!["a".to_string(), "b".to_string()]);
    assert_eq!(rest, None);
}

#[test]
fn splitter_cuts_repeated_progress_at_colon() {
    let (lines, rest) = split_all(b"abc:xyzabc:");
    assert_eq!(lines, vec!["abc:xyz".to_string()]);
    assert_eq!(rest.as_deref(), Some("abc:"));
    let (lines, rest) = split_all(b"ab:cd:");
    assert!(lines.is_empty());
    assert_eq!(rest.as_deref(), Some("ab:cd:"));
    let (lines, rest) = split_all(b":x:");
    assert_eq!(lines, vec![":x".to_string()]);
    assert_eq!(rest.as_deref(), Some(":"));
}

#[test]
fn splitter_keeps_every_printable_byte() {
    let input = b"x:yx:zz\tq:\x1bw:w:";
    let mut s = LineSplitter::new();
    let mut all = String::new();
    for chunk in input.chunks(3) {
        for l in s.push_chunk(chunk) {
            assert!(!l.is_empty());
            all.push_str(&l);
        }
    }
    if let Some(r) = s.finish() {
        all.push_str(&r);
    }
    let kept: String = input.iter().filter(|b| **b >= 32 && **b <= 127).map(|b| *b as char).collect();
    assert_eq!(all, kept);
}

#[test]
fn splitter_byte_by_byte_matches_chunks() {
    let input = b"Downloading a:Downloading a:b\n";
    let mut s = LineSplitter::new();
    let mut by_byte = Vec::new();
    for b in input.iter() {
        if let Some(l) = s.push_byte(*b) {
            by_byte.push(l);
        }
    }
    let (by_chunk, _) = split_all(input);
    assert_eq!(by_byte, by_chunk);
}

#[test]
fn wait_update_overflow_bound() {
    assert!(wait_update_fits(0));
    assert!(wait_update_fits(767));
    assert!(!wait_update_fits(768));
    assert!(!wait_update_fits(1023));
    assert!(wait_update_fits(1024));
}

#[test]
fn download_progress_never_falls() {
    let mut last = 0;
    for n in 0..20 {
        let p = uv_download_progress(n);
        assert!(p >= last);
        last = p;
    }
}

use devstrip::model::Candidate;
use devstrip::render::{
    colorize_size, render_progress_bar, size_tier, truncate_middle, truncate_status, SizeTier, TerminalStyler,
};
use devstrip::time::{format_system_time, split_time, time_text};

#[test]
fn a_short_status_stays_and_a_long_one_is_cut() {
    assert_eq!(truncate_status("Scanning: /a"), "Scanning: /a");
    let exact = "x".repeat(80);
    assert_eq!(truncate_status(&exact), exact);
    let long = "y".repeat(81);
    assert_eq!(truncate_status(&long), format!("{}...", "y".repeat(77)));
    let wide = "é".repeat(41);
    assert_eq!(truncate_status(&wide), format!("{}...", wide));
    let wide_long = "é".repeat(100);
    assert_eq!(truncate_status(&wide_long), format!("{}...", "é".repeat(77)));
    assert_eq!(truncate_status(""), "");
}

#[test]
fn the_middle_is_cut_out() {
    assert_eq!(truncate_middle("abcdefghij", 0), "");
    assert_eq!(truncate_middle("abcdefghij", 1), "…");
    assert_eq!(truncate_middle("abcdefghij", 2), "…j");
    assert_eq!(truncate_middle("abcdefghij", 5), "ab…ij");
    assert_eq!(truncate_middle("abcdefghij", 6), "ab…hij");
    assert_eq!(truncate_middle("abcdefghij", 10), "abcdefghij");
    assert_eq!(truncate_middle("abcdefghij", 11), "abcdefghij");
    assert_eq!(truncate_middle("", 3), "");
    assert_eq!(truncate_middle("äöüäöüäöü", 4), "ä…öü");
    assert_eq!(truncate_middle("abcdefghij", 9).chars().count(), 9);
}

#[test]
fn the_bar_fills_with_the_share_rounded_up() {
    assert_eq!(render_progress_bar(0, 10, 10), "----------");
    assert_eq!(render_progress_bar(1, 10, 10), "#---------");
    assert_eq!(render_progress_bar(1, 3, 10), "####------");
    assert_eq!(render_progress_bar(3, 3, 28), "#".repeat(28));
    assert_eq!(render_progress_bar(5, 3, 4), "####");
    assert_eq!(render_progress_bar(1, 0, 10), "");
    assert_eq!(render_progress_bar(1, 10, 0), "");
    assert_eq!(render_progress_bar(1, 1000, 28), format!("#{}", "-".repeat(27)));
    assert_eq!(render_progress_bar(usize::MAX, usize::MAX, 3), "###");
    assert_eq!(render_progress_bar(usize::MAX, 1, 2), "##");
}

#[test]
fn sizes_have_tiers() {
    assert_eq!(size_tier(0), SizeTier::Bytes);
    assert_eq!(size_tier(1023), SizeTier::Bytes);
    assert_eq!(size_tier(1024), SizeTier::Kibi);
    assert_eq!(size_tier((1 << 20) - 1), SizeTier::Kibi);
    assert_eq!(size_tier(1 << 20), SizeTier::Mebi);
    assert_eq!(size_tier(1 << 30), SizeTier::Gibi);
    assert_eq!(size_tier((1 << 40) - 1), SizeTier::Gibi);
    assert_eq!(size_tier(1 << 40), SizeTier::Tebi);
    assert_eq!(size_tier(u64::MAX), SizeTier::Tebi);
}

#[test]
fn colours_follow_the_terminal() {
    let plain = TerminalStyler::new(false, false, false);
    assert!(!plain.use_color && !plain.supports_animation);
    assert!(!TerminalStyler::new(true, true, false).use_color);
    assert!(TerminalStyler::new(true, true, false).supports_animation);
    assert!(!TerminalStyler::new(false, true, true).use_color);
    let colour = TerminalStyler::new(false, true, false);
    assert!(colour.use_color && colour.supports_animation);
    assert_eq!(plain.bold("x"), "x");
    assert_eq!(colour.bold("x"), "\u{1b}[1mx\u{1b}[0m");
    assert_eq!(colour.dim("x"), "\u{1b}[2mx\u{1b}[0m");
    assert_eq!(colour.error("x"), "\u{1b}[31mx\u{1b}[0m");
    assert_eq!(colour.success("x"), "\u{1b}[32mx\u{1b}[0m");
    assert_eq!(colour.warning("x"), "\u{1b}[33mx\u{1b}[0m");
    assert_eq!(colour.blue("x"), "\u{1b}[34mx\u{1b}[0m");
    assert_eq!(colour.accent("x"), "\u{1b}[36mx\u{1b}[0m");
    assert_eq!(colour.format("x", &[]), "x");
    assert_eq!(colour.format("x", &["\u{1b}[1m", "\u{1b}[31m"]), "\u{1b}[1m\u{1b}[31mx\u{1b}[0m");
    assert_eq!(plain.format("x", &["\u{1b}[1m"]), "x");
}

#[test]
fn sizes_are_coloured_by_tier() {
    let colour = TerminalStyler::new(false, true, false);
    assert_eq!(colorize_size(5, "5 B", &colour), "\u{1b}[2m5 B\u{1b}[0m");
    assert_eq!(colorize_size(2048, "2 KiB", &colour), "\u{1b}[32m2 KiB\u{1b}[0m");
    assert_eq!(colorize_size(1 << 20, "1 MiB", &colour), "\u{1b}[34m1 MiB\u{1b}[0m");
    assert_eq!(colorize_size(1 << 30, "1 GiB", &colour), "\u{1b}[33m1 GiB\u{1b}[0m");
    assert_eq!(colorize_size(1 << 40, "1 TiB", &colour), "\u{1b}[36m1 TiB\u{1b}[0m");
    let plain = TerminalStyler::new(true, true, false);
    assert_eq!(colorize_size(1 << 40, "1 TiB", &plain), "1 TiB");
}

#[test]
fn moments_split_into_seconds_and_nanoseconds() {
    assert_eq!(split_time(-1), None);
    assert_eq!(split_time(0), Some((0, 0)));
    assert_eq!(split_time(1_431_648_000_123_456_789), Some((1_431_648_000, 123_456_789)));
    assert_eq!(split_time((i64::MAX as i128) * 1_000_000_000 + 999_999_999), Some((i64::MAX, 999_999_999)));
    assert_eq!(split_time((i64::MAX as i128 + 1) * 1_000_000_000), None);
}

#[test]
fn times_are_shown_to_the_minute_or_as_a_dash() {
    assert_eq!(format_system_time(-1), "-");
    assert_eq!(format_system_time(i128::MAX), "-");
    assert_eq!(format_system_time((i64::MAX as i128) * 1_000_000_000), "-");
    assert_eq!(time_text(None), "-");
    assert_eq!(time_text(Some("2015-05-15 00:00".to_string())), "2015-05-15 00:00");
    let shown = format_system_time(1_431_648_000_000_000_000);
    assert_eq!(shown.len(), 16);
    assert!(shown.starts_with("2015-05-1"));
    let parts: Vec<char> = shown.chars().collect();
    assert_eq!(parts[4], '-');
    assert_eq!(parts[7], '-');
    assert_eq!(parts[10], ' ');
    assert_eq!(parts[13], ':');
}

#[test]
fn last_use_is_shown_or_dashed() {
    let mut c = Candidate {
        path: "/p".to_string(),
        canonical: "/p".to_string(),
        size_bytes: 1,
        category: "c".to_string(),
        reason: "r".to_string(),
        last_used: None,
    };
    assert_eq!(c.last_used_str(), "-");
    c.last_used = Some(-5);
    assert_eq!(c.last_used_str(), "-");
    c.last_used = Some(1_431_648_000_000_000_000);
    assert_eq!(c.last_used_str(), format_system_time(1_431_648_000_000_000_000));
    assert_ne!(c.last_used_str(), "-");
}

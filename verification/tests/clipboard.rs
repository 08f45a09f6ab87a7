use voxtype_review::date::{civil_from_days, stamp};
use voxtype_review::focus::Output;
use voxtype_review::place::{could_not, Base};
use voxtype_review::valet::{
    check_message, clipboard_holds_image, log_line, park, park_note, printed, script_candidates,
    state_dir, unpark, unpark_report, PARK_DIR, PARK_FILE, PARK_META,
};

#[test]
fn civil_dates_are_right_at_the_era_edges() {
    assert_eq!(civil_from_days(0), (1970, 1, 1));
    assert_eq!(civil_from_days(20_696), (2026, 8, 31));
}

#[test]
fn civil_dates_around_leap_days_and_eras() {
    assert_eq!(civil_from_days(-1), (1969, 12, 31));
    assert_eq!(civil_from_days(59), (1970, 3, 1));
    assert_eq!(civil_from_days(11_016), (2000, 2, 29));
    assert_eq!(civil_from_days(11_017), (2000, 3, 1));
    assert_eq!(civil_from_days(47_540), (2100, 2, 28));
    assert_eq!(civil_from_days(47_541), (2100, 3, 1));
    assert_eq!(civil_from_days(-719_468), (0, 3, 1));
    assert_eq!(civil_from_days(-719_469), (0, 2, 29));
    assert_eq!(civil_from_days(-719_528), (0, 1, 1));
    assert_eq!(civil_from_days(-719_529), (-1, 12, 31));
}

#[test]
fn days_and_dates_count_alike() {
    let mut date = (1970i64, 1u32, 1u32);
    for day in 0..150_000i64 {
        assert_eq!(civil_from_days(day), date);
        let (y, m, d) = date;
        let leap = y % 4 == 0 && (y % 100 != 0 || y % 400 == 0);
        let len = match m {
            2 => if leap { 29 } else { 28 },
            4 | 6 | 9 | 11 => 30,
            _ => 31,
        };
        date = if d < len {
            (y, m, d + 1)
        } else if m < 12 {
            (y, m + 1, 1)
        } else {
            (y + 1, 1, 1)
        };
    }
}

#[test]
fn moments_are_written_with_zeros() {
    assert_eq!(stamp(0), "1970-01-01T00:00:00Z");
    assert_eq!(stamp(20_696 * 86_400 + 9 * 3600), "2026-08-31T09:00:00Z");
    assert_eq!(stamp(951_782_400 + 86_399), "2000-02-29T23:59:59Z");
    assert_eq!(stamp(253_402_300_800), "10000-01-01T00:00:00Z");
    assert_eq!(stamp(u64::MAX), "584554051223-11-09T07:00:15Z");
}

#[test]
fn unpark_with_an_empty_park_answers_none() {
    assert!(!unpark(None));
    assert!(!unpark(Some(b"")));
    assert!(unpark(Some(b"png")));
    assert_eq!(unpark_report(None), "nothing parked");
    assert_eq!(unpark_report(Some("/p")), "restored parked clipboard image from /p");
}

#[test]
fn only_an_image_is_parked() {
    assert!(clipboard_holds_image(b"TARGETS\nimage/png\n"));
    assert!(!clipboard_holds_image(b"TARGETS\nUTF8_STRING\n"));
    assert!(clipboard_holds_image(b"\xffimage/bmp"));
    assert!(park(b"image/png", true));
    assert!(!park(b"image/png", false));
    assert!(!park(b"text/plain", true));
    assert_eq!(park_note(0, b""), None);
    assert_eq!(
        park_note(0, b"12345"),
        Some("parked=1970-01-01T00:00:00Z bytes=5 via=T-023-valet\n".to_string())
    );
}

#[test]
fn every_decision_to_park_is_noted() {
    let m = check_message(true, b"TARGETS\nimage/png\n");
    assert_eq!(m, "park check: holds_image=true targets=[TARGETS,image/png,]");
    assert_eq!(log_line(60, &m), format!("[1970-01-01T00:01:00Z] {m}\n"));
    assert_eq!(check_message(false, b""), "park check: holds_image=false targets=[]");
}

#[test]
fn a_clipboard_command_that_fails_printed_nothing() {
    let out = |success| Some(Output { success, stdout: b"x".to_vec() });
    assert_eq!(printed(out(true)), b"x".to_vec());
    assert!(printed(out(false)).is_empty());
    assert!(printed(None).is_empty());
}

#[test]
fn things_are_parked_below_the_state_directory() {
    let at = |s, h| state_dir(s, h).map(|p| (p.base, p.below));
    assert_eq!(at(true, true), Some((Base::StateHome, "voxtype-review/park")));
    assert_eq!(at(false, true), Some((Base::Home, ".local/state/voxtype-review/park")));
    assert_eq!(at(false, false), None);
    assert!(at(true, true).unwrap().1.ends_with(PARK_DIR));
    assert_eq!((PARK_FILE, PARK_META), ("parkedImage.png", "parked.txt"));
}

#[test]
fn the_script_is_looked_for_in_the_source_tree() {
    assert_eq!(
        script_candidates(),
        vec![
            "spikes/lib/valet-watch.py",
            "spikes/spikes/lib/valet-watch.py",
            "spikes/spikes/spikes/lib/valet-watch.py",
        ]
    );
}

#[test]
fn a_failure_names_the_file() {
    assert_eq!(could_not("write", "/a", "full"), "could not write /a: full");
}

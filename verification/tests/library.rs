//! Concrete checks of the library's rules: date keys, lookups, listing order,
//! line validation, rendering, and the command decisions.

use day_stamps::catalog::{
    catalog_dir, default_kind, default_size, find_by_id, is_stamp_file, list_all, parse_date,
    which, CatalogEntry, Stamp,
};
use day_stamps::commands::{
    add_file_name, files_to_seed, filter_by_kind, list_line, prepare_add, render_stamp,
    render_target, AddError, AddRequest, RenderError, RenderTarget, EXIT_COLLISION, EXIT_ERROR,
    EXIT_SCHEMA,
};
use day_stamps::date::{recurring_file_name, specific_file_name, Date};
use day_stamps::render::render;
use day_stamps::text::{push_decimal, push_zero_padded, str_eq, str_lt};
use day_stamps::validate::{check_line_widths, validate_lines, MAX_GRAPHEMES, MAX_LINES};

fn stamp(id: &str, created_at: &str) -> Stamp {
    Stamp {
        id: id.to_string(),
        kind: "custom".to_string(),
        title: format!("Title of {id}"),
        subtitle: String::new(),
        lines: vec!["a line".to_string()],
        glyph_seed: None,
        size_hint: "medium".to_string(),
        category: String::new(),
        created_by: String::new(),
        created_at: created_at.to_string(),
    }
}

fn entry(name: &str, s: Option<Stamp>) -> CatalogEntry {
    CatalogEntry { name: name.to_string(), stamp: s }
}

fn lines(v: &[&str]) -> Vec<String> {
    v.iter().map(|s| s.to_string()).collect()
}

fn starter_catalog() -> Vec<CatalogEntry> {
    vec![
        entry("01-01.json", Some(stamp("new-year", "2026-01-01T00:00:00+00:00"))),
        entry("12-31.json", Some(stamp("new-years-eve", "2026-01-02T00:00:00+00:00"))),
        entry("2026-05-22.json", Some(stamp("prd-shipped", "2026-01-03T00:00:00+00:00"))),
        entry("2026-05-27.json", Some(stamp("printer-arrives", "2026-01-04T00:00:00+00:00"))),
    ]
}

// --- dates and file names ---------------------------------------------------

#[test]
fn parse_date_reads_iso_dates() {
    let d = parse_date("2026-05-27").unwrap();
    assert_eq!(d, Date { year: 2026, month: 5, day: 27 });
    assert!(parse_date("2026-02-30").is_err());
    assert!(parse_date("not a date").is_err());
    assert!(parse_date("2026-05-27x").is_err());
}

#[test]
fn file_names_are_zero_padded() {
    let d = Date { year: 7, month: 3, day: 9 };
    assert_eq!(specific_file_name(&d), "0007-03-09.json");
    assert_eq!(recurring_file_name(&d), "03-09.json");
    let big = Date { year: 12345, month: 11, day: 30 };
    assert_eq!(specific_file_name(&big), "+12345-11-30.json");
    let neg = Date { year: -44, month: 3, day: 15 };
    assert_eq!(specific_file_name(&neg), "-0044-03-15.json");
}

#[test]
fn date_specific_name_differs_per_date() {
    let a = Date { year: 2026, month: 5, day: 22 };
    let b = Date { year: 2027, month: 5, day: 22 };
    assert_ne!(specific_file_name(&a), specific_file_name(&b));
    assert_eq!(recurring_file_name(&a), recurring_file_name(&b));
    assert_ne!(specific_file_name(&a), recurring_file_name(&a));
}

// --- catalog directory -------------------------------------------------------

#[test]
fn catalog_dir_precedence() {
    let s = |v: &str| Some(v.to_string());
    assert_eq!(catalog_dir(s("/cat"), s("/xdg"), s("/home/u")).unwrap(), "/cat");
    assert_eq!(catalog_dir(s(""), s("/xdg"), s("/home/u")).unwrap(), "/xdg/daily-receipt/stamps");
    assert_eq!(catalog_dir(None, s("/xdg/"), None).unwrap(), "/xdg/daily-receipt/stamps");
    assert_eq!(
        catalog_dir(None, s(""), s("/home/u")).unwrap(),
        "/home/u/.config/daily-receipt/stamps"
    );
    let err = catalog_dir(None, None, s("")).unwrap_err();
    assert_eq!(err.message(), "cannot resolve catalog dir: set XDG_CONFIG_HOME or HOME");
}

#[test]
fn defaults() {
    assert_eq!(default_kind(), "custom");
    assert_eq!(default_size(), "medium");
}

// --- which -------------------------------------------------------------------

#[test]
fn which_finds_date_specific_stamp() {
    let d = parse_date("2026-05-27").unwrap();
    assert_eq!(which(starter_catalog(), &d).unwrap().id, "printer-arrives");
    let miss = parse_date("2026-05-28").unwrap();
    assert!(which(starter_catalog(), &miss).is_none());
}

#[test]
fn which_recurring_fires_every_year() {
    for year in ["2026-01-01", "2030-01-01"] {
        let d = parse_date(year).unwrap();
        assert_eq!(which(starter_catalog(), &d).unwrap().id, "new-year");
    }
}

#[test]
fn which_skips_unreadable_specific_file() {
    let d = parse_date("2026-12-31").unwrap();
    let entries = vec![
        entry("2026-12-31.json", None),
        entry("12-31.json", Some(stamp("new-years-eve", "x"))),
    ];
    assert_eq!(which(entries, &d).unwrap().id, "new-years-eve");
}

// --- find_by_id and list_all ---------------------------------------------------

#[test]
fn stamp_files_need_the_json_extension() {
    assert!(is_stamp_file("01-01.json"));
    assert!(is_stamp_file("..json"));
    assert!(!is_stamp_file(".json"));
    assert!(!is_stamp_file("01-01.json.bak"));
    assert!(!is_stamp_file(".tmp.12.34"));
}

#[test]
fn find_by_id_returns_first_stamp_file() {
    let mut entries = starter_catalog();
    entries.insert(0, entry("notes.txt", Some(stamp("printer-arrives", "z"))));
    entries.push(entry("copy.json", Some(stamp("printer-arrives", "0"))));
    let (name, s) = find_by_id(entries, "printer-arrives").unwrap();
    assert_eq!(name, "2026-05-27.json");
    assert_eq!(s.id, "printer-arrives");
    assert!(find_by_id(starter_catalog(), "nope").is_none());
}

#[test]
fn list_all_sorts_by_created_at_stably() {
    let entries = vec![
        entry("c.json", Some(stamp("c", "2026-03-01"))),
        entry("a.json", Some(stamp("a", "2026-01-01"))),
        entry("bad.json", None),
        entry("skip.txt", Some(stamp("skip", "2000-01-01"))),
        entry("b1.json", Some(stamp("b1", "2026-02-01"))),
        entry("b2.json", Some(stamp("b2", "2026-02-01"))),
    ];
    let ids: Vec<String> = list_all(entries).into_iter().map(|s| s.id).collect();
    assert_eq!(ids, vec!["a", "b1", "b2", "c"]);
    assert_eq!(list_all(starter_catalog()).len(), 4);
}

#[test]
fn filter_and_list_lines() {
    let mut a = stamp("a", "1");
    a.kind = "birthday".to_string();
    let b = stamp("b", "2");
    let kept = filter_by_kind(vec![a, b], "birthday");
    assert_eq!(kept.len(), 1);
    assert_eq!(kept[0].id, "a");
    assert_eq!(list_line(&kept[0]), "a  Title of a");
}

// --- validation --------------------------------------------------------------

#[test]
fn validate_accepts_within_bounds() {
    assert!(validate_lines(&[]).is_ok());
    assert!(validate_lines(&lines(&["x"; 12])).is_ok());
    assert!(validate_lines(&vec!["x".repeat(40)]).is_ok());
    assert_eq!(MAX_LINES, 12);
    assert_eq!(MAX_GRAPHEMES, 40);
}

#[test]
fn validate_rejects_wide_line() {
    let e = validate_lines(&vec!["ok".to_string(), "y".repeat(41)]).unwrap_err();
    assert_eq!(e.line, 2);
    assert_eq!(e.reason, ">40 graphemes (got 41)");
    assert_eq!(e.message(), "line 2: >40 graphemes (got 41)");
}

#[test]
fn validate_rejects_too_many_lines() {
    let e = validate_lines(&lines(&["ok"; 13])).unwrap_err();
    assert_eq!(e.line, 13);
    assert_eq!(e.reason, "too many lines (got 13, max 12)");
}

#[test]
fn validate_counts_graphemes_not_chars() {
    // "e" + combining acute accent is one grapheme made of two chars.
    let line = "e\u{301}".repeat(40);
    assert!(validate_lines(&vec![line]).is_ok());
}

#[test]
fn validate_matches_schema_predicate() {
    for n in 0..20usize {
        for width in [0usize, 39, 40, 41, 60] {
            let v: Vec<String> = (0..n).map(|i| if i == n / 2 { "a".repeat(width) } else { "b".to_string() }).collect();
            let within = v.len() <= MAX_LINES && v.iter().all(|l| l.chars().count() <= MAX_GRAPHEMES);
            let res = validate_lines(&v);
            assert_eq!(res.is_ok(), within);
            if let Err(e) = res {
                assert!(e.line >= 1 && e.line <= v.len() + 1);
                assert!(!e.reason.is_empty());
            }
        }
    }
}

// --- render ------------------------------------------------------------------

#[test]
fn render_text_stamp_exact_bytes() {
    let mut s = stamp("t", "x");
    s.title = "Hi".to_string();
    s.subtitle = "Sub".to_string();
    s.lines = lines(&["é"]);
    s.size_hint = "small".to_string();
    let bytes = render(&s);
    let mut expected = vec![0x1B, 0x40, 0x1B, 0x61, 0x01];
    expected.extend_from_slice(b"Hi\nSub\n");
    expected.extend_from_slice(&[0xC3, 0xA9, b'\n']);
    expected.extend_from_slice(&[0x1B, 0x61, 0x00, b'\n', b'\n', 0x1D, 0x56, 0x42, 0x00]);
    assert_eq!(bytes, expected);
}

#[test]
fn render_feed_lines_follow_size_hint() {
    let mut s = stamp("t", "x");
    s.title = "T".to_string();
    s.lines = lines(&["b"]);
    for (hint, feeds) in [("small", 2usize), ("medium", 4), ("large", 8), ("huge", 4)] {
        s.size_hint = hint.to_string();
        let bytes = render(&s);
        // init, center, "T\n", "b\n", left, feeds, cut
        assert_eq!(bytes.len(), 2 + 3 + 2 + 2 + 3 + feeds + 4);
        assert!(bytes[12..12 + feeds].iter().all(|b| *b == b'\n'));
    }
}

#[test]
fn render_without_lines_or_seed_centers_title() {
    let mut s = stamp("t", "x");
    s.title = "Hi".to_string();
    s.subtitle = "Sub".to_string();
    s.lines = Vec::new();
    s.glyph_seed = None;
    s.size_hint = "small".to_string();
    let mut expected = vec![0x1B, 0x40, 0x1B, 0x61, 0x01];
    expected.extend_from_slice(b"Hi\nSub\n");
    expected.extend_from_slice(&[0x1B, 0x61, 0x00, b'\n', b'\n', 0x1D, 0x56, 0x42, 0x00]);
    assert_eq!(render(&s), expected);
}

#[test]
fn render_glyph_only_stamp() {
    let mut s = stamp("g", "x");
    s.lines = Vec::new();
    s.glyph_seed = Some(42);
    let bytes = render(&s);
    assert_eq!(&bytes[0..2], &[0x1B, 0x40]);
    assert_eq!(&bytes[2..10], &[0x1D, 0x76, 0x30, 0x00, 3, 0x00, 24, 0x00]);
    assert_eq!(&bytes[10..14], &[135, 198, 232, 133]);
    assert_eq!(bytes[81], 5);
    assert_eq!(bytes.len(), 2 + 80 + 4 + 4);
    assert_eq!(&bytes[bytes.len() - 4..], &[0x1D, 0x56, 0x42, 0x00]);
}

#[test]
fn render_glyph_seed_zero() {
    let mut s = stamp("g", "x");
    s.lines = Vec::new();
    s.glyph_seed = Some(0);
    assert_eq!(render(&s)[10], 247);
}

// --- add ---------------------------------------------------------------------

fn request(date: &str, body: Vec<String>) -> AddRequest {
    AddRequest {
        id: "foo".to_string(),
        title: "T".to_string(),
        date: date.to_string(),
        lines: body,
        subtitle: String::new(),
        kind: "custom".to_string(),
        size_hint: "medium".to_string(),
        category: String::new(),
        glyph_seed: None,
    }
}

#[test]
fn add_builds_the_stamp() {
    assert_eq!(add_file_name("2026-05-30"), "2026-05-30.json");
    let (name, s) =
        prepare_add(request("2026-05-30", lines(&["Hello"])), false, "now".to_string()).unwrap();
    assert_eq!(name, "2026-05-30.json");
    assert_eq!(s.id, "foo");
    assert_eq!(s.title, "T");
    assert_eq!(s.lines, vec!["Hello".to_string()]);
    assert_eq!(s.created_at, "now");
    assert_eq!(s.created_by, "");
}

#[test]
fn add_refuses_to_overwrite() {
    let e = prepare_add(request("2026-05-30", lines(&["Hello"])), true, "now".to_string())
        .unwrap_err();
    assert!(matches!(e, AddError::Collision));
    assert_eq!(e.exit_code(), EXIT_COLLISION);
    assert_eq!(EXIT_COLLISION, 4);
}

#[test]
fn add_rejects_schema_violation_before_collision() {
    let e = prepare_add(request("2026-06-01", vec!["x".repeat(41)]), true, "now".to_string())
        .unwrap_err();
    assert_eq!(e.exit_code(), EXIT_SCHEMA);
    match e {
        AddError::Schema(le) => assert_eq!(le.message(), "line 1: >40 graphemes (got 41)"),
        _ => panic!("expected a schema error"),
    }
    let e = prepare_add(request("2026-06-02", lines(&["ok"; 13])), false, "now".to_string())
        .unwrap_err();
    assert_eq!(e.exit_code(), 5);
}

#[test]
fn add_rejects_bad_date_first() {
    let e = prepare_add(request("2026-13-01", lines(&["ok"; 13])), true, "now".to_string())
        .unwrap_err();
    assert!(matches!(e, AddError::InvalidDate(_)));
    assert_eq!(e.exit_code(), EXIT_ERROR);
}

// --- render command ----------------------------------------------------------

#[test]
fn render_target_reads_today() {
    assert!(matches!(render_target("today"), RenderTarget::Today));
    match render_target("glyph42") {
        RenderTarget::Id(id) => assert_eq!(id, "glyph42"),
        RenderTarget::Today => panic!("not today"),
    }
}

#[test]
fn render_stamp_by_id_and_today() {
    let today = parse_date("2026-05-27").unwrap();
    let bytes =
        render_stamp(RenderTarget::Id("new-year".to_string()), starter_catalog(), &today).unwrap();
    assert_eq!(&bytes[0..2], &[0x1B, 0x40]);
    let t = render_stamp(RenderTarget::Today, starter_catalog(), &today).unwrap();
    assert!(t.windows(5).any(|w| w == b"Title"));
    let none_day = parse_date("2026-05-28").unwrap();
    let e = render_stamp(RenderTarget::Today, starter_catalog(), &none_day).unwrap_err();
    assert!(matches!(e, RenderError::NoStampToday));
    assert_eq!(e.exit_code(), 3);
    let e = render_stamp(RenderTarget::Id("nope".to_string()), starter_catalog(), &today)
        .unwrap_err();
    match e {
        RenderError::NoSuchId(id) => assert_eq!(id, "nope"),
        _ => panic!("expected a missing id"),
    }
}

#[test]
fn render_stamp_rejects_malformed_lines() {
    let mut bad = stamp("badrender", "2026-06-03T00:00:00+00:00");
    bad.lines = vec!["fine".to_string(), "y".repeat(41)];
    let entries = vec![entry("2026-06-03.json", Some(bad))];
    let today = parse_date("2026-06-03").unwrap();
    let e = render_stamp(RenderTarget::Id("badrender".to_string()), entries, &today).unwrap_err();
    assert_eq!(e.exit_code(), 5);
    match e {
        RenderError::Schema(le) => assert_eq!(le.line, 2),
        _ => panic!("expected a schema error"),
    }
}

// --- seed --------------------------------------------------------------------

#[test]
fn seed_writes_only_missing_files() {
    assert_eq!(files_to_seed(&[false, false, false, false]), vec![0, 1, 2, 3]);
    assert_eq!(files_to_seed(&[true, false, true, false]), vec![1, 3]);
    assert!(files_to_seed(&[true, true, true, true]).is_empty());
}

// --- text helpers ------------------------------------------------------------

#[test]
fn text_helpers() {
    let mut s = String::from("n=");
    push_decimal(&mut s, 0);
    push_decimal(&mut s, 1234567890);
    assert_eq!(s, "n=01234567890");
    let mut p = String::new();
    push_zero_padded(&mut p, 7, 4);
    push_zero_padded(&mut p, 123456, 4);
    assert_eq!(p, "0007123456");
    assert!(str_lt("2026-01-01", "2026-01-02"));
    assert!(str_lt("abc", "abcd"));
    assert!(!str_lt("b", "abc"));
    assert!(!str_lt("same", "same"));
    assert!(str_eq("x", "x"));
    assert!(!str_eq("x", "y"));
}

#[test]
fn stamp_files_keep_to_their_days() {
    // A date-specific file decides its own date only.
    let entries = vec![entry("2026-05-22.json", Some(stamp("prd-shipped", "1")))];
    assert!(which(entries.clone(), &parse_date("2027-05-22").unwrap()).is_none());
    assert!(which(entries, &parse_date("2026-05-23").unwrap()).is_none());
    // A recurring file decides its own month and day only.
    let entries = vec![entry("01-01.json", Some(stamp("new-year", "1")))];
    assert!(which(entries.clone(), &parse_date("2026-01-02").unwrap()).is_none());
    assert!(which(entries, &parse_date("2026-02-01").unwrap()).is_none());
}

#[test]
fn check_line_widths_on_counts() {
    assert!(check_line_widths(&[]).is_ok());
    assert!(check_line_widths(&[0, 40, 12]).is_ok());
    let e = check_line_widths(&[3, 41, 50]).unwrap_err();
    assert_eq!(e.line, 2);
    assert_eq!(e.reason, ">40 graphemes (got 41)");
    let e = check_line_widths(&[1; 13]).unwrap_err();
    assert_eq!(e.line, 13);
    assert_eq!(e.reason, "too many lines (got 13, max 12)");
    let e = check_line_widths(&[100; 20]).unwrap_err();
    assert_eq!(e.line, 13);
    assert_eq!(e.reason, "too many lines (got 20, max 12)");
}

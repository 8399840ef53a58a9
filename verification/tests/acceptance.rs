//! The acceptance scenarios that the library itself decides: a date-specific
//! stamp shadows the recurring one, and a rendered stamp is framed by the
//! ESC/POS init and cut commands around the title's bytes.

use day_stamps::catalog::{parse_date, which, CatalogEntry, Stamp};
use day_stamps::date::{recurring_file_name, specific_file_name};
use day_stamps::render::render;

fn stamp(id: &str, title: &str, lines: &[&str]) -> Stamp {
    Stamp {
        id: id.to_string(),
        kind: "custom".to_string(),
        title: title.to_string(),
        subtitle: String::new(),
        lines: lines.iter().map(|l| l.to_string()).collect(),
        glyph_seed: None,
        size_hint: "medium".to_string(),
        category: String::new(),
        created_by: String::new(),
        created_at: "2026-01-01T00:00:00+00:00".to_string(),
    }
}

/// AC4: when both `2026-12-31.json` and `12-31.json` exist, `which
/// 2026-12-31` returns the date-specific one.
#[test]
fn ac4_shadow_placeholder() {
    let date = parse_date("2026-12-31").unwrap();
    assert_eq!(specific_file_name(&date), "2026-12-31.json");
    assert_eq!(recurring_file_name(&date), "12-31.json");
    let entries = vec![
        CatalogEntry { name: "12-31.json".to_string(), stamp: Some(stamp("nye", "NYE", &["x"])) },
        CatalogEntry {
            name: "2026-12-31.json".to_string(),
            stamp: Some(stamp("nye-2026", "NYE 2026", &["y"])),
        },
    ];
    let hit = which(entries.clone(), &date).unwrap();
    assert_eq!(hit.id, "nye-2026");

    // Another year falls back to the recurring stamp.
    let other = parse_date("2027-12-31").unwrap();
    assert_eq!(which(entries, &other).unwrap().id, "nye");
}

/// AC6: the rendered stream begins with ESC '@', contains the title bytes
/// verbatim, and ends with the feed-and-cut bytes.
#[test]
fn ac6_render_bytes_placeholder() {
    let s = stamp("printer-arrives", "The Printer Arrives", &["It prints."]);
    let bytes = render(&s);
    assert!(!bytes.is_empty());
    assert_eq!(&bytes[0..2], &[0x1B, 0x40]);
    let title = b"The Printer Arrives";
    assert!(bytes.windows(title.len()).any(|w| w == title));
    assert_eq!(&bytes[bytes.len() - 4..], &[0x1D, 0x56, 0x42, 0x00]);
}

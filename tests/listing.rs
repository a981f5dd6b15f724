use rush::classify::{classify, ColorClass};
use rush::format::{format_permissions, format_size, format_stamp, is_executable_mode, Stamp};
use rush::listing::{list_entries, Entry, EntryKind};
use rush::render::{grid, grid_width, long_listing, long_name_width, long_table, paint};
use rush::text::truncate_string;

fn entry(name: &str, kind: EntryKind, size: u64, executable: bool) -> Entry {
    Entry {
        name: name.to_string(),
        kind,
        mode: 0o100644,
        uid: 1000,
        gid: 100,
        size,
        modified: Some(1_700_000_000),
        executable,
    }
}

fn names(v: &[Entry]) -> Vec<String> {
    v.iter().map(|e| e.name.clone()).collect()
}

#[test]
fn size_formatting_scales_by_1024() {
    assert_eq!(format_size(0), "0.0B");
    assert_eq!(format_size(1023), "1023.0B");
    assert_eq!(format_size(1024), "1.0K");
    assert_eq!(format_size(1536), "1.5K");
    assert_eq!(format_size(1280), "1.2K");
    assert_eq!(format_size(1792), "1.8K");
    assert_eq!(format_size(1331), "1.3K");
    assert_eq!(format_size(2048), "2.0K");
    assert_eq!(format_size(1_048_575), "1024.0K");
    assert_eq!(format_size(1_073_741_824), "1.0G");
    assert_eq!(format_size(5 * 1_099_511_627_776), "5.0T");
    assert_eq!(format_size(u64::MAX), "16777216.0T");
}

#[test]
fn truncation_rules() {
    assert_eq!(truncate_string("abcde", 5), "abcde");
    assert_eq!(truncate_string("abcdef", 5), "abcd\u{2026}");
    assert_eq!(truncate_string("abcdef", 1), "\u{2026}");
    assert_eq!(truncate_string("abcdef", 0), "\u{2026}");
    assert_eq!(truncate_string("\u{e9}t\u{e9}s", 3), "\u{e9}t\u{2026}");
}

#[test]
fn permissions_are_three_octal_digits() {
    assert_eq!(format_permissions(0o100755), "755");
    assert_eq!(format_permissions(0o40644), "644");
    assert_eq!(format_permissions(0o044), "044");
    assert_eq!(format_permissions(0o7777), "777");
    assert!(is_executable_mode(0o100744));
    assert!(!is_executable_mode(0o100644));
}

#[test]
fn stamps_render_to_the_minute() {
    let s = Stamp { year: 2024, month: 3, day: 5, hour: 7, minute: 9 };
    assert_eq!(format_stamp(s), "2024-03-05 07:09");
    let s = Stamp { year: 12345, month: 12, day: 31, hour: 23, minute: 59 };
    assert_eq!(format_stamp(s), "+12345-12-31 23:59");
    let s = Stamp { year: -1, month: 1, day: 1, hour: 0, minute: 0 };
    assert_eq!(format_stamp(s), "-0001-01-01 00:00");
}

#[test]
fn listing_sorts_and_hides_dot_files() {
    let a = vec![
        entry("zeta", EntryKind::File, 1, false),
        entry(".hidden", EntryKind::File, 1, false),
        entry("Alpha", EntryKind::Directory, 1, false),
        entry("beta", EntryKind::File, 1, false),
    ];
    assert_eq!(names(&list_entries(a, false)), vec!["Alpha", "beta", "zeta"]);
}

#[test]
fn listing_order_does_not_depend_on_input_order() {
    let make = |order: &[&str]| -> Vec<Entry> {
        order.iter().map(|n| entry(n, EntryKind::File, 3, false)).collect()
    };
    let x = list_entries(make(&["b", ".a", "c", "a"]), true);
    let y = list_entries(make(&["a", "c", ".a", "b"]), true);
    assert_eq!(names(&x), vec![".a", "a", "b", "c"]);
    assert_eq!(names(&x), names(&y));
}

#[test]
fn classification_follows_rule_order() {
    let d = classify(&entry("Downloads", EntryKind::Directory, 0, true));
    assert_eq!((d.icon.as_str(), d.color), (" \u{1f4e5}", ColorClass::Directory));
    let g = classify(&entry(".git", EntryKind::Directory, 0, false));
    assert_eq!(g.icon, " \u{1f5c3}\u{fe0f}");
    let o = classify(&entry("misc", EntryKind::Directory, 0, false));
    assert_eq!(o.icon, " \u{1f4c1}");
    let l = classify(&entry("main.rs", EntryKind::Symlink, 0, true));
    assert_eq!((l.icon.as_str(), l.color), (" \u{1f517}", ColorClass::Link));
    let x = classify(&entry("run.sh", EntryKind::File, 0, true));
    assert_eq!((x.icon.as_str(), x.color), (" >_", ColorClass::Executable));
    let r = classify(&entry("main.rs", EntryKind::File, 0, false));
    assert_eq!((r.icon.as_str(), r.color), (" \u{1f980}", ColorClass::Plain));
    let p = classify(&entry("photo.png", EntryKind::File, 0, false));
    assert_eq!((p.icon.as_str(), p.color), (" \u{1f5bc}\u{fe0f}", ColorClass::Image));
    let z = classify(&entry("a.tar.gz", EntryKind::File, 0, false));
    assert_eq!((z.icon.as_str(), z.color), (" \u{1f4e6}", ColorClass::Archive));
    let dotjpg = classify(&entry(".jpg", EntryKind::File, 0, false));
    assert_eq!((dotjpg.icon.as_str(), dotjpg.color), (" \u{2699}\u{fe0f}", ColorClass::Plain));
    let upper = classify(&entry("IMG.JPG", EntryKind::File, 0, false));
    assert_eq!(upper.color, ColorClass::Plain);
    let c = classify(&entry("x.cpp", EntryKind::File, 0, false));
    assert_eq!(c.icon, " C++");
}

#[test]
fn terminal_widths() {
    assert_eq!(grid_width(Some(20)), 40);
    assert_eq!(grid_width(Some(120)), 120);
    assert_eq!(grid_width(None), 80);
    assert_eq!(long_name_width(Some(60)), 20);
    assert_eq!(long_name_width(Some(100)), 50);
    assert_eq!(long_name_width(None), 30);
}

#[test]
fn grid_breaks_every_fourth_cell() {
    let es: Vec<Entry> = ["a", "b", "c", "d", "e"]
        .iter()
        .map(|n| entry(n, EntryKind::File, 0, false))
        .collect();
    let shown = names(&es);
    let out = grid(&es, &shown, 3);
    let cell = |n: &str| format!(" \u{1f4c4} {}  ", n);
    let expected = format!(
        "{}{}{}{}\n{}\n",
        cell("a"),
        cell("b"),
        cell("c"),
        cell("d"),
        cell("e")
    );
    assert_eq!(out, expected);
}

#[test]
fn long_table_rows() {
    let mut e = entry("notes.txt", EntryKind::File, 1536, false);
    e.mode = 0o100640;
    let out = long_table(
        &"H".to_string(),
        &vec![e],
        true,
        &vec![Some("2024-01-02 03:04".to_string())],
        &vec!["notes.txt".to_string()],
    );
    assert_eq!(out, "H\n640          1000    100     1.5K 2024-01-02 03:04  \u{f15c} notes.txt\n");
}

#[test]
fn long_listing_end_to_end() {
    let raw = vec![
        entry("report.bin", EntryKind::File, 2048, false),
        entry(".profile", EntryKind::File, 37, false),
    ];
    let shown = list_entries(raw, true);
    assert_eq!(names(&shown), vec![".profile", "report.bin"]);
    let out = long_listing(&shown, true, 30);
    let lines: Vec<&str> = out.lines().collect();
    assert_eq!(lines.len(), 3);
    assert!(lines[0].contains("Permisions"));
    assert!(lines[1].contains("37.0B") && lines[1].contains(".profile"));
    assert!(lines[2].contains("2.0K") && lines[2].contains("report.bin"));
    let when: Vec<char> = lines[2].chars().skip(34).take(16).collect();
    for (i, c) in when.iter().enumerate() {
        match i {
            4 | 7 => assert_eq!(*c, '-'),
            10 => assert_eq!(*c, ' '),
            13 => assert_eq!(*c, ':'),
            _ => assert!(c.is_ascii_digit()),
        }
    }
}

#[test]
fn entry_without_time_has_no_long_row() {
    let mut e = entry("a", EntryKind::File, 1, false);
    e.modified = None;
    let out = long_listing(&vec![e, entry("b", EntryKind::File, 1, false)], false, 20);
    assert_eq!(out.lines().count(), 2);
    assert!(out.lines().nth(1).unwrap().ends_with(" b"));
}

#[test]
fn painting_keeps_the_text() {
    assert!(paint("abc", ColorClass::Image).contains("abc"));
}

#[test]
fn one_line_layout_pads_to_widest_name() {
    let es = vec![
        entry("ab", EntryKind::File, 0, false),
        entry("abcd", EntryKind::File, 0, false),
    ];
    let shown = names(&es);
    let out = rush::render::inline(&es, &shown, rush::render::inline_width(&es));
    assert_eq!(out, " \u{1f4c4} ab     \u{1f4c4} abcd  ");
    assert_eq!(rush::render::inline_width(&Vec::new()), 20);
    let all = rush::render::print_entries(vec![entry("b", EntryKind::File, 0, false), entry(".a", EntryKind::File, 0, false)]);
    assert!(all.find(".a").unwrap() < all.find('b').unwrap());
}

use gyoretu::gui::{
    file_stem, get_extention, get_path_stem, parse_decimal, request_import, scan_sequence,
    sequence_entry, SequenceEntry,
};
use gyoretu::status::Status;

#[test]
fn import_is_refused_above_the_texture_limit() {
    let mut st = Status::new();
    assert!(!request_import(&mut st, 1025));
    assert!(!st.update_input);
    assert!(request_import(&mut st, 1024));
    assert!(st.update_input);
}

#[test]
fn stems_and_extensions_follow_path_rules() {
    assert_eq!(file_stem("seed_00012.png"), "seed_00012");
    assert_eq!(get_extention("seed_00012.png"), Some("png".to_string()));
    assert_eq!(file_stem("archive.tar.gz"), "archive.tar");
    assert_eq!(get_extention("archive.tar.gz"), Some("gz".to_string()));
    assert_eq!(file_stem(".hidden"), ".hidden");
    assert_eq!(get_extention(".hidden"), None);
    assert_eq!(file_stem("noext"), "noext");
    assert_eq!(get_extention("noext"), None);
    assert_eq!(file_stem("trailing."), "trailing");
    assert_eq!(get_extention("trailing."), Some("".to_string()));
    assert_eq!(file_stem(".."), "..");
    assert_eq!(get_extention(".."), None);
}

#[test]
fn path_stem_splits_trailing_number() {
    assert_eq!(
        get_path_stem("seed_00012.png"),
        (Some("seed_".to_string()), Some("00012".to_string()))
    );
    assert_eq!(get_path_stem("frame7.jpg"), (Some("frame".to_string()), Some("7".to_string())));
    assert_eq!(get_path_stem("001.png"), (Some("".to_string()), Some("001".to_string())));
    assert_eq!(get_path_stem("logo.png"), (None, None));
    assert_eq!(get_path_stem("a1b.png"), (None, None));
}

#[test]
fn parse_decimal_reads_digits() {
    assert_eq!(parse_decimal("0"), Some(0));
    assert_eq!(parse_decimal("00012"), Some(12));
    assert_eq!(parse_decimal("4294967295"), Some(u32::MAX));
    assert_eq!(parse_decimal("4294967296"), None);
    assert_eq!(parse_decimal(""), None);
    assert_eq!(parse_decimal("12a"), None);
    assert_eq!(parse_decimal("+5"), None);
}

#[test]
fn scan_finds_sequence_range() {
    let chosen = sequence_entry("seed_00012.png");
    let files = [
        "seed_00012.png",
        "seed_00010.png",
        "seed_00031.png",
        "seed_00005.jpg",
        "other_00001.png",
        "seed.png",
        "notes.txt",
    ];
    let entries: Vec<SequenceEntry> = files.iter().map(|f| sequence_entry(f)).collect();
    let scan = scan_sequence(&chosen, &entries).unwrap();
    assert_eq!(scan.filename, "seed_");
    assert_eq!(scan.digit, 5);
    assert_eq!(scan.from, 10);
    assert_eq!(scan.to, 31);
}

#[test]
fn scan_ignores_unnumbered_choice() {
    let chosen = sequence_entry("logo.png");
    let entries = vec![sequence_entry("logo.png")];
    assert!(scan_sequence(&chosen, &entries).is_none());
}

#[test]
fn stem_dot_extension_rebuilds_the_name() {
    for name in ["seed_00012.png", "archive.tar.gz", "trailing.", "a.b"] {
        let ext = get_extention(name).unwrap();
        assert_eq!(format!("{}.{}", file_stem(name), ext), name);
    }
}

#[test]
fn scan_spans_every_matching_number() {
    let chosen = sequence_entry("f3.png");
    let names = ["f7.png", "f3.png", "f12.png", "f1.jpg", "g0.png"];
    let entries: Vec<SequenceEntry> = names.iter().map(|n| sequence_entry(n)).collect();
    let scan = scan_sequence(&chosen, &entries).unwrap();
    assert_eq!((scan.from, scan.to, scan.digit), (3, 12, 1));
    for n in [7u32, 3, 12] {
        assert!(scan.from <= n && n <= scan.to);
    }
}

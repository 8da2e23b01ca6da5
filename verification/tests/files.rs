use wiki_store::{
    depth_reached, drive_roots, AppConfig, get_mime_type, is_local_file, mime_for_extension, stored_name_for, tally,
    upload_name,
    DiskItem, Reminder, ScanProgress, WikiError,
};

fn s(t: &str) -> String {
    t.to_string()
}

#[test]
fn media_types_by_extension() {
    let table = [
        ("jpg", "image/jpeg"),
        ("jpeg", "image/jpeg"),
        ("png", "image/png"),
        ("gif", "image/gif"),
        ("webp", "image/webp"),
        ("svg", "image/svg+xml"),
        ("mp4", "video/mp4"),
        ("webm", "video/webm"),
        ("mov", "video/quicktime"),
        ("mp3", "audio/mpeg"),
        ("wav", "audio/wav"),
        ("ogg", "audio/ogg"),
        ("pdf", "application/pdf"),
        ("doc", "application/msword"),
        ("docx", "application/msword"),
        ("xls", "application/vnd.ms-excel"),
        ("xlsx", "application/vnd.ms-excel"),
        ("txt", "text/plain"),
        ("json", "application/json"),
        ("zip", "application/zip"),
    ];
    for (extension, media) in table {
        assert_eq!(mime_for_extension(Some(extension)), media);
        assert_eq!(get_mime_type(format!("/some/dir/file.{}", extension)), media);
    }
    assert_eq!(mime_for_extension(None), "application/octet-stream");
    assert_eq!(mime_for_extension(Some("exe")), "application/octet-stream");
    assert_eq!(mime_for_extension(Some("PNG")), "application/octet-stream");
    assert_eq!(mime_for_extension(Some("")), "application/octet-stream");
}

#[test]
fn media_type_of_paths() {
    assert_eq!(get_mime_type(s("photo.final.png")), "image/png");
    assert_eq!(get_mime_type(s("README")), "application/octet-stream");
    assert_eq!(get_mime_type(s(".png")), "application/octet-stream");
    assert_eq!(get_mime_type(s("")), "application/octet-stream");
    assert_eq!(get_mime_type(s("dir.zip/file")), "application/octet-stream");
}

#[test]
fn stored_names() {
    assert_eq!(stored_name_for(1700000000, "tok", Some("png")), "1700000000_tok.png");
    assert_eq!(stored_name_for(5, "a-b", None), "5_a-b.bin");
    assert_eq!(stored_name_for(-3, "", Some("")), "-3_.");
}

#[test]
fn upload_names_keep_the_extension() {
    let name = upload_name("holiday.jpeg");
    assert!(name.ends_with(".jpeg"));
    let (stamp, rest) = name.split_once('_').unwrap();
    assert!(stamp.parse::<i64>().unwrap() > 1_600_000_000);
    assert_eq!(rest.len(), 36 + ".jpeg".len());
    let other = upload_name("holiday.jpeg");
    assert_ne!(name, other);
    assert!(upload_name("noextension").ends_with(".bin"));
}

#[test]
fn depth_limit() {
    assert!(!depth_reached(None, 0));
    assert!(!depth_reached(None, usize::MAX));
    assert!(depth_reached(Some(0), 0));
    assert!(!depth_reached(Some(3), 2));
    assert!(depth_reached(Some(3), 3));
    assert!(depth_reached(Some(3), 4));
}

#[test]
fn disk_items() {
    let file = DiskItem::file(s("a.txt"), s("/d/a.txt"), 12);
    assert_eq!(
        file,
        DiskItem {
            name: s("a.txt"),
            path: s("/d/a.txt"),
            size: 12,
            is_dir: false,
            children: None,
            error: None
        }
    );
    let locked = DiskItem::unreadable(s("x"), s("/d/x"), s("no access"));
    assert_eq!(locked.size, 0);
    assert!(!locked.is_dir);
    assert_eq!(locked.children, None);
    assert_eq!(locked.error, Some(s("Permission denied: no access")));
    let empty = DiskItem::directory(s("e"), s("/d/e"), Ok((0, Vec::new())));
    assert!(empty.is_dir);
    assert_eq!(empty.children, None);
    assert_eq!(empty.error, None);
    let full = DiskItem::directory(
        s("f"),
        s("/d/f"),
        Ok((12, vec![DiskItem::file(s("a.txt"), s("/d/f/a.txt"), 12)])),
    );
    assert_eq!(full.size, 12);
    assert_eq!(full.children.as_ref().map(|c| c.len()), Some(1));
    let failed = DiskItem::directory(s("g"), s("/d/g"), Err(s("gone")));
    assert!(failed.is_dir);
    assert_eq!(failed.size, 0);
    assert_eq!(failed.children, None);
    assert_eq!(failed.error, Some(s("gone")));
}

#[test]
fn tally_sums_and_arranges() {
    let item = |name: &str, size: u64| DiskItem::file(s(name), s(name), size);
    let (total, arranged) = tally(vec![
        item("a", 5),
        item("b", 9),
        item("c", 5),
        item("d", 0),
        item("e", 20),
        item("f", 9),
    ]);
    assert_eq!(total, 48);
    let names: Vec<&str> = arranged.iter().map(|i| i.name.as_str()).collect();
    assert_eq!(names, vec!["e", "b", "f", "a", "c", "d"]);
    let (none, nothing) = tally(Vec::new());
    assert_eq!(none, 0);
    assert!(nothing.is_empty());
}

#[test]
fn tally_caps_the_sum() {
    let item = |name: &str, size: u64| DiskItem::file(s(name), s(name), size);
    let (total, arranged) = tally(vec![item("a", u64::MAX - 1), item("b", 1), item("c", 7)]);
    assert_eq!(total, u64::MAX);
    assert_eq!(arranged.len(), 3);
    assert_eq!(arranged[0].name, "a");
    let (exact, _) = tally(vec![item("a", u64::MAX - 1), item("b", 1)]);
    assert_eq!(exact, u64::MAX);
}

#[test]
fn scan_progress_holds_its_fields() {
    let progress = ScanProgress { current_path: s("/d"), items_scanned: 3 };
    assert_eq!(progress.current_path, "/d");
    assert_eq!(progress.items_scanned, 3);
}

#[test]
fn reminder_from_row() {
    let r = Reminder::from_row(7, s("t"), s("d"), s("2024-01-01T10:00:00"), 1, s("c"), s("daily"));
    assert_eq!(r.id, 7);
    assert!(r.completed);
    assert_eq!(r.title, "t");
    assert_eq!(r.description, "d");
    assert_eq!(r.time, "2024-01-01T10:00:00");
    assert_eq!(r.category, "c");
    assert_eq!(r.frequency, "daily");
    let open = Reminder::from_row(4_294_967_296 + 5, s(""), s(""), s(""), 0, s(""), s(""));
    assert_eq!(open.id, 5);
    assert!(!open.completed);
    assert_eq!(Reminder::from_row(-1, s(""), s(""), s(""), -1, s(""), s("")).id, u32::MAX);
    let copy = r.clone();
    assert_eq!(copy.id, 7);
    assert_eq!(copy.title, "t");
}

#[test]
fn failure_messages() {
    assert_eq!(WikiError::NotFound.message(), "Not found");
    assert_eq!(
        WikiError::Conflict.message(),
        "Section has child sections or pages; move or delete them first"
    );
    assert_eq!(WikiError::InvalidOperation.message(), "Cannot delete root section");
    assert_eq!(
        WikiError::PersistenceFailure.message(),
        "Store records are malformed or out of identifiers"
    );
}

#[test]
fn local_files_and_web_addresses() {
    assert!(is_local_file("/home/me/evidence/1_x.png"));
    assert!(is_local_file("C:\\files\\a.png"));
    assert!(is_local_file(""));
    assert!(is_local_file("htt"));
    assert!(!is_local_file("http://example.org/a.png"));
    assert!(!is_local_file("https://example.org/a.png"));
    assert!(!is_local_file("httpdocs/a.png"));
}

#[test]
fn drive_roots_of_a_mask() {
    assert_eq!(drive_roots(0), Vec::<String>::new());
    assert_eq!(drive_roots(0b1), vec![s("A:\\")]);
    assert_eq!(drive_roots(0b1100), vec![s("C:\\"), s("D:\\")]);
    assert_eq!(drive_roots(1 << 25), vec![s("Z:\\")]);
    assert_eq!(drive_roots(1 << 26), Vec::<String>::new());
    assert_eq!(drive_roots(u32::MAX).len(), 26);
    assert_eq!(drive_roots(u32::MAX)[0], "A:\\");
    assert_eq!(drive_roots(u32::MAX)[25], "Z:\\");
    assert_eq!(drive_roots(0b101)[1].len(), 3);
}

#[test]
fn logging_levels() {
    assert_eq!(AppConfig { debug_mode: true }.log_level(), "debug");
    assert_eq!(AppConfig { debug_mode: false }.log_level(), "info");
    assert!(AppConfig::from_log_level("debug").debug_mode);
    assert!(!AppConfig::from_log_level("info").debug_mode);
    assert!(!AppConfig::from_log_level("DEBUG").debug_mode);
    assert!(!AppConfig::from_log_level("").debug_mode);
}

use dirlist::meta::{format_permission, split_size};
use dirlist::widths::max;
use dirlist::{Entry, ErrorKind, Labels, ListError, MaxInfo, Meta, OsText, Stat};

fn stat() -> Stat {
    Stat {
        is_dir: false,
        mode: 0o100644,
        uid: 0,
        gid: 0,
        len: 5,
        modified_secs: 1_000_000_000,
        modified_nanos: 0,
    }
}

fn entry(path: &str, name: &str) -> Entry {
    Entry {
        path: path.to_string(),
        name: OsText::Text(name.to_string()),
        link: OsText::Absent,
        stat: Some(stat()),
    }
}

fn labels() -> Labels {
    Labels {
        user: Some("alice".to_string()),
        group: Some("staff".to_string()),
        size: Some("1.50 KB".to_string()),
        time: Some("09 09 01:46".to_string()),
    }
}

fn meta(user: &str, group: &str, size: &str, unit: &str) -> Meta {
    Meta {
        path: "p".to_string(),
        name: "n".to_string(),
        annotated: false,
        permission: "-rw-r--r--".to_string(),
        group: group.to_string(),
        user: user.to_string(),
        symlink: None,
        filesize: size.to_string(),
        size_uint: unit.to_string(),
        time: "01 02 03:04".to_string(),
    }
}

#[test]
fn permission_of_a_directory() {
    assert_eq!(format_permission(true, false, 0o755), "drwxr-xr-x");
}

#[test]
fn permission_of_a_regular_file() {
    assert_eq!(format_permission(false, false, 0o644), "-rw-r--r--");
}

#[test]
fn permission_of_a_symbolic_link() {
    assert_eq!(format_permission(false, true, 0o777), "lrwxrwxrwx");
}

#[test]
fn permission_of_a_link_wins_over_a_directory() {
    assert_eq!(format_permission(true, true, 0o700), "lrwx------");
}

#[test]
fn permission_reads_the_low_nine_bits_only() {
    assert_eq!(format_permission(false, false, 0), "----------");
    assert_eq!(format_permission(false, false, 0o100000), "----------");
    assert_eq!(format_permission(false, false, 0o4421), "-r---w---x");
    assert_eq!(format_permission(false, false, 0o124), "---x-w-r--");
    assert_eq!(format_permission(false, false, u32::MAX), "-rwxrwxrwx");
}

#[test]
fn split_size_parts_at_the_first_space() {
    assert_eq!(split_size("1.50 KB"), ("1.50".to_string(), "KB".to_string()));
    assert_eq!(split_size("5 B"), ("5".to_string(), "B".to_string()));
    assert_eq!(split_size("5"), ("5".to_string(), "".to_string()));
    assert_eq!(split_size(""), ("".to_string(), "".to_string()));
    assert_eq!(split_size(" B"), ("".to_string(), "B".to_string()));
    assert_eq!(split_size("5 "), ("5".to_string(), "".to_string()));
    assert_eq!(split_size("1 2 3"), ("1".to_string(), "2 3".to_string()));
}

#[test]
fn from_parts_makes_the_record() {
    let meta = Meta::from_parts(&entry("/tmp/d/a.txt", "a.txt"), &labels()).unwrap();
    assert_eq!(meta.path, "/tmp/d/a.txt");
    assert_eq!(meta.name, "a.txt");
    assert_eq!(meta.permission, "-rw-r--r--");
    assert_eq!(meta.user, "alice");
    assert_eq!(meta.group, "staff");
    assert_eq!(meta.symlink, None);
    assert_eq!(meta.filesize, "1.50");
    assert_eq!(meta.size_uint, "KB");
    assert_eq!(meta.time, "09 09 01:46");
}

#[test]
fn from_parts_of_a_symbolic_link() {
    let mut link = entry("/tmp/d/l", "l");
    link.link = OsText::Text("a.txt".to_string());
    link.stat = Some(Stat { mode: 0o120777, ..stat() });
    let meta = Meta::from_parts(&link, &labels()).unwrap();
    assert_eq!(meta.name, "l");
    assert_eq!(meta.symlink, Some("a.txt".to_string()));
    assert_eq!(meta.permission, "lrwxrwxrwx");
}

#[test]
fn from_parts_of_a_directory() {
    let mut dir = entry("/tmp/d/sub", "sub");
    dir.stat = Some(Stat { is_dir: true, mode: 0o40755, ..stat() });
    let meta = Meta::from_parts(&dir, &labels()).unwrap();
    assert_eq!(meta.permission, "drwxr-xr-x");
}

fn failure(entry: &Entry, labels: &Labels) -> ListError {
    Meta::from_parts(entry, labels).unwrap_err()
}

#[test]
fn from_parts_fails_without_a_name() {
    let mut e = entry("/", "");
    e.name = OsText::Absent;
    e.link = OsText::Undecodable;
    e.stat = None;
    let error = failure(&e, &labels());
    assert_eq!(error.kind, ErrorKind::NameUnreadable);
    assert_eq!(error.path, "/");
}

#[test]
fn from_parts_fails_on_a_name_that_is_not_text() {
    let mut e = entry("/tmp/x", "");
    e.name = OsText::Undecodable;
    e.stat = None;
    let error = failure(&e, &labels());
    assert_eq!(error.kind, ErrorKind::EncodingError);
    assert_eq!(error.path, "/tmp/x");
}

#[test]
fn from_parts_fails_on_a_target_that_is_not_text() {
    let mut e = entry("/tmp/l", "l");
    e.link = OsText::Undecodable;
    e.stat = None;
    let error = failure(&e, &labels());
    assert_eq!(error.kind, ErrorKind::EncodingError);
    assert_eq!(error.path, "/tmp/l");
}

#[test]
fn from_parts_fails_without_metadata() {
    let mut e = entry("/tmp/gone", "gone");
    e.stat = None;
    let error = failure(&e, &labels());
    assert_eq!(error.kind, ErrorKind::MetadataUnavailable);
    assert_eq!(error.path, "/tmp/gone");
}

#[test]
fn from_parts_fails_without_an_owner() {
    let error = failure(&entry("/tmp/a", "a"), &Labels { user: None, size: None, ..labels() });
    assert_eq!(error.kind, ErrorKind::IdentityUnresolvable);
    assert_eq!(error.path, "/tmp/a");
}

#[test]
fn from_parts_fails_without_a_group() {
    let error = failure(&entry("/tmp/a", "a"), &Labels { group: None, time: None, ..labels() });
    assert_eq!(error.kind, ErrorKind::IdentityUnresolvable);
}

#[test]
fn from_parts_fails_without_a_size_or_a_time() {
    let error = failure(&entry("/tmp/a", "a"), &Labels { size: None, ..labels() });
    assert_eq!(error.kind, ErrorKind::MetadataUnavailable);
    let error = failure(&entry("/tmp/a", "a"), &Labels { time: None, ..labels() });
    assert_eq!(error.kind, ErrorKind::MetadataUnavailable);
}

#[test]
fn labels_of_an_entry_without_metadata_are_missing() {
    let mut e = entry("/tmp/gone", "gone");
    e.stat = None;
    let labels = Labels::of(&e);
    assert_eq!(labels.user, None);
    assert_eq!(labels.group, None);
    assert_eq!(labels.size, None);
    assert_eq!(labels.time, None);
}

#[test]
fn labels_hold_the_abbreviated_size() {
    let size_of = |len: u64| {
        let mut e = entry("/tmp/a", "a");
        e.stat = Some(Stat { len, ..stat() });
        Labels::of(&e).size
    };
    assert_eq!(size_of(0), Some("0 B".to_string()));
    assert_eq!(size_of(1), Some("1 B".to_string()));
    assert_eq!(size_of(5), Some("5 B".to_string()));
    assert_eq!(size_of(999), Some("999 B".to_string()));
    assert_eq!(size_of(1000), Some("1.00 KB".to_string()));
    assert_eq!(size_of(1500), Some("1.50 KB".to_string()));
    assert_eq!(size_of(12_345), Some("12.3 KB".to_string()));
    assert_eq!(size_of(123_456), Some("123 KB".to_string()));
    assert_eq!(size_of(2_500_000), Some("2.50 MB".to_string()));
    assert!(size_of(i64::MAX as u64).is_some());
    assert_eq!(size_of(i64::MAX as u64 + 1), None);
    assert_eq!(size_of(u64::MAX), None);
}

#[test]
fn labels_hold_the_time_as_month_day_hour_minute() {
    let time = Labels::of(&entry("/tmp/a", "a")).time.unwrap();
    let bytes = time.as_bytes();
    assert_eq!(bytes.len(), 11);
    for (at, byte) in bytes.iter().enumerate() {
        match at {
            2 | 5 => assert_eq!(*byte, b' '),
            8 => assert_eq!(*byte, b':'),
            _ => assert!(byte.is_ascii_digit()),
        }
    }
}

#[test]
fn labels_hold_the_minute_of_the_instant() {
    let minute_of = |modified_secs: i64| {
        let mut e = entry("/tmp/a", "a");
        e.stat = Some(Stat { modified_secs, ..stat() });
        let time = Labels::of(&e).time.unwrap();
        time[9..].parse::<u32>().unwrap()
    };
    let first = minute_of(1_000_000_000);
    assert_eq!(minute_of(1_000_000_060), first + 1);
    assert_eq!(minute_of(1_000_000_019), first);
    assert_eq!(minute_of(1_000_000_020), first + 1);
}

fn time_of(modified_secs: i64, modified_nanos: u32) -> Option<String> {
    let mut e = entry("/tmp/a", "a");
    e.stat = Some(Stat { modified_secs, modified_nanos, ..stat() });
    Labels::of(&e).time
}

#[test]
fn labels_hold_the_time_of_an_instant_before_the_epoch() {
    assert!(time_of(0, 0).is_some());
    assert!(time_of(-1, 999_999_999).is_some());
    assert!(time_of(-2_208_988_800, 0).is_some());
}

#[test]
fn labels_hold_the_time_of_every_instant_whose_year_fits() {
    assert!(time_of(253_402_300_799, 999_999_999).is_some());
    assert!(time_of(253_402_300_800, 0).is_some());
    assert_eq!(time_of(67_768_036_160_140_799, 0).unwrap().len(), 11);
    assert_eq!(time_of(-67_768_040_578_204_800, 0).unwrap().len(), 11);
}

#[test]
fn labels_hold_no_time_for_an_instant_out_of_range() {
    assert_eq!(time_of(67_768_036_160_140_800, 0), None);
    assert_eq!(time_of(-67_768_040_578_204_801, 0), None);
    assert_eq!(time_of(i64::MAX, 0), None);
    assert_eq!(time_of(i64::MIN, 0), None);
    assert_eq!(time_of(0, 1_000_000_000), None);
    assert_eq!(time_of(0, u32::MAX), None);
}

#[test]
fn from_path_fails_on_an_instant_whose_year_does_not_fit() {
    let mut e = entry("/tmp/a", "a");
    e.stat = Some(Stat { modified_secs: i64::MAX, ..stat() });
    let error = Meta::from_path(&e).unwrap_err();
    assert_eq!(error.kind, ErrorKind::MetadataUnavailable);
    assert_eq!(error.path, "/tmp/a");
}

#[test]
fn labels_hold_the_names_of_owner_and_group() {
    let labels = Labels::of(&entry("/tmp/a", "a"));
    assert_eq!(labels.user, Some("root".to_string()));
    assert!(!labels.group.unwrap().is_empty());
}

#[test]
fn labels_hold_no_name_for_an_unknown_id() {
    let mut e = entry("/tmp/a", "a");
    e.stat = Some(Stat { uid: 4_000_000_123, gid: 4_000_000_123, ..stat() });
    let labels = Labels::of(&e);
    assert_eq!(labels.user, None);
    assert_eq!(labels.group, None);
    assert_eq!(labels.size, Some("5 B".to_string()));
    assert!(labels.time.is_some());
}

#[test]
fn from_path_resolves_an_entry() {
    let e = entry("/tmp/d/a.txt", "a.txt");
    let labels = Labels::of(&e);
    let meta = Meta::from_path(&e).unwrap();
    assert_eq!(meta.path, "/tmp/d/a.txt");
    assert_eq!(meta.name, "a.txt");
    assert_eq!(meta.permission, "-rw-r--r--");
    assert_eq!(meta.filesize, "5");
    assert_eq!(meta.size_uint, "B");
    assert_eq!(meta.user, "root");
    assert_eq!(Some(meta.group), labels.group);
    assert_eq!(Some(meta.time), labels.time);
    assert_eq!(meta.symlink, None);
}

#[test]
fn from_path_fails_on_an_unknown_owner() {
    let mut e = entry("/tmp/a", "a");
    e.stat = Some(Stat { uid: 4_000_000_123, ..stat() });
    let error = Meta::from_path(&e).unwrap_err();
    assert_eq!(error.kind, ErrorKind::IdentityUnresolvable);
    assert_eq!(error.path, "/tmp/a");
}

#[test]
fn from_path_fails_on_an_unknown_group() {
    let mut e = entry("/tmp/a", "a");
    e.stat = Some(Stat { gid: 4_000_000_123, ..stat() });
    let error = Meta::from_path(&e).unwrap_err();
    assert_eq!(error.kind, ErrorKind::IdentityUnresolvable);
}

#[test]
fn from_path_fails_without_a_name_before_anything_else() {
    let mut e = entry("/", "");
    e.name = OsText::Absent;
    assert_eq!(Meta::from_path(&e).unwrap_err().kind, ErrorKind::NameUnreadable);
}

#[test]
fn from_path_fails_on_a_length_that_no_file_has() {
    let mut e = entry("/tmp/a", "a");
    e.stat = Some(Stat { len: u64::MAX, ..stat() });
    assert_eq!(Meta::from_path(&e).unwrap_err().kind, ErrorKind::MetadataUnavailable);
}

#[test]
fn max_takes_the_longest_of_each_field() {
    let mut info = MaxInfo::default();
    assert_eq!((info.user, info.group, info.filesize, info.sizeuint), (0, 0, 0, 0));
    max(&meta("alice", "staff", "1.50", "KB"), &mut info);
    assert_eq!((info.user, info.group, info.filesize, info.sizeuint), (5, 5, 4, 2));
    max(&meta("bo", "wheelers", "5", "B"), &mut info);
    assert_eq!((info.user, info.group, info.filesize, info.sizeuint), (5, 8, 4, 2));
}

#[test]
fn max_is_idempotent_and_independent_of_order() {
    let a = meta("alice", "g", "123", "B");
    let b = meta("bo", "group", "1.00", "KB");
    let mut first = MaxInfo::default();
    max(&a, &mut first);
    max(&b, &mut first);
    let mut second = MaxInfo::default();
    max(&b, &mut second);
    max(&a, &mut second);
    max(&a, &mut second);
    assert_eq!(
        (first.user, first.group, first.filesize, first.sizeuint),
        (second.user, second.group, second.filesize, second.sizeuint)
    );
    assert_eq!((first.user, first.group, first.filesize, first.sizeuint), (5, 5, 4, 2));
}

#[test]
fn format_meta_pads_with_trailing_spaces() {
    let mut m = meta("bo", "g", "5", "B");
    m.format_meta(&MaxInfo { user: 5, group: 3, filesize: 4, sizeuint: 2 });
    assert_eq!(m.user, "bo   ");
    assert_eq!(m.group, "g  ");
    assert_eq!(m.filesize, "5   ");
    assert_eq!(m.size_uint, "B ");
    assert_eq!(m.name, "n");
    assert_eq!(m.permission, "-rw-r--r--");
    assert_eq!(m.time, "01 02 03:04");
    assert_eq!(m.row(), "-rw-r--r-- g   bo    5    B  01 02 03:04 n");
}

#[test]
fn format_meta_never_cuts_a_field() {
    let mut m = meta("alice", "staff", "1.50", "KB");
    m.format_meta(&MaxInfo { user: 2, group: 0, filesize: 4, sizeuint: 1 });
    assert_eq!(m.user, "alice");
    assert_eq!(m.group, "staff");
    assert_eq!(m.filesize, "1.50");
    assert_eq!(m.size_uint, "KB");
}

#[test]
fn format_meta_appends_the_target_of_a_link() {
    let mut m = meta("bo", "g", "5", "B");
    m.name = "l".to_string();
    m.symlink = Some("a.txt".to_string());
    m.format_meta(&MaxInfo::default());
    assert_eq!(m.name, "l => a.txt");
    assert_eq!(m.row(), "-rw-r--r-- g bo 5 B 01 02 03:04 l => a.txt");
}

#[test]
fn format_meta_appends_the_target_exactly_once() {
    let mut m = meta("bo", "g", "5", "B");
    m.name = "link".to_string();
    m.symlink = Some("a.txt".to_string());
    let info = MaxInfo::default();
    m.format_meta(&info);
    assert_eq!(m.name, "link => a.txt");
    assert!(m.annotated);
    let once = m.row();
    m.format_meta(&info);
    assert_eq!(m.name, "link => a.txt");
    assert_eq!(m.row(), once);
    m.format_meta(&MaxInfo { user: 4, group: 4, filesize: 4, sizeuint: 4 });
    assert_eq!(m.name, "link => a.txt");
    assert_eq!(m.row(), "-rw-r--r-- g    bo   5    B    01 02 03:04 link => a.txt");
}

#[test]
fn format_meta_twice_is_format_meta_once() {
    let info = MaxInfo { user: 5, group: 3, filesize: 4, sizeuint: 2 };
    let mut m = meta("bo", "g", "5", "B");
    m.format_meta(&info);
    let once = (m.row(), m.user.clone(), m.group.clone(), m.filesize.clone(), m.size_uint.clone());
    m.format_meta(&info);
    let twice = (m.row(), m.user.clone(), m.group.clone(), m.filesize.clone(), m.size_uint.clone());
    assert_eq!(once, twice);
    assert_eq!(m.row(), "-rw-r--r-- g   bo    5    B  01 02 03:04 n");
}

#[test]
fn from_parts_makes_a_record_that_is_not_yet_annotated() {
    let mut link = entry("/tmp/d/l", "l");
    link.link = OsText::Text("a.txt".to_string());
    let meta = Meta::from_parts(&link, &labels()).unwrap();
    assert!(!meta.annotated);
    assert_eq!(meta.name, "l");
}

#[test]
fn message_names_the_kind_and_the_path() {
    assert_eq!(
        ListError::new(ErrorKind::NameUnreadable, "/").message(),
        "cannot read the file name: /"
    );
    assert_eq!(
        ListError::new(ErrorKind::EncodingError, "a").message(),
        "name is not valid text: a"
    );
    assert_eq!(
        ListError::new(ErrorKind::MetadataUnavailable, "b").message(),
        "cannot read the metadata: b"
    );
    assert_eq!(
        ListError::new(ErrorKind::IdentityUnresolvable, "c").message(),
        "no such user or group: c"
    );
    assert_eq!(
        ListError::new(ErrorKind::DirectoryUnreadable, "d").message(),
        "cannot read the directory: d"
    );
    assert_eq!(
        ListError::new(ErrorKind::TerminalGeometryUnavailable, "").message(),
        "cannot get the terminal size: "
    );
}

use dirlist::batch::plan;
use dirlist::listing::names;
use dirlist::{
    Batch, Core, Entry, ErrorKind, Labels, ListError, Listing, MaxInfo, Meta, Options, OsText,
    ResolvedBatch, Stat, Target,
};

const COMPACT: Options = Options { display_all: false, display_long: false };
const COMPACT_ALL: Options = Options { display_all: true, display_long: false };
const LONG: Options = Options { display_all: false, display_long: true };
const LONG_ALL: Options = Options { display_all: true, display_long: true };

fn file_stat(len: u64) -> Stat {
    Stat {
        is_dir: false,
        mode: 0o100644,
        uid: 0,
        gid: 0,
        len,
        modified_secs: 1_000_000_000,
        modified_nanos: 0,
    }
}

fn dir_stat() -> Stat {
    Stat { is_dir: true, mode: 0o40755, ..file_stat(4096) }
}

fn entry(path: &str, stat: Option<Stat>) -> Entry {
    let name = match path.rsplit('/').next() {
        Some(name) if !name.is_empty() => OsText::Text(name.to_string()),
        _ => OsText::Absent,
    };
    Entry { path: path.to_string(), name, link: OsText::Absent, stat }
}

fn tmp_d() -> Target {
    Target::Directory {
        path: "/tmp/d".to_string(),
        children: Some(vec![
            entry("/tmp/d/sub", Some(dir_stat())),
            entry("/tmp/d/a.txt", Some(file_stat(5))),
            entry("/tmp/d/.hidden", Some(file_stat(3))),
        ]),
    }
}

fn labels(user: &str, group: &str, size: &str) -> Labels {
    Labels {
        user: Some(user.to_string()),
        group: Some(group.to_string()),
        size: Some(size.to_string()),
        time: Some("09 09 01:46".to_string()),
    }
}

fn kind_of(listing: &Listing) -> Option<ErrorKind> {
    listing.error.as_ref().map(|e| e.kind)
}

fn paths_of(batch: &Batch) -> Vec<&str> {
    batch.entries.as_ref().unwrap().iter().map(|e| e.path.as_str()).collect()
}

#[test]
fn new_keeps_the_options() {
    let options = Options { display_all: true, display_long: false };
    let core = Core::new(&options);
    let lines = core.print_short(&vec![entry(".x", None)], Some(10)).unwrap();
    assert_eq!(lines, vec!["  .x".to_string()]);
    let options = Options { display_all: false, display_long: false };
    let core = Core::new(&options);
    assert!(core.print_short(&vec![entry(".x", None)], Some(10)).unwrap().is_empty());
}

#[test]
fn plan_puts_files_first_and_sorts_by_path() {
    let batches = plan(vec![
        Target::Directory { path: "z".to_string(), children: Some(vec![]) },
        Target::File(entry("m", None)),
        Target::Directory {
            path: "b".to_string(),
            children: Some(vec![entry("b/2", None), entry("b/10", None), entry("b/1", None)]),
        },
        Target::File(entry("c", None)),
        Target::Directory { path: "a".to_string(), children: None },
    ]);
    assert_eq!(batches.len(), 4);
    assert_eq!(batches[0].dir, None);
    assert_eq!(paths_of(&batches[0]), vec!["c", "m"]);
    assert_eq!(batches[1].dir, Some("a".to_string()));
    assert!(batches[1].entries.is_none());
    assert_eq!(batches[2].dir, Some("b".to_string()));
    assert_eq!(paths_of(&batches[2]), vec!["b/1", "b/10", "b/2"]);
    assert_eq!(batches[3].dir, Some("z".to_string()));
    assert!(paths_of(&batches[3]).is_empty());
}

#[test]
fn plan_has_no_batch_of_files_without_files() {
    let batches = plan(vec![Target::Directory { path: "d".to_string(), children: Some(vec![]) }]);
    assert_eq!(batches.len(), 1);
    assert_eq!(batches[0].dir, Some("d".to_string()));
    assert!(plan(Vec::new()).is_empty());
}

#[test]
fn names_are_the_final_components() {
    let got = names(&vec![entry("/tmp/d/a.txt", None), entry("sub", None)]).unwrap();
    assert_eq!(got, vec!["a.txt".to_string(), "sub".to_string()]);
}

#[test]
fn names_fail_at_the_first_entry_without_one() {
    let mut bad = entry("/tmp/bad", None);
    bad.name = OsText::Undecodable;
    let error = names(&vec![entry("a", None), bad, entry("/", None)]).unwrap_err();
    assert_eq!(error.kind, ErrorKind::EncodingError);
    assert_eq!(error.path, "/tmp/bad");
    let error = names(&vec![entry("/", None), entry("a", None)]).unwrap_err();
    assert_eq!(error.kind, ErrorKind::NameUnreadable);
    assert_eq!(error.path, "/");
}

#[test]
fn compact_listing_of_a_directory_omits_hidden_entries() {
    let core = Core::new(&COMPACT);
    let listing = core.short_listing(&plan(vec![tmp_d()]), Some(80));
    assert!(listing.error.is_none());
    assert_eq!(listing.lines, vec!["/tmp/d: ".to_string(), "  a.txt  sub  ".to_string()]);
}

#[test]
fn compact_listing_with_all_shows_hidden_entries() {
    let core = Core::new(&COMPACT_ALL);
    let listing = core.short_listing(&plan(vec![tmp_d()]), Some(80));
    assert!(listing.error.is_none());
    assert_eq!(
        listing.lines,
        vec!["/tmp/d: ".to_string(), "  .hidden  a.txt    sub    ".to_string()]
    );
}

#[test]
fn compact_listing_shows_files_before_directories() {
    let core = Core::new(&COMPACT);
    let targets = vec![
        tmp_d(),
        Target::File(entry("b.rs", None)),
        Target::Directory { path: "empty".to_string(), children: Some(vec![]) },
        Target::File(entry("dir/a.rs", None)),
    ];
    let listing = core.short_listing(&plan(targets), Some(80));
    assert!(listing.error.is_none());
    assert_eq!(
        listing.lines,
        vec![
            "  b.rs  a.rs".to_string(),
            "/tmp/d: ".to_string(),
            "  a.txt  sub  ".to_string(),
            "empty: ".to_string(),
        ]
    );
}

#[test]
fn compact_listing_ignores_the_target_of_a_link() {
    let core = Core::new(&COMPACT);
    let mut link = entry("/tmp/d/l", None);
    link.link = OsText::Text("a.txt".to_string());
    let listing = core.short_listing(&plan(vec![Target::File(link)]), Some(80));
    assert_eq!(listing.lines, vec!["  l".to_string()]);
}

#[test]
fn compact_listing_needs_the_width_of_the_terminal() {
    let core = Core::new(&COMPACT);
    let listing = core.short_listing(&plan(vec![tmp_d(), Target::File(entry("f", None))]), None);
    assert_eq!(kind_of(&listing), Some(ErrorKind::TerminalGeometryUnavailable));
    assert!(listing.lines.is_empty());
    let listing = core.short_listing(&plan(vec![tmp_d()]), None);
    assert_eq!(kind_of(&listing), Some(ErrorKind::TerminalGeometryUnavailable));
    assert_eq!(listing.lines, vec!["/tmp/d: ".to_string()]);
    let listing = core.short_listing(&Vec::new(), None);
    assert!(listing.error.is_none());
    assert!(listing.lines.is_empty());
}

#[test]
fn compact_listing_stops_at_an_unreadable_directory() {
    let core = Core::new(&COMPACT);
    let targets = vec![
        Target::Directory { path: "b".to_string(), children: None },
        Target::Directory { path: "a".to_string(), children: Some(vec![entry("a/x", None)]) },
        Target::Directory { path: "c".to_string(), children: Some(vec![entry("c/y", None)]) },
    ];
    let listing = core.short_listing(&plan(targets), Some(80));
    assert_eq!(listing.lines, vec!["a: ".to_string(), "  x".to_string(), "b: ".to_string()]);
    let error = listing.error.unwrap();
    assert_eq!(error.kind, ErrorKind::DirectoryUnreadable);
    assert_eq!(error.path, "b");
}

#[test]
fn compact_listing_stops_at_a_name_that_cannot_be_read() {
    let core = Core::new(&COMPACT);
    let targets = vec![Target::File(entry("a", None)), Target::File(entry("/", None))];
    let listing = core.short_listing(&plan(targets), Some(80));
    assert!(listing.lines.is_empty());
    let error = listing.error.unwrap();
    assert_eq!(error.kind, ErrorKind::NameUnreadable);
    assert_eq!(error.path, "/");
}

#[test]
fn print_short_asks_for_the_width_before_the_names() {
    let core = Core::new(&COMPACT);
    let error = core.print_short(&vec![entry("/", None)], None).unwrap_err();
    assert_eq!(error.kind, ErrorKind::TerminalGeometryUnavailable);
    assert_eq!(error.path, "");
}

#[test]
fn path_to_metas_gathers_records_and_widths() {
    let core = Core::new(&LONG);
    let outcomes = vec![
        Meta::from_parts(&entry("a", Some(file_stat(5))), &labels("root", "wheel", "5 B")),
        Meta::from_parts(&entry("b", Some(file_stat(1500))), &labels("alice", "g", "1.50 KB")),
    ];
    let mut info = MaxInfo::default();
    let metas = core.path_to_metas(outcomes, &mut info).unwrap();
    assert_eq!(metas.len(), 2);
    assert_eq!(metas[0].name, "a");
    assert_eq!(metas[1].name, "b");
    assert_eq!((info.user, info.group, info.filesize, info.sizeuint), (5, 5, 4, 2));
}

#[test]
fn path_to_metas_stops_at_the_first_failure() {
    let core = Core::new(&LONG);
    let outcomes = vec![
        Meta::from_parts(&entry("a", Some(file_stat(5))), &labels("root", "wheel", "5 B")),
        Err(ListError::new(ErrorKind::IdentityUnresolvable, "b")),
        Meta::from_parts(&entry("c", Some(file_stat(5))), &labels("a_long_name", "g", "1.50 KB")),
        Err(ListError::new(ErrorKind::MetadataUnavailable, "d")),
    ];
    let mut info = MaxInfo { user: 1, group: 9, filesize: 0, sizeuint: 0 };
    let error = core.path_to_metas(outcomes, &mut info).unwrap_err();
    assert_eq!(error.kind, ErrorKind::IdentityUnresolvable);
    assert_eq!(error.path, "b");
    assert_eq!((info.user, info.group, info.filesize, info.sizeuint), (4, 9, 1, 1));
}

#[test]
fn print_long_aligns_the_columns_of_a_batch() {
    let core = Core::new(&LONG);
    let mut metas = vec![
        Meta::from_parts(&entry("a", Some(file_stat(5))), &labels("root", "wheel", "5 B")).unwrap(),
        Meta::from_parts(&entry("sub", Some(dir_stat())), &labels("alice", "g", "4.10 KB"))
            .unwrap(),
    ];
    let info = MaxInfo { user: 5, group: 5, filesize: 4, sizeuint: 2 };
    let lines = core.print_long(&mut metas, &info);
    assert_eq!(
        lines,
        vec![
            "-rw-r--r-- wheel root  5    B  09 09 01:46 a".to_string(),
            "drwxr-xr-x g     alice 4.10 KB 09 09 01:46 sub".to_string(),
        ]
    );
    assert_eq!(metas[0].user, "root ");
    assert_eq!(metas[1].group, "g    ");
}

fn resolved_tmp_d() -> ResolvedBatch {
    let mut link = entry("/tmp/d/l", Some(Stat { mode: 0o120777, ..file_stat(5) }));
    link.link = OsText::Text("a.txt".to_string());
    ResolvedBatch {
        dir: Some("/tmp/d".to_string()),
        outcomes: Some(vec![
            Meta::from_parts(
                &entry("/tmp/d/.hidden", Some(file_stat(3))),
                &labels("root", "root", "3 B"),
            ),
            Meta::from_parts(
                &entry("/tmp/d/a.txt", Some(file_stat(5))),
                &labels("root", "staff", "5 B"),
            ),
            Meta::from_parts(&link, &labels("root", "root", "5 B")),
            Meta::from_parts(
                &entry("/tmp/d/sub", Some(dir_stat())),
                &labels("alice", "root", "4.10 KB"),
            ),
        ]),
    }
}

#[test]
fn long_listing_has_one_aligned_line_for_each_entry() {
    let core = Core::new(&LONG_ALL);
    let listing = core.long_listing(vec![resolved_tmp_d()]);
    assert!(listing.error.is_none());
    assert_eq!(
        listing.lines,
        vec![
            "/tmp/d: ".to_string(),
            "-rw-r--r-- root  root  3    B  09 09 01:46 .hidden".to_string(),
            "-rw-r--r-- staff root  5    B  09 09 01:46 a.txt".to_string(),
            "lrwxrwxrwx root  root  5    B  09 09 01:46 l => a.txt".to_string(),
            "drwxr-xr-x root  alice 4.10 KB 09 09 01:46 sub".to_string(),
        ]
    );
}

#[test]
fn long_listing_lists_hidden_entries_with_or_without_all() {
    let with = Core::new(&LONG_ALL).long_listing(vec![resolved_tmp_d()]);
    let without = Core::new(&LONG).long_listing(vec![resolved_tmp_d()]);
    assert_eq!(with.lines, without.lines);
}

#[test]
fn long_listing_measures_every_batch_by_itself() {
    let core = Core::new(&LONG);
    let file = ResolvedBatch {
        dir: None,
        outcomes: Some(vec![Meta::from_parts(
            &entry("f", Some(file_stat(1))),
            &labels("u", "g", "1 B"),
        )]),
    };
    let listing = core.long_listing(vec![file, resolved_tmp_d()]);
    assert!(listing.error.is_none());
    assert_eq!(listing.lines.len(), 6);
    assert_eq!(listing.lines[0], "-rw-r--r-- g u 1 B 09 09 01:46 f");
    assert_eq!(listing.lines[1], "/tmp/d: ");
    assert_eq!(listing.lines[5], "drwxr-xr-x root  alice 4.10 KB 09 09 01:46 sub");
}

#[test]
fn long_listing_stops_at_the_first_failure() {
    let core = Core::new(&LONG);
    let good = || ResolvedBatch {
        dir: Some("a".to_string()),
        outcomes: Some(vec![Meta::from_parts(
            &entry("a/f", Some(file_stat(1))),
            &labels("u", "g", "1 B"),
        )]),
    };
    let bad = ResolvedBatch {
        dir: Some("b".to_string()),
        outcomes: Some(vec![
            Meta::from_parts(&entry("b/f", Some(file_stat(1))), &labels("u", "g", "1 B")),
            Meta::from_parts(&entry("b/gone", None), &labels("u", "g", "1 B")),
        ]),
    };
    let mut last = good();
    last.dir = Some("c".to_string());
    let listing = core.long_listing(vec![good(), bad, last]);
    assert_eq!(
        listing.lines,
        vec!["a: ".to_string(), "-rw-r--r-- g u 1 B 09 09 01:46 f".to_string(), "b: ".to_string()]
    );
    let error = listing.error.unwrap();
    assert_eq!(error.kind, ErrorKind::MetadataUnavailable);
    assert_eq!(error.path, "b/gone");
}

#[test]
fn long_listing_stops_at_an_unreadable_directory() {
    let core = Core::new(&LONG);
    let listing = core.long_listing(vec![ResolvedBatch { dir: Some("d".to_string()), outcomes: None }]);
    assert_eq!(listing.lines, vec!["d: ".to_string()]);
    let error = listing.error.unwrap();
    assert_eq!(error.kind, ErrorKind::DirectoryUnreadable);
    assert_eq!(error.path, "d");
}

#[test]
fn long_batch_of_no_entries_has_no_lines() {
    let core = Core::new(&LONG);
    let lines = core.long_batch(ResolvedBatch { dir: None, outcomes: Some(Vec::new()) }).unwrap();
    assert!(lines.is_empty());
}

#[test]
fn resolve_keeps_batches_and_entries_in_place() {
    let core = Core::new(&LONG);
    let batches = plan(vec![
        tmp_d(),
        Target::File(entry("f", Some(file_stat(1)))),
        Target::Directory { path: "empty".to_string(), children: Some(vec![]) },
    ]);
    let resolved = core.resolve(&batches);
    assert_eq!(resolved.len(), 3);
    assert_eq!(resolved[0].dir, None);
    let files = resolved[0].outcomes.as_ref().unwrap();
    assert_eq!(files.len(), 1);
    assert_eq!(files[0].as_ref().unwrap().name, "f");
    assert_eq!(resolved[1].dir, Some("/tmp/d".to_string()));
    let children = resolved[1].outcomes.as_ref().unwrap();
    assert_eq!(children.len(), 3);
    assert_eq!(children[0].as_ref().unwrap().name, ".hidden");
    assert_eq!(children[1].as_ref().unwrap().name, "a.txt");
    assert_eq!(children[2].as_ref().unwrap().name, "sub");
    assert_eq!(resolved[2].dir, Some("empty".to_string()));
    assert!(resolved[2].outcomes.as_ref().unwrap().is_empty());
}

#[test]
fn resolve_stops_at_the_first_entry_that_fails() {
    let core = Core::new(&LONG);
    let entries = vec![
        entry("a", Some(file_stat(1))),
        entry("b", None),
        entry("c", Some(file_stat(1))),
        entry("d", None),
    ];
    let outcomes = core.resolve_entries(&entries);
    assert_eq!(outcomes.len(), 2);
    assert_eq!(outcomes[0].as_ref().unwrap().name, "a");
    let error = outcomes[1].as_ref().unwrap_err();
    assert_eq!(error.kind, ErrorKind::MetadataUnavailable);
    assert_eq!(error.path, "b");
    assert!(core.resolve_entries(&Vec::new()).is_empty());
}

#[test]
fn resolve_stops_at_the_first_batch_that_fails() {
    let core = Core::new(&LONG);
    let batches = plan(vec![
        Target::Directory {
            path: "b".to_string(),
            children: Some(vec![entry("b/gone", None), entry("b/z", Some(file_stat(1)))]),
        },
        Target::Directory { path: "a".to_string(), children: Some(vec![entry("a/f", Some(file_stat(1)))]) },
        Target::Directory { path: "c".to_string(), children: Some(vec![entry("c/f", Some(file_stat(1)))]) },
    ]);
    let resolved = core.resolve(&batches);
    assert_eq!(resolved.len(), 2);
    assert_eq!(resolved[0].dir, Some("a".to_string()));
    assert_eq!(resolved[1].dir, Some("b".to_string()));
    assert_eq!(resolved[1].outcomes.as_ref().unwrap().len(), 1);
    let listing = core.long_listing(resolved);
    assert_eq!(listing.lines.len(), 3);
    assert_eq!(listing.lines[0], "a: ");
    assert_eq!(listing.lines[2], "b: ");
    let error = listing.error.unwrap();
    assert_eq!(error.kind, ErrorKind::MetadataUnavailable);
    assert_eq!(error.path, "b/gone");
}

#[test]
fn resolve_stops_at_a_directory_that_could_not_be_read() {
    let core = Core::new(&LONG);
    let batches = plan(vec![
        Target::File(entry("f", Some(file_stat(1)))),
        Target::Directory { path: "locked".to_string(), children: None },
        Target::Directory { path: "z".to_string(), children: Some(vec![]) },
    ]);
    let resolved = core.resolve(&batches);
    assert_eq!(resolved.len(), 2);
    assert_eq!(resolved[1].dir, Some("locked".to_string()));
    assert!(resolved[1].outcomes.is_none());
}

#[test]
fn print_long_twice_shows_the_same_lines() {
    let core = Core::new(&LONG);
    let mut link = entry("/tmp/d/l", Some(Stat { mode: 0o120777, ..file_stat(5) }));
    link.link = OsText::Text("a.txt".to_string());
    let mut metas = vec![
        Meta::from_parts(&link, &labels("root", "wheel", "5 B")).unwrap(),
        Meta::from_parts(&entry("sub", Some(dir_stat())), &labels("alice", "g", "4.10 KB"))
            .unwrap(),
    ];
    let info = MaxInfo { user: 5, group: 5, filesize: 4, sizeuint: 2 };
    let once = core.print_long(&mut metas, &info);
    let twice = core.print_long(&mut metas, &info);
    assert_eq!(once, twice);
    assert_eq!(once[0], "lrwxrwxrwx wheel root  5    B  09 09 01:46 l => a.txt");
}

#[test]
fn run_lists_a_directory_in_the_long_view() {
    let core = Core::new(&LONG_ALL);
    let listing = core.run(vec![tmp_d()]);
    assert!(listing.error.is_none());
    assert_eq!(listing.lines.len(), 4);
    assert_eq!(listing.lines[0], "/tmp/d: ");
    let machine = Labels::of(&entry("x", Some(file_stat(5))));
    let owner = format!("{} {}", machine.group.unwrap(), machine.user.unwrap());
    let time = machine.time.unwrap();
    assert_eq!(listing.lines[1], format!("-rw-r--r-- {} 3    B  {} .hidden", owner, time));
    assert_eq!(listing.lines[2], format!("-rw-r--r-- {} 5    B  {} a.txt", owner, time));
    assert_eq!(listing.lines[3], format!("drwxr-xr-x {} 4.10 KB {} sub", owner, time));
}

#[test]
fn run_shows_a_link_with_its_target_in_the_long_view() {
    let core = Core::new(&LONG);
    let mut link = entry("/tmp/d/l", Some(Stat { mode: 0o120777, ..file_stat(5) }));
    link.link = OsText::Text("a.txt".to_string());
    let listing = core.run(vec![Target::File(link)]);
    assert!(listing.error.is_none());
    assert_eq!(listing.lines.len(), 1);
    assert!(listing.lines[0].starts_with("lrwxrwxrwx "));
    assert!(listing.lines[0].ends_with(" l => a.txt"));
    assert!(listing.lines[0].contains(" 5 B "));
}

#[test]
fn run_is_the_same_on_every_run() {
    let core = Core::new(&LONG_ALL);
    let first = core.run(vec![tmp_d(), Target::File(entry("f", Some(file_stat(1))))]);
    let second = core.run(vec![Target::File(entry("f", Some(file_stat(1)))), tmp_d()]);
    assert!(first.error.is_none());
    assert_eq!(first.lines, second.lines);
}

#[test]
fn run_stops_at_an_entry_without_metadata_in_the_long_view() {
    let core = Core::new(&LONG);
    let listing = core.run(vec![tmp_d(), Target::File(entry("gone", None))]);
    assert!(listing.lines.is_empty());
    let error = listing.error.unwrap();
    assert_eq!(error.kind, ErrorKind::MetadataUnavailable);
    assert_eq!(error.path, "gone");
}

#[test]
fn run_in_the_compact_view_depends_on_the_terminal() {
    let core = Core::new(&COMPACT);
    let listing = core.run(vec![tmp_d()]);
    assert_eq!(listing.lines[0], "/tmp/d: ");
    match kind_of(&listing) {
        Some(kind) => {
            assert_eq!(kind, ErrorKind::TerminalGeometryUnavailable);
            assert_eq!(listing.lines.len(), 1);
        },
        None => {
            let shown: String = listing.lines[1..].concat();
            assert!(shown.contains("  a.txt"));
            assert!(shown.contains("  sub"));
            assert!(!shown.contains(".hidden"));
        },
    }
}

#[test]
fn run_of_nothing_is_nothing() {
    for options in [COMPACT, COMPACT_ALL, LONG, LONG_ALL] {
        let listing = Core::new(&options).run(Vec::new());
        assert!(listing.lines.is_empty());
        assert!(listing.error.is_none());
    }
}

use pytokei::ignore::{IoFailure, RulesResource};
use pytokei::pylanguage::{FlatReport, PyLanguage, Summary};
use pytokei::pylanguage_type::PyLanguageType;
use pytokei::pylanguages::{NotFoundError, PyLanguages};
use pytokei::report::Report;

fn tag(name: &str) -> PyLanguageType {
    PyLanguageType::new(name.to_string())
}

fn report(path: &str, code: usize, comments: usize, blanks: usize) -> Report {
    Report::new(path.to_string(), code, comments, blanks).unwrap()
}

fn file(
    language: &str,
    path: &str,
    code: usize,
    comments: usize,
    blanks: usize,
) -> Option<(PyLanguageType, Report)> {
    Some((tag(language), report(path, code, comments, blanks)))
}

fn sample() -> PyLanguages {
    let mut store = PyLanguages::new();
    store.absorb(vec![
        file("Rust", "src/lib.rs", 10, 2, 3),
        file("Python", "tool.py", 7, 1, 1),
        None,
        file("Rust", "src/main.rs", 5, 0, 1),
        file("TOML", "Cargo.toml", 4, 0, 0),
        file("Rust", "build.rs", 1, 1, 1),
    ]);
    store
}

fn flat(path: &str, code: usize, comments: usize, blanks: usize) -> FlatReport {
    FlatReport { path: path.to_string(), code, comments, blanks, lines: code + comments + blanks }
}

#[test]
fn scan_of_one_file_end_to_end() {
    let lines = [
        "// first comment",
        "fn main() {",
        "    let a = 1;",
        "",
        "    let b = 2;",
        "    // second comment",
        "    println!(\"{}\", a + b);",
        "",
        "    let _c = a;",
        "}",
    ];
    assert_eq!(lines.len(), 10);
    let text = lines.join("\n") + "\n";
    let language = tokei::LanguageType::Rust;
    let stats = language.parse_from_str(&text, &tokei::Config::default());
    assert_eq!((stats.code, stats.comments, stats.blanks), (6, 2, 2));
    let measured =
        Report::new("src/main.rs".to_string(), stats.code, stats.comments, stats.blanks).unwrap();
    let found = vec![Some((PyLanguageType::new(language.name().to_string()), measured))];

    let mut store = PyLanguages::new();
    assert!(store.has_room_for(&found));
    let outcome = store.get_statistics(
        vec!["target".to_string()],
        RulesResource::Missing,
        found,
    );
    assert_eq!(outcome, Ok(()));
    assert_eq!(
        store.total_plain(),
        Summary { files: 1, lines: 10, code: 6, comments: 2, blanks: 2 }
    );
    assert_eq!(store.language_names(), vec!["Rust".to_string()]);
    assert_eq!(store.files(), vec![("Rust".to_string(), 1)]);
}

#[test]
fn new_store_is_empty() {
    let store = PyLanguages::new();
    assert_eq!(store.language_names(), Vec::<String>::new());
    assert_eq!(store.files(), Vec::<(String, usize)>::new());
    assert_eq!(store.get_languages().len(), 0);
    assert_eq!(store.get_languages_plain().len(), 0);
    assert_eq!(store.report_compact_plain().len(), 0);
    assert_eq!(
        store.total_plain(),
        Summary { files: 0, lines: 0, code: 0, comments: 0, blanks: 0 }
    );
    let total = store.total();
    assert_eq!(total.files(), 0);
    assert_eq!(total.lines(), 0);
}

#[test]
fn entries_follow_the_order_of_names() {
    let store = sample();
    assert_eq!(
        store.language_names(),
        vec!["Python".to_string(), "Rust".to_string(), "TOML".to_string()]
    );
    assert_eq!(
        store.files(),
        vec![("Python".to_string(), 1), ("Rust".to_string(), 3), ("TOML".to_string(), 1)]
    );
}

#[test]
fn names_are_ordered_by_code_point() {
    let mut store = PyLanguages::new();
    store.absorb(vec![
        file("Zig", "a.zig", 1, 0, 0),
        file("C++", "a.cpp", 1, 0, 0),
        file("c", "a.c2", 1, 0, 0),
        file("C", "a.c", 1, 0, 0),
        file("", "nameless", 1, 0, 0),
        file("C#", "a.cs", 1, 0, 0),
        file("\u{c9}l", "a.el", 1, 0, 0),
        file("Ada", "a.adb", 1, 0, 0),
        file("C", "b.c", 1, 0, 0),
        file("\u{1f600}", "a.smile", 1, 0, 0),
        file("\u{ff21}", "a.wide", 1, 0, 0),
    ]);
    let names = store.language_names();
    assert_eq!(
        names,
        vec!["", "Ada", "C", "C#", "C++", "Zig", "c", "\u{c9}l", "\u{ff21}", "\u{1f600}"]
    );
    let mut sorted = names.clone();
    sorted.sort();
    assert_eq!(names, sorted);
    assert_eq!(store.lookup(&tag("C")).unwrap().files(), 2);
    assert_eq!(store.lookup(&tag("")).unwrap().files(), 1);
    assert_eq!(store.lookup(&tag("\u{1f600}")).unwrap().files(), 1);
    assert!(store.lookup(&tag("B")).is_err());
    assert!(store.lookup(&tag("C+")).is_err());
    assert!(store.lookup(&tag("Zig ")).is_err());
}

#[test]
fn tags_compare_as_their_names() {
    let names = ["", "A", "AB", "Ab", "B", "a", "\u{e9}", "\u{ffff}", "\u{10000}"];
    for left in names {
        for right in names {
            assert_eq!(tag(left).comes_before(&tag(right)), left < right, "{left:?} {right:?}");
            assert_eq!(tag(left).same_as(&tag(right)), left == right);
            assert_eq!(tag(left) < tag(right), left < right);
        }
    }
}

#[test]
fn language_names_are_a_set() {
    let mut names = sample().language_names();
    names.sort();
    let before = names.len();
    names.dedup();
    assert_eq!(names.len(), before);
    assert_eq!(names, vec!["Python".to_string(), "Rust".to_string(), "TOML".to_string()]);
}

#[test]
fn lookup_gives_the_language_aggregate() {
    let store = sample();
    let rust = store.lookup(&tag("Rust")).unwrap();
    assert_eq!(rust.files(), 3);
    assert_eq!(rust.code(), 16);
    assert_eq!(rust.comments(), 3);
    assert_eq!(rust.blanks(), 5);
    assert_eq!(rust.lines(), 24);
    let paths: Vec<&str> = rust.children().iter().map(|r| r.path().as_str()).collect();
    assert_eq!(paths, vec!["src/lib.rs", "src/main.rs", "build.rs"]);
    assert_eq!(rust.children()[1], report("src/main.rs", 5, 0, 1));
}

#[test]
fn lookup_of_absent_language_is_not_found() {
    let store = sample();
    assert_eq!(
        store.lookup(&tag("Haskell")),
        Err(NotFoundError { language: "Haskell".to_string() })
    );
    assert_eq!(
        store.lookup(&tag("rust")),
        Err(NotFoundError { language: "rust".to_string() })
    );
    assert!(PyLanguages::new().lookup(&tag("Rust")).is_err());
}

#[test]
fn found_languages_always_have_files() {
    let store = sample();
    for name in store.language_names() {
        let language = store.lookup(&PyLanguageType::new(name)).unwrap();
        assert!(language.files() >= 1);
    }
}

#[test]
fn not_found_message_names_the_language() {
    let error = NotFoundError { language: "Haskell".to_string() };
    assert_eq!(error.message(), "LanguageType not found: Haskell");
}

#[test]
fn unclassified_paths_change_nothing() {
    let mut store = sample();
    let before = store.get_languages();
    store.absorb(vec![None, None]);
    assert_eq!(store.get_languages(), before);
    let mut empty = PyLanguages::new();
    empty.absorb(vec![None]);
    assert_eq!(empty, PyLanguages::new());
}

#[test]
fn total_gathers_all_children() {
    let store = sample();
    let total = store.total();
    assert_eq!(total.files(), 5);
    assert_eq!(total.code(), 27);
    assert_eq!(total.comments(), 4);
    assert_eq!(total.blanks(), 6);
    assert_eq!(total.lines(), 37);
    let paths: Vec<&str> = total.children().iter().map(|r| r.path().as_str()).collect();
    assert_eq!(paths, vec!["tool.py", "src/lib.rs", "src/main.rs", "build.rs", "Cargo.toml"]);
    assert_eq!(store.language_names().len(), 3);
}

#[test]
fn total_plain_flattens_total() {
    let store = sample();
    let total = store.total();
    assert_eq!(
        store.total_plain(),
        Summary { files: 5, lines: 37, code: 27, comments: 4, blanks: 6 }
    );
    assert_eq!(store.total_plain(), total.summarise());
}

#[test]
fn compact_view_has_one_row_per_language() {
    let store = sample();
    assert_eq!(
        store.report_compact_plain(),
        vec![
            ("Python".to_string(), Summary { files: 1, lines: 9, code: 7, comments: 1, blanks: 1 }),
            ("Rust".to_string(), Summary { files: 3, lines: 24, code: 16, comments: 3, blanks: 5 }),
            ("TOML".to_string(), Summary { files: 1, lines: 4, code: 4, comments: 0, blanks: 0 }),
        ]
    );
}

#[test]
fn plain_view_lists_every_file() {
    let store = sample();
    assert_eq!(
        store.get_languages_plain(),
        vec![
            ("Python".to_string(), vec![flat("tool.py", 7, 1, 1)]),
            (
                "Rust".to_string(),
                vec![
                    flat("src/lib.rs", 10, 2, 3),
                    flat("src/main.rs", 5, 0, 1),
                    flat("build.rs", 1, 1, 1),
                ]
            ),
            ("TOML".to_string(), vec![flat("Cargo.toml", 4, 0, 0)]),
        ]
    );
}

#[test]
fn structured_view_agrees_with_lookup() {
    let store = sample();
    let entries = store.get_languages();
    assert_eq!(entries.len(), 3);
    for (language, aggregate) in &entries {
        assert_eq!(&store.lookup(language).unwrap(), aggregate);
    }
    assert_eq!(entries[0].0, tag("Python"));
    assert_eq!(entries[0].1.children(), &vec![report("tool.py", 7, 1, 1)]);
    assert_eq!(entries[1].0, tag("Rust"));
    assert_eq!(entries[2].0, tag("TOML"));
}

#[test]
fn compact_columns_add_up_to_total() {
    let store = sample();
    let compact = store.report_compact_plain();
    let total = store.total_plain();
    assert_eq!(compact.iter().map(|row| row.1.code).sum::<usize>(), total.code);
    assert_eq!(compact.iter().map(|row| row.1.comments).sum::<usize>(), total.comments);
    assert_eq!(compact.iter().map(|row| row.1.blanks).sum::<usize>(), total.blanks);
    assert_eq!(compact.iter().map(|row| row.1.lines).sum::<usize>(), total.lines);
    assert_eq!(compact.iter().map(|row| row.1.files).sum::<usize>(), total.files);
    assert_eq!(total.code, 27);
}

#[test]
fn lines_are_code_comments_and_blanks() {
    let store = sample();
    for (_, records) in store.get_languages_plain() {
        for record in records {
            assert_eq!(record.code + record.comments + record.blanks, record.lines);
        }
    }
    for (_, row) in store.report_compact_plain() {
        assert_eq!(row.code + row.comments + row.blanks, row.lines);
    }
    for (_, language) in store.get_languages() {
        assert_eq!(language.code() + language.comments() + language.blanks(), language.lines());
        let by_file: usize = language.children().iter().map(|r| r.lines()).sum();
        assert_eq!(by_file, language.lines());
    }
    let one = report("a.rs", 6, 2, 2);
    assert_eq!(one.lines(), 10);
    let total = store.total_plain();
    assert_eq!(total.code + total.comments + total.blanks, total.lines);
}

#[test]
fn file_counts_match_plain_view_lengths() {
    let store = sample();
    let plain = store.get_languages_plain();
    for (name, count) in store.files() {
        let records = plain.iter().find(|row| row.0 == name).unwrap();
        assert_eq!(count, records.1.len());
    }
    assert_eq!(store.files().len(), plain.len());
}

#[test]
fn projections_are_idempotent() {
    let store = sample();
    assert_eq!(store.total(), store.total());
    assert_eq!(store.total_plain(), store.total_plain());
    assert_eq!(store.language_names(), store.language_names());
    assert_eq!(store.lookup(&tag("Rust")), store.lookup(&tag("Rust")));
    assert_eq!(store.lookup(&tag("Go")), store.lookup(&tag("Go")));
    assert_eq!(store.get_languages(), store.get_languages());
    assert_eq!(store.files(), store.files());
    assert_eq!(store.get_languages_plain(), store.get_languages_plain());
    assert_eq!(store.report_compact_plain(), store.report_compact_plain());
    assert_eq!(store, sample());
}

#[test]
fn unreadable_rules_leave_the_store_as_it_was() {
    let mut store = sample();
    let outcome = store.get_statistics(
        vec!["build/".to_string(), "all".to_string()],
        RulesResource::CannotOpen("permission denied".to_string()),
        vec![file("Go", "main.go", 3, 0, 0)],
    );
    assert_eq!(outcome, Err(IoFailure::Open("permission denied".to_string())));
    assert_eq!(store, sample());
    assert!(store.lookup(&tag("Go")).is_err());

    let mut empty = PyLanguages::new();
    let outcome = empty.get_statistics(
        vec!["all".to_string()],
        RulesResource::Content(vec![0xc3, 0x28]),
        vec![file("Go", "main.go", 3, 0, 0)],
    );
    assert_eq!(outcome, Err(IoFailure::Decode));
    assert_eq!(empty, PyLanguages::new());
}

#[test]
fn readable_rules_let_the_scan_in() {
    let mut store = PyLanguages::new();
    let outcome = store.get_statistics(
        vec!["all".to_string()],
        RulesResource::Content(b"*.min.js\n".to_vec()),
        vec![file("Go", "main.go", 3, 1, 0), None],
    );
    assert_eq!(outcome, Ok(()));
    assert_eq!(store.files(), vec![("Go".to_string(), 1)]);
}

#[test]
fn repeated_scans_accumulate() {
    let mut store = PyLanguages::new();
    let scan = || vec![file("Go", "main.go", 3, 1, 0), file("C", "a.c", 1, 0, 0)];
    assert_eq!(store.get_statistics(Vec::new(), RulesResource::Missing, scan()), Ok(()));
    assert_eq!(store.get_statistics(Vec::new(), RulesResource::Missing, scan()), Ok(()));
    assert_eq!(store.files(), vec![("C".to_string(), 2), ("Go".to_string(), 2)]);
    assert_eq!(
        store.total_plain(),
        Summary { files: 4, lines: 10, code: 8, comments: 2, blanks: 0 }
    );
}

#[test]
fn order_of_findings_does_not_change_sums() {
    let mut forward = PyLanguages::new();
    forward.absorb(vec![
        file("Go", "a.go", 3, 1, 0),
        file("C", "a.c", 1, 0, 2),
        file("Go", "b.go", 5, 5, 5),
    ]);
    let mut backward = PyLanguages::new();
    backward.absorb(vec![
        file("Go", "b.go", 5, 5, 5),
        file("C", "a.c", 1, 0, 2),
        file("Go", "a.go", 3, 1, 0),
    ]);
    assert_eq!(forward.total_plain(), backward.total_plain());
    assert_eq!(forward.language_names(), backward.language_names());
    assert_eq!(forward.files(), backward.files());
    assert_eq!(forward.report_compact_plain(), backward.report_compact_plain());
    assert_eq!(
        forward.lookup(&tag("Go")).unwrap().summarise(),
        backward.lookup(&tag("Go")).unwrap().summarise()
    );
    assert_eq!(forward.lookup(&tag("Go")).unwrap().summarise().lines, 19);
}

#[test]
fn report_needs_a_line_count_that_fits() {
    assert!(Report::new("big".to_string(), usize::MAX, 1, 0).is_none());
    assert!(Report::new("big".to_string(), usize::MAX - 1, 0, 2).is_none());
    assert!(Report::new("big".to_string(), 1, usize::MAX - 1, 1).is_none());
    let edge = Report::new("edge".to_string(), usize::MAX - 2, 1, 1).unwrap();
    assert_eq!(edge.lines(), usize::MAX);
    assert_eq!(edge.code(), usize::MAX - 2);
    assert_eq!(edge.comments(), 1);
    assert_eq!(edge.blanks(), 1);
    assert_eq!(edge.path(), "edge");
}

#[test]
fn store_checks_room_before_a_scan() {
    let mut store = PyLanguages::new();
    let large = || vec![file("C", "a.c", usize::MAX - 5, 2, 1)];
    assert!(store.has_room_for(&large()));
    store.absorb(large());
    assert!(store.has_room_for(&vec![file("C", "b.c", 1, 1, 0), None]));
    assert!(!store.has_room_for(&vec![file("Go", "b.go", 1, 1, 1)]));
    assert!(!store.has_room_for(&vec![file("C", "b.c", 1, 0, 0), file("C", "c.c", 1, 1, 0)]));
    assert!(store.has_room_for(&Vec::new()));
}

#[test]
fn aggregate_grows_by_appending() {
    let mut language = PyLanguage::new();
    assert_eq!(language.files(), 0);
    let first = report("a.rs", 1, 2, 3);
    assert!(language.has_room_for(&first));
    language.add_report(first);
    language.add_report(report("b.rs", 10, 0, 0));
    assert_eq!(
        language.summarise(),
        Summary { files: 2, lines: 16, code: 11, comments: 2, blanks: 3 }
    );
    assert_eq!(language.reports_plain(), vec![flat("a.rs", 1, 2, 3), flat("b.rs", 10, 0, 0)]);
    assert!(!language.has_room_for(&report("c.rs", usize::MAX - 15, 0, 0)));
    assert!(language.has_room_for(&report("c.rs", usize::MAX - 16, 0, 0)));
    assert_eq!(language.clone(), language);
}

#[test]
fn tags_are_equal_by_name() {
    assert!(tag("Rust").same_as(&tag("Rust")));
    assert!(!tag("Rust").same_as(&tag("rust")));
    assert_eq!(tag("C++").name(), "C++");
    assert_eq!(tag("C++").clone(), tag("C++"));
}

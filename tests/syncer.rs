use ee_tools::staging::fresh_staging_name;
use ee_tools::staging::staging_name;
use ee_tools::syncer::check_label;
use ee_tools::syncer::extract;
use ee_tools::syncer::extract_all;
use ee_tools::syncer::get_label_position;
use ee_tools::syncer::splice;
use ee_tools::syncer::sync_files;
use ee_tools::syncer::DestinationOutcome;
use ee_tools::syncer::FromFileType;
use ee_tools::syncer::LineRole;
use ee_tools::syncer::SyncError;
use ee_tools::syncer::Syncer;
use ee_tools::text::split_on_spaces;
use ee_tools::text::trim_trailing;

const LABEL: &str = "/* header-sync */";

fn lines(v: &[&str]) -> Vec<String> {
    v.iter().map(|s| s.to_string()).collect()
}

fn source_file() -> Vec<String> {
    lines(&[
        "int x;",
        "/* header-sync start */",
        "foo  ",
        "bar\t",
        "/* header-sync end */",
        "int y;",
    ])
}

fn destination_file() -> Vec<String> {
    lines(&[
        "pre",
        "/* header-sync autogen start */",
        "old",
        "/* header-sync autogen end */",
        "post",
    ])
}

#[test]
fn check_update_status_scenario() {
    let staged = extract(&source_file(), LABEL);
    assert_eq!(staged, lines(&["foo", "bar"]));
    let out = splice(&destination_file(), LABEL, &staged).unwrap();
    assert_eq!(
        out,
        lines(&[
            "pre",
            "/* header-sync autogen start */",
            "foo",
            "bar",
            "/* header-sync autogen end */",
            "post",
        ])
    );
}

#[test]
fn test_check_update_status() {
    let from = vec!["examples/test1.h"];
    let to = vec!["examples/api.h"];
    let syncer = Syncer::new(from, to, "/* header-sync */");
    assert_eq!(syncer.from_files(), &lines(&["examples/test1.h"]));
    assert_eq!(syncer.to_files(), &lines(&["examples/api.h"]));
    let r = syncer
        .sync(&vec![Some(source_file())], &vec![Some(destination_file())])
        .unwrap();
    assert_eq!(r.len(), 1);
    match &r[0] {
        DestinationOutcome::Updated(v) => {
            assert_eq!(v[2], "foo");
            assert_eq!(v[3], "bar");
            assert_eq!(v.len(), 6);
        }
        other => panic!("unexpected outcome {:?}", other),
    }
}

#[test]
fn marker_roles() {
    assert_eq!(check_label("/* header-sync start */", LABEL, "start", "end"), LineRole::Start);
    assert_eq!(check_label("/* header-sync end */", LABEL, "start", "end"), LineRole::End);
    assert_eq!(check_label("/* header-sync */ end", LABEL, "start", "end"), LineRole::End);
    assert_eq!(check_label("/* header-sync middle */", LABEL, "start", "end"), LineRole::Neither);
    assert_eq!(check_label("/* other start */", LABEL, "start", "end"), LineRole::Neither);
    // one token too many
    assert_eq!(check_label("L1 /* header-sync */ start", LABEL, "start", "end"), LineRole::Neither);
    // order is not checked
    assert_eq!(check_label("start */ header-sync /*", LABEL, "start", "end"), LineRole::Start);
    assert_eq!(
        check_label("/* header-sync autogen start */", LABEL, "autogen start", "autogen end"),
        LineRole::Start
    );
    assert_eq!(
        check_label("/* header-sync autogen end */", LABEL, "autogen start", "autogen end"),
        LineRole::End
    );
}

#[test]
fn region_positions() {
    let f = source_file();
    assert_eq!(get_label_position(&f, LABEL, "start", "end"), Some((1, 4)));
    // an end before any start is ignored, and the first start is kept
    let g = lines(&[
        "/* header-sync end */",
        "/* header-sync start */",
        "a",
        "/* header-sync start */",
        "b",
        "/* header-sync end */",
    ]);
    assert_eq!(get_label_position(&g, LABEL, "start", "end"), Some((1, 5)));
    let h = lines(&["/* header-sync start */", "a"]);
    assert_eq!(get_label_position(&h, LABEL, "start", "end"), None);
    assert_eq!(get_label_position(&Vec::new(), LABEL, "start", "end"), None);
    // trailing whitespace on a marker line is ignored
    let k = lines(&["/* header-sync start */  ", "x", "/* header-sync end */\r"]);
    assert_eq!(get_label_position(&k, LABEL, "start", "end"), Some((0, 2)));
}

#[test]
fn extract_lines_between_markers() {
    assert_eq!(extract(&source_file(), LABEL), lines(&["foo", "bar"]));
    let empty_region = lines(&["/* header-sync start */", "/* header-sync end */"]);
    assert_eq!(extract(&empty_region, LABEL), Vec::<String>::new());
    let no_region = lines(&["foo", "bar"]);
    assert_eq!(extract(&no_region, LABEL), Vec::<String>::new());
}

#[test]
fn extract_keeps_source_order() {
    let a = source_file();
    let b = lines(&["/* header-sync start */", "baz", "/* header-sync end */"]);
    let ab = extract_all(&vec![a.clone(), b.clone()], LABEL);
    let ba = extract_all(&vec![b.clone(), a.clone()], LABEL);
    assert_eq!(ab, lines(&["foo", "bar", "baz"]));
    assert_eq!(ba, lines(&["baz", "foo", "bar"]));
    assert_eq!(extract_all(&Vec::new(), LABEL), Vec::<String>::new());
}

#[test]
fn splice_twice_is_splice_once() {
    let staged = lines(&["foo", "bar"]);
    let once = splice(&destination_file(), LABEL, &staged).unwrap();
    let twice = splice(&once, LABEL, &staged).unwrap();
    assert_eq!(once, twice);
}

#[test]
fn splice_keeps_outside_lines() {
    let dest = lines(&[
        "a  ",
        "b",
        "/* header-sync autogen start */",
        "x",
        "y",
        "/* header-sync autogen end */",
        "c\t",
    ]);
    let out = splice(&dest, LABEL, &lines(&["n"])).unwrap();
    assert_eq!(
        out,
        lines(&[
            "a",
            "b",
            "/* header-sync autogen start */",
            "n",
            "/* header-sync autogen end */",
            "c",
        ])
    );
}

#[test]
fn splice_without_region_is_refused() {
    let plain = lines(&["pre", "post"]);
    assert_eq!(splice(&plain, LABEL, &lines(&["foo"])), None);
    let malformed = lines(&["pre", "/* header-sync autogen start */", "old", "post"]);
    assert_eq!(splice(&malformed, LABEL, &lines(&["foo"])), None);
}

#[test]
fn splice_with_one_token_label() {
    let dest = lines(&["X autogen start", "old", "autogen end X"]);
    let out = splice(&dest, "X", &lines(&["new"])).unwrap();
    assert_eq!(out, lines(&["autogen start X", "new", "autogen end X"]));
}

#[test]
fn sync_outcomes() {
    let malformed = lines(&["pre", "/* header-sync autogen start */", "old", "post"]);
    let r = sync_files(
        &vec![Some(source_file())],
        &vec![None, Some(malformed), Some(destination_file())],
        LABEL,
    )
    .unwrap();
    assert_eq!(r[0], DestinationOutcome::Unreadable);
    assert_eq!(r[1], DestinationOutcome::NoRegion);
    assert!(matches!(r[2], DestinationOutcome::Updated(_)));
}

#[test]
fn sync_fails_on_unreadable_source() {
    let r = sync_files(
        &vec![Some(source_file()), None, None],
        &vec![Some(destination_file())],
        LABEL,
    );
    assert_eq!(r, Err(SyncError::SourceUnreadable(1)));
}

#[test]
fn syncer_configuration() {
    let mut s = Syncer::new(vec!["a.h", "b.h"], vec!["c.h"], LABEL);
    assert_eq!(s.label(), LABEL);
    assert_eq!(s.type_of_from(), FromFileType::Header);
    assert!(s.compress());
    assert_eq!(s.class_name(), "");
    s.set_type_of_form(FromFileType::GnuLinkScript);
    s.set_class_name("test");
    s.set_ignore_symbols(vec!["sym1", "sym2"]);
    s.set_mark_symbols(vec!["m"]);
    s.set_compress(false);
    assert_eq!(s.type_of_from(), FromFileType::GnuLinkScript);
    assert_eq!(s.class_name(), "test");
    assert_eq!(s.ignore_symbols(), &lines(&["sym1", "sym2"]));
    assert_eq!(s.mark_symbols(), &lines(&["m"]));
    assert!(!s.compress());
    assert_eq!(s.from_files(), &lines(&["a.h", "b.h"]));
}

#[test]
fn staging_names() {
    assert_eq!(staging_name(0), "header_syncer_0");
    assert_eq!(staging_name(42), "header_syncer_42");
    assert_eq!(staging_name(u32::MAX), "header_syncer_4294967295");
    assert_ne!(staging_name(1), staging_name(10));
    let fresh = fresh_staging_name();
    assert!(fresh.starts_with("header_syncer_"));
    assert!(fresh["header_syncer_".len()..].parse::<u32>().is_ok());
}

#[test]
fn text_helpers() {
    assert_eq!(trim_trailing("ab \t\r\n"), "ab");
    assert_eq!(trim_trailing("  "), "");
    assert_eq!(split_on_spaces("a  b"), lines(&["a", "", "b"]));
    assert_eq!(split_on_spaces(""), lines(&[""]));
}

use solhunt::cmd::{in_included_folder, parse_remappings, parse_verbosity};
use solhunt::compiler::{get_sol_files, is_excluded_dir, is_sol_file};
use solhunt::findings::Severity;
use solhunt::solidity::{build_source_map, get_finding_content, get_position};
use solhunt::version::{biggest_version_from_literals, is_unspecific_version, Version};

fn text(s: &str) -> Vec<u8> {
    s.as_bytes().to_vec()
}

#[test]
fn line_index_marks_line_starts() {
    let t = text("ab\ncd\n\nefg");
    assert_eq!(build_source_map(&t), vec![0, 3, 6, 7]);
    assert_eq!(build_source_map(&text("")), Vec::<usize>::new());
    assert_eq!(build_source_map(&text("a\n")), vec![0, 2]);
}

#[test]
fn positions_round_trip() {
    let t = text("ab\ncd\n\nefg");
    let ls = build_source_map(&t);
    for offset in 0..t.len() {
        let (line, column) = get_position(offset, &ls);
        assert!(line >= 1);
        assert_eq!(ls[line - 1] + column, offset);
    }
    assert_eq!(get_position(0, &ls), (1, 0));
    assert_eq!(get_position(4, &ls), (2, 1));
    assert_eq!(get_position(6, &ls), (3, 0));
    assert_eq!(get_position(9, &ls), (4, 2));
}

#[test]
fn empty_index_maps_to_origin() {
    let ls = build_source_map(&text(""));
    assert_eq!(get_position(0, &ls), (0, 0));
    assert_eq!(get_position(100, &ls), (0, 0));
}

#[test]
fn excerpts_are_exact() {
    let t = text("ab\ncd\n\nefg");
    assert_eq!(get_finding_content(&t, 3, 2), text("cd"));
    assert_eq!(get_finding_content(&t, 0, 10), text("ab\ncd\n\nefg"));
    assert_eq!(get_finding_content(&t, 0, 0), Vec::<u8>::new());
    // out-of-bounds requests yield nothing rather than a fault
    assert_eq!(get_finding_content(&t, 8, 5), Vec::<u8>::new());
    assert_eq!(get_finding_content(&t, 100, 1), Vec::<u8>::new());
}

#[test]
fn sol_files_are_filtered() {
    assert!(is_sol_file("src/Token.sol"));
    assert!(is_sol_file("/abs/path/Token.sol"));
    assert!(!is_sol_file("test/Token.t.sol"));
    assert!(!is_sol_file("script/Deploy.s.sol"));
    assert!(!is_sol_file("README.md"));
    assert!(!is_sol_file("src/.sol"));
    assert!(!is_sol_file("Token.sol.bak"));

    let paths = vec![
        "src/A.sol".to_string(),
        "src/A.t.sol".to_string(),
        "docs/A.md".to_string(),
        "src/B.sol".to_string(),
    ];
    assert_eq!(get_sol_files(paths), vec!["src/A.sol".to_string(), "src/B.sol".to_string()]);
}

#[test]
fn dependency_dirs_are_excluded() {
    assert!(is_excluded_dir("/project/lib"));
    assert!(is_excluded_dir("node_modules"));
    assert!(is_excluded_dir("/project/out"));
    assert!(is_excluded_dir("/project/cache"));
    assert!(is_excluded_dir("/project/target"));
    assert!(!is_excluded_dir("/project/src"));
    assert!(!is_excluded_dir("/project/mylib"));
    assert!(!is_excluded_dir("/project/lib/nested"));
}

#[test]
fn verbosity_selects_severities() {
    assert_eq!(
        parse_verbosity(&Some("hg".to_string())),
        vec![Severity::High, Severity::Gas]
    );
    assert_eq!(
        parse_verbosity(&Some("ggh".to_string())),
        vec![Severity::Gas, Severity::High]
    );
    assert_eq!(parse_verbosity(&Some("xyz".to_string())), Vec::<Severity>::new());
    assert_eq!(
        parse_verbosity(&None),
        vec![
            Severity::High,
            Severity::Medium,
            Severity::Low,
            Severity::Gas,
            Severity::Informal,
        ]
    );
}

#[test]
fn included_folder_filter() {
    assert!(in_included_folder("/project", "/project/src/Token.sol"));
    assert!(!in_included_folder("/project", "/project/lib/Dep.sol"));
    assert!(!in_included_folder("/project", "/elsewhere/src/Token.sol"));
    assert!(in_included_folder("/project/", "/project/src/Token.sol"));
}

#[test]
fn remappings_are_parsed() {
    let parsed = parse_remappings("oz=lib/openzeppelin\n\nno-equals-line\nds=lib/ds-test\n");
    assert_eq!(
        parsed,
        vec![
            ("oz".to_string(), "lib/openzeppelin".to_string()),
            ("ds".to_string(), "lib/ds-test".to_string()),
        ]
    );
    assert_eq!(parse_remappings(""), Vec::<(String, String)>::new());
}

#[test]
fn pragma_pins_are_recognised() {
    assert!(is_unspecific_version(&vec![
        "solidity".to_string(),
        "^".to_string(),
        "0.8".to_string(),
        ".0".to_string(),
    ]));
    assert!(!is_unspecific_version(&vec![
        "solidity".to_string(),
        "0.8".to_string(),
        ".0".to_string(),
    ]));
}

#[test]
fn biggest_known_release_for_requirement() {
    let caret = vec![
        "solidity".to_string(),
        "^".to_string(),
        "0.8".to_string(),
        ".0".to_string(),
    ];
    assert_eq!(biggest_version_from_literals(&caret), Some(Version::new(0, 8, 20)));

    let exact = vec!["solidity".to_string(), "=".to_string(), "0.8".to_string(), ".1".to_string()];
    assert_eq!(biggest_version_from_literals(&exact), Some(Version::new(0, 8, 1)));

    let nonsense = vec!["solidity".to_string(), "@".to_string(), "1".to_string()];
    assert_eq!(biggest_version_from_literals(&nonsense), None);

    assert_eq!(biggest_version_from_literals(&vec!["experimental".to_string()]), None);
}

use fast_check::pipeline::{Job, Pipeline, SendOutcome};
use fast_check::rule::{compile_rules, new_rule, scan_job};

const LOREM_RULE: &str = r#"
    rule lorem_ipsum {
      strings:
        $ = "Lorem ipsum"
      condition:
        all of them
    }
"#;

#[test]
fn yara_test() {
    // The engine end to end: compile one rule, scan matching data, one match.
    let mut compiler = yara_x::Compiler::new();
    compiler
        .add_source(
            r#"
    rule lorem_ipsum {
      strings:
        $ = "Lorem ipsum"
      condition:
        all of them
    }
"#,
        )
        .unwrap();
    let rules = compiler.build();
    let mut scanner = yara_x::Scanner::new(&rules);
    let results = scanner.scan("Lorem ipsum".as_bytes()).unwrap();
    results
        .matching_rules()
        .for_each(|rule| println!("{}", rule.identifier()));
    assert_eq!(results.matching_rules().len(), 1);
}

#[test]
pub fn test_new_rule() {
    let sources = vec![LOREM_RULE.to_string()];
    let (compiler, accepted) = new_rule(&sources);
    assert_eq!(accepted, 1);
    println!("{}", compiler.build().iter().len());
}

#[test]
fn compile_skips_a_bad_source_and_keeps_the_rest() {
    let sources = vec![
        "this is not a yara rule".to_string(),
        LOREM_RULE.to_string(),
    ];
    let (compiler, accepted) = new_rule(&sources);
    assert_eq!(accepted, 1);
    assert_eq!(compiler.build().iter().len(), 1);
}

#[test]
fn compile_with_zero_good_sources_still_scans() {
    let sources = vec!["broken {".to_string()];
    let (rules, accepted) = compile_rules(&sources);
    assert_eq!(accepted, 0);
    assert_eq!(rules.iter().len(), 0);
    let j = Job { path: "/x".to_string(), content: b"Lorem ipsum".to_vec() };
    assert!(scan_job(&rules, &j).unwrap().is_none());
}

#[test]
fn include_statements_are_refused_not_read_from_disk() {
    // Include processing is off: compilation depends on the handed-over
    // texts alone, so a source with an include statement is skipped like
    // any other bad source, whatever is on disk.
    let sources = vec![
        "include \"other.yar\"".to_string(),
        LOREM_RULE.to_string(),
    ];
    let (rules, accepted) = compile_rules(&sources);
    assert_eq!(accepted, 1);
    assert_eq!(rules.iter().len(), 1);
}

#[test]
fn scan_job_names_the_matched_rule() {
    let (rules, _) = compile_rules(&vec![LOREM_RULE.to_string()]);

    let hit = Job { path: "/data/a.txt".to_string(), content: b"Lorem ipsum".to_vec() };
    let m = scan_job(&rules, &hit).unwrap().expect("the literal is present");
    assert_eq!(m.path, "/data/a.txt");
    assert_eq!(m.rule_ids, vec!["lorem_ipsum".to_string()]);

    let miss = Job { path: "/data/b.bin".to_string(), content: vec![0x7f, 0x02, 0x9a, 0x44] };
    assert!(scan_job(&rules, &miss).unwrap().is_none());
}

#[test]
fn two_compilations_of_one_bundle_scan_alike() {
    let sources = vec![LOREM_RULE.to_string()];
    let (r1, _) = compile_rules(&sources);
    let (r2, _) = compile_rules(&sources);
    let j = Job { path: "/data/a.txt".to_string(), content: b"Lorem ipsum".to_vec() };
    let m1 = scan_job(&r1, &j).unwrap().unwrap();
    let m2 = scan_job(&r2, &j).unwrap().unwrap();
    assert_eq!(m1.rule_ids, m2.rule_ids);
}

#[test]
fn scenario_two_files_one_match() {
    // a.txt holds the literal, b.bin holds unrelated bytes: exactly one
    // result, for a.txt, naming the rule.
    let (rules, accepted) = compile_rules(&vec![LOREM_RULE.to_string()]);
    assert_eq!(accepted, 1);

    let mut p = Pipeline::new(4);
    let a = Job { path: "/scan/a.txt".to_string(), content: b"Lorem ipsum".to_vec() };
    let b = Job { path: "/scan/b.bin".to_string(), content: vec![0x00, 0x99, 0x12, 0xfe, 0x33] };
    assert!(matches!(p.try_send(a), SendOutcome::Sent));
    assert!(matches!(p.try_send(b), SendOutcome::Sent));
    p.close();
    p.worker_drain(&rules);

    assert_eq!(p.results.len(), 1);
    assert_eq!(p.results[0].path, "/scan/a.txt");
    assert_eq!(p.results[0].rule_ids, vec!["lorem_ipsum".to_string()]);
}

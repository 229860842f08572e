use intl_extract::catalog::Catalog;
use intl_extract::extract::{
    get_caller_name, get_intel_info, is_marker, location_text, Arg, CallSite, Callee, IntlErrInfo,
    IntlInfo, LineSpan, EMPTY_ARGS, NOT_LITERAL, PERSIST_CONFLICT, RUN_CONFLICT,
};
use intl_extract::reconcile::{reconcile, run_extract_calls};
use intl_extract::report::is_eligible;

fn call(name: &str, args: Vec<Arg>) -> CallSite {
    CallSite {
        callee: Callee::Ident(name.to_string()),
        args,
        file: "src/app.ts".to_string(),
        lines: vec![LineSpan { line_index: 2, start_col: 4, end_col: 15 }],
    }
}

fn marker(text: &str) -> CallSite {
    call("$t", vec![Arg::Str(text.to_string())])
}

fn catalog(pairs: &[(&str, &str)]) -> Catalog {
    let v: Vec<(String, String)> =
        pairs.iter().map(|(k, v)| (k.to_string(), v.to_string())).collect();
    Catalog::from_pairs(&v)
}

fn sorted(c: &Catalog) -> Vec<(String, String)> {
    let mut v = c.entries.clone();
    v.sort();
    v
}

fn pairs(p: &[(&str, &str)]) -> Vec<(String, String)> {
    p.iter().map(|(k, v)| (k.to_string(), v.to_string())).collect()
}

fn kinds(info: &IntlInfo) -> Vec<u8> {
    info.err_map.iter().map(|e| e.err_type).collect()
}

#[test]
fn persisted_value_kept_under_pruning() {
    let persisted = catalog(&[("greet", "Hola")]);
    let (info, out) = run_extract_calls(&persisted, &vec![marker("greet")], true);
    assert_eq!(sorted(&out), pairs(&[("greet", "Hola")]));
    assert_eq!(kinds(&info), vec![PERSIST_CONFLICT]);
    assert_eq!(info.repeat_key_list, pairs(&[("greet", "Hola")]));
}

#[test]
fn pruning_removes_unreferenced_keys() {
    let persisted = catalog(&[("a", "A"), ("b", "B")]);
    let (_, out) = run_extract_calls(&persisted, &vec![marker("a")], true);
    assert_eq!(sorted(&out), pairs(&[("a", "A")]));
}

#[test]
fn pruning_keeps_new_keys() {
    let persisted = catalog(&[("a", "A"), ("b", "B")]);
    let (info, out) = run_extract_calls(&persisted, &vec![marker("a"), marker("c")], true);
    assert_eq!(sorted(&out), pairs(&[("a", "A"), ("c", "c")]));
    assert_eq!(info.info_map.len(), 1);
}

#[test]
fn without_pruning_persisted_keys_stay() {
    let persisted = catalog(&[("a", "A"), ("b", "B")]);
    let (_, out) = run_extract_calls(&persisted, &vec![marker("c")], false);
    assert_eq!(sorted(&out), pairs(&[("a", "A"), ("b", "B"), ("c", "c")]));
}

#[test]
fn non_literal_argument_is_reported() {
    let c = call("$t", vec![Arg::Other]);
    let (info, out) = run_extract_calls(&Catalog::new(), &vec![c], false);
    assert_eq!(kinds(&info), vec![NOT_LITERAL]);
    assert!(out.entries.is_empty());
    assert!(info.info_map.is_empty());
}

#[test]
fn empty_arguments_are_reported() {
    let c = call("$t", vec![]);
    let (info, out) = run_extract_calls(&Catalog::new(), &vec![c], false);
    assert_eq!(kinds(&info), vec![EMPTY_ARGS]);
    assert!(out.entries.is_empty());
    assert_eq!(
        info.err_map[0].err_msg,
        "Error: Args is empty. File is src/app.ts; Line num: 3, start col num: 5, end col num: 16 "
    );
}

#[test]
fn first_occurrence_wins() {
    let (info, out) =
        run_extract_calls(&Catalog::new(), &vec![marker("hi"), marker("hi")], false);
    assert_eq!(sorted(&out), pairs(&[("hi", "hi")]));
    assert_eq!(info.info_map.len(), 1);
    assert!(!kinds(&info).contains(&RUN_CONFLICT));
}

#[test]
fn run_conflict_is_reported_once() {
    let persisted = Catalog::new();
    let mut info = IntlInfo::new();
    info.record_call(&persisted, &marker("k"));
    info.info_map[0].default = "other".to_string();
    info.record_call(&persisted, &marker("k"));
    assert_eq!(kinds(&info), vec![RUN_CONFLICT]);
    assert_eq!(info.info_map[0].default, "other");
    assert!(info.err_map[0].err_msg.starts_with("Error: Intl key:k same key with different value File is"));
}

#[test]
fn extraction_is_idempotent() {
    let persisted = catalog(&[("a", "A")]);
    let calls = vec![marker("a"), marker("b"), call("$t", vec![Arg::Other])];
    let (_, out1) = run_extract_calls(&persisted, &calls, false);
    let (info2, out2) = run_extract_calls(&out1, &calls, false);
    let (_, out3) = run_extract_calls(&out2, &calls, false);
    assert_eq!(sorted(&out1), pairs(&[("a", "A"), ("b", "b")]));
    assert_eq!(sorted(&out2), sorted(&out1));
    assert_eq!(sorted(&out3), sorted(&out2));
    assert!(info2.info_map.is_empty());
}

#[test]
fn other_callees_are_ignored() {
    let calls = vec![
        call("t", vec![Arg::Str("x".to_string())]),
        CallSite { callee: Callee::Other, args: vec![], file: "f".to_string(), lines: vec![] },
    ];
    let (info, out) = run_extract_calls(&Catalog::new(), &calls, false);
    assert!(info.err_map.is_empty());
    assert!(out.entries.is_empty());
}

#[test]
fn caller_name_and_marker() {
    assert_eq!(get_caller_name(&Callee::Ident("$t".to_string())), Some(&"$t".to_string()));
    assert_eq!(get_caller_name(&Callee::Other), None);
    assert!(is_marker(&marker("a")));
    assert!(!is_marker(&call("$tt", vec![])));
}

#[test]
fn classification_of_first_argument() {
    assert_eq!(get_intel_info(&call("$t", vec![Arg::Str("x".to_string()), Arg::Other])).ok(), Some("x".to_string()));
    let e = get_intel_info(&call("$t", vec![Arg::Other, Arg::Str("x".to_string())])).err().unwrap();
    assert_eq!(e.err_type, NOT_LITERAL);
    assert_eq!(e.err_msg, "Error: Not a string literal.");
}

#[test]
fn location_covers_every_line() {
    let c = CallSite {
        callee: Callee::Ident("$t".to_string()),
        args: vec![],
        file: "a.tsx".to_string(),
        lines: vec![
            LineSpan { line_index: 9, start_col: 0, end_col: 3 },
            LineSpan { line_index: 10, start_col: 119, end_col: 120 },
        ],
    };
    assert_eq!(
        location_text(&c),
        " File is a.tsx; Line num: 10, start col num: 1, end col num: 4 ;Line num: 11, start col num: 120, end col num: 121 "
    );
}

#[test]
fn summary_groups_by_category() {
    let persisted = catalog(&[("p", "P")]);
    let calls = vec![marker("n"), call("$t", vec![]), marker("p"), call("$t", vec![Arg::Other])];
    let (info, _) = run_extract_calls(&persisted, &calls, false);
    let loc = " File is src/app.ts; Line num: 3, start col num: 5, end col num: 16 ";
    let expected = format!(
        "\n ************** Complete the extraction of 1 pieces of text. **************\n\
         \n ============== Not a string literal =============\n\n Error: Not a string literal.{loc};\
         \n ============== Same key with different value from existed file =============\n\n Error: Intl key: p same key with different value from existed file'{loc};\
         \n ============== Args is empty  =============\n\n Error: Args is empty.{loc};"
    );
    assert_eq!(info.summary(), expected);
}

#[test]
fn summary_of_empty_run() {
    assert_eq!(
        IntlInfo::new().summary(),
        "\n ************** Complete the extraction of 0 pieces of text. **************\n"
    );
}

#[test]
fn reconcile_overlays_new_entries() {
    let persisted = catalog(&[("a", "A")]);
    let mut info = IntlInfo::new();
    info.record_call(&persisted, &marker("z"));
    let out = reconcile(&persisted, &info, true);
    assert_eq!(sorted(&out), pairs(&[("z", "z")]));
}

#[test]
fn excluded_files_are_never_visited() {
    assert!(is_eligible(true, false));
    assert!(!is_eligible(true, true));
    assert!(!is_eligible(false, false));
    assert!(!is_eligible(false, true));
}

#[test]
fn catalog_insert_replaces() {
    let mut c = catalog(&[("a", "1"), ("b", "2"), ("a", "3")]);
    assert_eq!(sorted(&c), pairs(&[("a", "3"), ("b", "2")]));
    c.insert("b".to_string(), "4".to_string());
    assert_eq!(sorted(&c), pairs(&[("a", "3"), ("b", "4")]));
    assert!(c.contains_key(&"a".to_string()));
    assert_eq!(c.find(&"x".to_string()), None);
}

#[test]
fn error_info_new_keeps_fields() {
    let e = IntlErrInfo::new(2, "m".to_string());
    assert_eq!(e.err_type, 2);
    assert_eq!(e.err_msg, "m");
}

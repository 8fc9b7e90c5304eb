use benchkit::options::add_hook_entries;
use benchkit::options::ensure_commit_list;
use benchkit::options::merge_options;
use benchkit::options::rewrite_command;
use benchkit::options::OptionMap;
use benchkit::options::OptionValue;
use benchkit::options::RawItem;
use benchkit::parameters::ParamBinding;
use benchkit::parameters::ParameterMatrix;
use benchkit::parameters::RawParamEntry;
use benchkit::parameters::RawValues;
use benchkit::synth::build_hyperfine_args;
use benchkit::synth::SynthError;

fn text(s: &str) -> OptionValue {
    OptionValue::Text(s.to_string())
}

fn get_text(opts: &OptionMap, key: &str) -> String {
    match opts.get(key) {
        Some(OptionValue::Text(s)) => s.clone(),
        other => panic!("expected a string option for {}, got {:?}", key, other),
    }
}

#[test]
fn merge_prefers_benchmark_options() {
    let mut global = OptionMap::new();
    global.insert("runs".to_string(), OptionValue::Num(5));
    global.insert("warmup".to_string(), OptionValue::Num(1));
    let mut bench = OptionMap::new();
    bench.insert("runs".to_string(), OptionValue::Num(9));
    bench.insert("export_json".to_string(), text("/tmp/r.json"));
    let merged = merge_options(Some(&global), &bench);
    match merged.get("runs") {
        Some(OptionValue::Num(n)) => assert_eq!(*n, 9),
        other => panic!("unexpected runs option: {:?}", other),
    }
    match merged.get("warmup") {
        Some(OptionValue::Num(n)) => assert_eq!(*n, 1),
        other => panic!("unexpected warmup option: {:?}", other),
    }
    assert_eq!(get_text(&merged, "export_json"), "/tmp/r.json");
}

#[test]
fn hooks_do_not_overwrite_explicit_entries() {
    let mut opts = OptionMap::new();
    opts.insert("setup".to_string(), text("my-setup.sh"));
    let hooks = vec![
        ("setup".to_string(), text("default-setup.sh")),
        ("cleanup".to_string(), text("default-cleanup.sh")),
    ];
    add_hook_entries(&mut opts, &hooks);
    assert_eq!(get_text(&opts, "setup"), "my-setup.sh");
    assert_eq!(get_text(&opts, "cleanup"), "default-cleanup.sh");
}

#[test]
fn commit_list_added_when_absent() {
    let mut opts = OptionMap::new();
    let commits = vec!["c1".to_string(), "c2".to_string()];
    ensure_commit_list(&mut opts, &commits);
    match opts.get("parameter_lists") {
        Some(OptionValue::ListVal(items)) => {
            assert_eq!(items.len(), 1);
            match &items[0] {
                RawItem::Entry(e) => {
                    assert_eq!(e.var, Some("commit".to_string()));
                    match &e.values {
                        RawValues::Items(vs) => {
                            assert_eq!(
                                vs,
                                &vec![Some("c1".to_string()), Some("c2".to_string())]
                            );
                        }
                        other => panic!("unexpected values: {:?}", other),
                    }
                }
                other => panic!("unexpected item: {:?}", other),
            }
        }
        other => panic!("unexpected parameter_lists: {:?}", other),
    }
}

#[test]
fn commit_list_not_duplicated() {
    let mut opts = OptionMap::new();
    opts.insert(
        "parameter_lists".to_string(),
        OptionValue::ListVal(vec![RawItem::Entry(RawParamEntry {
            var: Some("commit".to_string()),
            values: RawValues::Items(vec![Some("existing".to_string())]),
        })]),
    );
    ensure_commit_list(&mut opts, &vec!["new".to_string()]);
    match opts.get("parameter_lists") {
        Some(OptionValue::ListVal(items)) => assert_eq!(items.len(), 1),
        other => panic!("unexpected parameter_lists: {:?}", other),
    }
}

#[test]
fn rewrite_command_targets_artifact() {
    let mut opts = OptionMap::new();
    opts.insert("command".to_string(), text("bitcoind -stopatheight=100"));
    rewrite_command(&mut opts, "/bins", "signet", "/tmp/data");
    assert_eq!(
        get_text(&opts, "command"),
        "/bins/bitcoind-{commit} -chain=signet -datadir=/tmp/data -stopatheight=100"
    );
}

#[test]
fn merged_command_renders_artifact_for_revision() {
    let full: String = "abc123".chars().chain("0123456789".chars().cycle()).take(40).collect();
    let mut global = OptionMap::new();
    global.insert("command".to_string(), text("bitcoind -stopatheight=100"));
    let mut bench = OptionMap::new();
    bench.insert("export_json".to_string(), text("/tmp/r.json"));
    let mut merged = merge_options(Some(&global), &bench);
    rewrite_command(&mut merged, "/bins", "signet", "/tmp/data");
    let template = get_text(&merged, "command");

    let matrix = ParameterMatrix::new(&[]);
    let mut binding = ParamBinding::new();
    binding.insert("commit".to_string(), full.clone());
    let rendered = matrix.apply_parameters(&template, &binding);
    assert_eq!(
        rendered,
        format!(
            "/bins/bitcoind-{} -chain=signet -datadir=/tmp/data -stopatheight=100",
            full
        )
    );
    assert!(rendered.contains("-chain=signet"));
}

#[test]
fn synthesis_fails_without_export_path() {
    let mut opts = OptionMap::new();
    opts.insert("command".to_string(), text("bitcoind"));
    assert_eq!(
        build_hyperfine_args(&opts, None),
        Err(SynthError::MissingExportPath)
    );
}

#[test]
fn synthesis_fails_without_command() {
    let mut opts = OptionMap::new();
    opts.insert("export_json".to_string(), text("/tmp/r.json"));
    assert_eq!(
        build_hyperfine_args(&opts, None),
        Err(SynthError::MissingCommand)
    );
}

#[test]
fn synthesis_rejects_malformed_parameter_list() {
    let mut opts = OptionMap::new();
    opts.insert("export_json".to_string(), text("/tmp/r.json"));
    opts.insert("command".to_string(), text("bitcoind"));
    opts.insert(
        "parameter_lists".to_string(),
        OptionValue::ListVal(vec![RawItem::Entry(RawParamEntry {
            var: None,
            values: RawValues::Items(vec![Some("a".to_string())]),
        })]),
    );
    assert_eq!(
        build_hyperfine_args(&opts, None),
        Err(SynthError::MalformedParameterList)
    );
}

#[test]
fn synthesis_renders_flag_grammar() {
    let mut opts = OptionMap::new();
    opts.insert("export_json".to_string(), text("/tmp/r.json"));
    opts.insert("command".to_string(), text("bitcoind {commit}"));
    opts.insert("min_runs".to_string(), OptionValue::Num(5));
    opts.insert("show_output".to_string(), OptionValue::Flag(true));
    opts.insert("ignore_failure".to_string(), OptionValue::Flag(false));
    opts.insert(
        "command_names".to_string(),
        OptionValue::ListVal(vec![
            RawItem::Text("first".to_string()),
            RawItem::Other,
            RawItem::Text("second".to_string()),
        ]),
    );
    opts.insert(
        "parameter_lists".to_string(),
        OptionValue::ListVal(vec![RawItem::Entry(RawParamEntry {
            var: Some("commit".to_string()),
            values: RawValues::Items(vec![Some("c1".to_string()), Some("c2".to_string())]),
        })]),
    );
    let args = build_hyperfine_args(&opts, None).unwrap();
    assert_eq!(
        args,
        vec![
            "--export-json".to_string(),
            "/tmp/r.json".to_string(),
            "--min-runs".to_string(),
            "5".to_string(),
            "--show-output".to_string(),
            "--command-name".to_string(),
            "first".to_string(),
            "--command-name".to_string(),
            "second".to_string(),
            "--parameter-list".to_string(),
            "commit".to_string(),
            "c1,c2".to_string(),
            "bitcoind {commit}".to_string(),
        ]
    );
}

#[test]
fn synthesis_prepends_wrapper() {
    let mut opts = OptionMap::new();
    opts.insert("export_json".to_string(), text("/tmp/r.json"));
    opts.insert("command".to_string(), text("bitcoind"));
    let wrapper = "taskset -c 1".to_string();
    let args = build_hyperfine_args(&opts, Some(&wrapper)).unwrap();
    assert_eq!(args.last().unwrap(), "taskset -c 1 bitcoind");
}

#[test]
fn negative_numbers_render_with_sign() {
    let mut opts = OptionMap::new();
    opts.insert("export_json".to_string(), text("/tmp/r.json"));
    opts.insert("command".to_string(), text("bitcoind"));
    opts.insert("offset".to_string(), OptionValue::Num(-12));
    let args = build_hyperfine_args(&opts, None).unwrap();
    assert_eq!(args[2], "--offset");
    assert_eq!(args[3], "-12");
}

#[test]
fn commit_list_leaves_other_shapes_alone() {
    let mut opts = OptionMap::new();
    opts.insert("parameter_lists".to_string(), text("not a list"));
    ensure_commit_list(&mut opts, &vec!["c1".to_string()]);
    assert_eq!(get_text(&opts, "parameter_lists"), "not a list");
}

#[test]
fn merge_without_global_keeps_benchmark_options() {
    let mut bench = OptionMap::new();
    bench.insert("runs".to_string(), OptionValue::Num(3));
    let merged = merge_options(None, &bench);
    match merged.get("runs") {
        Some(OptionValue::Num(n)) => assert_eq!(*n, 3),
        other => panic!("unexpected runs option: {:?}", other),
    }
    assert!(merged.get("warmup").is_none());
}

#[test]
fn rewrite_without_command_changes_nothing() {
    let mut opts = OptionMap::new();
    opts.insert("export_json".to_string(), text("/tmp/r.json"));
    rewrite_command(&mut opts, "/bins", "signet", "/tmp/data");
    assert!(opts.get("command").is_none());
    assert_eq!(get_text(&opts, "export_json"), "/tmp/r.json");
}

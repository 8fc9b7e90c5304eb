use benchkit::parameters::ParamBinding;
use benchkit::parameters::ParameterList;
use benchkit::parameters::ParameterMatrix;
use benchkit::parameters::ParameterUtils;
use benchkit::parameters::RawParamEntry;
use benchkit::parameters::RawValues;

#[test]
fn test_parameter_matrix_empty() {
    let matrix = ParameterMatrix::new(&[]);
    assert_eq!(matrix.combinations.len(), 1);
    assert_eq!(matrix.combinations[0].len(), 0);
}

#[test]
fn test_parameter_matrix_single() {
    let param_list = ParameterList {
        var: "foo".to_string(),
        values: vec!["a".to_string(), "b".to_string()],
    };
    let matrix = ParameterMatrix::new(&[param_list]);
    assert_eq!(matrix.combinations.len(), 2);
    assert_eq!(matrix.combinations[0].get("foo"), Some(&"a".to_string()));
    assert_eq!(matrix.combinations[1].get("foo"), Some(&"b".to_string()));
}

#[test]
fn test_parameter_matrix_multiple() {
    let param_list1 = ParameterList {
        var: "foo".to_string(),
        values: vec!["a".to_string(), "b".to_string()],
    };
    let param_list2 = ParameterList {
        var: "bar".to_string(),
        values: vec!["1".to_string(), "2".to_string()],
    };
    let matrix = ParameterMatrix::new(&[param_list1, param_list2]);

    assert_eq!(matrix.combinations.len(), 4);

    let combinations = [("a", "1"), ("a", "2"), ("b", "1"), ("b", "2")];

    for (i, (foo, bar)) in combinations.iter().enumerate() {
        assert_eq!(matrix.combinations[i].get("foo"), Some(&foo.to_string()));
        assert_eq!(matrix.combinations[i].get("bar"), Some(&bar.to_string()));
    }
}

#[test]
fn test_apply_parameters() {
    let matrix = ParameterMatrix::new(&[]);
    let mut params = ParamBinding::new();
    params.insert("foo".to_string(), "bar".to_string());
    params.insert("baz".to_string(), "qux".to_string());

    let command = matrix.apply_parameters("test {foo} command {baz}", &params);
    assert_eq!(command, "test bar command qux");
}

#[test]
fn test_generate_commands() {
    let param_list = ParameterList {
        var: "foo".to_string(),
        values: vec!["a".to_string(), "b".to_string()],
    };
    let matrix = ParameterMatrix::new(&[param_list]);

    let commands = matrix.generate_commands("test {foo} command");
    assert_eq!(commands.len(), 2);
    assert_eq!(commands[0].0, "test a command");
    assert_eq!(commands[1].0, "test b command");
}

#[test]
fn test_params_to_dirname() {
    let mut params = ParamBinding::new();
    params.insert("foo".to_string(), "bar".to_string());
    params.insert("baz".to_string(), "qux".to_string());

    let dirname = ParameterUtils::params_to_dirname(&params);
    assert_eq!(dirname, "baz-qux_foo-bar");

    // The commit parameter is excluded from the name.
    params.insert("commit".to_string(), "abc123".to_string());
    let dirname = ParameterUtils::params_to_dirname(&params);
    assert_eq!(dirname, "baz-qux_foo-bar");

    // Only the commit parameter present: the name falls back to default.
    let mut params = ParamBinding::new();
    params.insert("commit".to_string(), "abc123".to_string());
    let dirname = ParameterUtils::params_to_dirname(&params);
    assert_eq!(dirname, "default");
}

#[test]
fn dirname_ignores_insertion_order() {
    let mut a = ParamBinding::new();
    a.insert("x".to_string(), "1".to_string());
    a.insert("y".to_string(), "2".to_string());
    let mut b = ParamBinding::new();
    b.insert("y".to_string(), "2".to_string());
    b.insert("x".to_string(), "1".to_string());
    assert_eq!(
        ParameterUtils::params_to_dirname(&a),
        ParameterUtils::params_to_dirname(&b)
    );
    assert_eq!(ParameterUtils::params_to_dirname(&a), "x-1_y-2");
}

#[test]
fn binding_insert_overwrites() {
    let mut b = ParamBinding::new();
    b.insert("k".to_string(), "v1".to_string());
    b.insert("k".to_string(), "v2".to_string());
    assert_eq!(b.len(), 1);
    assert_eq!(b.get("k"), Some(&"v2".to_string()));
    assert_eq!(b.get("missing"), None);
}

#[test]
fn matrix_counts_are_products() {
    let lists = [
        ParameterList {
            var: "a".to_string(),
            values: vec!["1".to_string(), "2".to_string(), "3".to_string()],
        },
        ParameterList {
            var: "b".to_string(),
            values: vec!["x".to_string(), "y".to_string()],
        },
        ParameterList {
            var: "c".to_string(),
            values: vec!["p".to_string()],
        },
    ];
    let matrix = ParameterMatrix::new(&lists);
    assert_eq!(matrix.combinations.len(), 6);
}

#[test]
fn render_leaves_unknown_placeholders() {
    let matrix = ParameterMatrix::new(&[]);
    let mut params = ParamBinding::new();
    params.insert("foo".to_string(), "bar".to_string());
    let command = matrix.apply_parameters("run {foo} and {unknown}", &params);
    assert_eq!(command, "run bar and {unknown}");
}

#[test]
fn render_twice_is_stable_without_braces() {
    let matrix = ParameterMatrix::new(&[]);
    let mut params = ParamBinding::new();
    params.insert("foo".to_string(), "bar".to_string());
    let once = matrix.apply_parameters("run {foo} now", &params);
    let twice = matrix.apply_parameters(&once, &params);
    assert_eq!(once, twice);
    assert_eq!(once, "run bar now");
}

#[test]
fn generate_commands_with_empty_matrix() {
    let matrix = ParameterMatrix { combinations: Vec::new() };
    let commands = matrix.generate_commands("plain command");
    assert_eq!(commands.len(), 1);
    assert_eq!(commands[0].0, "plain command");
    assert_eq!(commands[0].1.len(), 0);
}

#[test]
fn create_parameter_lists_from_entries() {
    let entries = vec![
        RawParamEntry {
            var: Some("foo".to_string()),
            values: RawValues::Items(vec![
                Some("a".to_string()),
                None,
                Some("b".to_string()),
            ]),
        },
        RawParamEntry {
            var: None,
            values: RawValues::Joined("skipped".to_string()),
        },
        RawParamEntry {
            var: Some("bar".to_string()),
            values: RawValues::Joined(" 1, 2 ,3 ".to_string()),
        },
        RawParamEntry {
            var: Some("baz".to_string()),
            values: RawValues::Absent,
        },
    ];
    let lists = ParameterUtils::create_parameter_lists(&entries);
    assert_eq!(lists.len(), 3);
    assert_eq!(lists[0].var, "foo");
    assert_eq!(lists[0].values, vec!["a".to_string(), "".to_string(), "b".to_string()]);
    assert_eq!(lists[1].var, "bar");
    assert_eq!(lists[1].values, vec!["1".to_string(), "2".to_string(), "3".to_string()]);
    assert_eq!(lists[2].var, "baz");
    assert!(lists[2].values.is_empty());
}

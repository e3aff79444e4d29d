use script_runner::args::{arg_text, bind_one, find_arg, flag_args, positional_args, raw_to_string, JobArg};

fn job_args(pairs: &[(&str, &str)]) -> Vec<JobArg> {
    pairs.iter().map(|(n, r)| JobArg { name: n.to_string(), raw: r.to_string() }).collect()
}

#[test]
fn string_values_are_unwrapped() {
    assert_eq!(raw_to_string("\"x\""), "x");
    assert_eq!(raw_to_string("\"a\\nb \\\"q\\\"\""), "a\nb \"q\"");
}

#[test]
fn other_values_are_written_compactly() {
    assert_eq!(raw_to_string("1"), "1");
    assert_eq!(raw_to_string(" { \"a\" : [1, 2,  null] } "), "{\"a\":[1,2,null]}");
    assert_eq!(raw_to_string("true"), "true");
    assert_eq!(raw_to_string("null"), "null");
}

#[test]
fn invalid_json_gives_the_empty_text() {
    assert_eq!(raw_to_string("not json"), "");
    assert_eq!(raw_to_string(""), "");
}

#[test]
fn arg_text_prefers_the_string_reading() {
    assert_eq!(arg_text(Some("s".to_string()), Some("\"s\"".to_string())), "s");
    assert_eq!(arg_text(None, Some("[1]".to_string())), "[1]");
    assert_eq!(arg_text(None, None), "");
}

#[test]
fn missing_parameter_defaults_to_empty_positional() {
    let params = vec!["a".to_string(), "b".to_string()];
    let args = job_args(&[("a", "\"x\"")]);
    assert_eq!(positional_args(&params, &args), vec!["x".to_string(), "".to_string()]);
}

#[test]
fn missing_parameter_defaults_to_empty_flags() {
    let params = vec!["a".to_string(), "b".to_string()];
    let args = job_args(&[("a", "\"x\"")]);
    assert_eq!(
        flag_args(&params, &args),
        vec!["--a".to_string(), "x".to_string(), "--b".to_string(), "".to_string()]
    );
}

#[test]
fn arguments_follow_the_declared_order() {
    let params = vec!["n".to_string(), "s".to_string()];
    let args = job_args(&[("s", "\"txt\""), ("extra", "1"), ("n", "42")]);
    assert_eq!(positional_args(&params, &args), vec!["42".to_string(), "txt".to_string()]);
    assert_eq!(
        flag_args(&params, &args),
        vec!["--n".to_string(), "42".to_string(), "--s".to_string(), "txt".to_string()]
    );
}

#[test]
fn no_parameters_no_arguments() {
    let args = job_args(&[("a", "1")]);
    assert!(positional_args(&Vec::new(), &args).is_empty());
    assert!(flag_args(&Vec::new(), &args).is_empty());
}

#[test]
fn find_arg_takes_the_first_entry_of_a_name() {
    let args = job_args(&[("a", "1"), ("a", "2")]);
    assert_eq!(find_arg(&args, &"a".to_string()), Some(&"1".to_string()));
    assert_eq!(find_arg(&args, &"b".to_string()), None);
    assert_eq!(bind_one(&args, &"a".to_string()), "1");
    assert_eq!(bind_one(&args, &"b".to_string()), "");
}

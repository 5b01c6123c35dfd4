use minishell::{split_tokens, Redirect};

#[test]
fn test_only_command() {
    let tokens = vec!["echo", "hello", "world"];
    let split = split_tokens(&tokens).unwrap();
    assert_eq!(split.cmd_args, vec!["echo", "hello", "world"]);
    assert!(split.outs.is_empty());
    assert!(split.append_outs.is_empty());
    assert!(split.errs.is_empty());
    assert!(split.append_errs.is_empty());
}

#[test]
fn test_redirect_out() {
    let tokens = vec!["echo", "hello", "world", ">", "/tmp/data"];
    let split = split_tokens(&tokens).unwrap();
    assert_eq!(split.cmd_args, vec!["echo", "hello", "world"]);
    assert_eq!(split.outs, vec!["/tmp/data"]);
    assert!(split.append_outs.is_empty());
    assert!(split.errs.is_empty());
    assert!(split.append_errs.is_empty());
}

#[test]
fn test_multiple_redirect_outs() {
    let tokens = vec!["echo", "thisistest", ">", "/tmp/data", ">", "./a/b"];
    let split = split_tokens(&tokens).unwrap();
    assert_eq!(split.cmd_args, vec!["echo", "thisistest"]);
    assert_eq!(split.outs, vec!["/tmp/data", "./a/b"]);
    assert!(split.append_outs.is_empty());
    assert!(split.errs.is_empty());
    assert!(split.append_errs.is_empty());
}

#[test]
fn test_mutliple_redirect_errs() {
    let tokens = vec![
        "echo",
        "big bad error",
        "2>",
        "./error.log",
        "2>",
        "./warn.log",
    ];
    let split = split_tokens(&tokens).unwrap();
    assert_eq!(split.cmd_args, vec!["echo", "big bad error"]);
    assert!(split.outs.is_empty());
    assert!(split.append_outs.is_empty());
    assert_eq!(split.errs, vec!["./error.log", "./warn.log"]);
    assert!(split.append_errs.is_empty());
}

#[test]
fn test_mixed_redirect() {
    let tokens = vec![
        "cat",
        "./something.txt",
        ">",
        "/tmp/data",
        ">>",
        "/tmp/extra_data",
        "2>",
        "./error.log",
        "2>>",
        "dump",
    ];
    let split = split_tokens(&tokens).unwrap();
    assert_eq!(split.cmd_args, vec!["cat", "./something.txt"]);
    assert_eq!(split.outs, vec!["/tmp/data"]);
    assert_eq!(split.append_outs, vec!["/tmp/extra_data"]);
    assert_eq!(split.errs, vec!["./error.log"]);
    assert_eq!(split.append_errs, vec!["dump"]);
}

#[test]
fn test_three_kinds_of_redirect() {
    let tokens = vec!["echo", "hi", ">", "/tmp/a", ">>", "/tmp/b", "2>", "/tmp/c"];
    let split = split_tokens(&tokens).unwrap();
    assert_eq!(split.cmd_args, vec!["echo", "hi"]);
    assert_eq!(split.outs, vec!["/tmp/a"]);
    assert_eq!(split.append_outs, vec!["/tmp/b"]);
    assert_eq!(split.errs, vec!["/tmp/c"]);
    assert!(split.append_errs.is_empty());
}

#[test]
fn test_two_operators_in_a_row() {
    let tokens = vec![">", ">>", "/tmp/a"];
    match split_tokens(&tokens) {
        Ok(_) => panic!("two operators side by side were accepted"),
        Err(e) => assert_eq!(e, "parse error near >>"),
    }
}

#[test]
fn test_first_clash_is_reported() {
    let tokens = vec!["ls", "2>", "1>", "x", ">", "2>>"];
    match split_tokens(&tokens) {
        Ok(_) => panic!("two operators side by side were accepted"),
        Err(e) => assert_eq!(e, "parse error near 1>"),
    }
}

#[test]
fn test_numbered_spellings() {
    let tokens = vec!["ls", "1>", "a", "1>>", "b", "2>>", "c"];
    let split = split_tokens(&tokens).unwrap();
    assert_eq!(split.cmd_args, vec!["ls"]);
    assert_eq!(split.outs, vec!["a"]);
    assert_eq!(split.append_outs, vec!["b"]);
    assert!(split.errs.is_empty());
    assert_eq!(split.append_errs, vec!["c"]);
}

#[test]
fn test_trailing_operator_is_dropped() {
    let tokens = vec!["echo", "hi", ">"];
    let split = split_tokens(&tokens).unwrap();
    assert_eq!(split.cmd_args, vec!["echo", "hi"]);
    assert!(split.outs.is_empty());
    assert!(split.append_outs.is_empty());
    assert!(split.errs.is_empty());
    assert!(split.append_errs.is_empty());
}

#[test]
fn test_arguments_after_a_target_belong_to_the_command() {
    let tokens = vec!["echo", ">", "file", "more", "2>", "log", "last"];
    let split = split_tokens(&tokens).unwrap();
    assert_eq!(split.cmd_args, vec!["echo", "more", "last"]);
    assert_eq!(split.outs, vec!["file"]);
    assert_eq!(split.errs, vec!["log"]);
}

#[test]
fn test_other_operators_are_ordinary_tokens() {
    let tokens = vec!["a", "|", "b", "&", "<", "c", "3>", "d"];
    let split = split_tokens(&tokens).unwrap();
    assert_eq!(split.cmd_args, vec!["a", "|", "b", "&", "<", "c", "3>", "d"]);
}

#[test]
fn test_no_tokens() {
    let tokens: Vec<&str> = Vec::new();
    let split = split_tokens(&tokens).unwrap();
    assert!(split.cmd_args.is_empty());
    assert!(split.outs.is_empty());
}

#[test]
fn test_every_operand_lands_in_one_list() {
    let tokens = vec!["a", ">", "b", "c", "2>", "d", ">>", "e", "2>>", "f", "g", ">"];
    let split = split_tokens(&tokens).unwrap();
    let total = split.cmd_args.len()
        + split.outs.len()
        + split.append_outs.len()
        + split.errs.len()
        + split.append_errs.len();
    let operands = tokens.iter().filter(|t| Redirect::parse(t).is_none()).count();
    assert_eq!(total, operands);
    assert_eq!(split.cmd_args, vec!["a", "c", "g"]);
}

#[test]
fn test_operator_spellings() {
    assert_eq!(Redirect::parse(">"), Some(Redirect::StdoutTruncate));
    assert_eq!(Redirect::parse("1>"), Some(Redirect::StdoutTruncate));
    assert_eq!(Redirect::parse(">>"), Some(Redirect::StdoutAppend));
    assert_eq!(Redirect::parse("1>>"), Some(Redirect::StdoutAppend));
    assert_eq!(Redirect::parse("2>"), Some(Redirect::StderrTruncate));
    assert_eq!(Redirect::parse("2>>"), Some(Redirect::StderrAppend));
    assert_eq!(Redirect::parse("3>"), None);
    assert_eq!(Redirect::parse(">>>"), None);
    assert_eq!(Redirect::parse(""), None);
    assert_eq!(Redirect::parse(" >"), None);
}

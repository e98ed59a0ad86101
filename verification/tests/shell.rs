use ben_shell::ast::Argument;
use ben_shell::context::{Context, Environment};
use ben_shell::evaluate::{evaluate_command, CommandStep, Event, Fatal, TransferOutcome};
use ben_shell::interpolate::evaluate_argument;
use ben_shell::machine::{evaluate_program, Machine, StepResult};
use ben_shell::parsing::{parse_command, parse_program, ParseError};
use ben_shell::text::{chars_to_string, str_to_chars};

fn t(s: &str) -> Vec<char> {
    str_to_chars(s)
}

fn s(v: &Vec<char>) -> String {
    chars_to_string(v)
}

fn run_pure(line: &str) -> (String, Option<i32>) {
    let cmd = parse_command(line);
    let ctx = Context::new();
    let env = Environment::new();
    let (_eff, step) = evaluate_command(&cmd, &ctx, &env);
    match step {
        CommandStep::Done(o) => (s(&o.output), o.exit_code),
        _ => panic!("command did not finish"),
    }
}

/// Drives a machine that needs no outside work, collecting both streams.
fn drain(m: &mut Machine) -> (String, String) {
    let mut out = String::new();
    let mut err = String::new();
    loop {
        let (eff, r) = m.step();
        out.push_str(&s(&eff.out));
        err.push_str(&s(&eff.err));
        match r {
            StepResult::Ran => {},
            StepResult::Finished => return (out, err),
            StepResult::NeedsEvent(_) => panic!("unexpected action"),
            StepResult::Failed(f) => panic!("run aborted: {:?}", f),
        }
    }
}

#[test]
fn blank_and_comment_lines_produce_no_statements() {
    let program = parse_program("# a comment\n\n   \n\t\n# another").unwrap();
    assert_eq!(program.0.len(), 0);
}

#[test]
fn parsing_is_deterministic() {
    let source = "let x = literal 1\nfor files each\n\techo $iter\necho done";
    let a = parse_program(source).unwrap();
    let b = parse_program(source).unwrap();
    assert_eq!(a.0.len(), b.0.len());
    let a2 = parse_program(source).unwrap();
    assert_eq!(a.0.len(), a2.0.len());
}

#[test]
fn quoting_splits_name_and_arguments() {
    let cmd = parse_command("cmd \"a b\" c");
    assert_eq!(s(&cmd.name), "cmd");
    assert_eq!(cmd.arguments.len(), 2);
    assert_eq!(s(&cmd.arguments[0].0), "a b");
    assert_eq!(s(&cmd.arguments[1].0), "c");
}

#[test]
fn quotes_close_with_either_character() {
    let cmd = parse_command("cmd \"a b' c");
    assert_eq!(s(&cmd.name), "cmd");
    assert_eq!(cmd.arguments.len(), 2);
    assert_eq!(s(&cmd.arguments[0].0), "a b");
    assert_eq!(s(&cmd.arguments[1].0), "c");
}

#[test]
fn missing_declaration_separator_is_a_parse_error() {
    match parse_program("let x literal 1") {
        Err(ParseError::MissingDeclarationSeparator) => {},
        _ => panic!("expected a parse error"),
    }
}

#[test]
fn escape_n_interpolates_to_two_lines() {
    let ctx = Context::new();
    let env = Environment::new();
    let (out, ok) = evaluate_argument(&Argument(t("a\\nb")), &ctx, &env);
    assert!(ok);
    assert_eq!(s(&out.text), "a\nb");
}

#[test]
fn double_backslash_interpolates_to_one_backslash() {
    let ctx = Context::new();
    let env = Environment::new();
    let (out, ok) = evaluate_argument(&Argument(t("a\\\\b")), &ctx, &env);
    assert!(ok);
    assert_eq!(s(&out.text), "a\\b");
}

#[test]
fn double_backslash_is_single_pass() {
    // the backslash produced by `\\` must not open a new escape: `\\n`
    // stays a backslash followed by the letter n
    let ctx = Context::new();
    let env = Environment::new();
    let (out, ok) = evaluate_argument(&Argument(t("\\\\n")), &ctx, &env);
    assert!(ok);
    assert_eq!(s(&out.text), "\\n");
}

#[test]
fn missing_reference_is_empty_with_one_diagnostic() {
    let ctx = Context::new();
    let env = Environment::new();
    let (out, ok) = evaluate_argument(&Argument(t("$surely_not_bound")), &ctx, &env);
    assert!(ok);
    assert_eq!(s(&out.text), "");
    assert_eq!(out.diagnostics.len(), 1);
    assert_eq!(s(&out.diagnostics[0]), "Could not find reference surely_not_bound");
}

#[test]
fn context_binding_wins_over_environment() {
    let mut ctx = Context::new();
    ctx.insert(t("name"), t("from context"));
    let env = Environment::from_pairs(vec![(
        String::from("name"),
        String::from("from environment"),
    )]);
    let (out, ok) = evaluate_argument(&Argument(t("$name")), &ctx, &env);
    assert!(ok);
    assert_eq!(s(&out.text), "from context");
}

#[test]
fn environment_is_the_fallback() {
    let ctx = Context::new();
    let env = Environment::from_pairs(vec![(String::from("name"), String::from("value"))]);
    let (out, ok) = evaluate_argument(&Argument(t("$name")), &ctx, &env);
    assert!(ok);
    assert_eq!(s(&out.text), "value");
}

#[test]
fn lone_trailing_backslash_cannot_finish() {
    let ctx = Context::new();
    let env = Environment::new();
    let (_out, ok) = evaluate_argument(&Argument(t("oops\\")), &ctx, &env);
    assert!(!ok);
}

#[test]
fn if_equal_picks_then_else_or_empty() {
    assert_eq!(run_pure("if_equal \"1\" \"1\" yes no").0, "yes");
    assert_eq!(run_pure("if_equal \"1\" \"2\" yes no").0, "no");
    assert_eq!(run_pure("if_equal \"1\" \"2\" yes").0, "");
}

#[test]
fn repeat_repeats() {
    assert_eq!(run_pure("repeat \"ab\" 3").0, "ababab");
    assert_eq!(run_pure("repeat \"ab\" 0").0, "");
}

#[test]
fn repeat_accepts_a_leading_plus() {
    assert_eq!(run_pure("repeat \"ab\" +2").0, "abab");
}

#[test]
fn invalid_repeat_count_is_fatal() {
    let cmd = parse_command("repeat ab x1");
    let ctx = Context::new();
    let env = Environment::new();
    let (_eff, step) = evaluate_command(&cmd, &ctx, &env);
    assert!(matches!(step, CommandStep::Failed(Fatal::InvalidRepeatCount)));
}

#[test]
fn before_and_rafter_split() {
    assert_eq!(run_pure("before \"a-b-c\" \"-\"").0, "a");
    assert_eq!(run_pure("rafter \"a-b-c\" \"-\"").0, "c");
    assert_eq!(run_pure("after \"a-b-c\" \"-\"").0, "b-c");
    assert_eq!(run_pure("rbefore \"a-b-c\" \"-\"").0, "a-b");
    assert_eq!(run_pure("before \"abc\" \"-\"").0, "");
}

#[test]
fn splitting_on_an_empty_pattern_matches_at_the_edges() {
    assert_eq!(run_pure("before abc \"\"").0, "");
    assert_eq!(run_pure("after abc \"\"").0, "abc");
    assert_eq!(run_pure("rbefore abc \"\"").0, "abc");
    assert_eq!(run_pure("rafter abc \"\"").0, "");
}

#[test]
fn repeated_spaces_are_one_separator() {
    let cmd = parse_command("cmd  a   b");
    assert_eq!(s(&cmd.name), "cmd");
    assert_eq!(cmd.arguments.len(), 2);
    assert_eq!(s(&cmd.arguments[0].0), "a");
    assert_eq!(s(&cmd.arguments[1].0), "b");
}

#[test]
fn escapes_work_through_a_whole_script() {
    let program = parse_program("echo a\\nb").unwrap();
    let mut m = evaluate_program(program, Environment::new());
    let (out, _err) = drain(&mut m);
    assert_eq!(out, "a\nb\n");
}

#[test]
fn replace_substitutes_literally() {
    assert_eq!(run_pure("replace \"aaa\" \"aa\" \"b\"").0, "ba");
    assert_eq!(run_pure("replace \"a-b\" \"-\" \"=\"").0, "a=b");
}

#[test]
fn concatenate_joins_nonempty_arguments() {
    assert_eq!(run_pure("concatenate a b c").0, "a\nb\nc");
    assert_eq!(run_pure("concatenate_separator \",\" a b").0, "a,b");
}

#[test]
fn trim_strips_whitespace() {
    assert_eq!(run_pure("trim \"  padded  \"").0, "padded");
}

#[test]
fn size_counts_bytes_not_characters() {
    assert_eq!(run_pure("size hello").0, "5");
    // a two-byte character
    assert_eq!(run_pure("size \u{e9}").0, "2");
}

#[test]
fn lines_and_line_selection() {
    assert_eq!(run_pure("lines \"a\\nb\\nc\"").0, "3");
    assert_eq!(run_pure("first_line \"a\\nb\\nc\"").0, "a");
    assert_eq!(run_pure("last_line \"a\\nb\\nc\"").0, "c");
    assert_eq!(run_pure("first_line \"\"").0, "");
}

#[test]
fn literal_returns_first_argument_only() {
    assert_eq!(run_pure("literal one two").0, "one");
    assert_eq!(run_pure("constant values").0, "values");
}

#[test]
fn unknown_command_reports_and_fails_softly() {
    let cmd = parse_command("no_such_thing");
    let ctx = Context::new();
    let env = Environment::new();
    let (eff, step) = evaluate_command(&cmd, &ctx, &env);
    assert_eq!(s(&eff.err), "unknown command 'no_such_thing'\n");
    match step {
        CommandStep::Done(o) => assert_eq!(o.exit_code, Some(1)),
        _ => panic!("expected a completed command"),
    }
}

#[test]
fn missing_argument_is_fatal() {
    let cmd = parse_command("env");
    let ctx = Context::new();
    let env = Environment::new();
    let (_eff, step) = evaluate_command(&cmd, &ctx, &env);
    assert!(matches!(step, CommandStep::Failed(Fatal::MissingArgument)));
}

#[test]
fn env_builtin_reads_the_snapshot() {
    let cmd = parse_command("env PATH_LIKE");
    let ctx = Context::new();
    let env = Environment::from_pairs(vec![(String::from("PATH_LIKE"), String::from("/bin"))]);
    let (_eff, step) = evaluate_command(&cmd, &ctx, &env);
    match step {
        CommandStep::Done(o) => {
            assert_eq!(s(&o.output), "/bin");
            assert_eq!(o.exit_code, Some(0));
        },
        _ => panic!("expected a completed command"),
    }
}

#[test]
fn declaration_binds_evaluated_output() {
    let program = parse_program("let x = literal hello\necho $x").unwrap();
    let mut m = evaluate_program(program, Environment::new());
    let (_eff, r) = m.step();
    assert!(matches!(r, StepResult::Ran));
    assert_eq!(m.ctx.get(&t("x")), Some(t("hello")));
    let (out, _err) = drain(&mut m);
    assert_eq!(out, "hello\n");
}

#[test]
fn exit_code_is_bound_after_a_command() {
    let program = parse_program("no_such_thing\necho $exit_code").unwrap();
    let mut m = evaluate_program(program, Environment::new());
    let (out, err) = drain(&mut m);
    assert_eq!(out, "1\n");
    assert_eq!(err, "unknown command 'no_such_thing'\n");
}

#[test]
fn for_files_reinterpolates_each_iteration() {
    let program = parse_program("for files each\n\techo $iter").unwrap();
    let mut m = evaluate_program(program, Environment::new());
    let (_eff, r) = m.step();
    let action = match r {
        StepResult::NeedsEvent(a) => a,
        _ => panic!("expected a glob request"),
    };
    match action {
        ben_shell::evaluate::Action::Glob { pattern } => assert_eq!(s(&pattern), ""),
        _ => panic!("expected a glob request"),
    }
    let (_eff, r) = m.provide(Event::Matches { result: Ok(vec![t("P1"), t("P2")]) });
    assert!(matches!(r, StepResult::Ran));
    let (out, _err) = drain(&mut m);
    assert_eq!(out, "P1\nP2\n");
}

#[test]
fn for_files_binds_file_too() {
    let program = parse_program("for files each\n\techo $file").unwrap();
    let mut m = evaluate_program(program, Environment::new());
    let (_eff, _r) = m.step();
    let (_eff, _r) = m.provide(Event::Matches { result: Ok(vec![t("a.txt")]) });
    let (out, _err) = drain(&mut m);
    assert_eq!(out, "a.txt\n");
}

#[test]
fn glob_matches_use_forward_slashes() {
    let program = parse_program("for files each\n\techo $iter").unwrap();
    let mut m = evaluate_program(program, Environment::new());
    let (_eff, _r) = m.step();
    let (_eff, _r) = m.provide(Event::Matches { result: Ok(vec![t("a\\b\\c.txt")]) });
    let (out, _err) = drain(&mut m);
    assert_eq!(out, "a/b/c.txt\n");
}

#[test]
fn for_git_tag_binds_tag() {
    let program = parse_program("for git tag each\n\techo $tag!").unwrap();
    let mut m = evaluate_program(program, Environment::new());
    let (_eff, r) = m.step();
    match r {
        StepResult::NeedsEvent(ben_shell::evaluate::Action::Spawn { program, .. }) => {
            assert_eq!(s(&program), "git");
        },
        _ => panic!("expected a spawn request"),
    }
    let (_eff, _r) = m.provide(Event::Finished { output: t("v1\nv2\n"), exit_code: Some(0) });
    let (out, _err) = drain(&mut m);
    assert_eq!(out, "v1!\nv2!\n");
    assert_eq!(m.ctx.get(&t("exit_code")), Some(t("0")));
}

#[test]
fn for_constant_binds_a_singular_name() {
    let program = parse_program("for constant entries each\n\techo $entr").unwrap();
    let mut m = evaluate_program(program, Environment::new());
    let (out, _err) = drain(&mut m);
    // `constant entries` evaluates to the word itself, one line
    assert_eq!(out, "entries\n");
}

#[test]
fn nested_for_blocks_parse_and_run() {
    let program = parse_program(
        "for constant ab each\n\tfor constant cd each\n\t\techo $iter\necho done",
    )
    .unwrap();
    assert_eq!(program.0.len(), 2);
    let mut m = evaluate_program(program, Environment::new());
    let (out, _err) = drain(&mut m);
    assert_eq!(out, "cd\ndone\n");
}

#[test]
fn loop_body_shares_the_context() {
    let program = parse_program("for constant xs each\n\tlet seen = literal $iter\necho $seen")
        .unwrap();
    let mut m = evaluate_program(program, Environment::new());
    let (out, _err) = drain(&mut m);
    assert_eq!(out, "xs\n");
}

#[test]
fn echo_skips_empty_arguments() {
    let program = parse_program("echo a \"\" b").unwrap();
    let mut m = evaluate_program(program, Environment::new());
    let (out, _err) = drain(&mut m);
    assert_eq!(out, "a b\n");
}

#[test]
fn echo_of_nothing_is_a_bare_newline() {
    let program = parse_program("echo").unwrap();
    let mut m = evaluate_program(program, Environment::new());
    let (out, _err) = drain(&mut m);
    assert_eq!(out, "\n");
}

#[test]
fn ctx_reference_dumps_the_store() {
    let program = parse_program("let a = literal 1\necho $ctx").unwrap();
    let mut m = evaluate_program(program, Environment::new());
    let (out, _err) = drain(&mut m);
    assert_eq!(out, "{\"a\": \"1\"}\n");
}

#[test]
fn with_parses_environment_pairs_up_to_run() {
    let cmd = parse_command("with KEY value EMPTY \"\" run prog a \"\" b");
    let ctx = Context::new();
    let env = Environment::new();
    let (_eff, step) = evaluate_command(&cmd, &ctx, &env);
    match step {
        CommandStep::Waiting(ben_shell::evaluate::Action::Spawn { program, arguments, environment }, _) => {
            assert_eq!(s(&program), "prog");
            assert_eq!(arguments.len(), 2);
            assert_eq!(s(&arguments[0]), "a");
            assert_eq!(s(&arguments[1]), "b");
            assert_eq!(environment.len(), 1);
            assert_eq!(s(&environment[0].0), "KEY");
            assert_eq!(s(&environment[0].1), "value");
        },
        _ => panic!("expected a spawn request"),
    }
}

#[test]
fn append_reads_then_writes() {
    let program = parse_program("append notes.txt more").unwrap();
    let mut m = evaluate_program(program, Environment::new());
    let (_eff, r) = m.step();
    match r {
        StepResult::NeedsEvent(ben_shell::evaluate::Action::ReadFile { path }) => {
            assert_eq!(s(&path), "notes.txt");
        },
        _ => panic!("expected a read request"),
    }
    let (_eff, r) = m.provide(Event::FileContent { content: Some(t("start ")) });
    match r {
        StepResult::NeedsEvent(ben_shell::evaluate::Action::WriteFile { path, content }) => {
            assert_eq!(s(&path), "notes.txt");
            assert_eq!(s(&content), "start more");
        },
        _ => panic!("expected a write request"),
    }
    let (_eff, r) = m.provide(Event::Written { ok: true });
    assert!(matches!(r, StepResult::Ran));
    assert_eq!(m.ctx.get(&t("exit_code")), Some(t("0")));
}

#[test]
fn directory_transfer_is_fatal() {
    let program = parse_program("mv a b").unwrap();
    let mut m = evaluate_program(program, Environment::new());
    let (_eff, _r) = m.step();
    let (_eff, r) = m.provide(Event::Transferred { outcome: TransferOutcome::Directory });
    assert!(matches!(r, StepResult::Failed(Fatal::DirectoryUnsupported)));
}

#[test]
fn failed_transfer_still_reports_success_code() {
    let program = parse_program("cp a b").unwrap();
    let mut m = evaluate_program(program, Environment::new());
    let (_eff, _r) = m.step();
    let (eff, r) = m.provide(Event::Transferred {
        outcome: TransferOutcome::Failed(t("denied")),
    });
    assert!(matches!(r, StepResult::Ran));
    assert_eq!(s(&eff.err), "error copying file: denied\n");
    assert_eq!(m.ctx.get(&t("exit_code")), Some(t("0")));
}

#[test]
fn removal_failure_reports_and_continues() {
    let program = parse_program("rm missing").unwrap();
    let mut m = evaluate_program(program, Environment::new());
    let (_eff, _r) = m.step();
    let (eff, r) = m.provide(Event::Removed { ok: false });
    assert!(matches!(r, StepResult::Ran));
    assert_eq!(s(&eff.err), "unknown path item to remove\n");
    assert_eq!(m.ctx.get(&t("exit_code")), Some(t("1")));
}

#[test]
fn read_failure_reports_and_continues() {
    let program = parse_program("let data = read gone.txt\necho [$data]").unwrap();
    let mut m = evaluate_program(program, Environment::new());
    let (_eff, _r) = m.step();
    let (eff, r) = m.provide(Event::FileContent { content: None });
    assert!(matches!(r, StepResult::Ran));
    assert_eq!(s(&eff.err), "Could not read gone.txt\n");
    let (out, _err) = drain(&mut m);
    assert_eq!(out, "[]\n");
    assert_eq!(m.ctx.get(&t("exit_code")), Some(t("1")));
}

#[test]
fn concatenate_drops_empty_middles() {
    // only the non-empty evaluated arguments are joined
    assert_eq!(run_pure("concatenate a \"\" b").0, "a\nb");
    assert_eq!(run_pure("concatenate_separator \",\" a \"\" b").0, "a,b");
    assert_eq!(run_pure("concatenate \"\" \"\"").0, "");
}

#[test]
fn echo_keeps_the_space_of_a_skipped_first_argument() {
    let program = parse_program("echo \"\" b").unwrap();
    let mut m = evaluate_program(program, Environment::new());
    let (out, _err) = drain(&mut m);
    assert_eq!(out, " b\n");
}

#[test]
fn empty_iterator_output_still_runs_the_body_once() {
    let program = parse_program("for noop each\n\techo [$iter]").unwrap();
    let mut m = evaluate_program(program, Environment::new());
    let (out, _err) = drain(&mut m);
    assert_eq!(out, "[]\n");
}

#[test]
fn unterminated_trailing_text_is_a_final_token() {
    let cmd = parse_command("echo \"abc");
    assert_eq!(s(&cmd.name), "echo");
    assert_eq!(cmd.arguments.len(), 1);
    assert_eq!(s(&cmd.arguments[0].0), "abc");
}

#[test]
fn a_child_without_an_exit_code_binds_nothing() {
    let program = parse_program("git status").unwrap();
    let mut m = evaluate_program(program, Environment::new());
    let (_eff, _r) = m.step();
    let (_eff, r) = m.provide(Event::Finished { output: t("fine"), exit_code: None });
    assert!(matches!(r, StepResult::Ran));
    assert_eq!(m.ctx.get(&t("exit_code")), None);
}

#[test]
fn only_the_one_trailing_empty_record_is_dropped() {
    // "a\n\n" ends in a newline, so exactly one empty record goes; the
    // blank middle line is iterated
    let program = parse_program("for git tag each\n\techo [$iter]").unwrap();
    let mut m = evaluate_program(program, Environment::new());
    let (_eff, _r) = m.step();
    let (_eff, _r) = m.provide(Event::Finished { output: t("a\n\n"), exit_code: Some(0) });
    let (out, _err) = drain(&mut m);
    assert_eq!(out, "[a]\n[]\n");
}

#[test]
fn trailing_spaces_on_iterated_lines_are_kept() {
    let program = parse_program("for git tag each\n\techo [$iter]").unwrap();
    let mut m = evaluate_program(program, Environment::new());
    let (_eff, _r) = m.step();
    let (_eff, _r) = m.provide(Event::Finished { output: t("a \n"), exit_code: Some(0) });
    let (out, _err) = drain(&mut m);
    assert_eq!(out, "[a ]\n");
}

#[test]
fn iteration_lines_strip_carriage_returns() {
    let program = parse_program("for git tag each\n\techo $iter").unwrap();
    let mut m = evaluate_program(program, Environment::new());
    let (_eff, _r) = m.step();
    let (_eff, _r) = m.provide(Event::Finished {
        output: t("a\r\nb\r\n"),
        exit_code: Some(0),
    });
    let (out, _err) = drain(&mut m);
    assert_eq!(out, "a\nb\n");
}

#[test]
fn depluralise_strips_plural_suffixes() {
    assert_eq!(ben_shell::builtins::depluralise("files"), Some(String::from("file")));
    assert_eq!(ben_shell::builtins::depluralise("entries"), Some(String::from("entr")));
    assert_eq!(ben_shell::builtins::depluralise("sheep"), None);
}

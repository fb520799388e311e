use git_lineage::app::{App, PanelFocus};
use git_lineage::tasks::Key;
use git_lineage::test_runner::{CommandType, RunStep, RunTally, TestRunner};

#[test]
fn test_parse_simple_script() {
    let content = r#"
# Test script
key:down
char:a
wait:100
assert:active_panel:Navigator
"#;

    let runner = TestRunner::from_string(content).unwrap();
    assert_eq!(runner.script.commands.len(), 4);

    assert!(matches!(runner.script.commands[0].command_type, CommandType::Key));
    assert_eq!(runner.script.commands[0].value, "down");

    assert!(matches!(runner.script.commands[1].command_type, CommandType::Char));
    assert_eq!(runner.script.commands[1].value, "a");

    assert!(matches!(runner.script.commands[2].command_type, CommandType::Wait));
    assert_eq!(runner.script.commands[2].value, "100");

    assert!(matches!(runner.script.commands[3].command_type, CommandType::Assert));
    assert_eq!(runner.script.commands[3].value, "active_panel:Navigator");
}

#[test]
fn test_parse_immediate_mode() {
    let content = r#"
key:down
immediate
key:up
key:down
settle_mode
key:enter
"#;

    let runner = TestRunner::from_string(content).unwrap();
    assert_eq!(runner.script.commands.len(), 4);

    assert!(!runner.script.commands[0].immediate);
    assert!(runner.script.commands[1].immediate);
    assert!(runner.script.commands[2].immediate);
    assert!(!runner.script.commands[3].immediate);
}

#[test]
fn test_parse_key_events() {
    let runner = TestRunner::new();

    assert_eq!(runner.parse_key_event("tab").unwrap(), Key::Tab);
    assert_eq!(runner.parse_key_event("enter").unwrap(), Key::Enter);
    assert_eq!(runner.parse_key_event("a").unwrap(), Key::Char('a'));
}

#[test]
fn test_assertion_evaluation() {
    let mut app = App::new();
    app.ui.active_panel = PanelFocus::History;
    app.should_quit = false;
    app.inspector.cursor_line = 5;

    let runner = TestRunner::new();

    assert!(runner.evaluate_assertion(&app, "active_panel:History").unwrap());
    assert!(!runner.evaluate_assertion(&app, "active_panel:Navigator").unwrap());

    assert!(runner.evaluate_assertion(&app, "should_quit:false").unwrap());
    assert!(!runner.evaluate_assertion(&app, "should_quit:true").unwrap());

    assert!(runner.evaluate_assertion(&app, "cursor_line:5").unwrap());
    assert!(!runner.evaluate_assertion(&app, "cursor_line:10").unwrap());
}

#[test]
fn invalid_line_is_reported_with_its_number() {
    let err = TestRunner::from_string("key:up\n  bogus  \n").unwrap_err();
    assert_eq!(err, "Invalid command on line 2: bogus");
}

#[test]
fn directives_and_comments() {
    let runner = TestRunner::from_string("no_initial_settle\n# note\n\nwait\nsettle\nscreenshot:a.txt\n").unwrap();
    assert!(!runner.script.initial_settle);
    assert_eq!(runner.script.commands.len(), 3);
    assert!(matches!(runner.script.commands[0].command_type, CommandType::Wait));
    assert_eq!(runner.script.commands[0].value, "");
    assert!(matches!(runner.script.commands[2].command_type, CommandType::Screenshot));
    assert_eq!(runner.script.commands[2].value, "a.txt");
    assert!(runner.script.initial_settle == false);
}

#[test]
fn wait_commands_always_wait() {
    let runner = TestRunner::from_string("immediate\nwait:5\nkey:q\n").unwrap();
    assert!(!runner.script.commands[0].immediate);
    assert!(runner.script.commands[1].immediate);
    assert!(!runner.settles_after(0));
    assert!(!runner.settles_after(1));
}

#[test]
fn key_names_are_case_insensitive_and_unknown_keys_fail() {
    let runner = TestRunner::new();
    assert_eq!(runner.parse_key_event("PageDown").unwrap(), Key::PageDown);
    assert_eq!(runner.parse_key_event("ESCAPE").unwrap(), Key::Esc);
    assert_eq!(runner.parse_key_event("space").unwrap(), Key::Char(' '));
    assert_eq!(runner.parse_key_event("nope").unwrap_err(), "Unknown key: nope");
    assert!(runner.parse_key_event("é").is_err());
}

#[test]
fn assertion_errors() {
    let app = App::new();
    let runner = TestRunner::new();
    assert_eq!(
        runner.evaluate_assertion(&app, "no_colon").unwrap_err(),
        "Assertion must be in format 'property:value'"
    );
    assert_eq!(
        runner.evaluate_assertion(&app, "should_quit:maybe").unwrap_err(),
        "should_quit expects boolean value"
    );
    assert_eq!(
        runner.evaluate_assertion(&app, "cursor_line:x").unwrap_err(),
        "cursor_line expects numeric value"
    );
    assert_eq!(
        runner.evaluate_assertion(&app, "colour:red").unwrap_err(),
        "Unknown assertion property: colour"
    );
    assert!(runner.evaluate_assertion(&app, "status_contains:ead").unwrap());
    assert!(runner.evaluate_assertion(&app, "cursor_line:+0").unwrap());
    assert!(runner.evaluate_assertion(&app, "selected_file:none").unwrap());
    assert!(runner.evaluate_assertion(&app, "is_searching:false").unwrap());
    assert!(runner.evaluate_assertion(&app, "visible_files_count:0").unwrap());
}

#[test]
fn planning_commands() {
    let runner = TestRunner::from_string("key:down\nchar:x\nwait\nwait:20\nwait:soon\nkey:bad\n").unwrap();
    assert!(matches!(runner.plan_command(0), RunStep::Key(Key::Down)));
    assert!(matches!(runner.plan_command(1), RunStep::Char('x')));
    assert!(matches!(runner.plan_command(2), RunStep::Settle));
    assert!(matches!(runner.plan_command(3), RunStep::Sleep(20)));
    match runner.plan_command(4) {
        RunStep::Abort(e) => assert_eq!(e, "Invalid wait duration: soon"),
        _ => panic!("expected an error"),
    }
    match runner.plan_command(5) {
        RunStep::Abort(e) => assert_eq!(e, "Unknown key: bad"),
        _ => panic!("expected an error"),
    }
}

#[test]
fn tally_of_a_run() {
    let mut t = RunTally::new();
    t.record_event(Ok(()), "Key event failed: ");
    t.record_assertion("a:b", Ok(true));
    t.record_assertion("c:d", Ok(false));
    t.record_assertion("e:f", Err("bad".to_string()));
    let r = t.finish(12);
    assert_eq!(r.events_processed, 1);
    assert_eq!(r.assertions_passed, 1);
    assert_eq!(r.assertions_failed, 2);
    assert_eq!(r.errors, vec!["Assertion failed: c:d".to_string(), "Assertion error: bad".to_string()]);
    assert!(!r.success);
    let ok = RunTally::new().finish(0);
    assert!(ok.success);
}

#[test]
fn trailing_comments_are_not_part_of_a_command() {
    let content = "# Comments start with #\nkey:Tab                 # Press Tab\nkey:/   # Press the '/' key\nkey:#\nwait                    # settle\nassert:active_panel:Navigator  # focus\n";
    let runner = TestRunner::from_string(content).unwrap();
    let cmds = &runner.script.commands;
    assert_eq!(cmds.len(), 5);
    assert_eq!(cmds[0].command_type, CommandType::Key);
    assert_eq!(cmds[0].value, "Tab");
    assert_eq!(cmds[1].value, "/");
    assert_eq!(cmds[2].value, "#");
    assert_eq!(cmds[3].command_type, CommandType::Wait);
    assert_eq!(cmds[3].value, "");
    assert_eq!(cmds[4].value, "active_panel:Navigator");
    assert!(matches!(runner.plan_command(0), RunStep::Key(Key::Tab)));
}

#[test]
fn timed_waits_take_a_number_with_or_without_ms() {
    let runner = TestRunner::from_string("wait:500ms\nwait:250\nwait:ms\nwait:5s\n").unwrap();
    assert!(matches!(runner.plan_command(0), RunStep::Sleep(500)));
    assert!(matches!(runner.plan_command(1), RunStep::Sleep(250)));
    match runner.plan_command(2) {
        RunStep::Abort(e) => assert_eq!(e, "Invalid wait duration: ms"),
        _ => panic!("expected an abort"),
    }
    match runner.plan_command(3) {
        RunStep::Abort(e) => assert_eq!(e, "Invalid wait duration: 5s"),
        _ => panic!("expected an abort"),
    }
}

#[test]
fn screenshot_verdicts_follow_the_mode_and_the_file() {
    let mut runner = TestRunner::from_string("screenshot:a.txt\n").unwrap();
    assert_eq!(
        runner.screenshot_verdict("screen", Some("screen"), "dir/a.txt"),
        Ok("✅ Screenshot verification passed: dir/a.txt".to_string())
    );
    assert_eq!(
        runner.screenshot_verdict("screen", Some("screen "), "a.txt"),
        Err("❌ Screenshot verification failed: a.txt. Content differs from expected. Use --overwrite to update.".to_string())
    );
    assert_eq!(
        runner.screenshot_verdict("screen", None, "a.txt"),
        Err("❌ Screenshot verification failed: a.txt does not exist. Use --overwrite to create.".to_string())
    );
    runner.overwrite_mode = true;
    assert_eq!(
        runner.screenshot_verdict("screen", None, "a.txt"),
        Ok("📸 Screenshot saved to: a.txt".to_string())
    );
}

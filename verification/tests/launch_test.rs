use mask_parser::extract::PlatformFamily;
use mask_parser::launch::{interpreter, invocation, switch_value, variables, Invocation, Variable};
use mask_parser::maskfile::{Command, NamedFlag, OptionalArg, RequiredArg, Script};

fn pair(program: &str, option: &str) -> (String, String) {
    (program.to_string(), option.to_string())
}

#[test]
fn interpreters_by_executor() {
    for platform in [PlatformFamily::Posix, PlatformFamily::Windows] {
        assert_eq!(interpreter("js", platform), pair("node", "-e"));
        assert_eq!(interpreter("javascript", platform), pair("node", "-e"));
        assert_eq!(interpreter("py", platform), pair("python", "-c"));
        assert_eq!(interpreter("python", platform), pair("python", "-c"));
        assert_eq!(interpreter("rb", platform), pair("ruby", "-e"));
        assert_eq!(interpreter("ruby", platform), pair("ruby", "-e"));
        assert_eq!(interpreter("php", platform), pair("php", "-r"));
        assert_eq!(interpreter("go", platform), pair("go-mask", "-c"));
        assert_eq!(interpreter("golang", platform), pair("go-mask", "-c"));
    }
}

#[test]
fn other_executors_are_shells_that_name_their_program() {
    for executor in ["sh", "bash", "zsh", "fish", "dash", "JS", "node"] {
        assert_eq!(interpreter(executor, PlatformFamily::Posix), pair(executor, "-c"));
        assert_eq!(interpreter(executor, PlatformFamily::Windows), pair(executor, "-c"));
    }
}

#[test]
fn windows_shells_have_their_programs_on_windows_only() {
    assert_eq!(interpreter("cmd", PlatformFamily::Windows), pair("cmd.exe", "/c"));
    assert_eq!(interpreter("batch", PlatformFamily::Windows), pair("cmd.exe", "/c"));
    assert_eq!(interpreter("powershell", PlatformFamily::Windows), pair("powershell.exe", "-c"));
    assert_eq!(interpreter("cmd", PlatformFamily::Posix), pair("cmd", "-c"));
    assert_eq!(interpreter("batch", PlatformFamily::Posix), pair("batch", "-c"));
    assert_eq!(interpreter("powershell", PlatformFamily::Posix), pair("powershell", "-c"));
}

#[test]
fn invocation_of_a_script() {
    let script = Script { executor: "js".to_string(), source: "console.log(1)\n".to_string() };
    assert_eq!(
        invocation(&script, PlatformFamily::Posix),
        Some(Invocation {
            program: "node".to_string(),
            option: "-e".to_string(),
            source: "console.log(1)\n".to_string(),
        })
    );
    let script = Script { executor: "bash".to_string(), source: "echo hi\n".to_string() };
    assert_eq!(
        invocation(&script, PlatformFamily::Posix),
        Some(Invocation {
            program: "bash".to_string(),
            option: "-c".to_string(),
            source: "echo hi\n".to_string(),
        })
    );
}

#[test]
fn no_invocation_without_source_or_executor() {
    let script = |executor: &str, source: &str| Script {
        executor: executor.to_string(),
        source: source.to_string(),
    };
    assert_eq!(invocation(&script("", "echo hi\n"), PlatformFamily::Posix), None);
    assert_eq!(invocation(&script("bash", ""), PlatformFamily::Posix), None);
    assert_eq!(invocation(&script("", ""), PlatformFamily::Windows), None);
}

#[test]
fn switch_that_was_given_is_true() {
    assert_eq!(switch_value(true), "true");
    assert_eq!(switch_value(false), "");
}

fn variable(name: &str, value: &str) -> Variable {
    Variable { name: name.to_string(), value: value.to_string() }
}

fn strings(values: &[&str]) -> Vec<String> {
    values.iter().map(|v| v.to_string()).collect()
}

fn sample_command() -> Command {
    let mut c = Command::new(2);
    c.required_args.push(RequiredArg::new("file".to_string()));
    c.required_args.push(RequiredArg::new("test_case".to_string()));
    c.optional_args.push(OptionalArg::new("mode".to_string()));
    c.named_flags.push(NamedFlag { name: "port".to_string(), takes_value: true, ..NamedFlag::new() });
    c.named_flags.push(NamedFlag { name: "watch".to_string(), ..NamedFlag::new() });
    c.named_flags.push(NamedFlag::verbose());
    c
}

#[test]
fn variables_carry_arguments_and_flags() {
    let vars = variables(
        &sample_command(),
        &strings(&["the_file", "some_test_case"]),
        &strings(&["fast"]),
        &strings(&["1234", "true", "true"]),
    );
    assert_eq!(
        vars,
        vec![
            variable("file", "the_file"),
            variable("test_case", "some_test_case"),
            variable("mode", "fast"),
            variable("port", "1234"),
            variable("watch", "true"),
            variable("verbose", "true"),
        ]
    );
}

#[test]
fn flags_without_a_value_get_no_variable_but_arguments_do() {
    let vars = variables(
        &sample_command(),
        &strings(&["", "x"]),
        &strings(&[""]),
        &strings(&["", "", "true"]),
    );
    assert_eq!(
        vars,
        vec![
            variable("file", ""),
            variable("test_case", "x"),
            variable("mode", ""),
            variable("verbose", "true"),
        ]
    );
}

#[test]
fn command_without_arguments_has_no_variables() {
    assert_eq!(variables(&Command::new(2), &vec![], &vec![], &vec![]), vec![]);
}

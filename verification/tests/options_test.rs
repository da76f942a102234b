use mask_parser::extract::PlatformFamily;
use mask_parser::maskfile::NamedFlag;
use mask_parser::options::apply_setting;
use mask_parser::parse;

fn configured(settings: &[&str]) -> NamedFlag {
    let mut flag = NamedFlag::new();
    for setting in settings {
        apply_setting(&mut flag, setting);
    }
    flag
}

#[test]
fn new_flag_is_blank() {
    let flag = NamedFlag::new();
    assert_eq!(flag.name, "");
    assert_eq!(flag.description, "");
    assert_eq!(flag.short, "");
    assert_eq!(flag.long, "");
    assert!(!flag.multiple);
    assert!(!flag.takes_value);
    assert!(!flag.validate_as_number);
    assert!(!flag.required);
}

#[test]
fn desc_sets_the_description() {
    let flag = configured(&["desc: Which port to serve on"]);
    assert_eq!(flag.description, "Which port to serve on");
    assert_eq!(flag, NamedFlag { description: "Which port to serve on".to_string(), ..NamedFlag::new() });
}

#[test]
fn only_the_first_colon_splits() {
    let flag = configured(&["desc: a: b : c"]);
    assert_eq!(flag.description, "a: b : c");
}

#[test]
fn key_and_value_are_trimmed() {
    let flag = configured(&["  desc  :   padded   "]);
    assert_eq!(flag.description, "padded");
}

#[test]
fn type_string_takes_a_value() {
    let flag = configured(&["type: string"]);
    assert!(flag.takes_value);
    assert!(!flag.validate_as_number);
}

#[test]
fn type_number_takes_a_value_and_validates_it() {
    let flag = configured(&["type: number"]);
    assert!(flag.takes_value);
    assert!(flag.validate_as_number);
}

#[test]
fn other_type_changes_nothing() {
    assert_eq!(configured(&["type: boolean"]), NamedFlag::new());
    assert_eq!(configured(&["type"]), NamedFlag::new());
}

#[test]
fn flags_give_short_and_long_form() {
    let flag = configured(&["flags: -p --port"]);
    assert_eq!(flag.short, "p");
    assert_eq!(flag.long, "port");
    assert_eq!(
        flag,
        NamedFlag { short: "p".to_string(), long: "port".to_string(), ..NamedFlag::new() }
    );
}

#[test]
fn flags_in_the_other_order() {
    let flag = configured(&["flags: --port -p"]);
    assert_eq!(flag.short, "p");
    assert_eq!(flag.long, "port");
}

#[test]
fn flags_are_split_at_any_whitespace() {
    let flag = configured(&["flags:   -p \t  --port  "]);
    assert_eq!(flag.short, "p");
    assert_eq!(flag.long, "port");
}

#[test]
fn short_form_is_one_character() {
    assert_eq!(configured(&["flags: -port"]).short, "p");
    assert_eq!(configured(&["flags: -"]).short, "");
    assert_eq!(configured(&["flags: -é"]).short, "é");
}

#[test]
fn long_form_is_the_text_behind_the_dashes() {
    assert_eq!(configured(&["flags: --dry-run"]).long, "dry-run");
    assert_eq!(configured(&["flags: --"]).long, "");
    assert_eq!(configured(&["flags: --a--b"]).long, "a--b");
}

#[test]
fn words_without_a_dash_are_passed_over() {
    assert_eq!(configured(&["flags: p port"]), NamedFlag::new());
}

#[test]
fn required_needs_no_value() {
    assert!(configured(&["required"]).required);
    assert!(configured(&["required:"]).required);
    assert!(configured(&["required: false"]).required);
    assert!(!configured(&["desc: required"]).required);
}

#[test]
fn setting_without_a_colon_has_an_empty_value() {
    let flag = configured(&["desc"]);
    assert_eq!(flag.description, "");
    let flag = configured(&["desc: something", "desc"]);
    assert_eq!(flag.description, "");
}

#[test]
fn unknown_keys_are_ignored() {
    assert_eq!(configured(&["choices: a, b", "default: 3", ": x", ""]), NamedFlag::new());
}

#[test]
fn settings_add_up() {
    let flag = configured(&[
        "flags: -p --port",
        "type: number",
        "desc: Which port to serve on",
        "required",
    ]);
    assert_eq!(
        flag,
        NamedFlag {
            name: "".to_string(),
            description: "Which port to serve on".to_string(),
            short: "p".to_string(),
            long: "port".to_string(),
            multiple: false,
            takes_value: true,
            validate_as_number: true,
            required: true,
        }
    );
}

#[test]
fn options_list_declares_a_named_flag() {
    let maskfile = parse(
        r#"
## serve

> Serve the app

**OPTIONS**
* port
    * flags: -p --port
    * type: string
    * desc: Which port to serve on

~~~bash
echo "Serving on port $port"
~~~
"#
        .to_string(),
        PlatformFamily::Posix,
    );
    assert_eq!(maskfile.commands.len(), 1);
    let serve = &maskfile.commands[0];
    assert_eq!(serve.name, "serve");
    assert_eq!(serve.named_flags.len(), 2);
    assert_eq!(
        serve.named_flags[0],
        NamedFlag {
            name: "port".to_string(),
            description: "Which port to serve on".to_string(),
            short: "p".to_string(),
            long: "port".to_string(),
            multiple: false,
            takes_value: true,
            validate_as_number: false,
            required: false,
        }
    );
    assert_eq!(serve.named_flags[1].name, "verbose");
}

#[test]
fn options_list_with_several_flags() {
    let maskfile = parse(
        r#"
## add

**OPTIONS**
* a
    * flags: --a
    * type: number
    * required
* b
    * flags: -b --b
    * type: number
    * desc: The second number

~~~bash
echo $(($a + $b))
~~~
"#
        .to_string(),
        PlatformFamily::Posix,
    );
    let add = &maskfile.commands[0];
    let names: Vec<&str> = add.named_flags.iter().map(|f| f.name.as_str()).collect();
    assert_eq!(names, vec!["a", "b", "verbose"]);
    assert_eq!(add.named_flags[0].long, "a");
    assert_eq!(add.named_flags[0].short, "");
    assert!(add.named_flags[0].required);
    assert!(add.named_flags[0].validate_as_number);
    assert_eq!(add.named_flags[1].short, "b");
    assert_eq!(add.named_flags[1].description, "The second number");
    assert!(!add.named_flags[1].required);
}

#[test]
fn list_without_the_options_marker_declares_nothing() {
    let maskfile = parse(
        r#"
## serve

Notes:
* port
    * flags: -p --port

~~~bash
echo hi
~~~
"#
        .to_string(),
        PlatformFamily::Posix,
    );
    let serve = &maskfile.commands[0];
    assert_eq!(serve.named_flags.len(), 1);
    assert_eq!(serve.named_flags[0].name, "verbose");
}

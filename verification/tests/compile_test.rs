use mask_parser::extract::PlatformFamily;
use mask_parser::maskfile::{Command, Maskfile};
use mask_parser::parse;
use mask_parser::parser::{build_command_structure, flat_commands};

fn compiled(text: &str) -> Maskfile {
    parse(text.to_string(), PlatformFamily::Posix)
}

fn names(commands: &Vec<Command>) -> Vec<&str> {
    commands.iter().map(|c| c.name.as_str()).collect()
}

#[test]
fn empty_document_compiles_to_an_empty_maskfile() {
    let maskfile = compiled("");
    assert_eq!(
        maskfile,
        Maskfile { title: "".to_string(), description: "".to_string(), commands: vec![] }
    );
}

#[test]
fn document_with_only_a_title() {
    let maskfile = compiled("# Tasks\n\n> What there is to do\n");
    assert_eq!(maskfile.title, "Tasks");
    assert_eq!(maskfile.description, "What there is to do");
    assert!(maskfile.commands.is_empty());
}

#[test]
fn as_many_commands_as_headings_with_a_code_block() {
    let maskfile = compiled(
        r#"
# Tasks

## one

~~~sh
echo 1
~~~

## two

```bash
echo 2
```

## three

~~~python
print(3)
~~~
"#,
    );
    assert_eq!(maskfile.commands.len(), 3);
    assert_eq!(names(&maskfile.commands), vec!["one", "two", "three"]);
    assert!(maskfile.commands.iter().all(|c| c.script.is_some()));
    assert!(maskfile.commands.iter().all(|c| c.level == 2));
    let executors: Vec<&str> = maskfile
        .commands
        .iter()
        .map(|c| c.script.as_ref().unwrap().executor.as_str())
        .collect();
    assert_eq!(executors, vec!["sh", "bash", "python"]);
}

#[test]
fn title_between_two_commands_hides_the_second() {
    let maskfile = compiled("## a\n~~~sh\nx\n~~~\n# Title\n## b\n~~~sh\ny\n~~~\n");
    assert_eq!(names(&maskfile.commands), vec!["a"]);
    assert_eq!(maskfile.title, "");
}

#[test]
fn command_without_code_block_is_absent() {
    let maskfile = compiled("# Tasks\n\n## idle\n\nNothing to run here.\n");
    assert!(maskfile.commands.is_empty());
}

#[test]
fn command_with_one_subcommand_that_has_a_script_is_present() {
    let maskfile = compiled("# Tasks\n\n## idle\n\n### idle child\n\n~~~sh\necho child\n~~~\n");
    assert_eq!(maskfile.commands.len(), 1);
    let idle = &maskfile.commands[0];
    assert_eq!(idle.name, "idle");
    assert_eq!(idle.script, None);
    assert_eq!(idle.subcommands.len(), 1);
    assert_eq!(idle.subcommands[0].name, "child");
    assert_eq!(idle.subcommands[0].level, 3);
    assert!(idle.subcommands[0].script.is_some());
}

#[test]
fn subcommand_name_loses_the_parent_prefix() {
    let maskfile = compiled(
        "## parent\n### parent subcommand\n~~~bash\necho hey\n~~~\n### other\n~~~bash\necho\n~~~\n",
    );
    assert_eq!(names(&maskfile.commands[0].subcommands), vec!["subcommand", "other"]);
}

#[test]
fn three_levels_of_headings() {
    let maskfile = compiled(
        r#"
## services
### start
#### all
~~~bash
echo "Start all services"
~~~
"#,
    );
    assert_eq!(names(&maskfile.commands), vec!["services"]);
    let start = &maskfile.commands[0].subcommands[0];
    assert_eq!(start.name, "start");
    assert_eq!(start.script, None);
    assert_eq!(start.subcommands[0].name, "all");
    assert_eq!(start.subcommands[0].script.as_ref().unwrap().source, "echo \"Start all services\"\n");
}

#[test]
fn full_path_in_nested_headings() {
    let maskfile = compiled(
        r#"
## services

> Commands that start and stop services

### services start (service_name)

> Start a service.

~~~bash
echo "Starting service $service_name"
~~~

### services stop (service_name)

> Stop a service.

~~~bash
echo "Stopping service $service_name"
~~~
"#,
    );
    let services = &maskfile.commands[0];
    assert_eq!(services.description, "Commands that start and stop services");
    assert_eq!(names(&services.subcommands), vec!["start", "stop"]);
    assert_eq!(services.subcommands[0].required_args[0].name, "service_name");
    assert_eq!(services.subcommands[1].description, "Stop a service.");
}

#[test]
fn every_command_with_a_script_has_the_verbose_flag_last() {
    let root = build_command_structure(
        r#"
# Tasks

## serve

**OPTIONS**
* port
    * flags: -p --port
    * type: number

~~~bash
echo $port
~~~

## group

### group leaf

~~~sh
true
~~~
"#
        .to_string(),
        PlatformFamily::Posix,
    );
    fn check(c: &Command) {
        if c.script.is_some() {
            let last = c.named_flags.last().expect("a flag");
            assert_eq!(last.name, "verbose");
            assert_eq!(last.short, "v");
            assert_eq!(last.long, "verbose");
            assert!(!last.takes_value);
        } else {
            assert!(c.named_flags.iter().all(|f| f.name != "verbose"));
        }
        for sub in &c.subcommands {
            assert!(sub.level > c.level);
            assert!(sub.script.is_some() || !sub.subcommands.is_empty());
            check(sub);
        }
    }
    check(&root);
    assert_eq!(root.subcommands[0].named_flags.len(), 2);
    assert_eq!(root.subcommands[1].subcommands[0].named_flags.len(), 1);
}

#[test]
fn second_title_ends_the_commands() {
    let first = "\n## start\n~~~bash\necho \"start\"\n~~~\n";
    let second = "\n# invalid level 1 heading\n\n## ignored\n~~~bash\necho \"ignored\"\n~~~\n";
    let whole = compiled(&format!("{}{}", first, second));
    assert_eq!(whole, compiled(first));
    assert_eq!(names(&whole.commands), vec!["start"]);
}

#[test]
fn compiling_twice_gives_the_same_maskfile() {
    let text = "# T\n\n## a (x) [y]\n\n> d\n\n**OPTIONS**\n* f\n    * flags: -f\n\n~~~sh\necho\n~~~\n\n### a b\n~~~js\n1\n~~~\n";
    assert_eq!(compiled(text), compiled(text));
    assert_eq!(
        parse(text.to_string(), PlatformFamily::Windows),
        parse(text.to_string(), PlatformFamily::Windows)
    );
}

#[test]
fn platform_decides_between_parallel_scripts() {
    let text = "\n## success\n\n~~~sh\nexit 0\n~~~\n\n~~~powershell\nExit 0\n~~~\n";
    let posix = parse(text.to_string(), PlatformFamily::Posix);
    let windows = parse(text.to_string(), PlatformFamily::Windows);
    assert_eq!(posix.commands[0].script.as_ref().unwrap().executor, "sh");
    assert_eq!(posix.commands[0].script.as_ref().unwrap().source, "exit 0\n");
    assert_eq!(windows.commands[0].script.as_ref().unwrap().executor, "powershell");
    assert_eq!(windows.commands[0].script.as_ref().unwrap().source, "Exit 0\n");
}

#[test]
fn code_block_without_language_tag_has_an_empty_executor() {
    let maskfile = compiled("\n## start\n~~~\necho \"system, online\"\n~~~\n");
    let script = maskfile.commands[0].script.as_ref().unwrap();
    assert_eq!(script.executor, "");
    assert_eq!(script.source, "echo \"system, online\"\n");
}

#[test]
fn raw_markup_in_a_section_does_no_harm() {
    let maskfile = compiled("\n## foo\n\n<!-- a few more details -->\n");
    assert!(maskfile.commands.is_empty());
}

#[test]
fn setext_headings_count_as_headings() {
    let maskfile = compiled("Tasks\n=====\n\nbuild\n-----\n\n~~~sh\nmake\n~~~\n");
    assert_eq!(maskfile.title, "Tasks");
    assert_eq!(names(&maskfile.commands), vec!["build"]);
}

#[test]
fn flat_commands_are_in_document_order() {
    let commands = flat_commands(
        "# T\n## a\n### a b\n~~~sh\n1\n~~~\n## c\n",
        PlatformFamily::Posix,
    );
    assert_eq!(names(&commands), vec!["T", "a", "a b", "c"]);
    let levels: Vec<u8> = commands.iter().map(|c| c.level).collect();
    assert_eq!(levels, vec![1, 2, 3, 2]);
    assert!(commands.iter().all(|c| c.subcommands.is_empty()));
}

#[test]
fn strikethrough_is_read_as_markup() {
    // the markup opens a construct, which clears the text read before it
    let commands = flat_commands("## a ~~b~~ c\n", PlatformFamily::Posix);
    assert_eq!(commands[1].name, "b c");
}

fn assert_well_formed(c: &Command) {
    assert!(1 <= c.level && c.level <= 6);
    for flag in &c.named_flags {
        assert!(flag.short.chars().count() <= 1);
    }
    if c.script.is_some() {
        assert_eq!(c.named_flags.last().map(|f| f.name.as_str()), Some("verbose"));
    }
    for sub in &c.subcommands {
        assert!(sub.level > c.level);
        assert!(sub.script.is_some() || !sub.subcommands.is_empty());
        assert_well_formed(sub);
    }
}

#[test]
fn odd_documents_compile_to_well_formed_trees() {
    let documents = [
        "",
        "\n\n\n",
        "#",
        "# \n## \n### \n",
        "###### deep\n~~~sh\nx\n~~~\n",
        "####### seven hashes are no heading\n",
        "## a\n#### skipped level\n~~~sh\nx\n~~~\n### back up\n~~~sh\ny\n~~~\n",
        "### starts low\n~~~sh\nx\n~~~\n## then higher\n~~~sh\ny\n~~~\n",
        "## cmd (a) (b) [c] ((d)) [[e]] (f [g]) [h (i)]\n~~~sh\nx\n~~~\n",
        "## unclosed (arg\n~~~sh\nx\n~~~\n",
        "## *emphasis* and `code` and <b>markup</b> (arg)\n~~~sh\nx\n~~~\n",
        "## a\n**OPTIONS**\n* f\n    * flags: -f --ff extra -g\n    * type: number\n    * desc: a & b < c > d [e](f) _g_ *h*\n    * required\n        * deeper\n            * deepest\n~~~sh\nx\n~~~\n",
        "## a\nOPTIONS\n* f\n    * flags: -f\n* g\n* h\n    * flags: --h\n\n1. ordered\n2. list\n\n~~~sh\nx\n~~~\n",
        "## a\n**OPTIONS**\n\n* f\n\n    * flags: -f\n\n## b\n* stray\n    * flags: -s\n~~~sh\nx\n~~~\n",
        "## a\n> quote one\n\n> quote two\n>\n> with more\n~~~sh\nx\n~~~\n",
        "## a\n    indented code\n\n~~~\nno tag\n~~~\n",
        "## a\n~~~sh\nunclosed block\n",
        "## a\n```powershell\nps\n```\n```batch\nbat\n```\n```cmd\ncmd\n```\n",
        "## a\n| t | u |\n|---|---|\n| 1 | 2 |\n\n[ref]: http://example.com\n\n![img](x.png) [link](y) <http://auto.link>\n~~~sh\nx\n~~~\n",
        "Title\n=====\nSub\n---\n~~~sh\nx\n~~~\n# Second\n## hidden\n~~~sh\ny\n~~~\n",
        "## ünïcödé (ärg) [öpt]\n> Beschreibung – mit Gedankenstrich\n~~~sh\necho „hallo“\n~~~\n",
        "## a\u{a0}b\n### a\u{a0}b\u{2003}c\n~~~sh\nx\n~~~\n",
        "\u{feff}# bom\n## a\n~~~sh\nx\n~~~\n",
        "## a\r\n~~~sh\r\nx\r\n~~~\r\n### a b\r\n~~~sh\r\ny\r\n~~~\r\n",
    ];
    for document in documents {
        for platform in [PlatformFamily::Posix, PlatformFamily::Windows] {
            let root = build_command_structure(document.to_string(), platform);
            assert_eq!(root.level, 1, "document {:?}", document);
            assert_well_formed(&root);
            let maskfile = parse(document.to_string(), platform);
            assert_eq!(maskfile.title, root.name);
            assert_eq!(maskfile.description, root.description);
            assert_eq!(maskfile.commands, root.subcommands);
            let flat = flat_commands(document, platform);
            assert_eq!(flat[0].level, 1);
            assert!(flat.iter().all(|c| c.subcommands.is_empty()));
        }
    }
}

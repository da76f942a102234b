//! What it takes to run a command: the program that runs its script, and
//! the variables that carry its arguments.

use vstd::prelude::*;
use crate::extract::PlatformFamily;
use crate::maskfile::{Command, CommandView, NamedFlagView, Script};
use crate::text::{lemma_views_push, str_equal, views};

verus! {

/// The program that runs the scripts of the executor `executor`, and the
/// option with which that program takes a script on its command line.
///
/// JavaScript, Python, Ruby, PHP and Go have an interpreter of their own.
/// On Windows so have the command prompt and PowerShell. Any other
/// executor is taken to be a shell that names its program itself.
pub open spec fn interpreter_of(executor: Seq<char>, platform: PlatformFamily) -> (
    Seq<char>,
    Seq<char>,
) {
    if executor == "js"@ || executor == "javascript"@ {
        ("node"@, "-e"@)
    } else if executor == "py"@ || executor == "python"@ {
        ("python"@, "-c"@)
    } else if executor == "rb"@ || executor == "ruby"@ {
        ("ruby"@, "-e"@)
    } else if executor == "php"@ {
        ("php"@, "-r"@)
    } else if executor == "go"@ || executor == "golang"@ {
        ("go-mask"@, "-c"@)
    } else if platform is Windows && (executor == "cmd"@ || executor == "batch"@) {
        ("cmd.exe"@, "/c"@)
    } else if platform is Windows && executor == "powershell"@ {
        ("powershell.exe"@, "-c"@)
    } else {
        (executor, "-c"@)
    }
}

/// The model of an [`Invocation`].
pub struct InvocationView {
    pub program: Seq<char>,
    pub option: Seq<char>,
    pub source: Seq<char>,
}

/// A program, and the two arguments it is started with: the option that
/// announces a script, and the script.
#[derive(Debug, PartialEq, Eq)]
pub struct Invocation {
    pub program: String,
    pub option: String,
    pub source: String,
}

impl View for Invocation {
    type V = InvocationView;

    open spec fn view(&self) -> InvocationView {
        InvocationView { program: self.program@, option: self.option@, source: self.source@ }
    }
}

/// Whether `platform` is the Windows family.
fn is_windows(platform: PlatformFamily) -> (r: bool)
    ensures
        r == (platform is Windows),
{
    match platform {
        PlatformFamily::Windows => true,
        PlatformFamily::Posix => false,
    }
}

/// The program that runs the scripts of `executor`, and the option with
/// which it takes a script.
pub fn interpreter(executor: &str, platform: PlatformFamily) -> (r: (String, String))
    ensures
        (r.0@, r.1@) == interpreter_of(executor@, platform),
{
    if str_equal(executor, "js") || str_equal(executor, "javascript") {
        ("node".to_owned(), "-e".to_owned())
    } else if str_equal(executor, "py") || str_equal(executor, "python") {
        ("python".to_owned(), "-c".to_owned())
    } else if str_equal(executor, "rb") || str_equal(executor, "ruby") {
        ("ruby".to_owned(), "-e".to_owned())
    } else if str_equal(executor, "php") {
        ("php".to_owned(), "-r".to_owned())
    } else if str_equal(executor, "go") || str_equal(executor, "golang") {
        ("go-mask".to_owned(), "-c".to_owned())
    } else if is_windows(platform) && (str_equal(executor, "cmd") || str_equal(executor, "batch")) {
        ("cmd.exe".to_owned(), "/c".to_owned())
    } else if is_windows(platform) && str_equal(executor, "powershell") {
        ("powershell.exe".to_owned(), "-c".to_owned())
    } else {
        (executor.to_owned(), "-c".to_owned())
    }
}

/// How to run `script`. There is a way exactly when the script has both a
/// source and an executor.
pub fn invocation(script: &Script, platform: PlatformFamily) -> (r: Option<Invocation>)
    ensures
        r is Some <==> script@.source.len() > 0 && script@.executor.len() > 0,
        r matches Some(i) ==> i@ == (InvocationView {
            program: interpreter_of(script@.executor, platform).0,
            option: interpreter_of(script@.executor, platform).1,
            source: script@.source,
        }),
{
    if !script.has_script() {
        return None;
    }
    let (program, option) = interpreter(script.executor.as_str(), platform);
    Some(Invocation { program, option, source: script.source.clone() })
}

/// The value that a switch hands to a script: `true` where the switch was
/// given, nothing where it was not.
pub open spec fn switch_value_of(given: bool) -> Seq<char> {
    if given {
        "true"@
    } else {
        Seq::empty()
    }
}

/// The value that a switch hands to a script.
pub fn switch_value(given: bool) -> (value: String)
    ensures
        value@ == switch_value_of(given),
{
    if given {
        "true".to_owned()
    } else {
        String::new()
    }
}

/// The model of a [`Variable`].
pub struct VariableView {
    pub name: Seq<char>,
    pub value: Seq<char>,
}

/// A variable of the environment in which a script runs.
#[derive(Debug, PartialEq, Eq)]
pub struct Variable {
    pub name: String,
    pub value: String,
}

impl View for Variable {
    type V = VariableView;

    open spec fn view(&self) -> VariableView {
        VariableView { name: self.name@, value: self.value@ }
    }
}

/// One variable for each name, with the value at the same place. With
/// `all` unset, a name whose value is empty gets no variable.
pub open spec fn bound(names: Seq<Seq<char>>, values: Seq<Seq<char>>, all: bool) -> Seq<
    VariableView,
>
    recommends
        names.len() == values.len(),
    decreases names.len(),
{
    if names.len() == 0 || values.len() == 0 {
        Seq::empty()
    } else {
        let before = bound(names.drop_last(), values.drop_last(), all);
        if all || values.last().len() > 0 {
            before.push(VariableView { name: names.last(), value: values.last() })
        } else {
            before
        }
    }
}

/// The names of the flags of `flags`, in order.
pub open spec fn flag_names(flags: Seq<NamedFlagView>) -> Seq<Seq<char>> {
    Seq::new(flags.len(), |i: int| flags[i].name)
}

/// The variables that carry the arguments of a command to its script:
/// one for each required argument, one for each optional argument, and
/// one for each flag whose value is not empty; each under the name of the
/// argument or flag.
pub open spec fn variables_of(
    command: CommandView,
    required: Seq<Seq<char>>,
    optional: Seq<Seq<char>>,
    flags: Seq<Seq<char>>,
) -> Seq<VariableView> {
    bound(command.required_args, required, true) + bound(command.optional_args, optional, true)
        + bound(flag_names(command.named_flags), flags, false)
}

/// Adds to `variables` one variable for each name, with the value at the
/// same place; with `all` unset, only those with a value.
fn bind(
    variables: &mut Vec<Variable>,
    names: &Vec<String>,
    values: &Vec<String>,
    all: bool,
)
    requires
        names.len() == values.len(),
    ensures
        views(final(variables)@) == views(old(variables)@) + bound(
            views(names@),
            views(values@),
            all,
        ),
{
    let ghost start = views(variables@);
    let ghost all_names = views(names@);
    let ghost all_values = views(values@);
    let mut i: usize = 0;
    assert(all_names.take(0) =~= Seq::<Seq<char>>::empty());
    assert(start + Seq::<VariableView>::empty() =~= start);
    while i < names.len()
        invariant
            i <= names.len() == values.len(),
            all_names == views(names@),
            all_values == views(values@),
            views(variables@) == start + bound(
                all_names.take(i as int),
                all_values.take(i as int),
                all,
            ),
        decreases names.len() - i,
    {
        proof {
            assert(all_names.take(i + 1).drop_last() =~= all_names.take(i as int));
            assert(all_values.take(i + 1).drop_last() =~= all_values.take(i as int));
            assert(all_names.take(i + 1).last() == names@[i as int]@);
            assert(all_values.take(i + 1).last() == values@[i as int]@);
        }
        if all || !values[i].as_str().is_empty() {
            let variable = Variable { name: names[i].clone(), value: values[i].clone() };
            proof {
                lemma_views_push(variables@, variable);
                let so_far = bound(all_names.take(i as int), all_values.take(i as int), all);
                assert((start + so_far).push(variable@) =~= start + so_far.push(variable@));
            }
            variables.push(variable);
        }
        i += 1;
    }
    proof {
        assert(all_names.take(names.len() as int) =~= all_names);
        assert(all_values.take(names.len() as int) =~= all_values);
    }
}

/// The variables that carry the arguments of `command` to its script.
/// `required`, `optional` and `flags` hold the values, in the order of the
/// command's required arguments, optional arguments and named flags.
pub fn variables(
    command: &Command,
    required: &Vec<String>,
    optional: &Vec<String>,
    flags: &Vec<String>,
) -> (r: Vec<Variable>)
    requires
        required.len() == command.required_args.len(),
        optional.len() == command.optional_args.len(),
        flags.len() == command.named_flags.len(),
    ensures
        views(r@) == variables_of(command@, views(required@), views(optional@), views(flags@)),
{
    let mut required_names: Vec<String> = Vec::new();
    let mut i: usize = 0;
    while i < command.required_args.len()
        invariant
            i <= command.required_args.len(),
            required_names.len() == i,
            forall|j: int| 0 <= j < i ==> required_names@[j]@ == command.required_args@[j]@,
        decreases command.required_args.len() - i,
    {
        required_names.push(command.required_args[i].name.clone());
        i += 1;
    }
    let mut optional_names: Vec<String> = Vec::new();
    let mut i: usize = 0;
    while i < command.optional_args.len()
        invariant
            i <= command.optional_args.len(),
            optional_names.len() == i,
            forall|j: int| 0 <= j < i ==> optional_names@[j]@ == command.optional_args@[j]@,
        decreases command.optional_args.len() - i,
    {
        optional_names.push(command.optional_args[i].name.clone());
        i += 1;
    }
    let mut names: Vec<String> = Vec::new();
    let mut i: usize = 0;
    while i < command.named_flags.len()
        invariant
            i <= command.named_flags.len(),
            names.len() == i,
            forall|j: int| 0 <= j < i ==> names@[j]@ == command.named_flags@[j]@.name,
        decreases command.named_flags.len() - i,
    {
        names.push(command.named_flags[i].name.clone());
        i += 1;
    }
    proof {
        assert(views(required_names@) =~= command@.required_args);
        assert(views(optional_names@) =~= command@.optional_args);
        assert(views(names@) =~= flag_names(command@.named_flags));
    }
    let mut r: Vec<Variable> = Vec::new();
    bind(&mut r, &required_names, required, true);
    bind(&mut r, &optional_names, optional, true);
    bind(&mut r, &names, flags, false);
    r
}

} // verus!

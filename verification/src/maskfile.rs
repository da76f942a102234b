//! The command model: what a maskfile compiles to.

use vstd::prelude::*;
use crate::text::{lemma_views_push, views};

verus! {

/// The model of a [`Script`].
pub struct ScriptView {
    pub executor: Seq<char>,
    pub source: Seq<char>,
}

/// An executor tag and the verbatim body of the code block it came with.
#[derive(Debug, PartialEq, Eq)]
pub struct Script {
    /// The language or shell tag of the code block.
    pub executor: String,
    /// The body of the code block.
    pub source: String,
}

impl View for Script {
    type V = ScriptView;

    open spec fn view(&self) -> ScriptView {
        ScriptView { executor: self.executor@, source: self.source@ }
    }
}

impl Script {
    /// A script with no executor and no source.
    pub fn new() -> (s: Script)
        ensures
            s@ == (ScriptView { executor: Seq::<char>::empty(), source: Seq::<char>::empty() }),
    {
        Script { executor: String::new(), source: String::new() }
    }

    /// Whether the script can be run: it has both a source and an executor.
    pub fn has_script(&self) -> (r: bool)
        ensures
            r == (self@.source.len() > 0 && self@.executor.len() > 0),
    {
        !self.source.as_str().is_empty() && !self.executor.as_str().is_empty()
    }
}

impl Clone for Script {
    fn clone(&self) -> (r: Script)
        ensures
            r@ == self@,
    {
        Script { executor: self.executor.clone(), source: self.source.clone() }
    }
}

/// A positional argument that must be given. Its model is its name.
#[derive(Debug, PartialEq, Eq)]
pub struct RequiredArg {
    pub name: String,
}

impl View for RequiredArg {
    type V = Seq<char>;

    open spec fn view(&self) -> Seq<char> {
        self.name@
    }
}

impl RequiredArg {
    /// The required argument called `name`.
    pub fn new(name: String) -> (a: RequiredArg)
        ensures
            a@ == name@,
    {
        RequiredArg { name }
    }
}

impl Clone for RequiredArg {
    fn clone(&self) -> (r: RequiredArg)
        ensures
            r@ == self@,
    {
        RequiredArg { name: self.name.clone() }
    }
}

/// A positional argument that may be left out. Its model is its name.
#[derive(Debug, PartialEq, Eq)]
pub struct OptionalArg {
    pub name: String,
}

impl View for OptionalArg {
    type V = Seq<char>;

    open spec fn view(&self) -> Seq<char> {
        self.name@
    }
}

impl OptionalArg {
    /// The optional argument called `name`.
    pub fn new(name: String) -> (a: OptionalArg)
        ensures
            a@ == name@,
    {
        OptionalArg { name }
    }
}

impl Clone for OptionalArg {
    fn clone(&self) -> (r: OptionalArg)
        ensures
            r@ == self@,
    {
        OptionalArg { name: self.name.clone() }
    }
}

/// The model of a [`NamedFlag`].
pub struct NamedFlagView {
    pub name: Seq<char>,
    pub description: Seq<char>,
    pub short: Seq<char>,
    pub long: Seq<char>,
    pub multiple: bool,
    pub takes_value: bool,
    pub validate_as_number: bool,
    pub required: bool,
}

/// A command-line option with a short and a long form.
#[derive(Debug, PartialEq, Eq)]
pub struct NamedFlag {
    pub name: String,
    pub description: String,
    /// At most one character: `v` for `-v`.
    pub short: String,
    /// `verbose` for `--verbose`.
    pub long: String,
    /// Whether it can be given more than once.
    pub multiple: bool,
    /// Whether it takes a value.
    pub takes_value: bool,
    /// Whether its value has to be a number.
    pub validate_as_number: bool,
    pub required: bool,
}

impl View for NamedFlag {
    type V = NamedFlagView;

    open spec fn view(&self) -> NamedFlagView {
        NamedFlagView {
            name: self.name@,
            description: self.description@,
            short: self.short@,
            long: self.long@,
            multiple: self.multiple,
            takes_value: self.takes_value,
            validate_as_number: self.validate_as_number,
            required: self.required,
        }
    }
}

/// The flag that says nothing yet: empty texts, every switch off.
pub open spec fn blank_flag() -> NamedFlagView {
    NamedFlagView {
        name: Seq::empty(),
        description: Seq::empty(),
        short: Seq::empty(),
        long: Seq::empty(),
        multiple: false,
        takes_value: false,
        validate_as_number: false,
        required: false,
    }
}

/// The `-v` / `--verbose` switch that every command with a script gets.
pub open spec fn verbose_flag() -> NamedFlagView {
    NamedFlagView {
        name: "verbose"@,
        description: "Sets the level of verbosity"@,
        short: "v"@,
        long: "verbose"@,
        multiple: false,
        takes_value: false,
        validate_as_number: false,
        required: false,
    }
}

impl NamedFlag {
    /// A flag that says nothing yet.
    pub fn new() -> (f: NamedFlag)
        ensures
            f@ == blank_flag(),
    {
        NamedFlag {
            name: String::new(),
            description: String::new(),
            short: String::new(),
            long: String::new(),
            multiple: false,
            takes_value: false,
            validate_as_number: false,
            required: false,
        }
    }

    /// The `-v` / `--verbose` switch.
    pub fn verbose() -> (f: NamedFlag)
        ensures
            f@ == verbose_flag(),
    {
        NamedFlag {
            name: "verbose".to_owned(),
            description: "Sets the level of verbosity".to_owned(),
            short: "v".to_owned(),
            long: "verbose".to_owned(),
            multiple: false,
            takes_value: false,
            validate_as_number: false,
            required: false,
        }
    }
}

impl Clone for NamedFlag {
    fn clone(&self) -> (r: NamedFlag)
        ensures
            r@ == self@,
    {
        NamedFlag {
            name: self.name.clone(),
            description: self.description.clone(),
            short: self.short.clone(),
            long: self.long.clone(),
            multiple: self.multiple,
            takes_value: self.takes_value,
            validate_as_number: self.validate_as_number,
            required: self.required,
        }
    }
}

/// The model of a [`Command`]: texts are character sequences, lists are
/// sequences of models.
pub struct CommandView {
    pub level: u8,
    pub name: Seq<char>,
    pub description: Seq<char>,
    pub script: Option<ScriptView>,
    pub subcommands: Seq<CommandView>,
    pub required_args: Seq<Seq<char>>,
    pub optional_args: Seq<Seq<char>>,
    pub named_flags: Seq<NamedFlagView>,
}

/// One task of a maskfile, with the tasks nested below it.
#[derive(Debug, PartialEq, Eq)]
pub struct Command {
    /// The depth of the heading that declared the command: 1 for the
    /// document title, 2 for a top-level command, more for nested ones.
    pub level: u8,
    pub name: String,
    pub description: String,
    /// `None` when the command has nothing to run.
    pub script: Option<Script>,
    pub subcommands: Vec<Command>,
    pub required_args: Vec<RequiredArg>,
    pub optional_args: Vec<OptionalArg>,
    pub named_flags: Vec<NamedFlag>,
}

/// The model of an optional script.
pub open spec fn script_view(script: Option<Script>) -> Option<ScriptView> {
    match script {
        Some(s) => Some(s@),
        None => None,
    }
}

/// The model of a command, with the models of its subcommands below it.
pub open spec fn command_view(c: Command) -> CommandView
    decreases c,
{
    CommandView {
        level: c.level,
        name: c.name@,
        description: c.description@,
        script: script_view(c.script),
        subcommands: Seq::new(
            c.subcommands@.len(),
            |i: int|
                if 0 <= i < c.subcommands@.len() {
                    command_view(c.subcommands@[i])
                } else {
                    arbitrary()
                },
        ),
        required_args: views(c.required_args@),
        optional_args: views(c.optional_args@),
        named_flags: views(c.named_flags@),
    }
}

impl View for Command {
    type V = CommandView;

    open spec fn view(&self) -> CommandView {
        command_view(*self)
    }
}

/// The subcommands of a command's model are the models of its subcommands.
pub proof fn lemma_subcommand_views(c: Command)
    ensures
        c@.subcommands == views(c.subcommands@),
{
}

/// A command as it stands when its heading has just been opened: nothing
/// but its level, and an empty script to be filled in.
pub open spec fn fresh_command(level: u8) -> CommandView {
    CommandView {
        level,
        name: Seq::empty(),
        description: Seq::empty(),
        script: Some(ScriptView { executor: Seq::empty(), source: Seq::empty() }),
        subcommands: Seq::empty(),
        required_args: Seq::empty(),
        optional_args: Seq::empty(),
        named_flags: Seq::empty(),
    }
}

/// Whether a script in the making has stayed empty: no executor, no source.
pub open spec fn is_blank(script: Option<ScriptView>) -> bool {
    match script {
        Some(s) => s.executor.len() == 0 && s.source.len() == 0,
        None => false,
    }
}

/// A command as it stands when its section is closed. A script that stayed
/// empty is dropped; a command that keeps a script gets the verbose switch
/// behind the flags it has.
pub open spec fn built(c: CommandView) -> CommandView {
    if c.script is None || is_blank(c.script) {
        CommandView { script: None, ..c }
    } else {
        CommandView { named_flags: c.named_flags.push(verbose_flag()), ..c }
    }
}

impl Command {
    /// The command that a heading of the level `level` opens.
    pub fn new(level: u8) -> (c: Command)
        ensures
            c@ == fresh_command(level),
    {
        let c = Command {
            level,
            name: String::new(),
            description: String::new(),
            script: Some(Script::new()),
            subcommands: Vec::new(),
            required_args: Vec::new(),
            optional_args: Vec::new(),
            named_flags: Vec::new(),
        };
        proof {
            assert(c@.subcommands =~= Seq::<CommandView>::empty());
            assert(c@.required_args =~= Seq::<Seq<char>>::empty());
            assert(c@.optional_args =~= Seq::<Seq<char>>::empty());
            assert(c@.named_flags =~= Seq::<NamedFlagView>::empty());
        }
        c
    }

    /// Closes the command: drops a script that stayed empty, and gives a
    /// command that has a script the verbose switch.
    pub fn build(self) -> (c: Command)
        ensures
            c@ == built(self@),
    {
        let mut c = self;
        let blank = match &c.script {
            Some(s) => s.source.as_str().is_empty() && s.executor.as_str().is_empty(),
            None => false,
        };
        if blank {
            c.script = None;
        }
        if c.script.is_some() {
            let ghost flags = c.named_flags@;
            let flag = NamedFlag::verbose();
            c.named_flags.push(flag);
            proof {
                lemma_views_push(flags, flag);
            }
        }
        c
    }
}

/// A copy of each argument of `args`.
fn clone_required(args: &Vec<RequiredArg>) -> (r: Vec<RequiredArg>)
    ensures
        views(r@) == views(args@),
{
    let mut r: Vec<RequiredArg> = Vec::new();
    let mut i: usize = 0;
    while i < args.len()
        invariant
            i <= args.len(),
            r.len() == i,
            forall|j: int| 0 <= j < i ==> r@[j]@ == args@[j]@,
        decreases args.len() - i,
    {
        r.push(args[i].clone());
        i += 1;
    }
    r
}

/// A copy of each argument of `args`.
fn clone_optional(args: &Vec<OptionalArg>) -> (r: Vec<OptionalArg>)
    ensures
        views(r@) == views(args@),
{
    let mut r: Vec<OptionalArg> = Vec::new();
    let mut i: usize = 0;
    while i < args.len()
        invariant
            i <= args.len(),
            r.len() == i,
            forall|j: int| 0 <= j < i ==> r@[j]@ == args@[j]@,
        decreases args.len() - i,
    {
        r.push(args[i].clone());
        i += 1;
    }
    r
}

/// A copy of each flag of `flags`.
fn clone_flags(flags: &Vec<NamedFlag>) -> (r: Vec<NamedFlag>)
    ensures
        views(r@) == views(flags@),
{
    let mut r: Vec<NamedFlag> = Vec::new();
    let mut i: usize = 0;
    while i < flags.len()
        invariant
            i <= flags.len(),
            r.len() == i,
            forall|j: int| 0 <= j < i ==> r@[j]@ == flags@[j]@,
        decreases flags.len() - i,
    {
        r.push(flags[i].clone());
        i += 1;
    }
    r
}

/// A copy of each command of `commands`, its subcommands included.
pub fn clone_commands(commands: &Vec<Command>) -> (r: Vec<Command>)
    ensures
        views(r@) == views(commands@),
    decreases commands,
{
    let mut r: Vec<Command> = Vec::new();
    let mut i: usize = 0;
    while i < commands.len()
        invariant
            i <= commands.len(),
            r.len() == i,
            forall|j: int| 0 <= j < i ==> r@[j]@ == commands@[j]@,
        decreases commands.len() - i,
    {
        r.push(commands[i].clone());
        i += 1;
    }
    r
}

impl Clone for Command {
    fn clone(&self) -> (r: Command)
        ensures
            r@ == self@,
        decreases self,
    {
        let script = match &self.script {
            Some(s) => Some(s.clone()),
            None => None,
        };
        let r = Command {
            level: self.level,
            name: self.name.clone(),
            description: self.description.clone(),
            script,
            subcommands: clone_commands(&self.subcommands),
            required_args: clone_required(&self.required_args),
            optional_args: clone_optional(&self.optional_args),
            named_flags: clone_flags(&self.named_flags),
        };
        proof {
            lemma_subcommand_views(r);
            lemma_subcommand_views(*self);
        }
        r
    }
}

/// The model of a [`Maskfile`].
pub struct MaskfileView {
    pub title: Seq<char>,
    pub description: Seq<char>,
    pub commands: Seq<CommandView>,
}

/// A compiled maskfile: the document's title and description, and its
/// top-level commands.
#[derive(Debug, PartialEq, Eq)]
pub struct Maskfile {
    pub title: String,
    pub description: String,
    pub commands: Vec<Command>,
}

impl View for Maskfile {
    type V = MaskfileView;

    open spec fn view(&self) -> MaskfileView {
        MaskfileView {
            title: self.title@,
            description: self.description@,
            commands: views(self.commands@),
        }
    }
}

impl Clone for Maskfile {
    fn clone(&self) -> (r: Maskfile)
        ensures
            r@ == self@,
    {
        Maskfile {
            title: self.title.clone(),
            description: self.description.clone(),
            commands: clone_commands(&self.commands),
        }
    }
}

} // verus!

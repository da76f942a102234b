//! The flat command extractor: one pass over the events of a document,
//! from which comes the list of its commands in document order, each
//! tagged with the level of its heading.

use vstd::prelude::*;
use vstd::string::StringExecFns;
use crate::heading::{
    heading_name, optional_names, parse_command_name_required_and_optional_args, required_names,
};
use crate::markdown::{EventView, MarkdownEvent};
use crate::maskfile::{
    blank_flag, built, fresh_command, is_blank, lemma_subcommand_views, verbose_flag, Command,
    CommandView, NamedFlag, NamedFlagView, ScriptView,
};
use crate::options::{apply_setting, configured, law_short_form_stays_short};
use crate::text::{lemma_views_push, str_equal, views};

verus! {

/// The family of platforms that a maskfile is compiled for. It decides
/// which code blocks can be a command's script.
#[derive(Debug, Clone, Copy, PartialEq, Eq)]
pub enum PlatformFamily {
    Posix,
    Windows,
}

/// Whether a code block with the language tag `lang` can be a script on
/// `platform`. A POSIX platform takes every block but those of the Windows
/// shells; a Windows platform takes every block.
pub open spec fn accepts(platform: PlatformFamily, lang: Seq<char>) -> bool {
    match platform {
        PlatformFamily::Posix => lang != "powershell"@ && lang != "batch"@ && lang != "cmd"@,
        PlatformFamily::Windows => true,
    }
}

/// The level of the command that a heading of level `level` declares: the
/// low eight bits of the heading's level.
pub open spec fn level_of(level: i32) -> u8 {
    (level & 0xff) as u8
}

/// A level from 0 to 255 is the command's level as it stands.
pub proof fn lemma_level_of(level: i32)
    requires
        0 <= level <= 255,
    ensures
        level_of(level) == level,
{
    assert(0 <= level <= 255 ==> level & 0xff == level) by (bit_vector);
}

/// The command with `lang` as the executor of its script.
pub open spec fn with_executor(c: CommandView, lang: Seq<char>) -> CommandView {
    match c.script {
        Some(script) => CommandView { script: Some(ScriptView { executor: lang, ..script }), ..c },
        None => c,
    }
}

/// The command with `source` as the source of its script.
pub open spec fn with_source(c: CommandView, source: Seq<char>) -> CommandView {
    match c.script {
        Some(script) => CommandView { script: Some(ScriptView { source, ..script }), ..c },
        None => c,
    }
}

/// The model of an [`Extractor`]: where a pass over the events stands.
pub struct ExtractorView {
    /// The commands whose sections are closed, in document order.
    pub commands: Seq<CommandView>,
    /// The command whose section is open.
    pub current: CommandView,
    /// The flag that the options list is describing.
    pub flag: NamedFlagView,
    /// The inline text read since the last construct opened.
    pub text: Seq<char>,
    /// How deep the pass is inside the lists of an options list.
    pub list_depth: nat,
    /// Whether a second document title has ended the pass.
    pub stopped: bool,
}

/// Where a pass stands before the first event: in the section of the
/// document root.
pub open spec fn initial() -> ExtractorView {
    ExtractorView {
        commands: Seq::empty(),
        current: fresh_command(1),
        flag: blank_flag(),
        text: Seq::empty(),
        list_depth: 0,
        stopped: false,
    }
}

/// Where a pass stands after one more event.
///
/// A heading of a level above 1 closes the open command and opens a new
/// one. A heading of level 1 ends the pass once a command has been closed;
/// before that it opens the root anew. A code block that the platform
/// accepts gives the open command its executor when it opens and its source
/// when it closes, so the last such block stands. A list is counted in
/// when the text before it is `OPTIONS` or when the pass is inside such a
/// list already; when a list closes and leaves the pass at depth 1, the
/// flag described so far joins the open command. A heading that closes
/// gives the command its name and arguments, a block quote that closes its
/// description. Text at depth 1 names the flag, text at depth 2 is a
/// setting of it. Every construct that opens clears the text.
pub open spec fn step(s: ExtractorView, event: EventView, platform: PlatformFamily) -> ExtractorView {
    if s.stopped {
        s
    } else {
        match event {
            EventView::HeadingStart(level) => {
                if level > 1 {
                    ExtractorView {
                        commands: s.commands.push(built(s.current)),
                        current: fresh_command(level_of(level)),
                        text: Seq::empty(),
                        ..s
                    }
                } else if level == 1 && s.commands.len() > 0 {
                    ExtractorView { stopped: true, ..s }
                } else {
                    ExtractorView {
                        current: fresh_command(level_of(level)),
                        text: Seq::empty(),
                        ..s
                    }
                }
            },
            EventView::CodeBlockStart(lang) => ExtractorView {
                current: if accepts(platform, lang) {
                    with_executor(s.current, lang)
                } else {
                    s.current
                },
                text: Seq::empty(),
                ..s
            },
            EventView::ListStart => ExtractorView {
                list_depth: if s.text == "OPTIONS"@ || s.list_depth > 0 {
                    s.list_depth + 1
                } else {
                    s.list_depth
                },
                text: Seq::empty(),
                ..s
            },
            EventView::OtherStart => ExtractorView { text: Seq::empty(), ..s },
            EventView::HeadingEnd => ExtractorView {
                current: CommandView {
                    name: heading_name(s.text),
                    required_args: required_names(s.text),
                    optional_args: optional_names(s.text),
                    ..s.current
                },
                ..s
            },
            EventView::BlockQuoteEnd => ExtractorView {
                current: CommandView { description: s.text, ..s.current },
                ..s
            },
            EventView::CodeBlockEnd(lang) => ExtractorView {
                current: if accepts(platform, lang) {
                    with_source(s.current, s.text)
                } else {
                    s.current
                },
                ..s
            },
            EventView::ListEnd => {
                let depth: nat = if s.list_depth > 0 {
                    (s.list_depth - 1) as nat
                } else {
                    0
                };
                if depth == 1 {
                    ExtractorView {
                        current: CommandView {
                            named_flags: s.current.named_flags.push(s.flag),
                            ..s.current
                        },
                        flag: blank_flag(),
                        list_depth: depth,
                        ..s
                    }
                } else {
                    ExtractorView { list_depth: depth, ..s }
                }
            },
            EventView::Text(body) => {
                let text = s.text + body;
                if s.list_depth == 1 {
                    ExtractorView { flag: NamedFlagView { name: text, ..s.flag }, text, ..s }
                } else if s.list_depth == 2 {
                    ExtractorView { flag: configured(s.flag, text), text, ..s }
                } else {
                    ExtractorView { text, ..s }
                }
            },
            EventView::InlineHtml(html) => ExtractorView { text: s.text + html, ..s },
            EventView::Code(code) => ExtractorView { text: s.text + "`"@ + code + "`"@, ..s },
            EventView::Other => s,
        }
    }
}

/// Where a pass stands after the events of `events`, in order.
pub open spec fn run(events: Seq<EventView>, platform: PlatformFamily) -> ExtractorView
    decreases events.len(),
{
    if events.len() == 0 {
        initial()
    } else {
        step(run(events.drop_last(), platform), events.last(), platform)
    }
}

/// The flat list of commands of a document: the commands that the pass has
/// closed, and behind them the command that was open at its end.
pub open spec fn extracted(events: Seq<EventView>, platform: PlatformFamily) -> Seq<CommandView> {
    let end = run(events, platform);
    end.commands.push(built(end.current))
}

/// Decides whether a code block with the language tag `lang` can be a
/// script on `platform`.
pub fn platform_accepts(platform: PlatformFamily, lang: &str) -> (r: bool)
    ensures
        r == accepts(platform, lang@),
{
    match platform {
        PlatformFamily::Posix => !str_equal(lang, "powershell") && !str_equal(lang, "batch")
            && !str_equal(lang, "cmd"),
        PlatformFamily::Windows => true,
    }
}

/// The level of the command that a heading of level `level` declares.
pub fn command_level(level: i32) -> (r: u8)
    ensures
        r == level_of(level),
{
    let low: i32 = level & 0xff;
    low as u8
}

/// A pass over the events of a document, event by event.
pub struct Extractor {
    commands: Vec<Command>,
    current: Command,
    flag: NamedFlag,
    text: String,
    list_depth: usize,
    stopped: bool,
}

impl View for Extractor {
    type V = ExtractorView;

    closed spec fn view(&self) -> ExtractorView {
        ExtractorView {
            commands: views(self.commands@),
            current: self.current@,
            flag: self.flag@,
            text: self.text@,
            list_depth: self.list_depth as nat,
            stopped: self.stopped,
        }
    }
}

impl Extractor {
    /// A pass that has seen no event yet.
    pub fn new() -> (e: Extractor)
        ensures
            e@ == initial(),
    {
        let e = Extractor {
            commands: Vec::new(),
            current: Command::new(1),
            flag: NamedFlag::new(),
            text: String::new(),
            list_depth: 0,
            stopped: false,
        };
        assert(views(e.commands@) =~= Seq::<CommandView>::empty());
        e
    }

    /// A heading opens.
    fn open_heading(&mut self, level: i32)
        requires
            !old(self)@.stopped,
        ensures
            forall|platform: PlatformFamily|
                final(self)@ == #[trigger] step(
                    old(self)@,
                    EventView::HeadingStart(level),
                    platform,
                ),
    {
        if level == 1 && self.commands.len() > 0 {
            self.stopped = true;
            return ;
        }
        let mut fresh = Command::new(command_level(level));
        std::mem::swap(&mut self.current, &mut fresh);
        if level > 1 {
            let closed = fresh.build();
            proof {
                lemma_views_push(self.commands@, closed);
            }
            self.commands.push(closed);
        }
        self.text = String::new();
    }

    /// A heading closes: the text read is the signature of the command.
    fn close_heading(&mut self)
        requires
            !old(self)@.stopped,
        ensures
            forall|platform: PlatformFamily|
                final(self)@ == #[trigger] step(old(self)@, EventView::HeadingEnd, platform),
    {
        let ghost before = self.current;
        let (name, required, optional) = parse_command_name_required_and_optional_args(
            self.text.clone(),
        );
        self.current.name = name;
        self.current.required_args = required;
        self.current.optional_args = optional;
        proof {
            lemma_subcommand_views(before);
            lemma_subcommand_views(self.current);
        }
    }

    /// A code block opens: its tag is the executor, where accepted.
    fn open_code_block(&mut self, lang: &String, platform: PlatformFamily)
        requires
            !old(self)@.stopped,
        ensures
            final(self)@ == step(old(self)@, EventView::CodeBlockStart(lang@), platform),
    {
        let ghost before = self.current;
        if platform_accepts(platform, lang.as_str()) {
            match &mut self.current.script {
                Some(script) => {
                    script.executor = lang.clone();
                },
                None => {},
            }
        }
        self.text = String::new();
        proof {
            lemma_subcommand_views(before);
            lemma_subcommand_views(self.current);
        }
    }

    /// A code block closes: the text read is the source, where accepted.
    fn close_code_block(&mut self, lang: &String, platform: PlatformFamily)
        requires
            !old(self)@.stopped,
        ensures
            final(self)@ == step(old(self)@, EventView::CodeBlockEnd(lang@), platform),
    {
        let ghost before = self.current;
        if platform_accepts(platform, lang.as_str()) {
            match &mut self.current.script {
                Some(script) => {
                    script.source = self.text.clone();
                },
                None => {},
            }
        }
        proof {
            lemma_subcommand_views(before);
            lemma_subcommand_views(self.current);
        }
    }

    /// A list opens.
    fn open_list(&mut self)
        requires
            !old(self)@.stopped,
            old(self)@.list_depth < usize::MAX,
        ensures
            forall|platform: PlatformFamily|
                final(self)@ == #[trigger] step(old(self)@, EventView::ListStart, platform),
    {
        if str_equal(self.text.as_str(), "OPTIONS") || self.list_depth > 0 {
            self.list_depth = self.list_depth + 1;
        }
        self.text = String::new();
    }

    /// A list closes.
    fn close_list(&mut self)
        requires
            !old(self)@.stopped,
        ensures
            forall|platform: PlatformFamily|
                final(self)@ == #[trigger] step(old(self)@, EventView::ListEnd, platform),
    {
        if self.list_depth > 0 {
            self.list_depth = self.list_depth - 1;
        }
        if self.list_depth == 1 {
            let ghost before = self.current;
            let mut flag = NamedFlag::new();
            std::mem::swap(&mut self.flag, &mut flag);
            proof {
                lemma_views_push(self.current.named_flags@, flag);
            }
            self.current.named_flags.push(flag);
            proof {
                lemma_subcommand_views(before);
                lemma_subcommand_views(self.current);
            }
        }
    }

    /// Inline text is read.
    fn read_text(&mut self, body: &String)
        requires
            !old(self)@.stopped,
        ensures
            forall|platform: PlatformFamily|
                final(self)@ == #[trigger] step(old(self)@, EventView::Text(body@), platform),
    {
        self.text.append(body.as_str());
        if self.list_depth == 1 {
            self.flag.name = self.text.clone();
        } else if self.list_depth == 2 {
            apply_setting(&mut self.flag, self.text.as_str());
        }
    }

    /// Takes the pass one event further.
    pub fn feed(&mut self, event: &MarkdownEvent, platform: PlatformFamily)
        requires
            old(self)@.list_depth < usize::MAX,
        ensures
            final(self)@ == step(old(self)@, event@, platform),
    {
        if self.stopped {
            return ;
        }
        match event {
            MarkdownEvent::HeadingStart(level) => self.open_heading(*level),
            MarkdownEvent::HeadingEnd => self.close_heading(),
            MarkdownEvent::CodeBlockStart(lang) => self.open_code_block(lang, platform),
            MarkdownEvent::CodeBlockEnd(lang) => self.close_code_block(lang, platform),
            MarkdownEvent::ListStart => self.open_list(),
            MarkdownEvent::ListEnd => self.close_list(),
            MarkdownEvent::BlockQuoteEnd => {
                let ghost before = self.current;
                self.current.description = self.text.clone();
                proof {
                    lemma_subcommand_views(before);
                    lemma_subcommand_views(self.current);
                }
            },
            MarkdownEvent::OtherStart => {
                self.text = String::new();
            },
            MarkdownEvent::Text(body) => self.read_text(body),
            MarkdownEvent::InlineHtml(html) => {
                self.text.append(html.as_str());
            },
            MarkdownEvent::Code(code) => {
                self.text.append("`");
                self.text.append(code.as_str());
                self.text.append("`");
            },
            MarkdownEvent::Other => {},
        }
    }

    /// Ends the pass: the commands it has closed, and behind them the
    /// command that was open, closed now.
    pub fn finish(self) -> (commands: Vec<Command>)
        ensures
            views(commands@) == self@.commands.push(built(self@.current)),
    {
        let mut commands = self.commands;
        let last = self.current.build();
        proof {
            lemma_views_push(commands@, last);
        }
        commands.push(last);
        commands
    }
}

/// Reads the flat list of commands from the events of a document.
pub fn extract_commands(events: &Vec<MarkdownEvent>, platform: PlatformFamily) -> (commands: Vec<
    Command,
>)
    ensures
        views(commands@) == extracted(views(events@), platform),
        commands.len() > 0,
{
    let mut pass = Extractor::new();
    let mut i: usize = 0;
    while i < events.len()
        invariant
            i <= events.len(),
            pass@.list_depth <= i,
            pass@ == run(views(events@).take(i as int), platform),
        decreases events.len() - i,
    {
        proof {
            assert(views(events@).take(i + 1).drop_last() =~= views(events@).take(i as int));
        }
        pass.feed(&events[i], platform);
        i += 1;
    }
    assert(views(events@).take(events.len() as int) =~= views(events@));
    let commands = pass.finish();
    assert(views(commands@).len() == commands@.len());
    commands
}

/// Whether a heading of a level above 1 opens among `events`: whether the
/// document declares a command.
pub open spec fn declares_command(events: Seq<EventView>) -> bool {
    exists|i: int|
        0 <= i < events.len() && (#[trigger] events[i] matches EventView::HeadingStart(level)
            && level > 1)
}

/// A pass that has ended, or that has seen the heading of a command, has
/// closed a command.
pub proof fn lemma_closed_commands(events: Seq<EventView>, platform: PlatformFamily)
    ensures
        run(events, platform).stopped ==> run(events, platform).commands.len() > 0,
        declares_command(events) ==> run(events, platform).commands.len() > 0,
    decreases events.len(),
{
    if events.len() > 0 {
        let before = events.drop_last();
        lemma_closed_commands(before, platform);
        if declares_command(events) {
            let i = choose|i: int|
                0 <= i < events.len() && (#[trigger] events[i] matches EventView::HeadingStart(
                    level,
                ) && level > 1);
            if i < before.len() {
                assert(before[i] == events[i]);
            } else {
            }
        }
    }
}

/// A pass that has ended stays where it is, whatever follows.
pub proof fn lemma_stopped_stays(
    events: Seq<EventView>,
    rest: Seq<EventView>,
    platform: PlatformFamily,
)
    requires
        run(events, platform).stopped,
    ensures
        run(events + rest, platform) == run(events, platform),
    decreases rest.len(),
{
    if rest.len() == 0 {
    } else {
        lemma_stopped_stays(events, rest.drop_last(), platform);
        assert((events + rest).drop_last() =~= events + rest.drop_last());
    }
}

/// A second document title ends the pass: once a command has been
/// declared, a heading of level 1 and everything behind it add nothing to
/// the flat list of the document.
pub proof fn law_second_title_ends_the_pass(
    before: Seq<EventView>,
    after: Seq<EventView>,
    platform: PlatformFamily,
)
    requires
        declares_command(before),
    ensures
        extracted(before + seq![EventView::HeadingStart(1)] + after, platform) == extracted(
            before,
            platform,
        ),
{
    let title = before + seq![EventView::HeadingStart(1)];
    lemma_closed_commands(before, platform);
    assert(title.drop_last() =~= before);
    assert(title.last() == EventView::HeadingStart(1));
    let at_title = run(title, platform);
    let at_before = run(before, platform);
    assert(at_title == step(at_before, EventView::HeadingStart(1), platform));
    assert(at_title.stopped);
    assert(at_title.commands == at_before.commands);
    assert(at_title.current == at_before.current);
    lemma_stopped_stays(title, after, platform);
}

/// Whether a command that has a script has the verbose switch as its last
/// flag.
pub open spec fn carries_verbose(c: CommandView) -> bool {
    c.script is Some ==> c.named_flags.len() > 0 && c.named_flags.last() == verbose_flag()
}

/// A command that is closed carries the verbose switch where it has a
/// script: one more flag than were declared for it, the switch last.
pub proof fn lemma_built_carries_verbose(c: CommandView)
    ensures
        carries_verbose(built(c)),
        built(c).script is Some ==> built(c).named_flags == c.named_flags.push(verbose_flag()),
        built(c).script is None ==> built(c).named_flags == c.named_flags,
        built(c).subcommands == c.subcommands,
        built(c).level == c.level,
{
}

/// Throughout a pass no command has subcommands, and every command that
/// is closed carries the verbose switch where it has a script.
pub proof fn lemma_pass_is_flat(events: Seq<EventView>, platform: PlatformFamily)
    ensures
        run(events, platform).current.subcommands.len() == 0,
        forall|i: int|
            0 <= i < run(events, platform).commands.len() ==> {
                &&& (#[trigger] run(events, platform).commands[i]).subcommands.len() == 0
                &&& carries_verbose(run(events, platform).commands[i])
            },
    decreases events.len(),
{
    if events.len() > 0 {
        lemma_pass_is_flat(events.drop_last(), platform);
        let s = run(events.drop_last(), platform);
        lemma_built_carries_verbose(s.current);
    }
}

/// The flat list of a document holds no command with subcommands, and
/// each of its commands carries the verbose switch where it has a script.
pub proof fn lemma_extracted_is_flat(events: Seq<EventView>, platform: PlatformFamily)
    ensures
        forall|i: int|
            0 <= i < extracted(events, platform).len() ==> {
                &&& (#[trigger] extracted(events, platform)[i]).subcommands.len() == 0
                &&& carries_verbose(extracted(events, platform)[i])
            },
{
    lemma_pass_is_flat(events, platform);
}

/// The command that is open always has a script in the making.
pub proof fn lemma_open_command_has_script(events: Seq<EventView>, platform: PlatformFamily)
    ensures
        run(events, platform).current.script is Some,
    decreases events.len(),
{
    if events.len() > 0 {
        lemma_open_command_has_script(events.drop_last(), platform);
    }
}

/// A code block with a language tag gives the open command a script: once
/// the pass has read the opening of a block that the platform accepts, the
/// open command has that tag as its executor for as long as neither a
/// heading nor another code block opens.
pub proof fn law_code_block_gives_script(
    events: Seq<EventView>,
    block: int,
    at: int,
    platform: PlatformFamily,
)
    requires
        0 <= block < at <= events.len(),
        events[block] matches EventView::CodeBlockStart(lang) && accepts(platform, lang)
            && lang.len() > 0,
        !run(events.take(block), platform).stopped,
        forall|k: int|
            block < k < at ==> !(#[trigger] events[k] is HeadingStart) && !(events[k]
                is CodeBlockStart),
    ensures
        run(events.take(at), platform).current.script matches Some(script)
            && EventView::CodeBlockStart(script.executor) == events[block],
        !is_blank(run(events.take(at), platform).current.script),
    decreases at - block,
{
    let before = events.take(at - 1);
    assert(events.take(at).drop_last() =~= before);
    if at == block + 1 {
        lemma_open_command_has_script(before, platform);
    } else {
        law_code_block_gives_script(events, block, at - 1, platform);
    }
}

/// Whether every flag of a command has a short form of one character at
/// most.
pub open spec fn has_short_forms(c: CommandView) -> bool {
    forall|i: int| 0 <= i < c.named_flags.len() ==> (#[trigger] c.named_flags[i]).short.len() <= 1
}

/// Throughout a pass the short form of every flag is one character at
/// most: of the flag that is being described, and of the flags of every
/// command.
pub proof fn lemma_pass_keeps_short_forms(events: Seq<EventView>, platform: PlatformFamily)
    ensures
        run(events, platform).flag.short.len() <= 1,
        has_short_forms(run(events, platform).current),
        forall|i: int|
            0 <= i < run(events, platform).commands.len() ==> has_short_forms(
                #[trigger] run(events, platform).commands[i],
            ),
    decreases events.len(),
{
    if events.len() > 0 {
        let before = run(events.drop_last(), platform);
        lemma_pass_keeps_short_forms(events.drop_last(), platform);
        lemma_built_keeps_short_forms(before.current);
        match events.last() {
            EventView::Text(body) => {
                law_short_form_stays_short(before.flag, before.text + body);
            },
            _ => {},
        }
    }
}

/// Closing a command keeps the short forms of its flags at one character
/// at most.
pub proof fn lemma_built_keeps_short_forms(c: CommandView)
    requires
        has_short_forms(c),
    ensures
        has_short_forms(built(c)),
{
    reveal_strlit("v");
    assert forall|i: int| 0 <= i < built(c).named_flags.len() implies (
    #[trigger] built(c).named_flags[i]).short.len() <= 1 by {
        if i < c.named_flags.len() {
            assert(built(c).named_flags[i] == c.named_flags[i]);
        }
    }
}

} // verus!

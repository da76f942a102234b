//! What holds of every maskfile that the compiler gives.

use vstd::prelude::*;
use crate::extract::{
    carries_verbose, declares_command, extracted, has_short_forms,
    law_second_title_ends_the_pass, lemma_built_carries_verbose, lemma_built_keeps_short_forms,
    lemma_extracted_is_flat, lemma_level_of, lemma_pass_keeps_short_forms, run, step,
    ExtractorView, PlatformFamily,
};
use crate::markdown::{heading_levels_in_range, markdown_events, EventView};
use crate::maskfile::{built, is_blank, CommandView};
use crate::parser::{compiled, has_root, lemma_levels};
use crate::tree_laws::{
    every_command, goes_deeper, is_retained, law_subcommands_are_deeper, law_tree_is_pruned,
    lemma_every_command_flat, lemma_every_command_member, lemma_tree_of_leaves,
    law_treeify_keeps, renamed,
};
use crate::treeify::treeify;

verus! {

/// What it is to carry the verbose switch, as a rule on commands.
pub open spec fn has_verbose_switch() -> spec_fn(CommandView) -> bool {
    |c: CommandView| carries_verbose(c)
}

/// Every command of a compiled tree that has a script has the verbose
/// switch as its last flag, at every depth and whatever flags were declared
/// for it.
pub proof fn law_script_brings_verbose(events: Seq<EventView>, platform: PlatformFamily)
    ensures
        every_command(treeify(extracted(events, platform)), has_verbose_switch()),
        has_root(events, platform) ==> every_command(
            compiled(events, platform).commands,
            has_verbose_switch(),
        ),
{
    let flat = extracted(events, platform);
    lemma_extracted_is_flat(events, platform);
    lemma_every_command_flat(flat, has_verbose_switch());
    law_treeify_keeps(flat, has_verbose_switch());
    if has_root(events, platform) {
        lemma_every_command_member(treeify(flat), has_verbose_switch(), 0);
    }
}

/// The compiler is a function of the document: the same text compiles to
/// the same maskfile, whenever and wherever it is compiled.
pub proof fn law_same_text_same_maskfile(
    first: Seq<char>,
    second: Seq<char>,
    platform: PlatformFamily,
)
    requires
        first == second,
    ensures
        compiled(markdown_events(first), platform) == compiled(markdown_events(second), platform),
{
}

/// How many headings of the level `level` open among `events`.
pub open spec fn count_headings(events: Seq<EventView>, level: i32) -> nat
    decreases events.len(),
{
    if events.len() == 0 {
        0
    } else if events.last() == EventView::HeadingStart(level) {
        count_headings(events.drop_last(), level) + 1
    } else {
        count_headings(events.drop_last(), level)
    }
}

/// Whether every heading of `events` is a title or the heading of a
/// top-level command: of level 1 or 2.
pub open spec fn only_titles_and_commands(events: Seq<EventView>) -> bool {
    forall|i: int|
        0 <= i < events.len() ==> (#[trigger] events[i] matches EventView::HeadingStart(level)
            ==> level == 1 || level == 2)
}

/// Whether no title stands between the headings of two commands.
pub open spec fn no_title_between_commands(events: Seq<EventView>) -> bool {
    forall|a: int, b: int, c: int|
        0 <= a < b < c < events.len() ==> !(#[trigger] events[a] == EventView::HeadingStart(2)
            && #[trigger] events[b] == EventView::HeadingStart(1) && #[trigger] events[c]
            == EventView::HeadingStart(2))
}

/// Whether a section ends before the event at `at`: whether a heading
/// opens there, or the document ends.
pub open spec fn section_ends(events: Seq<EventView>, at: int) -> bool {
    at == events.len() || (0 <= at < events.len() && events[at] is HeadingStart)
}

/// Whether every top-level command of the document carries a code block
/// that gives it a script: where the section of a command ends, the pass
/// has read a code block that the platform accepts, with a language tag or
/// a body.
pub open spec fn commands_carry_scripts(events: Seq<EventView>, platform: PlatformFamily) -> bool {
    forall|at: int|
        0 <= at <= events.len() && section_ends(events, at) && count_headings(
            #[trigger] events.take(at),
            2,
        ) > 0 ==> !is_blank(run(events.take(at), platform).current.script)
}

/// Where headings are counted there is a heading: the position of one.
proof fn lemma_counted_heading(events: Seq<EventView>, level: i32) -> (at: int)
    requires
        count_headings(events, level) > 0,
    ensures
        0 <= at < events.len(),
        events[at] == EventView::HeadingStart(level),
    decreases events.len(),
{
    if events.last() == EventView::HeadingStart(level) {
        events.len() - 1
    } else {
        lemma_counted_heading(events.drop_last(), level)
    }
}

/// What a pass over titles and top-level commands has closed after `k`
/// headings of commands: nothing before the first; then the root, and
/// behind it commands of level 2 with a script.
spec fn closed_after(s: ExtractorView, k: nat) -> bool {
    &&& s.current.script is Some
    &&& s.current.subcommands.len() == 0
    &&& k == 0 ==> s.commands.len() == 0 && s.current.level == 1 && !s.stopped
    &&& k > 0 ==> {
        &&& s.commands.len() == k
        &&& s.commands[0].level == 1
        &&& s.commands[0].subcommands.len() == 0
        &&& s.current.level == 2
        &&& forall|i: int|
            1 <= i < k ==> {
                &&& (#[trigger] s.commands[i]).level == 2
                &&& s.commands[i].script is Some
                &&& s.commands[i].subcommands.len() == 0
            }
    }
}

/// An event that opens no heading leaves what the pass has closed.
proof fn lemma_closed_after_other(
    s: ExtractorView,
    event: EventView,
    platform: PlatformFamily,
    k: nat,
)
    requires
        closed_after(s, k),
        !(event is HeadingStart),
    ensures
        closed_after(step(s, event, platform), k),
        step(s, event, platform).stopped == s.stopped,
{
}

/// The heading of a command closes the open command.
proof fn lemma_closed_after_command(s: ExtractorView, platform: PlatformFamily, k: nat)
    requires
        closed_after(s, k),
        !s.stopped,
        k > 0 ==> !is_blank(s.current.script),
    ensures
        closed_after(step(s, EventView::HeadingStart(2), platform), k + 1),
        !step(s, EventView::HeadingStart(2), platform).stopped,
{
    lemma_level_of(2);
    lemma_built_carries_verbose(s.current);
    let after = step(s, EventView::HeadingStart(2), platform);
    assert(after.commands == s.commands.push(built(s.current)));
    if k > 0 {
        assert forall|i: int| 1 <= i < k + 1 implies {
            &&& (#[trigger] after.commands[i]).level == 2
            &&& after.commands[i].script is Some
            &&& after.commands[i].subcommands.len() == 0
        } by {
            if i < k {
                assert(after.commands[i] == s.commands[i]);
            }
        }
    }
}

/// A title opens the root anew before the first command, and ends the
/// pass after it.
proof fn lemma_closed_after_title(s: ExtractorView, platform: PlatformFamily, k: nat)
    requires
        closed_after(s, k),
    ensures
        closed_after(step(s, EventView::HeadingStart(1), platform), k),
        k > 0 ==> step(s, EventView::HeadingStart(1), platform).stopped,
{
    lemma_level_of(1);
}

/// Where a pass over titles and top-level commands stands after `at`
/// events.
spec fn one_command_per_heading(events: Seq<EventView>, at: int, platform: PlatformFamily) -> bool {
    let s = run(events.take(at), platform);
    &&& closed_after(s, count_headings(events.take(at), 2))
    &&& s.stopped ==> exists|a: int, b: int|
        0 <= a < b < at && #[trigger] events[a] == EventView::HeadingStart(2)
            && #[trigger] events[b] == EventView::HeadingStart(1)
}

/// The pass closes one command for each heading of a command.
proof fn lemma_one_command_per_heading(events: Seq<EventView>, at: int, platform: PlatformFamily)
    requires
        0 <= at <= events.len(),
        only_titles_and_commands(events),
        no_title_between_commands(events),
        commands_carry_scripts(events, platform),
    ensures
        one_command_per_heading(events, at, platform),
    decreases at,
{
    if at > 0 {
        lemma_one_command_per_heading(events, at - 1, platform);
        let before = events.take(at - 1);
        let event = events[at - 1];
        assert(events.take(at).drop_last() =~= before);
        assert(events.take(at).last() == event);
        let s = run(before, platform);
        let k = count_headings(before, 2);
        assert(run(events.take(at), platform) == step(s, event, platform));
        if event == EventView::HeadingStart(2) {
            if s.stopped {
                let (a, b) = choose|a: int, b: int|
                    0 <= a < b < at - 1 && #[trigger] events[a] == EventView::HeadingStart(2)
                        && #[trigger] events[b] == EventView::HeadingStart(1);
                assert(events[a] == EventView::HeadingStart(2));
                assert(events[b] == EventView::HeadingStart(1));
                assert(events[at - 1] == EventView::HeadingStart(2));
                assert(false);
            }
            assert(section_ends(events, at - 1));
            lemma_closed_after_command(s, platform, k);
        } else if event == EventView::HeadingStart(1) {
            lemma_closed_after_title(s, platform, k);
            if k > 0 && !s.stopped {
                let a = lemma_counted_heading(before, 2);
                assert(events[a] == before[a]);
                assert(events[at - 1] == EventView::HeadingStart(1));
            }
            if s.stopped {
                let (a, b) = choose|a: int, b: int|
                    0 <= a < b < at - 1 && #[trigger] events[a] == EventView::HeadingStart(2)
                        && #[trigger] events[b] == EventView::HeadingStart(1);
                assert(events[a] == EventView::HeadingStart(2) && events[b]
                    == EventView::HeadingStart(1));
            }
        } else {
            assert(!(event is HeadingStart)) by {
                assert(event == events[at - 1]);
            }
            lemma_closed_after_other(s, event, platform, k);
            if s.stopped {
                let (a, b) = choose|a: int, b: int|
                    0 <= a < b < at - 1 && #[trigger] events[a] == EventView::HeadingStart(2)
                        && #[trigger] events[b] == EventView::HeadingStart(1);
                assert(events[a] == EventView::HeadingStart(2) && events[b]
                    == EventView::HeadingStart(1));
            }
        }
    } else {
        assert(events.take(0) =~= Seq::<EventView>::empty());
    }
}

/// One command for each heading: a document of titles and top-level
/// commands, in which no title stands between two commands and every
/// command carries a code block that gives it a script, compiles to as
/// many commands as it has headings of level 2, each of them with a script.
pub proof fn law_one_command_per_heading(events: Seq<EventView>, platform: PlatformFamily)
    requires
        only_titles_and_commands(events),
        no_title_between_commands(events),
        commands_carry_scripts(events, platform),
    ensures
        has_root(events, platform),
        compiled(events, platform).commands.len() == count_headings(events, 2),
        forall|i: int|
            0 <= i < compiled(events, platform).commands.len() ==> (#[trigger] compiled(
                events,
                platform,
            ).commands[i]).script is Some,
{
    lemma_one_command_per_heading(events, events.len() as int, platform);
    assert(events.take(events.len() as int) =~= events);
    let s = run(events, platform);
    let flat = extracted(events, platform);
    let k = count_headings(events, 2);
    assert(closed_after(s, k));
    assert(section_ends(events, events.len() as int));
    lemma_built_carries_verbose(s.current);
    assert(flat[0].level == 1 && flat[0].subcommands.len() == 0);
    assert forall|i: int| 1 <= i < flat.len() implies {
        &&& (#[trigger] flat[i]).level > 1
        &&& flat[i].level == flat[1].level
        &&& flat[i].script is Some
        &&& flat[i].subcommands.len() == 0
    } by {
        assert(k > 0);
        if i < k {
            assert(flat[i] == s.commands[i]);
        }
        if 1 < k {
            assert(flat[1] == s.commands[1]);
        }
    }
    lemma_tree_of_leaves(flat);
    let commands = renamed(flat.skip(1), flat[0].name);
    assert(compiled(events, platform).commands == commands);
    assert forall|i: int| 0 <= i < commands.len() implies (#[trigger] commands[i]).script
        is Some by {
        assert(flat.skip(1)[i] == flat[i + 1]);
    }
}

/// A second document title ends the document: once a command has been
/// declared, a heading of level 1 and everything behind it change nothing
/// of what the document compiles to.
pub proof fn law_second_title_ends_the_document(
    before: Seq<EventView>,
    after: Seq<EventView>,
    platform: PlatformFamily,
)
    requires
        declares_command(before),
    ensures
        ({
            let whole = before + seq![EventView::HeadingStart(1)] + after;
            &&& has_root(whole, platform) == has_root(before, platform)
            &&& compiled(whole, platform) == compiled(before, platform)
        }),
{
    law_second_title_ends_the_pass(before, after, platform);
}

/// The tree that a document compiles to is well formed at every depth:
/// each subcommand is of a deeper level than the command it stands below,
/// and each command has a script or subcommands, or is of level 1.
pub proof fn law_compiled_tree_is_well_formed(events: Seq<EventView>, platform: PlatformFamily)
    ensures
        every_command(treeify(extracted(events, platform)), goes_deeper()),
        every_command(treeify(extracted(events, platform)), is_retained()),
{
    let flat = extracted(events, platform);
    lemma_extracted_is_flat(events, platform);
    law_subcommands_are_deeper(flat);
    law_tree_is_pruned(flat);
}

/// What it is to have flags with a short form of one character at most, as
/// a rule on commands.
pub open spec fn flags_have_short_forms() -> spec_fn(CommandView) -> bool {
    |c: CommandView| has_short_forms(c)
}

/// In a compiled tree the short form of every flag is one character at
/// most.
pub proof fn law_short_forms_are_short(events: Seq<EventView>, platform: PlatformFamily)
    ensures
        every_command(treeify(extracted(events, platform)), flags_have_short_forms()),
{
    let flat = extracted(events, platform);
    lemma_extracted_is_flat(events, platform);
    lemma_pass_keeps_short_forms(events, platform);
    lemma_built_keeps_short_forms(run(events, platform).current);
    lemma_every_command_flat(flat, flags_have_short_forms());
    law_treeify_keeps(flat, flags_have_short_forms());
}

/// What it is to be of a level from 1 to 6, as a rule on commands.
pub open spec fn level_is_in_range() -> spec_fn(CommandView) -> bool {
    |c: CommandView| 1 <= c.level <= 6
}

/// Where every heading opens at a level from 1 to 6, every command of the
/// compiled tree is of such a level.
pub proof fn law_levels_are_in_range(events: Seq<EventView>, platform: PlatformFamily)
    requires
        heading_levels_in_range(events),
    ensures
        every_command(treeify(extracted(events, platform)), level_is_in_range()),
{
    let flat = extracted(events, platform);
    lemma_extracted_is_flat(events, platform);
    lemma_levels(events, platform);
    lemma_built_carries_verbose(run(events, platform).current);
    lemma_every_command_flat(flat, level_is_in_range());
    law_treeify_keeps(flat, level_is_in_range());
}

} // verus!

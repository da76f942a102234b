//! The maskfile compiler: from the text of a Markdown document to the tree
//! of its commands.

use vstd::prelude::*;
use crate::extract::{extract_commands, extracted, lemma_level_of, run, PlatformFamily};
use crate::markdown::{heading_levels_in_range, markdown_events, tokenize, EventView, MarkdownEvent};
use crate::maskfile::{lemma_subcommand_views, Command, CommandView, Maskfile, MaskfileView};
use crate::text::views;
use crate::tree_laws::{lemma_nested_keeps_roots, lemma_single_group};
use crate::treeify::{grouped, treeify, treeify_commands};

verus! {

/// Whether the events of a document give a tree with a root.
pub open spec fn has_root(events: Seq<EventView>, platform: PlatformFamily) -> bool {
    treeify(extracted(events, platform)).len() > 0
}

/// The root of the tree that the events of a document give.
pub open spec fn root_of(events: Seq<EventView>, platform: PlatformFamily) -> CommandView {
    treeify(extracted(events, platform))[0]
}

/// The maskfile that stands for a tree with the root `root`: the root
/// gives the title and the description, and its subcommands are the
/// commands.
pub open spec fn maskfile_of(root: CommandView) -> MaskfileView {
    MaskfileView { title: root.name, description: root.description, commands: root.subcommands }
}

/// The maskfile that the events of a document compile to.
pub open spec fn compiled(events: Seq<EventView>, platform: PlatformFamily) -> MaskfileView {
    maskfile_of(root_of(events, platform))
}

/// Builds the tree of commands from the events of a document, and hands
/// out its root where it has one.
pub fn compile_root(events: &Vec<MarkdownEvent>, platform: PlatformFamily) -> (r: Option<Command>)
    ensures
        r is Some <==> has_root(views(events@), platform),
        r matches Some(root) ==> root@ == root_of(views(events@), platform),
{
    let commands = extract_commands(events, platform);
    let mut tree = treeify_commands(commands);
    if tree.len() == 0 {
        return None;
    }
    Some(tree.swap_remove(0))
}

/// Compiles the events of a document. There is a maskfile exactly when the
/// tree of the commands has a root.
pub fn compile(events: &Vec<MarkdownEvent>, platform: PlatformFamily) -> (r: Option<Maskfile>)
    ensures
        r is Some <==> has_root(views(events@), platform),
        r matches Some(m) ==> m@ == compiled(views(events@), platform),
{
    match compile_root(events, platform) {
        Some(root) => {
            proof {
                lemma_subcommand_views(root);
            }
            Some(
                Maskfile {
                    title: root.name,
                    description: root.description,
                    commands: root.subcommands,
                },
            )
        },
        None => None,
    }
}

/// While every heading opens at a level from 1 to 6, the first command of
/// a pass is of level 1, be it closed or still open, and every command
/// after it is of a level from 2 to 6.
pub proof fn lemma_levels(events: Seq<EventView>, platform: PlatformFamily)
    requires
        heading_levels_in_range(events),
    ensures
        ({
            let end = run(events, platform);
            if end.commands.len() == 0 {
                end.current.level == 1
            } else {
                &&& end.commands[0].level == 1
                &&& 2 <= end.current.level <= 6
                &&& forall|k: int|
                    1 <= k < end.commands.len() ==> 2 <= (#[trigger] end.commands[k]).level <= 6
            }
        }),
    decreases events.len(),
{
    if events.len() > 0 {
        let before = events.drop_last();
        lemma_levels(before, platform);
        let event = events.last();
        match event {
            EventView::HeadingStart(level) => {
                lemma_level_of(level);
            },
            _ => {},
        }
    }
}

/// A document whose headings all open at a level from 1 to 6 compiles to a
/// tree with exactly one root, of level 1.
pub proof fn lemma_has_root(events: Seq<EventView>, platform: PlatformFamily)
    requires
        heading_levels_in_range(events),
    ensures
        has_root(events, platform),
        treeify(extracted(events, platform)).len() == 1,
        treeify(extracted(events, platform))[0].level == 1,
{
    lemma_levels(events, platform);
    let flat = extracted(events, platform);
    lemma_single_group(flat);
    lemma_nested_keeps_roots(grouped(flat));
}

/// Reads the flat list of commands from the text of a maskfile: the
/// document root first, then one command for each heading in document
/// order, up to a second document title.
pub fn flat_commands(maskfile_contents: &str, platform: PlatformFamily) -> (commands: Vec<Command>)
    ensures
        views(commands@) == extracted(markdown_events(maskfile_contents@), platform),
        heading_levels_in_range(markdown_events(maskfile_contents@)),
        commands.len() > 0,
{
    let events = tokenize(maskfile_contents);
    extract_commands(&events, platform)
}

/// Compiles the text of a maskfile to the root of its tree of commands:
/// the command of level 1 that stands for the document, with the
/// top-level commands as its subcommands.
pub fn build_command_structure(maskfile_contents: String, platform: PlatformFamily) -> (root:
    Command)
    ensures
        root@ == root_of(markdown_events(maskfile_contents@), platform),
        has_root(markdown_events(maskfile_contents@), platform),
        heading_levels_in_range(markdown_events(maskfile_contents@)),
{
    let events = tokenize(maskfile_contents.as_str());
    proof {
        lemma_has_root(views(events@), platform);
    }
    match compile_root(&events, platform) {
        Some(root) => root,
        None => vstd::pervasive::unreached(),
    }
}

/// Compiles the text of a maskfile for a family of platforms.
///
/// The text is read by the Markdown tokenizer, and the maskfile is what
/// the events so read compile to. Their headings are of a level from 1 to
/// 6, so the tree always has its root.
pub fn parse(maskfile_contents: String, platform: PlatformFamily) -> (maskfile: Maskfile)
    ensures
        maskfile@ == compiled(markdown_events(maskfile_contents@), platform),
        has_root(markdown_events(maskfile_contents@), platform),
        heading_levels_in_range(markdown_events(maskfile_contents@)),
{
    let root = build_command_structure(maskfile_contents, platform);
    proof {
        lemma_subcommand_views(root);
    }
    Maskfile { title: root.name, description: root.description, commands: root.subcommands }
}

} // verus!

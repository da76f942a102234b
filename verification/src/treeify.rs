//! From the flat list of commands, each tagged with the level of its
//! heading, to the tree of commands.

use vstd::prelude::*;
use crate::maskfile::{Command, CommandView};
use crate::maskfile::lemma_subcommand_views;
use crate::text::{
    char_is_whitespace, chars_of, is_whitespace, lemma_views_push, slice_chars, string_of, trim,
    trim_chars, views,
};

verus! {

/// The name of a subcommand below a parent: where it starts with the
/// parent's name and whitespace, what follows, trimmed; else the name as
/// it is.
pub open spec fn local_name(name: Seq<char>, parent: Seq<char>) -> Seq<char> {
    if parent.is_prefix_of(name) && name.len() > parent.len() && is_whitespace(
        name[parent.len() as int],
    ) {
        trim(name.skip(parent.len() as int))
    } else {
        name
    }
}

/// `parent` with `child` as its new last subcommand, under its local name.
pub open spec fn adopt(parent: CommandView, child: CommandView) -> CommandView {
    CommandView {
        subcommands: parent.subcommands.push(
            CommandView { name: local_name(child.name, parent.name), ..child },
        ),
        ..parent
    }
}

/// The groups of a flat list. The first command opens the first group. Each
/// command after it joins the open group as a subcommand where its level is
/// greater than that of the group's head, opens a new group where the
/// levels are equal, and is left out where its level is smaller.
pub open spec fn grouped(flat: Seq<CommandView>) -> Seq<CommandView>
    decreases flat.len(),
{
    if flat.len() <= 1 {
        flat
    } else {
        let before = grouped(flat.drop_last());
        let head = before.last();
        let c = flat.last();
        if c.level > head.level {
            before.drop_last().push(adopt(head, c))
        } else if c.level == head.level {
            before.push(c)
        } else {
            before
        }
    }
}

/// The number of commands in a list, subcommands at every depth included.
pub open spec fn forest_size(commands: Seq<CommandView>) -> nat
    decreases commands,
{
    if commands.len() == 0 {
        0
    } else {
        1 + forest_size(commands.last().subcommands) + forest_size(commands.drop_last())
    }
}

/// One more command in a list adds itself and all below it to the size.
pub proof fn lemma_forest_size_push(commands: Seq<CommandView>, c: CommandView)
    ensures
        forest_size(commands.push(c)) == forest_size(commands) + 1 + forest_size(c.subcommands),
{
    assert(commands.push(c).drop_last() =~= commands);
}

/// The subcommands of any command of a list hold fewer commands than the
/// list.
pub proof fn lemma_forest_size_member(commands: Seq<CommandView>, k: int)
    requires
        0 <= k < commands.len(),
    ensures
        forest_size(commands[k].subcommands) < forest_size(commands),
    decreases commands.len(),
{
    if k < commands.len() - 1 {
        lemma_forest_size_member(commands.drop_last(), k);
    }
}

/// Grouping a list that is not empty yields at least one group, and all
/// groups are headed at the level of the first command.
pub proof fn lemma_grouped_heads(flat: Seq<CommandView>)
    requires
        flat.len() > 0,
    ensures
        grouped(flat).len() > 0,
        forall|k: int| 0 <= k < grouped(flat).len() ==> (#[trigger] grouped(flat)[k]).level == flat[0].level,
    decreases flat.len(),
{
    if flat.len() > 1 {
        lemma_grouped_heads(flat.drop_last());
    }
}

/// Grouping adds no command.
pub proof fn lemma_grouped_size(flat: Seq<CommandView>)
    ensures
        forest_size(grouped(flat)) <= forest_size(flat),
    decreases flat.len(),
{
    if flat.len() > 1 {
        let rest = flat.drop_last();
        lemma_grouped_size(rest);
        lemma_grouped_heads(rest);
        let before = grouped(rest);
        let head = before.last();
        let c = flat.last();
        if c.level > head.level {
            let child = CommandView { name: local_name(c.name, head.name), ..c };
            lemma_forest_size_push(head.subcommands, child);
            lemma_forest_size_push(before.drop_last(), adopt(head, c));
        } else if c.level == head.level {
            lemma_forest_size_push(before, c);
        }
    }
}

/// Whether a command stays in the tree: it has a script, or subcommands,
/// or it is the document root.
pub open spec fn retained(c: CommandView) -> bool {
    c.script is Some || c.subcommands.len() > 0 || c.level == 1
}

/// The tree that a flat list stands for: its groups, the subcommands of
/// each group made into a tree in the same way, and of the result those
/// commands that are retained.
pub open spec fn treeify(flat: Seq<CommandView>) -> Seq<CommandView>
    decreases forest_size(flat), 1nat,
{
    proof {
        lemma_grouped_size(flat);
    }
    nested(grouped(flat))
}

/// Each group with the tree of its subcommands in place of the flat list,
/// those groups left out that are not retained.
pub open spec fn nested(groups: Seq<CommandView>) -> Seq<CommandView>
    decreases forest_size(groups), 0nat,
{
    if groups.len() == 0 {
        Seq::empty()
    } else {
        let before = nested(groups.drop_last());
        let node = CommandView {
            subcommands: treeify(groups.last().subcommands),
            ..groups.last()
        };
        if retained(node) {
            before.push(node)
        } else {
            before
        }
    }
}

/// Whether `name` starts with `parent` and a whitespace character.
fn starts_with_parent(name: &Vec<char>, parent: &Vec<char>) -> (r: bool)
    ensures
        r == (parent@.is_prefix_of(name@) && name@.len() > parent@.len() && is_whitespace(
            name@[parent@.len() as int],
        )),
{
    if name.len() <= parent.len() {
        return false;
    }
    let mut i: usize = 0;
    while i < parent.len()
        invariant
            i <= parent.len() < name.len(),
            forall|j: int| 0 <= j < i ==> name@[j] == parent@[j],
        decreases parent.len() - i,
    {
        if name[i] != parent[i] {
            return false;
        }
        i += 1;
    }
    char_is_whitespace(name[parent.len()])
}

/// The name that a subcommand called `name` has below a command called
/// `parent`.
pub fn strip_parent_name(name: String, parent: &str) -> (r: String)
    ensures
        r@ == local_name(name@, parent@),
{
    let name_chars = chars_of(name.as_str());
    let parent_chars = chars_of(parent);
    if starts_with_parent(&name_chars, &parent_chars) {
        let rest = slice_chars(&name_chars, parent_chars.len(), name_chars.len());
        string_of(&trim_chars(&rest))
    } else {
        name
    }
}

/// Sorts a flat list into groups: each command that heads a group, with the
/// commands of deeper level that follow it as its subcommands.
fn group_commands(commands: Vec<Command>) -> (groups: Vec<Command>)
    requires
        commands.len() > 0,
    ensures
        views(groups@) == grouped(views(commands@)),
{
    let ghost flat = views(commands@);
    let mut closed: Vec<Command> = Vec::new();
    let mut open: Option<Command> = None;
    for c in it: commands
        invariant
            it.seq() == commands@,
            flat == views(commands@),
            it.index() == 0 ==> open is None && closed@.len() == 0,
            it.index() > 0 ==> open is Some && views(closed@).push(open->0@) == grouped(
                flat.take(it.index()),
            ),
    {
        let ghost i = it.index();
        let ghost before = views(closed@);
        proof {
            assert(flat.take(i + 1).drop_last() =~= flat.take(i));
            assert(flat.take(i + 1).last() == c@);
        }
        open = match open {
            None => {
                assert(views(closed@).push(c@) =~= flat.take(1));
                Some(c)
            },
            Some(head) => {
                proof {
                    assert(before.push(head@).drop_last() =~= before);
                }
                if c.level > head.level {
                    let mut head = head;
                    let mut c = c;
                    let ghost parent = head;
                    let ghost child = c;
                    proof {
                        lemma_subcommand_views(parent);
                        lemma_subcommand_views(child);
                    }
                    c.name = strip_parent_name(c.name, head.name.as_str());
                    proof {
                        lemma_subcommand_views(c);
                        lemma_views_push(head.subcommands@, c);
                    }
                    head.subcommands.push(c);
                    proof {
                        lemma_subcommand_views(head);
                        assert(head@ == adopt(parent@, child@));
                    }
                    Some(head)
                } else if c.level == head.level {
                    proof {
                        lemma_views_push(closed@, head);
                    }
                    closed.push(head);
                    Some(c)
                } else {
                    Some(head)
                }
            },
        };
    }
    match open {
        Some(head) => {
            proof {
                lemma_views_push(closed@, head);
                assert(flat.take(commands@.len() as int) =~= flat);
            }
            closed.push(head);
        },
        None => {},
    }
    closed
}

/// An empty list has an empty tree.
pub proof fn lemma_treeify_empty()
    ensures
        treeify(Seq::<CommandView>::empty()) == Seq::<CommandView>::empty(),
{
}

/// Builds the tree of commands from the flat list in document order.
///
/// The first command is the root of the list. Commands of deeper level
/// become subcommands of the command of the root's level before them, under
/// their local names; this is repeated within each list of subcommands. A
/// command without a script and without subcommands is left out, unless it
/// is of level 1.
pub fn treeify_commands(commands: Vec<Command>) -> (tree: Vec<Command>)
    requires
        commands.len() > 0,
    ensures
        views(tree@) == treeify(views(commands@)),
    decreases forest_size(views(commands@)),
{
    let ghost flat = views(commands@);
    let groups = group_commands(commands);
    proof {
        lemma_grouped_size(flat);
    }
    let mut tree: Vec<Command> = Vec::new();
    for group in it: groups
        invariant
            it.seq() == groups@,
            flat == views(commands@),
            forest_size(views(groups@)) <= forest_size(flat),
            views(tree@) == nested(views(groups@).take(it.index())),
    {
        let ghost i = it.index();
        proof {
            assert(views(groups@).take(i + 1).drop_last() =~= views(groups@).take(i));
            lemma_forest_size_member(views(groups@), i);
            lemma_subcommand_views(group);
        }
        let Command {
            level,
            name,
            description,
            script,
            subcommands,
            required_args,
            optional_args,
            named_flags,
        } = group;
        let subcommands = if subcommands.len() > 0 {
            treeify_commands(subcommands)
        } else {
            assert(views(subcommands@) =~= Seq::<CommandView>::empty());
            subcommands
        };
        if script.is_some() || subcommands.len() > 0 || level == 1 {
            let node = Command {
                level,
                name,
                description,
                script,
                subcommands,
                required_args,
                optional_args,
                named_flags,
            };
            proof {
                lemma_subcommand_views(node);
            }
            tree.push(node);
        }
    }
    assert(views(groups@).take(groups@.len() as int) =~= views(groups@));
    tree
}

} // verus!

//! What holds of the tree of commands, whatever flat list it was made
//! from.

use vstd::prelude::*;
use crate::maskfile::CommandView;
use crate::treeify::{
    adopt, forest_size, grouped, lemma_grouped_heads, lemma_grouped_size, lemma_treeify_empty,
    local_name, nested, retained, treeify,
};

verus! {

/// Whether `holds` is true of every command of a list, subcommands at
/// every depth included.
pub open spec fn every_command(
    commands: Seq<CommandView>,
    holds: spec_fn(CommandView) -> bool,
) -> bool
    decreases commands,
{
    if commands.len() == 0 {
        true
    } else {
        &&& holds(commands.last())
        &&& every_command(commands.last().subcommands, holds)
        &&& every_command(commands.drop_last(), holds)
    }
}

/// What holds of every command of a list holds of each command of the list
/// and of every command below it.
pub proof fn lemma_every_command_member(
    commands: Seq<CommandView>,
    holds: spec_fn(CommandView) -> bool,
    k: int,
)
    requires
        every_command(commands, holds),
        0 <= k < commands.len(),
    ensures
        holds(commands[k]),
        every_command(commands[k].subcommands, holds),
    decreases commands.len(),
{
    if k < commands.len() - 1 {
        lemma_every_command_member(commands.drop_last(), holds, k);
    }
}

/// What holds of every command of a list and of one more command, and of
/// all below it, holds of every command of the longer list.
pub proof fn lemma_every_command_push(
    commands: Seq<CommandView>,
    holds: spec_fn(CommandView) -> bool,
    c: CommandView,
)
    requires
        every_command(commands, holds),
        holds(c),
        every_command(c.subcommands, holds),
    ensures
        every_command(commands.push(c), holds),
{
    assert(commands.push(c).drop_last() =~= commands);
}

/// Whether `holds` looks at neither the name nor the subcommands of a
/// command.
pub open spec fn ignores_place(holds: spec_fn(CommandView) -> bool) -> bool {
    forall|c: CommandView, name: Seq<char>, subcommands: Seq<CommandView>|
        holds(c) ==> #[trigger] holds(CommandView { name, subcommands, ..c })
}

/// Grouping keeps what holds of every command.
proof fn lemma_grouped_keeps(flat: Seq<CommandView>, holds: spec_fn(CommandView) -> bool)
    requires
        every_command(flat, holds),
        ignores_place(holds),
    ensures
        every_command(grouped(flat), holds),
    decreases flat.len(),
{
    if flat.len() > 1 {
        let rest = flat.drop_last();
        lemma_grouped_keeps(rest, holds);
        lemma_grouped_heads(rest);
        let before = grouped(rest);
        let head = before.last();
        let c = flat.last();
        if c.level > head.level {
            let child = CommandView { name: local_name(c.name, head.name), ..c };
            lemma_every_command_push(head.subcommands, holds, child);
            let parent = adopt(head, c);
            lemma_every_command_push(before.drop_last(), holds, parent);
        } else if c.level == head.level {
            lemma_every_command_push(before, holds, c);
        }
    }
}

/// Nesting keeps what holds of every command.
proof fn lemma_nested_keeps(groups: Seq<CommandView>, holds: spec_fn(CommandView) -> bool)
    requires
        every_command(groups, holds),
        ignores_place(holds),
    ensures
        every_command(nested(groups), holds),
    decreases forest_size(groups), 0nat,
{
    if groups.len() > 0 {
        lemma_nested_keeps(groups.drop_last(), holds);
        let group = groups.last();
        law_treeify_keeps(group.subcommands, holds);
        let node = CommandView { subcommands: treeify(group.subcommands), ..group };
        if retained(node) {
            lemma_every_command_push(nested(groups.drop_last()), holds, node);
        }
    }
}

/// Making the tree keeps what holds of every command, as long as it
/// depends on neither the name nor the subcommands of a command.
pub proof fn law_treeify_keeps(flat: Seq<CommandView>, holds: spec_fn(CommandView) -> bool)
    requires
        every_command(flat, holds),
        ignores_place(holds),
    ensures
        every_command(treeify(flat), holds),
    decreases forest_size(flat), 1nat,
{
    lemma_grouped_size(flat);
    lemma_grouped_keeps(flat, holds);
    lemma_nested_keeps(grouped(flat), holds);
}

/// What it is to be retained, as a rule on commands.
pub open spec fn is_retained() -> spec_fn(CommandView) -> bool {
    |c: CommandView| retained(c)
}

/// Every command that nesting leaves is retained, at every depth.
proof fn lemma_nested_is_pruned(groups: Seq<CommandView>)
    ensures
        every_command(nested(groups), is_retained()),
    decreases forest_size(groups), 0nat,
{
    if groups.len() > 0 {
        lemma_nested_is_pruned(groups.drop_last());
        let group = groups.last();
        law_tree_is_pruned(group.subcommands);
        let node = CommandView { subcommands: treeify(group.subcommands), ..group };
        if retained(node) {
            lemma_every_command_push(nested(groups.drop_last()), is_retained(), node);
        }
    }
}

/// Every command of a tree, at every depth, has a script or subcommands,
/// or is of level 1.
pub proof fn law_tree_is_pruned(flat: Seq<CommandView>)
    ensures
        every_command(treeify(flat), is_retained()),
    decreases forest_size(flat), 1nat,
{
    lemma_grouped_size(flat);
    lemma_nested_is_pruned(grouped(flat));
}

/// What holds of each command of a list without subcommands holds of every
/// command of the list.
pub proof fn lemma_every_command_flat(
    commands: Seq<CommandView>,
    holds: spec_fn(CommandView) -> bool,
)
    requires
        forall|i: int|
            0 <= i < commands.len() ==> holds(#[trigger] commands[i])
                && commands[i].subcommands.len() == 0,
    ensures
        every_command(commands, holds),
    decreases commands.len(),
{
    if commands.len() > 0 {
        let rest = commands.drop_last();
        lemma_every_command_flat(rest, holds);
        assert(every_command(commands.last().subcommands, holds));
    }
}

/// The commands of `children` under the names they have below a command
/// called `parent`.
pub open spec fn renamed(children: Seq<CommandView>, parent: Seq<char>) -> Seq<CommandView> {
    Seq::new(
        children.len(),
        |i: int| CommandView { name: local_name(children[i].name, parent), ..children[i] },
    )
}

/// A flat list in which every command after the first is of a deeper level
/// than the first has one group: the first command, with the commands
/// after it as further subcommands, under their local names.
pub proof fn lemma_single_group(flat: Seq<CommandView>)
    requires
        flat.len() > 0,
        forall|k: int| 1 <= k < flat.len() ==> (#[trigger] flat[k]).level > flat[0].level,
    ensures
        grouped(flat) == seq![
            CommandView {
                subcommands: flat[0].subcommands + renamed(flat.skip(1), flat[0].name),
                ..flat[0]
            },
        ],
    decreases flat.len(),
{
    let root = flat[0];
    if flat.len() == 1 {
        assert(root.subcommands + renamed(flat.skip(1), root.name) =~= root.subcommands);
        assert(flat =~= seq![root]);
    } else {
        let rest = flat.drop_last();
        assert forall|k: int| 1 <= k < rest.len() implies (#[trigger] rest[k]).level
            > rest[0].level by {
            assert(rest[k] == flat[k]);
        }
        lemma_single_group(rest);
        let head = grouped(rest)[0];
        let c = flat.last();
        assert(c == flat[flat.len() - 1]);
        assert(grouped(rest).drop_last() =~= Seq::<CommandView>::empty());
        assert(adopt(head, c).subcommands =~= root.subcommands + renamed(
            flat.skip(1),
            root.name,
        )) by {
            assert(flat.skip(1).drop_last() =~= rest.skip(1));
            assert(renamed(flat.skip(1), root.name) =~= renamed(rest.skip(1), root.name).push(
                CommandView { name: local_name(c.name, root.name), ..c },
            ));
        }
        assert(grouped(flat) =~= seq![adopt(head, c)]);
    }
}

/// A flat list of commands that are all of one level has each command as
/// a group of its own.
pub proof fn lemma_siblings_are_groups(flat: Seq<CommandView>)
    requires
        forall|k: int| 0 <= k < flat.len() ==> (#[trigger] flat[k]).level == flat[0].level,
    ensures
        grouped(flat) == flat,
    decreases flat.len(),
{
    if flat.len() > 1 {
        let rest = flat.drop_last();
        lemma_siblings_are_groups(rest);
    }
}

/// Groups that have a script and no subcommands all stay, as they are.
pub proof fn lemma_leaves_stay(groups: Seq<CommandView>)
    requires
        forall|k: int|
            0 <= k < groups.len() ==> (#[trigger] groups[k]).script is Some
                && groups[k].subcommands.len() == 0,
    ensures
        nested(groups) == groups,
    decreases groups.len(),
{
    if groups.len() > 0 {
        let rest = groups.drop_last();
        lemma_leaves_stay(rest);
        let group = groups.last();
        assert(group.subcommands =~= Seq::<CommandView>::empty());
        let node = CommandView { subcommands: treeify(group.subcommands), ..group };
    }
}

/// The tree of a root and, behind it, commands of one deeper level that
/// all have a script and no subcommands: the root alone, with those
/// commands as its subcommands, under their local names.
pub proof fn lemma_tree_of_leaves(flat: Seq<CommandView>)
    requires
        flat.len() > 0,
        flat[0].level == 1,
        flat[0].subcommands.len() == 0,
        forall|k: int|
            1 <= k < flat.len() ==> {
                &&& (#[trigger] flat[k]).level > 1
                &&& flat[k].level == flat[1].level
                &&& flat[k].script is Some
                &&& flat[k].subcommands.len() == 0
            },
    ensures
        treeify(flat) == seq![
            CommandView { subcommands: renamed(flat.skip(1), flat[0].name), ..flat[0] },
        ],
{
    let root = flat[0];
    let children = renamed(flat.skip(1), root.name);
    lemma_single_group(flat);
    let group = CommandView { subcommands: children, ..root };
    lemma_siblings_are_groups(children);
    lemma_leaves_stay(children);
    assert(treeify(children) == children);
    assert(seq![group].drop_last() =~= Seq::<CommandView>::empty());
    assert(nested(Seq::<CommandView>::empty()) =~= Seq::<CommandView>::empty());
}

/// A command without a script and without subcommands is left out: the
/// tree of a root and one such command is the root alone.
pub proof fn law_idle_command_is_left_out(root: CommandView, idle: CommandView)
    requires
        root.level == 1,
        root.subcommands.len() == 0,
        idle.level > 1,
        idle.script is None,
        idle.subcommands.len() == 0,
    ensures
        treeify(seq![root, idle]) == seq![root],
{
    let flat = seq![root, idle];
    lemma_single_group(flat);
    let named = CommandView { name: local_name(idle.name, root.name), ..idle };
    assert(renamed(flat.skip(1), root.name) =~= seq![named]);
    let group = CommandView { subcommands: seq![named], ..root };
    // below the root: the idle command is a group of its own, and goes
    assert(seq![named].drop_last() =~= Seq::<CommandView>::empty());
    lemma_treeify_empty();
    assert(named.subcommands =~= Seq::<CommandView>::empty());
    // the root stays, with nothing below it
    assert(seq![group].drop_last() =~= Seq::<CommandView>::empty());
    let node = CommandView { subcommands: treeify(group.subcommands), ..group };
    assert(node.subcommands =~= root.subcommands);
}

/// A command without a script stays for the sake of a subcommand that has
/// one: the tree of a root, a command and a command of deeper level with a
/// script is the root, with the first command below it, and the second
/// below the first; each under its local name.
pub proof fn law_parent_stays_for_its_subcommand(
    root: CommandView,
    parent: CommandView,
    child: CommandView,
)
    requires
        root.level == 1,
        root.subcommands.len() == 0,
        1 < parent.level < child.level,
        parent.subcommands.len() == 0,
        child.script is Some,
        child.subcommands.len() == 0,
    ensures
        ({
            let parent_name = local_name(parent.name, root.name);
            let child_name = local_name(local_name(child.name, root.name), parent_name);
            treeify(seq![root, parent, child]) == seq![
                CommandView {
                    subcommands: seq![
                        CommandView {
                            name: parent_name,
                            subcommands: seq![CommandView { name: child_name, ..child }],
                            ..parent
                        },
                    ],
                    ..root
                },
            ]
        }),
{
    let flat = seq![root, parent, child];
    let parent_name = local_name(parent.name, root.name);
    let below_root = seq![
        CommandView { name: parent_name, ..parent },
        CommandView { name: local_name(child.name, root.name), ..child },
    ];
    let leaf = CommandView {
        name: local_name(local_name(child.name, root.name), parent_name),
        ..child
    };
    lemma_single_group(flat);
    assert(renamed(flat.skip(1), root.name) =~= below_root);
    assert(root.subcommands + below_root =~= below_root);
    let group = CommandView { subcommands: below_root, ..root };
    assert(grouped(flat) == seq![group]);
    // below the root: one group, the parent with the child
    lemma_single_group(below_root);
    assert(renamed(below_root.skip(1), parent_name) =~= seq![leaf]);
    assert(below_root[0].subcommands + seq![leaf] =~= seq![leaf]);
    let family = CommandView { name: parent_name, subcommands: seq![leaf], ..parent };
    assert(grouped(below_root) == seq![family]);
    // below the parent: the child, which stays
    assert(seq![leaf][0].level == leaf.level);
    lemma_siblings_are_groups(seq![leaf]);
    lemma_leaves_stay(seq![leaf]);
    assert(treeify(seq![leaf]) == seq![leaf]);
    assert(seq![family].drop_last() =~= Seq::<CommandView>::empty());
    assert(nested(Seq::<CommandView>::empty()) =~= Seq::<CommandView>::empty());
    assert(nested(seq![family]) =~= seq![family]);
    assert(treeify(below_root) == seq![family]);
    // the root stays, with the parent below it
    assert(seq![group].drop_last() =~= Seq::<CommandView>::empty());
    assert(nested(seq![group]) =~= seq![CommandView { subcommands: seq![family], ..root }]);
}

/// Whether the subcommands of `c` are all of a deeper level than `c`.
pub open spec fn deepens(c: CommandView) -> bool {
    forall|i: int| 0 <= i < c.subcommands.len() ==> (#[trigger] c.subcommands[i]).level > c.level
}

/// What it is to have only subcommands of deeper level, as a rule on
/// commands.
pub open spec fn goes_deeper() -> spec_fn(CommandView) -> bool {
    |c: CommandView| deepens(c)
}

/// Whether no command of the list has subcommands.
pub open spec fn is_flat(commands: Seq<CommandView>) -> bool {
    forall|i: int| 0 <= i < commands.len() ==> (#[trigger] commands[i]).subcommands.len() == 0
}

/// Nesting groups of one level leaves commands of that level.
proof fn lemma_nested_levels(groups: Seq<CommandView>, level: u8)
    requires
        forall|k: int| 0 <= k < groups.len() ==> (#[trigger] groups[k]).level == level,
    ensures
        forall|k: int| 0 <= k < nested(groups).len() ==> (#[trigger] nested(groups)[k]).level
            == level,
    decreases groups.len(),
{
    if groups.len() > 0 {
        let rest = groups.drop_last();
        lemma_nested_levels(rest, level);
    }
}

/// The commands at the top of a tree are all of the level of the first
/// command of the flat list.
pub proof fn law_tree_levels(flat: Seq<CommandView>)
    requires
        flat.len() > 0,
    ensures
        forall|k: int| 0 <= k < treeify(flat).len() ==> (#[trigger] treeify(flat)[k]).level
            == flat[0].level,
{
    lemma_grouped_heads(flat);
    lemma_nested_levels(grouped(flat), flat[0].level);
}

/// The groups of a flat list without subcommands have only subcommands of
/// a deeper level than their head, and these have no subcommands.
proof fn lemma_grouped_deepens(flat: Seq<CommandView>)
    requires
        is_flat(flat),
    ensures
        forall|k: int|
            0 <= k < grouped(flat).len() ==> deepens(#[trigger] grouped(flat)[k]) && is_flat(
                grouped(flat)[k].subcommands,
            ),
    decreases flat.len(),
{
    if flat.len() > 1 {
        let rest = flat.drop_last();
        assert(is_flat(rest)) by {
            assert forall|i: int| 0 <= i < rest.len() implies (#[trigger] rest[i]).subcommands.len()
                == 0 by {
                assert(rest[i] == flat[i]);
            }
        }
        lemma_grouped_deepens(rest);
        lemma_grouped_heads(rest);
        let before = grouped(rest);
        let head = before.last();
        assert(head == before[before.len() - 1]);
        let c = flat.last();
        assert(c == flat[flat.len() - 1]);
        let groups = grouped(flat);
        assert forall|k: int| 0 <= k < groups.len() implies deepens(#[trigger] groups[k])
            && is_flat(groups[k].subcommands) by {
            if c.level > head.level {
                if k < groups.len() - 1 {
                    assert(groups[k] == before[k]);
                } else {
                    let parent = adopt(head, c);
                    assert(groups[k] == parent);
                    assert forall|i: int| 0 <= i < parent.subcommands.len() implies (
                    #[trigger] parent.subcommands[i]).level > parent.level
                        && parent.subcommands[i].subcommands.len() == 0 by {
                        if i < head.subcommands.len() {
                            assert(parent.subcommands[i] == head.subcommands[i]);
                        }
                    }
                }
            } else if c.level == head.level {
                if k < groups.len() - 1 {
                    assert(groups[k] == before[k]);
                } else {
                    assert(groups[k] == c);
                }
            } else {
                assert(groups[k] == before[k]);
            }
        }
    } else if flat.len() == 1 {
        assert(grouped(flat)[0] == flat[0]);
    }
}

/// Nesting groups whose subcommands are deeper and flat gives trees in
/// which every subcommand is deeper than the command above it.
proof fn lemma_nested_deepens(groups: Seq<CommandView>)
    requires
        forall|k: int|
            0 <= k < groups.len() ==> deepens(#[trigger] groups[k]) && is_flat(
                groups[k].subcommands,
            ),
    ensures
        every_command(nested(groups), goes_deeper()),
    decreases forest_size(groups), 0nat,
{
    if groups.len() > 0 {
        let rest = groups.drop_last();
        lemma_nested_deepens(rest);
        let group = groups.last();
        law_subcommands_are_deeper(group.subcommands);
        let node = CommandView { subcommands: treeify(group.subcommands), ..group };
        if group.subcommands.len() > 0 {
            law_tree_levels(group.subcommands);
        } else {
        }
        if retained(node) {
            lemma_every_command_push(nested(rest), goes_deeper(), node);
        }
    }
}

/// In the tree of a flat list without subcommands, every subcommand is of
/// a deeper level than the command it stands below, at every depth.
pub proof fn law_subcommands_are_deeper(flat: Seq<CommandView>)
    requires
        is_flat(flat),
    ensures
        every_command(treeify(flat), goes_deeper()),
    decreases forest_size(flat), 1nat,
{
    lemma_grouped_size(flat);
    lemma_grouped_deepens(flat);
    lemma_nested_deepens(grouped(flat));
}

/// Groups that are all of level 1 are all retained, in place.
pub proof fn lemma_nested_keeps_roots(groups: Seq<CommandView>)
    requires
        forall|k: int| 0 <= k < groups.len() ==> (#[trigger] groups[k]).level == 1,
    ensures
        nested(groups).len() == groups.len(),
        forall|k: int|
            0 <= k < groups.len() ==> #[trigger] nested(groups)[k] == (CommandView {
                subcommands: treeify(groups[k].subcommands),
                ..groups[k]
            }),
    decreases groups.len(),
{
    if groups.len() > 0 {
        lemma_nested_keeps_roots(groups.drop_last());
    }
}

} // verus!

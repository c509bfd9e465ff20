//! The command-path-to-hierarchical-menu compiler.
//!
//! A flat, ordered list of command descriptors is compiled in two steps.
//! First the colon-delimited paths are folded into a tree held in a growable
//! arena seeded with a synthetic root at index 0; at each path segment the
//! current node's children are scanned in order and the first child with the
//! segment's name wins, so the result is deterministic and depends on command
//! order. Then the tree is materialized into a flat, well-nested sequence of
//! menu build steps for the platform layer to replay, and every leaf records
//! its identity together with the command's original path string in the
//! `CommandMap`; that map, not the reconstructed path, is what menu
//! activation is resolved against.

use vstd::prelude::*;

use crate::commands::CommandInfo;
use crate::commands::SpecCommand;
use crate::commands::split_path;
use crate::commands::split_segments;

verus! {

/// A node of the menu tree: a segment name, the indices of the node's
/// children in the arena, and the command descriptor carried by the node.
/// A node is a leaf exactly when it has no children, and only then does its
/// command denote an invocable menu item.
pub struct MenuNode {
    pub name: String,
    pub children: Vec<usize>,
    pub command: CommandInfo,
}

/// The mathematical content of a menu tree node.
#[verifier::ext_equal]
pub ghost struct SpecNode {
    pub name: Seq<char>,
    pub children: Seq<int>,
    pub path: Seq<char>,
    pub key: Option<u32>,
}

impl View for MenuNode {
    type V = SpecNode;

    open spec fn view(&self) -> SpecNode {
        SpecNode {
            name: self.name@,
            children: self.children@.map_values(|c: usize| c as int),
            path: self.command.path@,
            key: self.command.key,
        }
    }
}

/// The arena, one abstract node per concrete node.
pub open spec fn nodes_model(nodes: Seq<MenuNode>) -> Seq<SpecNode> {
    nodes.map_values(|n: MenuNode| n@)
}

/// The abstract content of a command list.
pub open spec fn cmds_model(commands: Seq<CommandInfo>) -> Seq<SpecCommand> {
    commands.map_values(|c: CommandInfo| c@)
}

/// Well-formed arena: non-empty, and every child index points past its
/// parent and into the arena. Children therefore strictly increase along any
/// path from the root, which bounds the tree's depth by the arena's length.
pub open spec fn wf_tree(nodes: Seq<SpecNode>) -> bool {
    &&& 1 <= nodes.len()
    &&& forall|i: int, j: int|
        0 <= i < nodes.len() && 0 <= j < nodes[i].children.len() ==> i < #[trigger] nodes[i].children[j]
            < nodes.len()
}

/// First-match scan of a children list for a segment name.
pub open spec fn find_child(nodes: Seq<SpecNode>, children: Seq<int>, name: Seq<char>) -> Option<
    int,
>
    decreases children.len(),
{
    if children.len() == 0 {
        None
    } else {
        let c = children[0];
        if 0 <= c < nodes.len() && nodes[c].name == name {
            Some(c)
        } else {
            find_child(nodes, children.drop_first(), name)
        }
    }
}

/// The synthetic root node.
pub open spec fn root_node() -> SpecNode {
    SpecNode { name: "root"@, children: Seq::empty(), path: Seq::empty(), key: None }
}

/// Insert one command's remaining path segments below node `v`: descend into
/// the first child matching the next segment, appending a fresh node when no
/// child matches. Every created node carries the command's full descriptor;
/// only nodes that end up without children denote invocable items.
pub open spec fn insert_segs(
    nodes: Seq<SpecNode>,
    v: int,
    segs: Seq<Seq<char>>,
    cmd: SpecCommand,
) -> Seq<SpecNode>
    decreases segs.len(),
{
    if segs.len() == 0 || !(0 <= v < nodes.len()) {
        nodes
    } else {
        match find_child(nodes, nodes[v].children, segs[0]) {
            Some(c) => insert_segs(nodes, c, segs.drop_first(), cmd),
            None => {
                let n = nodes.len() as int;
                let parent = nodes[v];
                let grown = nodes.update(
                    v,
                    SpecNode { children: parent.children.push(n), ..parent },
                ).push(SpecNode { name: segs[0], children: Seq::empty(), path: cmd.path, key: cmd.key });
                insert_segs(grown, n, segs.drop_first(), cmd)
            },
        }
    }
}

/// The tree a command list compiles to: commands are inserted in order,
/// each starting from the synthetic root.
pub open spec fn build_tree(cmds: Seq<SpecCommand>) -> Seq<SpecNode>
    decreases cmds.len(),
{
    if cmds.len() == 0 {
        seq![root_node()]
    } else {
        insert_segs(build_tree(cmds.drop_last()), 0, split_path(cmds.last().path), cmds.last())
    }
}

/// One insertion step keeps the arena well formed.
proof fn lemma_insert_segs_wf(nodes: Seq<SpecNode>, v: int, segs: Seq<Seq<char>>, cmd: SpecCommand)
    requires
        wf_tree(nodes),
        0 <= v < nodes.len(),
    ensures
        wf_tree(insert_segs(nodes, v, segs, cmd)),
        insert_segs(nodes, v, segs, cmd).len() >= nodes.len(),
    decreases segs.len(),
{
    if segs.len() == 0 {
    } else {
        match find_child(nodes, nodes[v].children, segs[0]) {
            Some(c) => {
                lemma_find_child_in_range(nodes, nodes[v].children, segs[0]);
                lemma_insert_segs_wf(nodes, c, segs.drop_first(), cmd);
            },
            None => {
                let n = nodes.len() as int;
                let parent = nodes[v];
                let grown = nodes.update(
                    v,
                    SpecNode { children: parent.children.push(n), ..parent },
                ).push(SpecNode { name: segs[0], children: Seq::empty(), path: cmd.path, key: cmd.key });
                assert(wf_tree(grown)) by {
                    assert forall|i: int, j: int|
                        0 <= i < grown.len() && 0 <= j < grown[i].children.len() implies i
                        < #[trigger] grown[i].children[j] < grown.len() by {
                        if i == v && j == grown[v].children.len() - 1 {
                        } else if i < nodes.len() {
                            assert(grown[i].children[j] == nodes[i].children[j]);
                        }
                    }
                }
                lemma_insert_segs_wf(grown, n, segs.drop_first(), cmd);
            },
        }
    }
}

/// A successful first-match scan lands inside the arena, past the parent
/// when the children list belongs to a well-formed parent.
proof fn lemma_find_child_in_range(nodes: Seq<SpecNode>, children: Seq<int>, name: Seq<char>)
    requires
        find_child(nodes, children, name) is Some,
    ensures
        ({
            let c = find_child(nodes, children, name)->Some_0;
            &&& 0 <= c < nodes.len()
            &&& children.contains(c)
        }),
    decreases children.len(),
{
    if children.len() > 0 {
        let c = children[0];
        if 0 <= c < nodes.len() && nodes[c].name == name {
        } else {
            lemma_find_child_in_range(nodes, children.drop_first(), name);
            assert(children.drop_first().contains(find_child(nodes, children, name)->Some_0)
                ==> children.contains(find_child(nodes, children, name)->Some_0));
        }
    }
}

/// The compiled tree is well formed.
pub proof fn lemma_build_tree_wf(cmds: Seq<SpecCommand>)
    ensures
        wf_tree(build_tree(cmds)),
    decreases cmds.len(),
{
    if cmds.len() == 0 {
        assert(wf_tree(seq![root_node()]));
    } else {
        lemma_build_tree_wf(cmds.drop_last());
        lemma_insert_segs_wf(
            build_tree(cmds.drop_last()),
            0,
            split_path(cmds.last().path),
            cmds.last(),
        );
    }
}

/// First-match scan of a node's children for a segment name, as executable
/// code.
fn find_child_exec(nodes: &Vec<MenuNode>, v: usize, name: &String) -> (r: Option<usize>)
    requires
        wf_tree(nodes_model(nodes@)),
        v < nodes@.len(),
    ensures
        ({
            let f = find_child(nodes_model(nodes@), nodes_model(nodes@)[v as int].children, name@);
            match r {
                Some(c) => f == Some(c as int) && v < c < nodes@.len(),
                None => f is None,
            }
        }),
{
    let ghost model = nodes_model(nodes@);
    let ghost ch = model[v as int].children;
    let m = nodes[v].children.len();
    proof {
        assert(ch =~= nodes@[v as int].children@.map_values(|c: usize| c as int));
        assert(ch.skip(0) =~= ch);
    }
    let mut j: usize = 0;
    while j < m
        invariant
            wf_tree(model),
            model == nodes_model(nodes@),
            ch == model[v as int].children,
            v < nodes@.len(),
            m == nodes@[v as int].children@.len(),
            j <= m,
            find_child(model, ch, name@) == find_child(model, ch.skip(j as int), name@),
        decreases m - j,
    {
        let c = nodes[v].children[j];
        proof {
            assert(ch[j as int] == c as int);
            assert(0 <= (c as int) < model.len());
            assert(ch.skip(j as int)[0] == ch[j as int]);
        }
        if nodes[c].name.eq(name) {
            proof {
                assert(model[c as int].name == name@);
                assert(find_child(model, ch.skip(j as int), name@) == Some(c as int));
            }
            return Some(c);
        }
        proof {
            assert(model[c as int].name != name@);
            assert(ch.skip(j as int).drop_first() =~= ch.skip(j as int + 1));
        }
        j += 1;
    }
    proof {
        assert(ch.skip(m as int) =~= Seq::<int>::empty());
    }
    None
}

/// Insert one command into the arena, walking its path segments from the
/// root and appending a node wherever the first-match scan finds none.
fn insert_command(nodes: &mut Vec<MenuNode>, command: &CommandInfo)
    requires
        wf_tree(nodes_model(old(nodes)@)),
    ensures
        nodes_model(final(nodes)@) == insert_segs(
            nodes_model(old(nodes)@),
            0,
            split_path(command.path@),
            command@,
        ),
        wf_tree(nodes_model(final(nodes)@)),
{
    let segs = split_segments(command.path.as_str());
    let ghost cmd = command@;
    let ghost target = insert_segs(nodes_model(nodes@), 0, segs.deep_view(), cmd);
    proof {
        lemma_insert_segs_wf(nodes_model(nodes@), 0, segs.deep_view(), cmd);
        assert(segs.deep_view().skip(0) =~= segs.deep_view());
    }
    let nsegs = segs.len();
    let mut v: usize = 0;
    let mut si: usize = 0;
    while si < nsegs
        invariant
            wf_tree(nodes_model(nodes@)),
            v < nodes@.len(),
            nsegs == segs@.len(),
            si <= nsegs,
            cmd == command@,
            insert_segs(nodes_model(nodes@), v as int, segs.deep_view().skip(si as int), cmd)
                == target,
            wf_tree(target),
        decreases nsegs - si,
    {
        let ghost model = nodes_model(nodes@);
        let ghost rest = segs.deep_view().skip(si as int);
        proof {
            assert(rest[0] == segs.deep_view()[si as int]);
            assert(rest.drop_first() =~= segs.deep_view().skip(si as int + 1));
        }
        let found = find_child_exec(nodes, v, &segs[si]);
        match found {
            Some(c) => {
                proof {
                    assert(insert_segs(model, v as int, rest, cmd) == insert_segs(
                        model,
                        c as int,
                        rest.drop_first(),
                        cmd,
                    ));
                }
                v = c;
            },
            None => {
                let n = nodes.len();
                let ghost parent = model[v as int];
                let ghost grown = model.update(
                    v as int,
                    SpecNode { children: parent.children.push(n as int), ..parent },
                ).push(
                    SpecNode {
                        name: segs.deep_view()[si as int],
                        children: Seq::empty(),
                        path: cmd.path,
                        key: cmd.key,
                    },
                );
                proof {
                    assert(insert_segs(model, v as int, rest, cmd) == insert_segs(
                        grown,
                        n as int,
                        rest.drop_first(),
                        cmd,
                    ));
                }
                let ghost before = nodes@;
                nodes[v].children.push(n);
                let name = segs[si].clone();
                let path = command.path.clone();
                nodes.push(
                    MenuNode { name, children: Vec::new(), command: CommandInfo { path, key: command.key } },
                );
                proof {
                    let newmodel = nodes_model(nodes@);
                    assert(newmodel =~= grown) by {
                        let f = |c: usize| c as int;
                        assert forall|t: int| 0 <= t < grown.len() implies newmodel[t]
                            == grown[t] by {
                            if t == v as int {
                                assert(nodes@[t].children@ == before[t].children@.push(n));
                                assert(before[t].children@.push(n).map_values(f)
                                    =~= before[t].children@.map_values(f).push(n as int));
                                assert(newmodel[t].children == grown[t].children);
                                assert(newmodel[t] =~= grown[t]);
                            } else if t == model.len() {
                                assert(nodes@[t].children@.len() == 0);
                                assert(newmodel[t].children =~= Seq::<int>::empty());
                                assert(segs.deep_view()[si as int] == segs@[si as int]@);
                                assert(nodes@[t].name@ == segs@[si as int]@);
                                assert(nodes@[t].command.path@ == cmd.path);
                                assert(newmodel[t] =~= grown[t]);
                            } else {
                                assert(nodes@[t] == before[t]);
                                assert(newmodel[t] =~= grown[t]);
                            }
                        }
                    }
                    assert(wf_tree(grown)) by {
                        assert forall|i: int, j: int|
                            0 <= i < grown.len() && 0 <= j < grown[i].children.len() implies i
                            < #[trigger] grown[i].children[j] < grown.len() by {
                            if !(i == v as int && j == grown[v as int].children.len() - 1)
                                && i < model.len() {
                                assert(grown[i].children[j] == model[i].children[j]);
                            }
                        }
                    }
                }
                v = n;
            },
        }
        si += 1;
    }
    proof {
        assert(segs.deep_view().skip(nsegs as int) =~= Seq::<Seq<char>>::empty());
    }
}

/// Compile a command list into a menu tree arena seeded with the synthetic
/// root, inserting the commands in order.
pub fn build_menu_tree(commands: &Vec<CommandInfo>) -> (nodes: Vec<MenuNode>)
    ensures
        nodes_model(nodes@) == build_tree(cmds_model(commands@)),
        wf_tree(nodes_model(nodes@)),
{
    let mut nodes: Vec<MenuNode> = Vec::new();
    nodes.push(
        MenuNode {
            name: String::from_str("root"),
            children: Vec::new(),
            command: CommandInfo { path: String::new(), key: None },
        },
    );
    proof {
        assert(nodes_model(nodes@) =~= seq![root_node()]) by {
            assert(nodes@[0]@.children =~= Seq::<int>::empty());
            assert(nodes@[0]@ =~= root_node());
        }
        assert(cmds_model(commands@.take(0)) =~= Seq::<SpecCommand>::empty());
    }
    let total = commands.len();
    let mut k: usize = 0;
    while k < total
        invariant
            total == commands@.len(),
            k <= total,
            wf_tree(nodes_model(nodes@)),
            nodes_model(nodes@) == build_tree(cmds_model(commands@.take(k as int))),
        decreases total - k,
    {
        insert_command(&mut nodes, &commands[k]);
        proof {
            let pre = cmds_model(commands@.take(k as int));
            let post = cmds_model(commands@.take(k as int + 1));
            assert(post.drop_last() =~= pre);
            assert(post.last() == commands@[k as int]@);
            assert(build_tree(post) == insert_segs(
                build_tree(pre),
                0,
                split_path(commands@[k as int]@.path),
                commands@[k as int]@,
            ));
        }
        k += 1;
    }
    proof {
        assert(commands@.take(total as int) =~= commands@);
    }
    nodes
}

/// One step of building a native menu. The platform layer replays the steps
/// in order against its menu construction calls, keeping a stack of open
/// submenus: `BeginSubmenu` opens a nested menu, `EndSubmenu` closes the
/// innermost open one, `Item` adds an invocable entry carrying its identity
/// and optional accelerator keycode, and `About` and `Quit` add the
/// platform's native items of the synthetic application submenu.
#[derive(Debug)]
pub enum MenuOp {
    BeginSubmenu { name: String },
    EndSubmenu,
    Item { name: String, id: u64, key: Option<u32> },
    About,
    Quit,
}

/// The mathematical content of a menu build step.
#[verifier::ext_equal]
pub ghost enum SpecOp {
    BeginSubmenu { name: Seq<char> },
    EndSubmenu,
    Item { name: Seq<char>, id: u64, key: Option<u32> },
    About,
    Quit,
}

impl View for MenuOp {
    type V = SpecOp;

    open spec fn view(&self) -> SpecOp {
        match self {
            MenuOp::BeginSubmenu { name } => SpecOp::BeginSubmenu { name: name@ },
            MenuOp::EndSubmenu => SpecOp::EndSubmenu,
            MenuOp::Item { name, id, key } => SpecOp::Item { name: name@, id: *id, key: *key },
            MenuOp::About => SpecOp::About,
            MenuOp::Quit => SpecOp::Quit,
        }
    }
}

/// A materialized menu: the well-nested sequence of build steps describing
/// the menu bar, root level outermost.
#[derive(Debug)]
pub struct Menu {
    pub ops: Vec<MenuOp>,
}

/// The abstract content of a sequence of build steps.
pub open spec fn menu_model(ops: Seq<MenuOp>) -> Seq<SpecOp> {
    ops.map_values(|o: MenuOp| o@)
}

/// The build steps of the synthetic application submenu injected ahead of
/// all user items: the about and quit entries under the toolkit's submenu.
pub open spec fn app_menu_ops() -> Seq<SpecOp> {
    seq![
        SpecOp::BeginSubmenu { name: "rui"@ },
        SpecOp::About,
        SpecOp::Quit,
        SpecOp::EndSubmenu,
    ]
}

/// Materialization of the subtree below node `i`, starting at child slot
/// `k`: the build steps emitted and the identity-to-path entries recorded.
/// A child with children becomes a submenu and contributes no entry; a
/// childless child becomes an item whose identity is its arena index and
/// records its command's original path. Identities are therefore distinct
/// across the menu, and opaque to callers.
pub open spec fn smat(nodes: Seq<SpecNode>, i: int, k: int) -> (Seq<SpecOp>, Seq<(u64, Seq<char>)>)
    decreases nodes.len() - i, nodes[i].children.len() - k,
{
    if !(0 <= i < nodes.len()) || !(0 <= k) || k >= nodes[i].children.len() {
        (Seq::empty(), Seq::empty())
    } else {
        let c = nodes[i].children[k];
        if !(i < c < nodes.len()) {
            smat(nodes, i, k + 1)
        } else if nodes[c].children.len() > 0 {
            let sub = smat(nodes, c, 0);
            let rest = smat(nodes, i, k + 1);
            (
                seq![SpecOp::BeginSubmenu { name: nodes[c].name }] + sub.0
                    + seq![SpecOp::EndSubmenu] + rest.0,
                sub.1 + rest.1,
            )
        } else {
            let rest = smat(nodes, i, k + 1);
            (
                seq![SpecOp::Item { name: nodes[c].name, id: c as u64, key: nodes[c].key }]
                    + rest.0,
                seq![(c as u64, nodes[c].path)] + rest.1,
            )
        }
    }
}

/// Appending one step extends the abstract step sequence by its content.
proof fn lemma_menu_model_push(ops: Seq<MenuOp>, op: MenuOp)
    ensures
        menu_model(ops.push(op)) =~= menu_model(ops) + seq![op@],
{
}

/// Materialize the subtree below node `i` into build steps, recording every
/// leaf's identity and original command path in the map. The root call also
/// injects the synthetic application submenu ahead of the user items.
pub fn make_menu_rec(nodes: &Vec<MenuNode>, i: usize, command_map: &mut CommandMap, ops: &mut Vec<MenuOp>)
    requires
        wf_tree(nodes_model(nodes@)),
        i < nodes@.len(),
    ensures
        menu_model(final(ops)@) =~= menu_model(old(ops)@) + (if i == 0 {
            app_menu_ops()
        } else {
            Seq::<SpecOp>::empty()
        }) + smat(nodes_model(nodes@), i as int, 0).0,
        final(command_map)@ =~= old(command_map)@ + smat(nodes_model(nodes@), i as int, 0).1,
    decreases nodes@.len() - i,
{
    let ghost model = nodes_model(nodes@);
    if i == 0 {
        ops.push(MenuOp::BeginSubmenu { name: String::from_str("rui") });
        ops.push(MenuOp::About);
        ops.push(MenuOp::Quit);
        ops.push(MenuOp::EndSubmenu);
        proof {
            assert(menu_model(ops@) =~= menu_model(old(ops)@) + app_menu_ops());
        }
    }
    let ghost base_ops = menu_model(ops@);
    let ghost base_map = command_map@;
    let m = nodes[i].children.len();
    let mut k: usize = 0;
    while k < m
        invariant
            wf_tree(model),
            model == nodes_model(nodes@),
            i < nodes@.len(),
            m == nodes@[i as int].children@.len(),
            k <= m,
            menu_model(ops@) + smat(model, i as int, k as int).0 =~= base_ops + smat(
                model,
                i as int,
                0,
            ).0,
            command_map@ + smat(model, i as int, k as int).1 =~= base_map + smat(
                model,
                i as int,
                0,
            ).1,
        decreases m - k,
    {
        let c = nodes[i].children[k];
        proof {
            assert(model[i as int].children[k as int] == c as int);
            assert((i as int) < (c as int) < model.len());
        }
        let ghost pre_ops = menu_model(ops@);
        let ghost pre_map = command_map@;
        if nodes[c].children.len() > 0 {
            proof {
                assert(model[c as int].children.len() > 0);
            }
            let begin_op = MenuOp::BeginSubmenu { name: nodes[c].name.clone() };
            proof {
                lemma_menu_model_push(ops@, begin_op);
            }
            ops.push(begin_op);
            let ghost mid_ops = menu_model(ops@);
            proof {
                assert(mid_ops =~= pre_ops + seq![
                    SpecOp::BeginSubmenu { name: model[c as int].name },
                ]);
            }
            make_menu_rec(nodes, c, command_map, ops);
            let ghost sub = smat(model, c as int, 0);
            proof {
                assert(menu_model(ops@) =~= mid_ops + sub.0);
                lemma_menu_model_push(ops@, MenuOp::EndSubmenu);
            }
            ops.push(MenuOp::EndSubmenu);
            proof {
                let rest = smat(model, i as int, k as int + 1);
                assert(smat(model, i as int, k as int).0 =~= seq![
                    SpecOp::BeginSubmenu { name: model[c as int].name },
                ] + sub.0 + seq![SpecOp::EndSubmenu] + rest.0);
                assert(menu_model(ops@) =~= mid_ops + sub.0 + seq![SpecOp::EndSubmenu]);
                assert(menu_model(ops@) =~= pre_ops + seq![
                    SpecOp::BeginSubmenu { name: model[c as int].name },
                ] + sub.0 + seq![SpecOp::EndSubmenu]);
                assert(menu_model(ops@) + rest.0 =~= base_ops + smat(model, i as int, 0).0);
                assert(command_map@ =~= pre_map + sub.1);
                assert(command_map@ + rest.1 =~= base_map + smat(model, i as int, 0).1);
            }
        } else {
            proof {
                assert(model[c as int].children.len() == 0);
            }
            let id = c as u64;
            ops.push(MenuOp::Item { name: nodes[c].name.clone(), id, key: nodes[c].command.key });
            command_map.insert(id, nodes[c].command.path.clone());
            proof {
                let rest = smat(model, i as int, k as int + 1);
                assert(smat(model, i as int, k as int).0 =~= seq![
                    SpecOp::Item { name: model[c as int].name, id: c as u64, key: model[c as int].key },
                ] + rest.0);
                assert(smat(model, i as int, k as int).1 =~= seq![(c as u64, model[c as int].path)]
                    + rest.1);
                assert(menu_model(ops@) =~= pre_ops + seq![
                    SpecOp::Item { name: model[c as int].name, id: c as u64, key: model[c as int].key },
                ]);
                assert(menu_model(ops@) + rest.0 =~= base_ops + smat(model, i as int, 0).0);
                assert(command_map@ + rest.1 =~= base_map + smat(model, i as int, 0).1);
            }
        }
        k += 1;
    }
    proof {
        assert(smat(model, i as int, m as int).0 =~= Seq::<SpecOp>::empty());
        assert(smat(model, i as int, m as int).1 =~= Seq::<(u64, Seq<char>)>::empty());
        assert(menu_model(ops@) =~= base_ops + smat(model, i as int, 0).0);
        assert(command_map@ =~= base_map + smat(model, i as int, 0).1);
    }
}

/// An empty command list compiles to the bare synthetic root: the
/// materialized menu then holds only the synthetic application submenu, no
/// user items, and the command map receives no entry.
pub proof fn lemma_empty_command_list()
    ensures
        build_tree(Seq::<SpecCommand>::empty()) =~= seq![root_node()],
        smat(build_tree(Seq::<SpecCommand>::empty()), 0, 0).0 =~= Seq::<SpecOp>::empty(),
        smat(build_tree(Seq::<SpecCommand>::empty()), 0, 0).1 =~= Seq::<(u64, Seq<char>)>::empty(),
{
    assert(build_tree(Seq::<SpecCommand>::empty()) =~= seq![root_node()]);
}

/// The entry carries the stored command path of some non-root node.
pub open spec fn entry_from_nodes(nodes: Seq<SpecNode>, e: (u64, Seq<char>)) -> bool {
    exists|c: int| #![trigger nodes[c].path] 1 <= c < nodes.len() && e.1 == nodes[c].path
}

/// Every entry of `es` carries the stored command path of some non-root
/// node of the arena.
pub open spec fn entries_from_nodes(nodes: Seq<SpecNode>, es: Seq<(u64, Seq<char>)>) -> bool {
    forall|t: int| 0 <= t < es.len() ==> entry_from_nodes(nodes, #[trigger] es[t])
}

/// The property distributes over concatenation.
proof fn lemma_entries_concat(
    nodes: Seq<SpecNode>,
    a: Seq<(u64, Seq<char>)>,
    b: Seq<(u64, Seq<char>)>,
)
    requires
        entries_from_nodes(nodes, a),
        entries_from_nodes(nodes, b),
    ensures
        entries_from_nodes(nodes, a + b),
{
    let s = a + b;
    assert forall|t: int| 0 <= t < s.len() implies entry_from_nodes(
        nodes,
        #[trigger] s[t],
    ) by {
        if t < a.len() {
            assert(s[t] == a[t]);
            assert(entry_from_nodes(nodes, a[t]));
        } else {
            let u = t - a.len();
            assert(s[t] == b[u]);
            assert(entry_from_nodes(nodes, b[u]));
        }
    }
    assert(entries_from_nodes(nodes, s));
}

/// Every entry the materialization records points at a non-root node of the
/// arena and carries that node's stored command path.
proof fn lemma_smat_entry_paths(nodes: Seq<SpecNode>, i: int, k: int)
    ensures
        entries_from_nodes(nodes, smat(nodes, i, k).1),
    decreases nodes.len() - i, nodes[i].children.len() - k,
{
    if !(0 <= i < nodes.len()) || !(0 <= k) || k >= nodes[i].children.len() {
        assert(smat(nodes, i, k).1.len() == 0);
    } else {
        let c = nodes[i].children[k];
        if !(i < c < nodes.len()) {
            lemma_smat_entry_paths(nodes, i, k + 1);
        } else if nodes[c].children.len() > 0 {
            lemma_smat_entry_paths(nodes, c, 0);
            lemma_smat_entry_paths(nodes, i, k + 1);
            lemma_entries_concat(nodes, smat(nodes, c, 0).1, smat(nodes, i, k + 1).1);
        } else {
            lemma_smat_entry_paths(nodes, i, k + 1);
            let single = seq![(c as u64, nodes[c].path)];
            assert(entries_from_nodes(nodes, single)) by {
                assert(1 <= c < nodes.len() && single[0].1 == nodes[c].path);
                assert(entry_from_nodes(nodes, single[0]));
            }
            lemma_entries_concat(nodes, single, smat(nodes, i, k + 1).1);
        }
    }
}

/// Inserting a command changes no stored path of an existing node; every
/// node it appends stores the inserted command's path.
proof fn lemma_insert_segs_paths(
    nodes: Seq<SpecNode>,
    v: int,
    segs: Seq<Seq<char>>,
    cmd: SpecCommand,
)
    ensures
        forall|c: int|
            0 <= c < insert_segs(nodes, v, segs, cmd).len() ==> (c < nodes.len()
                && (#[trigger] insert_segs(nodes, v, segs, cmd)[c]).path == nodes[c].path)
                || insert_segs(nodes, v, segs, cmd)[c].path == cmd.path,
    decreases segs.len(),
{
    if segs.len() == 0 || !(0 <= v < nodes.len()) {
    } else {
        match find_child(nodes, nodes[v].children, segs[0]) {
            Some(c) => {
                lemma_insert_segs_paths(nodes, c, segs.drop_first(), cmd);
            },
            None => {
                let n = nodes.len() as int;
                let parent = nodes[v];
                let grown = nodes.update(
                    v,
                    SpecNode { children: parent.children.push(n), ..parent },
                ).push(
                    SpecNode { name: segs[0], children: Seq::empty(), path: cmd.path, key: cmd.key },
                );
                lemma_insert_segs_paths(grown, n, segs.drop_first(), cmd);
            },
        }
    }
}

/// Every non-root node of the compiled tree stores the path of one of the
/// input commands.
proof fn lemma_build_tree_paths(cmds: Seq<SpecCommand>)
    ensures
        forall|c: int|
            1 <= c < build_tree(cmds).len() ==> exists|k: int|
                0 <= k < cmds.len() && (#[trigger] build_tree(cmds)[c]).path == cmds[k].path,
    decreases cmds.len(),
{
    if cmds.len() == 0 {
    } else {
        let prev = build_tree(cmds.drop_last());
        lemma_build_tree_paths(cmds.drop_last());
        lemma_insert_segs_paths(prev, 0, split_path(cmds.last().path), cmds.last());
        assert forall|c: int| 1 <= c < build_tree(cmds).len() implies exists|k: int|
            0 <= k < cmds.len() && (#[trigger] build_tree(cmds)[c]).path == cmds[k].path by {
            if c < prev.len() && build_tree(cmds)[c].path == prev[c].path {
                let k = choose|k: int|
                    0 <= k < cmds.drop_last().len() && prev[c].path == cmds.drop_last()[k].path;
                assert(cmds.drop_last()[k] == cmds[k]);
                assert(build_tree(cmds)[c].path == cmds[k].path);
            } else {
                assert(build_tree(cmds)[c].path == cmds.last().path);
                assert(cmds.last() == cmds[cmds.len() - 1]);
            }
        }
    }
}

/// Every command-map entry recorded for a command list maps its identity to
/// the original path string of one of the commands, whatever the leaf's
/// depth or its siblings: the map stores the command's own path, not a path
/// reconstructed from the tree.
pub proof fn lemma_command_map_original_paths(cmds: Seq<SpecCommand>)
    ensures
        forall|t: int|
            0 <= t < smat(build_tree(cmds), 0, 0).1.len() ==> exists|k: int|
                0 <= k < cmds.len() && (#[trigger] smat(build_tree(cmds), 0, 0).1[t]).1
                    == cmds[k].path,
{
    let nodes = build_tree(cmds);
    lemma_smat_entry_paths(nodes, 0, 0);
    lemma_build_tree_paths(cmds);
    let es = smat(nodes, 0, 0).1;
    assert forall|t: int| 0 <= t < es.len() implies exists|k: int|
        0 <= k < cmds.len() && (#[trigger] es[t]).1 == cmds[k].path by {
        assert(entry_from_nodes(nodes, es[t]));
        let c = choose|c: int|
            #![trigger nodes[c].path]
            1 <= c < nodes.len() && es[t].1 == nodes[c].path;
        let k = choose|k: int| 0 <= k < cmds.len() && (#[trigger] nodes[c]).path == cmds[k].path;
        assert(0 <= k < cmds.len() && es[t].1 == cmds[k].path);
    }
}

/// Resolution of a segment sequence against the tree: walk from node `v`,
/// descending into the first child matching each segment in turn. The node
/// a prefix denotes is a function of the tree and the prefix alone.
pub open spec fn resolve_from(nodes: Seq<SpecNode>, v: int, segs: Seq<Seq<char>>) -> Option<int>
    decreases segs.len(),
{
    if segs.len() == 0 {
        Some(v)
    } else if !(0 <= v < nodes.len()) {
        None
    } else {
        match find_child(nodes, nodes[v].children, segs[0]) {
            Some(c) => resolve_from(nodes, c, segs.drop_first()),
            None => None,
        }
    }
}

/// `n2` extends `n1`: every node of `n1` is still there under the same
/// name, with its children list only appended to.
pub open spec fn tree_extends(n2: Seq<SpecNode>, n1: Seq<SpecNode>) -> bool {
    &&& n1.len() <= n2.len()
    &&& forall|i: int| 0 <= i < n1.len() ==> (#[trigger] n2[i]).name == n1[i].name
    &&& forall|i: int|
        0 <= i < n1.len() ==> n1[i].children.len() <= (#[trigger] n2[i]).children.len()
    &&& forall|i: int, j: int|
        0 <= i < n1.len() && 0 <= j < n1[i].children.len() ==> #[trigger] n1[i].children[j]
            == n2[i].children[j]
}

proof fn lemma_extends_trans(n3: Seq<SpecNode>, n2: Seq<SpecNode>, n1: Seq<SpecNode>)
    requires
        tree_extends(n3, n2),
        tree_extends(n2, n1),
    ensures
        tree_extends(n3, n1),
{
}

/// A successful first-match scan over in-range children is unchanged in an
/// extension of the tree, also when the children list was appended to: the
/// earlier entries keep their names, so the same first entry matches.
proof fn lemma_find_child_extends(
    n1: Seq<SpecNode>,
    n2: Seq<SpecNode>,
    ch1: Seq<int>,
    ch2: Seq<int>,
    name: Seq<char>,
)
    requires
        tree_extends(n2, n1),
        ch1.len() <= ch2.len(),
        forall|j: int| 0 <= j < ch1.len() ==> #[trigger] ch1[j] == ch2[j],
        forall|j: int| 0 <= j < ch1.len() ==> 0 <= #[trigger] ch1[j] < n1.len(),
        find_child(n1, ch1, name) is Some,
    ensures
        find_child(n2, ch2, name) == find_child(n1, ch1, name),
    decreases ch1.len(),
{
    let c = ch1[0];
    assert(ch2[0] == c);
    if n1[c].name == name {
        assert(n2[c].name == name);
    } else {
        assert(find_child(n1, ch1.drop_first(), name) == find_child(n1, ch1, name));
        lemma_find_child_extends(n1, n2, ch1.drop_first(), ch2.drop_first(), name);
    }
}

/// A scan that found nothing still finds nothing among the same children in
/// an extension, and an appended child with the sought name is then the
/// first match.
proof fn lemma_find_child_append_match(
    n1: Seq<SpecNode>,
    n2: Seq<SpecNode>,
    ch: Seq<int>,
    extra: int,
    name: Seq<char>,
)
    requires
        tree_extends(n2, n1),
        find_child(n1, ch, name) is None,
        forall|j: int| 0 <= j < ch.len() ==> 0 <= #[trigger] ch[j] < n1.len(),
        0 <= extra < n2.len(),
        n2[extra].name == name,
    ensures
        find_child(n2, ch.push(extra), name) == Some(extra),
    decreases ch.len(),
{
    if ch.len() == 0 {
        assert(ch.push(extra)[0] == extra);
    } else {
        let c = ch[0];
        assert(n1[c].name != name);
        assert(n2[c].name != name);
        assert(ch.push(extra)[0] == c);
        assert(ch.push(extra).drop_first() =~= ch.drop_first().push(extra));
        lemma_find_child_append_match(n1, n2, ch.drop_first(), extra, name);
    }
}

/// A resolution that succeeds in a well-formed tree succeeds, at the same
/// node, in every extension of it.
proof fn lemma_resolve_extends(n1: Seq<SpecNode>, n2: Seq<SpecNode>, v: int, segs: Seq<Seq<char>>)
    requires
        tree_extends(n2, n1),
        wf_tree(n1),
        resolve_from(n1, v, segs) is Some,
    ensures
        resolve_from(n2, v, segs) == resolve_from(n1, v, segs),
    decreases segs.len(),
{
    if segs.len() == 0 {
    } else {
        let f = find_child(n1, n1[v].children, segs[0]);
        lemma_find_child_extends(n1, n2, n1[v].children, n2[v].children, segs[0]);
        lemma_resolve_extends(n1, n2, f->Some_0, segs.drop_first());
    }
}

/// Inserting a command only extends the tree.
proof fn lemma_insert_segs_extends(
    nodes: Seq<SpecNode>,
    v: int,
    segs: Seq<Seq<char>>,
    cmd: SpecCommand,
)
    ensures
        tree_extends(insert_segs(nodes, v, segs, cmd), nodes),
    decreases segs.len(),
{
    if segs.len() == 0 || !(0 <= v < nodes.len()) {
    } else {
        match find_child(nodes, nodes[v].children, segs[0]) {
            Some(c) => {
                lemma_insert_segs_extends(nodes, c, segs.drop_first(), cmd);
            },
            None => {
                let n = nodes.len() as int;
                let parent = nodes[v];
                let grown = nodes.update(
                    v,
                    SpecNode { children: parent.children.push(n), ..parent },
                ).push(
                    SpecNode { name: segs[0], children: Seq::empty(), path: cmd.path, key: cmd.key },
                );
                assert(tree_extends(grown, nodes));
                lemma_insert_segs_extends(grown, n, segs.drop_first(), cmd);
                lemma_extends_trans(insert_segs(nodes, v, segs, cmd), grown, nodes);
            },
        }
    }
}

/// After inserting a command below `v`, every prefix of its segment
/// sequence resolves from `v` to some node.
proof fn lemma_insert_segs_resolves(
    nodes: Seq<SpecNode>,
    v: int,
    segs: Seq<Seq<char>>,
    cmd: SpecCommand,
)
    requires
        wf_tree(nodes),
        0 <= v < nodes.len(),
    ensures
        forall|d: int|
            0 <= d <= segs.len() ==> resolve_from(
                insert_segs(nodes, v, segs, cmd),
                v,
                #[trigger] segs.take(d),
            ) is Some,
    decreases segs.len(),
{
    let res = insert_segs(nodes, v, segs, cmd);
    if segs.len() == 0 {
        assert(segs.take(0) =~= Seq::<Seq<char>>::empty());
    } else {
        match find_child(nodes, nodes[v].children, segs[0]) {
            Some(c) => {
                lemma_find_child_in_range(nodes, nodes[v].children, segs[0]);
                lemma_insert_segs_resolves(nodes, c, segs.drop_first(), cmd);
                lemma_insert_segs_extends(nodes, c, segs.drop_first(), cmd);
                assert forall|d: int| 0 <= d <= segs.len() implies resolve_from(
                    res,
                    v,
                    #[trigger] segs.take(d),
                ) is Some by {
                    if d == 0 {
                        assert(segs.take(0) =~= Seq::<Seq<char>>::empty());
                    } else {
                        assert(segs.take(d)[0] == segs[0]);
                        lemma_find_child_extends(
                            nodes,
                            res,
                            nodes[v].children,
                            res[v].children,
                            segs[0],
                        );
                        assert(segs.take(d).drop_first() =~= segs.drop_first().take(d - 1));
                        assert(resolve_from(res, c, segs.drop_first().take(d - 1)) is Some);
                    }
                }
            },
            None => {
                let n = nodes.len() as int;
                let parent = nodes[v];
                let grown = nodes.update(
                    v,
                    SpecNode { children: parent.children.push(n), ..parent },
                ).push(
                    SpecNode { name: segs[0], children: Seq::empty(), path: cmd.path, key: cmd.key },
                );
                assert(tree_extends(grown, nodes));
                assert(wf_tree(grown)) by {
                    assert forall|a: int, b: int|
                        0 <= a < grown.len() && 0 <= b < grown[a].children.len() implies a
                        < #[trigger] grown[a].children[b] < grown.len() by {
                        if !(a == v && b == grown[v].children.len() - 1) && a < nodes.len() {
                            assert(grown[a].children[b] == nodes[a].children[b]);
                        }
                    }
                }
                lemma_insert_segs_resolves(grown, n, segs.drop_first(), cmd);
                lemma_insert_segs_extends(grown, n, segs.drop_first(), cmd);
                assert forall|d: int| 0 <= d <= segs.len() implies resolve_from(
                    res,
                    v,
                    #[trigger] segs.take(d),
                ) is Some by {
                    if d == 0 {
                        assert(segs.take(0) =~= Seq::<Seq<char>>::empty());
                    } else {
                        assert(segs.take(d)[0] == segs[0]);
                        lemma_find_child_append_match(
                            nodes,
                            grown,
                            nodes[v].children,
                            n,
                            segs[0],
                        );
                        assert(grown[v].children =~= nodes[v].children.push(n));
                        assert(find_child(grown, grown[v].children, segs[0]) == Some(n));
                        lemma_find_child_extends(
                            grown,
                            res,
                            grown[v].children,
                            res[v].children,
                            segs[0],
                        );
                        assert(segs.take(d).drop_first() =~= segs.drop_first().take(d - 1));
                        assert(resolve_from(res, n, segs.drop_first().take(d - 1)) is Some);
                    }
                }
            },
        }
    }
}

/// Prefix sharing: every prefix of every command's segment sequence denotes
/// a node of the compiled tree. Resolution is a function of the tree and
/// the prefix alone, so two commands whose paths share a prefix resolve
/// that prefix to one and the same ancestor node; see
/// `lemma_shared_prefix_same_ancestor`.
pub proof fn lemma_prefix_resolves(cmds: Seq<SpecCommand>, a: int, d: int)
    requires
        0 <= a < cmds.len(),
        0 <= d <= split_path(cmds[a].path).len(),
    ensures
        resolve_from(build_tree(cmds), 0, split_path(cmds[a].path).take(d)) is Some,
    decreases cmds.len(),
{
    let prev = build_tree(cmds.drop_last());
    lemma_build_tree_wf(cmds.drop_last());
    if a == cmds.len() - 1 {
        lemma_insert_segs_resolves(prev, 0, split_path(cmds.last().path), cmds.last());
        assert(cmds.last() == cmds[a]);
    } else {
        lemma_prefix_resolves(cmds.drop_last(), a, d);
        assert(cmds.drop_last()[a] == cmds[a]);
        lemma_insert_segs_extends(prev, 0, split_path(cmds.last().path), cmds.last());
        lemma_resolve_extends(
            prev,
            build_tree(cmds),
            0,
            split_path(cmds[a].path).take(d),
        );
    }
}

/// Two commands sharing a path prefix share the same ancestor node: the
/// shared prefix resolves, and to the same node for both, since resolution
/// depends only on the tree and the prefix.
pub proof fn lemma_shared_prefix_same_ancestor(cmds: Seq<SpecCommand>, a: int, b: int, d: int)
    requires
        0 <= a < cmds.len(),
        0 <= b < cmds.len(),
        0 <= d <= split_path(cmds[a].path).len(),
        split_path(cmds[a].path).take(d) == split_path(cmds[b].path).take(d),
    ensures
        resolve_from(build_tree(cmds), 0, split_path(cmds[a].path).take(d)) is Some,
        resolve_from(build_tree(cmds), 0, split_path(cmds[a].path).take(d)) == resolve_from(
            build_tree(cmds),
            0,
            split_path(cmds[b].path).take(d),
        ),
{
    lemma_prefix_resolves(cmds, a, d);
}

/// Compile a command list into a materialized menu and its command map: the
/// tree is built by `build_menu_tree`, the synthetic application submenu
/// comes first, and every leaf's identity maps to the original path string
/// of the command that created it.
pub fn build_menubar(commands: &Vec<CommandInfo>, command_map: &mut CommandMap) -> (menu: Menu)
    ensures
        ({
            let nodes = build_tree(cmds_model(commands@));
            &&& menu_model(menu.ops@) =~= app_menu_ops() + smat(nodes, 0, 0).0
            &&& final(command_map)@ =~= old(command_map)@ + smat(nodes, 0, 0).1
        }),
{
    let nodes = build_menu_tree(commands);
    let mut ops: Vec<MenuOp> = Vec::new();
    make_menu_rec(&nodes, 0, command_map, &mut ops);
    proof {
        assert(menu_model(Seq::<MenuOp>::empty()) =~= Seq::<SpecOp>::empty());
    }
    Menu { ops }
}

/// Mapping from menu-item identity to the original command path string,
/// in insertion order; a later entry for the same identity wins.
pub struct CommandMap {
    entries: Vec<(u64, String)>,
}

impl View for CommandMap {
    type V = Seq<(u64, Seq<char>)>;

    closed spec fn view(&self) -> Seq<(u64, Seq<char>)> {
        self.entries@.map_values(|p: (u64, String)| (p.0, p.1@))
    }
}

/// The path an identity maps to: the last entry with that identity wins.
pub open spec fn map_lookup(entries: Seq<(u64, Seq<char>)>, id: u64) -> Option<Seq<char>>
    decreases entries.len(),
{
    if entries.len() == 0 {
        None
    } else if entries.last().0 == id {
        Some(entries.last().1)
    } else {
        map_lookup(entries.drop_last(), id)
    }
}

impl CommandMap {
    /// A new, empty map.
    pub fn new() -> (m: Self)
        ensures
            m@ =~= Seq::<(u64, Seq<char>)>::empty(),
    {
        CommandMap { entries: Vec::new() }
    }

    /// Number of entries recorded.
    pub fn len(&self) -> (n: usize)
        ensures
            n == self@.len(),
    {
        self.entries.len()
    }

    /// Record that `id` maps to `path`.
    pub fn insert(&mut self, id: u64, path: String)
        ensures
            final(self)@ =~= old(self)@.push((id, path@)),
    {
        self.entries.push((id, path));
    }

    /// Look up an identity. Returns the recorded path exactly when one was
    /// recorded; an absent identity returns `None`.
    pub fn get(&self, id: u64) -> (r: Option<&String>)
        ensures
            match r {
                Some(p) => map_lookup(self@, id) == Some(p@),
                None => map_lookup(self@, id) is None,
            },
    {
        let n = self.entries.len();
        let mut i: usize = n;
        proof {
            assert(self@.take(n as int) =~= self@);
        }
        while i > 0
            invariant
                i <= n,
                n == self@.len(),
                map_lookup(self@, id) == map_lookup(self@.take(i as int), id),
            decreases i,
        {
            i = i - 1;
            proof {
                assert(self@.take(i + 1).drop_last() =~= self@.take(i as int));
                assert(self@.take(i + 1).last() == self@[i as int]);
            }
            if self.entries[i].0 == id {
                return Some(&self.entries[i].1);
            }
        }
        proof {
            assert(self@.take(0) =~= Seq::<(u64, Seq<char>)>::empty());
        }
        None
    }
}

} // verus!

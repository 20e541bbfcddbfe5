//! What holds of the model of the tree whatever the tree and the path:
//! the laws that relate one operation to another.

use crate::source::tree::{distinct_names, empty_folder, index_of, put, Node, Resolution};
use vstd::prelude::*;

verus! {

/// Resolution of a path goes through the resolution of each of its
/// beginnings: where the first `m` names lead to a node, the rest is resolved
/// from that node, and where they lead nowhere, so does the whole path, for
/// the same reason.
pub proof fn lemma_walk_prefix(node: Node, path: Seq<Seq<char>>, i: int, m: int)
    requires
        0 <= i <= m <= path.len(),
    ensures
        match node.walk(path.take(m), i) {
            Resolution::Found(reached) => node.walk(path, i) == reached.walk(path, m),
            other => node.walk(path, i) == other,
        },
    decreases m - i,
{
    if i < m {
        assert(path.take(m)[i] == path[i]);
        if node is Folder && node.has_child(path[i]) {
            lemma_walk_prefix(node.child(path[i]), path, i + 1, m);
        }
    }
}

/// A resolution that fails, fails at a name of the path.
pub proof fn lemma_walk_fails_within(node: Node, path: Seq<Seq<char>>, i: int)
    requires
        0 <= i,
    ensures
        match node.walk(path, i) {
            Resolution::Found(_) => true,
            Resolution::Missing { depth } => i <= depth < path.len(),
            Resolution::Blocked { depth } => i <= depth < path.len(),
        },
    decreases path.len() - i,
{
    if i < path.len() && node is Folder && node.has_child(path[i]) {
        lemma_walk_fails_within(node.child(path[i]), path, i + 1);
    }
}

/// The index that [`index_of`] gives is that of the first node of the name:
/// it lies within the nodes or just behind them, the node there has the
/// name, and no node before it has.
pub proof fn lemma_index_of(nodes: Seq<Node>, name: Seq<char>)
    ensures
        0 <= index_of(nodes, name) <= nodes.len(),
        index_of(nodes, name) < nodes.len() ==> nodes[index_of(nodes, name)].name() == name,
        forall|j: int| 0 <= j < index_of(nodes, name) ==> (#[trigger] nodes[j]).name() != name,
    decreases nodes.len(),
{
    if nodes.len() > 0 && nodes[0].name() != name {
        let rest = nodes.skip(1);
        lemma_index_of(rest, name);
        assert(index_of(rest, name) < rest.len() ==> rest[index_of(rest, name)] == nodes[index_of(
            nodes,
            name,
        )]);
        assert forall|j: int| 0 <= j < index_of(nodes, name) implies (#[trigger] nodes[j]).name()
            != name by {
            if j > 0 {
                assert(rest[j - 1] == nodes[j]);
            }
        }
    }
}

/// An index of which the three facts of [`lemma_index_of`] hold is the one
/// that [`index_of`] gives.
pub proof fn lemma_index_of_is(nodes: Seq<Node>, name: Seq<char>, k: int)
    requires
        0 <= k <= nodes.len(),
        k < nodes.len() ==> nodes[k].name() == name,
        forall|j: int| 0 <= j < k ==> (#[trigger] nodes[j]).name() != name,
    ensures
        index_of(nodes, name) == k,
    decreases nodes.len(),
{
    if nodes.len() > 0 && k > 0 {
        let rest = nodes.skip(1);
        assert(nodes[0].name() != name);
        assert forall|j: int| 0 <= j < k - 1 implies (#[trigger] rest[j]).name() != name by {
            assert(rest[j] == nodes[j + 1]);
        }
        lemma_index_of_is(rest, name, k - 1);
    }
}

/// A node that takes the place of one of its own name is found where that
/// one was, and every other name is found where it was.
pub proof fn lemma_index_of_update(nodes: Seq<Node>, k: int, node: Node, name: Seq<char>)
    requires
        0 <= k < nodes.len(),
        nodes[k].name() == node.name(),
    ensures
        index_of(nodes.update(k, node), name) == index_of(nodes, name),
{
    lemma_index_of(nodes, name);
    let found = index_of(nodes, name);
    let after = nodes.update(k, node);
    assert forall|j: int| 0 <= j < found implies (#[trigger] after[j]).name() != name by {
        assert(nodes[j].name() != name);
    }
    lemma_index_of_is(after, name, found);
}

/// After a node is put among others it is the one found under its name.
pub proof fn lemma_put_found(nodes: Seq<Node>, node: Node)
    ensures
        index_of(put(nodes, node), node.name()) < put(nodes, node).len(),
        put(nodes, node)[index_of(put(nodes, node), node.name())] == node,
{
    lemma_index_of(nodes, node.name());
    let k = index_of(nodes, node.name());
    let after = put(nodes, node);
    assert forall|j: int| 0 <= j < k implies (#[trigger] after[j]).name() != node.name() by {
        assert(nodes[j].name() != node.name());
    }
    lemma_index_of_is(after, node.name(), k);
}

/// Replacing a node by one of its own name leaves the name of every node
/// above it as it was.
pub proof fn lemma_graft_name(node: Node, path: Seq<Seq<char>>, i: int, new: Node)
    requires
        0 <= i <= path.len(),
        node.walk(path, i) matches Resolution::Found(reached) && reached.name() == new.name(),
    ensures
        node.graft(path, i, new).name() == node.name(),
{
}

/// After the node at the end of the first `m` names of a path has been
/// replaced by one of its own name, the path resolves through the new node:
/// what lies behind the first `m` names is resolved from it.
pub proof fn lemma_graft_then_walk(node: Node, path: Seq<Seq<char>>, i: int, m: int, new: Node)
    requires
        0 <= i <= m <= path.len(),
        node.walk(path.take(m), i) matches Resolution::Found(reached) && reached.name()
            == new.name(),
    ensures
        node.graft(path.take(m), i, new).walk(path, i) == new.walk(path, m),
    decreases m - i,
{
    let chain = path.take(m);
    if i < m {
        assert(chain[i] == path[i]);
        assert(node is Folder && node.has_child(path[i]));
        lemma_index_of(node.children(), path[i]);
        let k = node.position(path[i]);
        let child = node.children()[k];
        let grafted = child.graft(chain, i + 1, new);
        lemma_graft_name(child, chain, i + 1, new);
        lemma_index_of_update(node.children(), k, grafted, path[i]);
        lemma_graft_then_walk(child, path, i + 1, m, new);
    }
}

/// A file that has been written is read back with the content that was
/// written: after a write to a path whose names before the last lead to a
/// folder, the path leads to a file of the last name with that content.
pub proof fn lemma_write_then_read(tree: Node, path: Seq<Seq<char>>, data: Seq<u8>)
    requires
        path.len() >= 1,
        tree.resolve_folder(path.drop_last()) is Found,
    ensures
        tree.written(path, data).resolve(path) == Resolution::Found(
            Node::File { name: path.last(), data },
        ),
{
    let chain = path.drop_last();
    let m = path.len() - 1;
    assert(chain == path.take(m));
    let folder = tree.resolve_folder(chain)->Found_0;
    let file = Node::File { name: path.last(), data };
    let filled = folder.with_children(put(folder.children(), file));
    lemma_graft_then_walk(tree, path, 0, m, filled);
    lemma_put_found(folder.children(), file);
    assert(file.walk(path, m + 1) == Resolution::Found(file));
}

/// Every node that a path leads to in a well-formed tree is well formed.
pub proof fn lemma_walk_wf(node: Node, path: Seq<Seq<char>>, i: int)
    requires
        0 <= i,
        node.wf(),
        node.walk(path, i) is Found,
    ensures
        node.walk(path, i)->Found_0.wf(),
    decreases path.len() - i,
{
    if i < path.len() {
        lemma_index_of(node.children(), path[i]);
        lemma_walk_wf(node.child(path[i]), path, i + 1);
    }
}

/// A well-formed tree stays well formed when one of its nodes is replaced
/// by a well-formed node of the same name.
pub proof fn lemma_graft_wf(node: Node, path: Seq<Seq<char>>, i: int, new: Node)
    requires
        0 <= i <= path.len(),
        node.wf(),
        new.wf(),
        node.walk(path, i) matches Resolution::Found(reached) && reached.name() == new.name(),
    ensures
        node.graft(path, i, new).wf(),
    decreases path.len() - i,
{
    if i < path.len() {
        assert(node is Folder && node.has_child(path[i]));
        lemma_index_of(node.children(), path[i]);
        let k = node.position(path[i]);
        let child = node.children()[k];
        let grafted = child.graft(path, i + 1, new);
        lemma_graft_name(child, path, i + 1, new);
        lemma_graft_wf(child, path, i + 1, new);
        let after = node.children().update(k, grafted);
        assert forall|a: int, b: int| 0 <= a < b < after.len() implies (#[trigger] after[a]).name()
            != (#[trigger] after[b]).name() by {
            assert(after[a].name() == node.children()[a].name());
            assert(after[b].name() == node.children()[b].name());
        }
        assert forall|a: int| 0 <= a < after.len() implies (#[trigger] after[a]).wf() by {
            if a != k {
                assert(node.children()[a].wf());
            }
        }
    }
}

/// Names stay distinct when a node is put among the nodes.
pub proof fn lemma_put_distinct(nodes: Seq<Node>, node: Node)
    requires
        distinct_names(nodes),
    ensures
        distinct_names(put(nodes, node)),
{
    lemma_index_of(nodes, node.name());
    let k = index_of(nodes, node.name());
    let after = put(nodes, node);
    assert forall|a: int, b: int| 0 <= a < b < after.len() implies (#[trigger] after[a]).name()
        != (#[trigger] after[b]).name() by {
        if k < nodes.len() {
            assert(after[a].name() == nodes[a].name());
            assert(after[b].name() == nodes[b].name());
        } else {
            assert(after[a] == nodes[a]);
            if b < nodes.len() {
                assert(after[b] == nodes[b]);
            }
        }
    }
}

/// Among nodes of distinct names, the name of a node that is taken out is
/// the name of none that stay.
pub proof fn lemma_remove_absent(nodes: Seq<Node>, k: int)
    requires
        distinct_names(nodes),
        0 <= k < nodes.len(),
    ensures
        distinct_names(nodes.remove(k)),
        index_of(nodes.remove(k), nodes[k].name()) == nodes.len() - 1,
{
    let after = nodes.remove(k);
    assert forall|a: int, b: int| 0 <= a < b < after.len() implies (#[trigger] after[a]).name()
        != (#[trigger] after[b]).name() by {
        let from_a = if a < k { a } else { a + 1 };
        let from_b = if b < k { b } else { b + 1 };
        assert(after[a] == nodes[from_a]);
        assert(after[b] == nodes[from_b]);
    }
    assert forall|j: int| 0 <= j < after.len() implies (#[trigger] after[j]).name()
        != nodes[k].name() by {
        let from = if j < k { j } else { j + 1 };
        assert(after[j] == nodes[from]);
    }
    lemma_index_of_is(after, nodes[k].name(), after.len() as int);
}

/// A write keeps a well-formed tree well formed, and a folder at its root.
pub proof fn lemma_written_wf(tree: Node, path: Seq<Seq<char>>, data: Seq<u8>)
    requires
        tree.wf(),
        path.len() >= 1,
    ensures
        tree.written(path, data).wf(),
        tree is Folder ==> tree.written(path, data) is Folder,
{
    let chain = path.drop_last();
    if tree.resolve_folder(chain) is Found {
        let folder = tree.resolve_folder(chain)->Found_0;
        let file = Node::File { name: path.last(), data };
        let children = put(folder.children(), file);
        lemma_walk_wf(tree, chain, 0);
        lemma_put_distinct(folder.children(), file);
        lemma_index_of(folder.children(), file.name());
        assert forall|a: int| 0 <= a < children.len() implies (#[trigger] children[a]).wf() by {
            if children[a] != file {
                assert(folder.children()[a].wf());
            }
        }
        lemma_graft_wf(tree, chain, 0, folder.with_children(children));
    }
}

/// A removal keeps a well-formed tree well formed, and a folder at its
/// root.
pub proof fn lemma_removed_wf(tree: Node, path: Seq<Seq<char>>)
    requires
        tree.wf(),
        path.len() >= 1,
    ensures
        tree.removed(path).wf(),
        tree is Folder ==> tree.removed(path) is Folder,
{
    let chain = path.drop_last();
    if tree.resolve_folder(chain) is Found {
        let folder = tree.resolve_folder(chain)->Found_0;
        if folder.has_child(path.last()) {
            lemma_index_of(folder.children(), path.last());
            let k = folder.position(path.last());
            let children = folder.children().remove(k);
            lemma_walk_wf(tree, chain, 0);
            lemma_remove_absent(folder.children(), k);
            assert forall|a: int| 0 <= a < children.len() implies (#[trigger] children[a]).wf() by {
                let from = if a < k { a } else { a + 1 };
                assert(children[a] == folder.children()[from]);
            }
            lemma_graft_wf(tree, chain, 0, folder.with_children(children));
        }
    }
}

/// After a removal the path, and every path that begins with it, leads
/// nowhere: its last name is missing.
pub proof fn lemma_removed_is_gone(tree: Node, path: Seq<Seq<char>>, rest: Seq<Seq<char>>)
    requires
        tree.wf(),
        path.len() >= 1,
        tree.resolve(path) is Found,
    ensures
        tree.removed(path).resolve(path + rest) == (Resolution::Missing {
            depth: path.len() - 1,
        }),
{
    let m = path.len() - 1;
    let chain = path.drop_last();
    let longer = path + rest;
    assert(chain == path.take(m));
    assert(chain == longer.take(m));
    lemma_walk_prefix(tree, path, 0, m);
    let folder = tree.resolve(chain)->Found_0;
    assert(folder is Folder && folder.has_child(path[m]));
    lemma_index_of(folder.children(), path.last());
    let k = folder.position(path.last());
    let emptied = folder.with_children(folder.children().remove(k));
    lemma_walk_wf(tree, chain, 0);
    lemma_remove_absent(folder.children(), k);
    lemma_graft_then_walk(tree, longer, 0, m, emptied);
    assert(longer[m] == path.last());
}

/// After a node has been replaced by one of its own name, each beginning of
/// the path to it leads to what it led to before, with the same replacement
/// made below it.
pub proof fn lemma_graft_walk_short(node: Node, path: Seq<Seq<char>>, i: int, j: int, new: Node)
    requires
        0 <= i <= j <= path.len(),
        node.walk(path, i) matches Resolution::Found(reached) && reached.name() == new.name(),
    ensures
        node.walk(path.take(j), i) matches Resolution::Found(at) && at.walk(path, j) == node.walk(
            path,
            i,
        ) && node.graft(path, i, new).walk(path.take(j), i) == Resolution::Found(
            at.graft(path, j, new),
        ),
    decreases j - i,
{
    if i < j {
        assert(path.take(j)[i] == path[i]);
        assert(node is Folder && node.has_child(path[i]));
        lemma_index_of(node.children(), path[i]);
        let k = node.position(path[i]);
        let child = node.children()[k];
        lemma_graft_name(child, path, i + 1, new);
        lemma_index_of_update(node.children(), k, child.graft(path, i + 1, new), path[i]);
        lemma_graft_walk_short(child, path, i + 1, j, new);
    }
}

/// After a removal the folder that held the removed node no longer lists
/// its name, and a folder further up lists the names that it listed before:
/// it does not list the name unless another of its children has it.
pub proof fn lemma_removed_not_listed(tree: Node, path: Seq<Seq<char>>, j: int)
    requires
        tree.wf(),
        path.len() >= 1,
        tree.resolve(path) is Found,
        0 <= j < path.len(),
        j < path.len() - 1 ==> !(tree.resolve(path.take(j))->Found_0).has_child(path.last()),
    ensures
        tree.removed(path).resolve(path.take(j)) matches Resolution::Found(folder)
            && folder is Folder && !folder.has_child(path.last()),
{
    let m = path.len() - 1;
    let chain = path.drop_last();
    assert(chain == path.take(m));
    assert(chain.take(j) == path.take(j));
    lemma_walk_prefix(tree, path, 0, m);
    let folder = tree.resolve(chain)->Found_0;
    assert(folder is Folder && folder.has_child(path[m]));
    lemma_index_of(folder.children(), path.last());
    let k = folder.position(path.last());
    let emptied = folder.with_children(folder.children().remove(k));
    lemma_walk_wf(tree, chain, 0);
    lemma_remove_absent(folder.children(), k);
    lemma_graft_walk_short(tree, chain, 0, j, emptied);
    if j < m {
        let at = tree.resolve(path.take(j))->Found_0;
        assert(at is Folder && at.has_child(chain[j]));
        lemma_index_of(at.children(), chain[j]);
        let down = at.position(chain[j]);
        let below = at.children()[down];
        lemma_graft_name(below, chain, j + 1, emptied);
        lemma_index_of_update(at.children(), down, below.graft(chain, j + 1, emptied), path.last());
    } else {
        assert(chain.take(j) == chain);
    }
}

/// Making the folders of a path keeps the name of the node it starts from.
pub proof fn lemma_grown_name(node: Node, path: Seq<Seq<char>>, i: int)
    ensures
        node.grown(path, i).name() == node.name(),
        node is Folder ==> node.grown(path, i) is Folder,
{
}

/// Among nodes none of which has the name of `node`, `node` put at the end
/// is the one found under its name.
pub proof fn lemma_index_of_push(nodes: Seq<Node>, node: Node)
    requires
        index_of(nodes, node.name()) == nodes.len(),
    ensures
        index_of(nodes.push(node), node.name()) == nodes.len(),
{
    lemma_index_of(nodes, node.name());
    let after = nodes.push(node);
    assert forall|j: int| 0 <= j < nodes.len() implies (#[trigger] after[j]).name()
        != node.name() by {
        assert(after[j] == nodes[j]);
    }
    lemma_index_of_is(after, node.name(), nodes.len() as int);
}

/// Making the folders of a path a second time changes nothing.
pub proof fn lemma_grown_twice(node: Node, path: Seq<Seq<char>>, i: int)
    requires
        0 <= i,
    ensures
        node.grown(path, i).grown(path, i) == node.grown(path, i),
    decreases path.len() - i,
{
    if i < path.len() && node is Folder {
        let children = node.children();
        lemma_index_of(children, path[i]);
        let k = node.position(path[i]);
        if node.has_child(path[i]) {
            let made = children[k].grown(path, i + 1);
            lemma_grown_name(children[k], path, i + 1);
            lemma_index_of_update(children, k, made, path[i]);
            lemma_grown_twice(children[k], path, i + 1);
            assert(children.update(k, made).update(k, made) == children.update(k, made));
        } else {
            let made = empty_folder(path[i]).grown(path, i + 1);
            lemma_grown_name(empty_folder(path[i]), path, i + 1);
            lemma_index_of_push(children, made);
            lemma_grown_twice(empty_folder(path[i]), path, i + 1);
            assert(children.push(made).update(k, made) == children.push(made));
        }
    }
}

/// Where the folders of a path could be made, they can be made again.
pub proof fn lemma_grown_survey(node: Node, path: Seq<Seq<char>>, i: int)
    requires
        0 <= i,
        node.survey(path, i) is Found,
    ensures
        node.grown(path, i).survey(path, i) is Found,
    decreases path.len() - i,
{
    if i < path.len() && node is Folder {
        let children = node.children();
        lemma_index_of(children, path[i]);
        let k = node.position(path[i]);
        if node.has_child(path[i]) {
            let made = children[k].grown(path, i + 1);
            lemma_grown_name(children[k], path, i + 1);
            lemma_index_of_update(children, k, made, path[i]);
            lemma_grown_survey(children[k], path, i + 1);
        } else {
            let made = empty_folder(path[i]).grown(path, i + 1);
            lemma_grown_name(empty_folder(path[i]), path, i + 1);
            lemma_index_of_push(children, made);
            lemma_empty_folder_survey(path[i], path, i + 1);
            lemma_grown_survey(empty_folder(path[i]), path, i + 1);
        }
    }
}

/// Below an empty folder every folder can be made.
proof fn lemma_empty_folder_survey(name: Seq<char>, path: Seq<Seq<char>>, i: int)
    ensures
        empty_folder(name).survey(path, i) is Found,
{
    lemma_index_of(empty_folder(name).children(), path[i]);
}

/// Creating the folders of a path twice leaves the tree as creating them
/// once does.
pub proof fn lemma_create_dir_twice(tree: Node, path: Seq<Seq<char>>)
    ensures
        tree.with_dirs(path).with_dirs(path) == tree.with_dirs(path),
{
    if tree.survey(path, 0) is Found {
        lemma_grown_survey(tree, path, 0);
        lemma_grown_twice(tree, path, 0);
    }
}

/// Making the folders of a path keeps a well-formed tree well formed.
pub proof fn lemma_grown_wf(node: Node, path: Seq<Seq<char>>, i: int)
    requires
        0 <= i,
        node.wf(),
    ensures
        node.grown(path, i).wf(),
    decreases path.len() - i,
{
    if i < path.len() && node is Folder {
        let children = node.children();
        lemma_index_of(children, path[i]);
        let k = node.position(path[i]);
        if node.has_child(path[i]) {
            let made = children[k].grown(path, i + 1);
            lemma_grown_name(children[k], path, i + 1);
            lemma_grown_wf(children[k], path, i + 1);
            let after = children.update(k, made);
            assert forall|a: int, b: int| 0 <= a < b < after.len() implies (
            #[trigger] after[a]).name() != (#[trigger] after[b]).name() by {
                assert(after[a].name() == children[a].name());
                assert(after[b].name() == children[b].name());
            }
            assert forall|a: int| 0 <= a < after.len() implies (#[trigger] after[a]).wf() by {
                if a != k {
                    assert(children[a].wf());
                }
            }
        } else {
            let made = empty_folder(path[i]).grown(path, i + 1);
            lemma_grown_name(empty_folder(path[i]), path, i + 1);
            lemma_grown_wf(empty_folder(path[i]), path, i + 1);
            let after = children.push(made);
            assert forall|a: int, b: int| 0 <= a < b < after.len() implies (
            #[trigger] after[a]).name() != (#[trigger] after[b]).name() by {
                assert(after[a] == children[a]);
                if b < children.len() {
                    assert(after[b] == children[b]);
                }
            }
            assert forall|a: int| 0 <= a < after.len() implies (#[trigger] after[a]).wf() by {
                if a < children.len() {
                    assert(children[a].wf());
                }
            }
        }
    }
}

/// Creating folders keeps a well-formed tree well formed, and a folder at
/// its root.
pub proof fn lemma_with_dirs_wf(tree: Node, path: Seq<Seq<char>>)
    requires
        tree.wf(),
    ensures
        tree.with_dirs(path).wf(),
        tree is Folder ==> tree.with_dirs(path) is Folder,
{
    lemma_grown_wf(tree, path, 0);
    lemma_grown_name(tree, path, 0);
}

} // verus!

//! The mathematical model of a file tree: what a tree is, how a path is
//! resolved in it, and what each mutation makes of it.
//!
//! A path is a sequence of names. Everything here is defined by walking the
//! path from its first name on, one folder per name.

use crate::source::fs::Failure;
use crate::source::path::join;
use vstd::prelude::*;

verus! {

/// A file with its content, or a folder with its children in the order in
/// which they were added.
pub enum Node {
    File { name: Seq<char>, data: Seq<u8> },
    Folder { name: Seq<char>, children: Seq<Node> },
}

/// How the resolution of a path ended.
pub enum Resolution {
    /// Every name was found; this is the node that the last one leads to.
    Found(Node),
    /// The name at this index of the path is not among the children of the
    /// folder that the names before it lead to.
    Missing { depth: int },
    /// The names before this index lead to a file, which has no children.
    Blocked { depth: int },
}

impl Resolution {
    /// The error that stands for a resolution of `path` that found nothing:
    /// it names the part of the path up to and with the missing name, or the
    /// part that leads to the file in the way.
    pub open spec fn failure(self, path: Seq<Seq<char>>) -> Option<Failure> {
        match self {
            Resolution::Found(_) => None,
            Resolution::Missing { depth } => Some(
                Failure::NotFound { path: join(path.take(depth + 1)) },
            ),
            Resolution::Blocked { depth } => Some(
                Failure::NotADirectory { path: join(path.take(depth)) },
            ),
        }
    }
}

/// The index of the first node called `name`, or the length of `nodes` if
/// there is none.
pub open spec fn index_of(nodes: Seq<Node>, name: Seq<char>) -> int
    decreases nodes.len(),
{
    if nodes.len() == 0 {
        0
    } else if nodes[0].name() == name {
        0
    } else {
        1 + index_of(nodes.skip(1), name)
    }
}

/// No two of the nodes have the same name.
pub open spec fn distinct_names(nodes: Seq<Node>) -> bool {
    forall|i: int, j: int|
        0 <= i < j < nodes.len() ==> (#[trigger] nodes[i]).name() != (#[trigger] nodes[j]).name()
}

/// `nodes` with `node` in the place of the first node of that name, or at
/// the end if there is none.
pub open spec fn put(nodes: Seq<Node>, node: Node) -> Seq<Node> {
    let k = index_of(nodes, node.name());
    if k < nodes.len() {
        nodes.update(k, node)
    } else {
        nodes.push(node)
    }
}

/// A folder without children.
pub open spec fn empty_folder(name: Seq<char>) -> Node {
    Node::Folder { name, children: Seq::empty() }
}

impl Node {
    pub open spec fn name(self) -> Seq<char> {
        match self {
            Node::File { name, .. } => name,
            Node::Folder { name, .. } => name,
        }
    }

    /// The children of a folder; a file has none.
    pub open spec fn children(self) -> Seq<Node> {
        match self {
            Node::File { .. } => Seq::empty(),
            Node::Folder { children, .. } => children,
        }
    }

    /// Where the child called `name` stands among the children.
    pub open spec fn position(self, name: Seq<char>) -> int {
        index_of(self.children(), name)
    }

    pub open spec fn has_child(self, name: Seq<char>) -> bool {
        self.position(name) < self.children().len()
    }

    pub open spec fn child(self, name: Seq<char>) -> Node {
        self.children()[self.position(name)]
    }

    /// This folder with other children.
    pub open spec fn with_children(self, children: Seq<Node>) -> Node {
        Node::Folder { name: self.name(), children }
    }

    /// In every folder of the tree, each name is the name of one child only.
    pub open spec fn wf(self) -> bool
        decreases self,
    {
        match self {
            Node::File { .. } => true,
            Node::Folder { children, .. } => {
                &&& distinct_names(children)
                &&& forall|i: int| 0 <= i < children.len() ==> (#[trigger] children[i]).wf()
            },
        }
    }

    /// Resolution of `path[i..]` from this node.
    pub open spec fn walk(self, path: Seq<Seq<char>>, i: int) -> Resolution
        decreases path.len() - i,
    {
        if i >= path.len() {
            Resolution::Found(self)
        } else if self is File {
            Resolution::Blocked { depth: i }
        } else if self.has_child(path[i]) {
            self.child(path[i]).walk(path, i + 1)
        } else {
            Resolution::Missing { depth: i }
        }
    }

    /// Resolution of `path` from this node, taken as the root.
    pub open spec fn resolve(self, path: Seq<Seq<char>>) -> Resolution {
        self.walk(path, 0)
    }

    /// Resolution of `path` to a folder: a file at its end blocks as one on
    /// the way does.
    pub open spec fn resolve_folder(self, path: Seq<Seq<char>>) -> Resolution {
        match self.resolve(path) {
            Resolution::Found(node) => if node is Folder {
                Resolution::Found(node)
            } else {
                Resolution::Blocked { depth: path.len() as int }
            },
            other => other,
        }
    }

    /// This tree with `new` in the place of the node that `path[i..]` leads
    /// to; this tree itself where the path leads nowhere.
    pub open spec fn graft(self, path: Seq<Seq<char>>, i: int, new: Node) -> Node
        decreases path.len() - i,
    {
        if i >= path.len() {
            new
        } else if self is Folder && self.has_child(path[i]) {
            let k = self.position(path[i]);
            self.with_children(
                self.children().update(k, self.children()[k].graft(path, i + 1, new)),
            )
        } else {
            self
        }
    }

    /// This tree with `new` in the place of the node that `path` leads to.
    pub open spec fn replaced(self, path: Seq<Seq<char>>, new: Node) -> Node {
        self.graft(path, 0, new)
    }

    /// The tree after a file called by the last name of `path`, with content
    /// `data`, is put into the folder that the names before it lead to. The
    /// tree itself where they lead to no folder.
    pub open spec fn written(self, path: Seq<Seq<char>>, data: Seq<u8>) -> Node {
        let chain = path.drop_last();
        match self.resolve_folder(chain) {
            Resolution::Found(folder) => self.replaced(
                chain,
                folder.with_children(
                    put(folder.children(), Node::File { name: path.last(), data }),
                ),
            ),
            _ => self,
        }
    }

    /// The tree after the child called by the last name of `path` is taken
    /// out of the folder that the names before it lead to. The tree itself
    /// where there is no such child.
    pub open spec fn removed(self, path: Seq<Seq<char>>) -> Node {
        let chain = path.drop_last();
        match self.resolve_folder(chain) {
            Resolution::Found(folder) => if folder.has_child(path.last()) {
                self.replaced(
                    chain,
                    folder.with_children(folder.children().remove(folder.position(path.last()))),
                )
            } else {
                self
            },
            _ => self,
        }
    }

    /// Whether every name of `path[i..]` can be a folder below this node:
    /// `Found` with the folder that exists up to the first name that is
    /// missing, `Blocked` where a file stands in the way.
    pub open spec fn survey(self, path: Seq<Seq<char>>, i: int) -> Resolution
        decreases path.len() - i,
    {
        if self is File {
            Resolution::Blocked { depth: i }
        } else if i >= path.len() {
            Resolution::Found(self)
        } else if self.has_child(path[i]) {
            self.child(path[i]).survey(path, i + 1)
        } else {
            Resolution::Found(self)
        }
    }

    /// This folder with a folder for every name of `path[i..]`, one inside
    /// the other: those that exist are kept as they are, the others are new
    /// and empty but for the next one.
    pub open spec fn grown(self, path: Seq<Seq<char>>, i: int) -> Node
        decreases path.len() - i,
    {
        if i >= path.len() || self is File {
            self
        } else if self.has_child(path[i]) {
            let k = self.position(path[i]);
            self.with_children(self.children().update(k, self.children()[k].grown(path, i + 1)))
        } else {
            self.with_children(
                self.children().push(empty_folder(path[i]).grown(path, i + 1)),
            )
        }
    }

    /// The tree after a folder has been made for every name of `path`. The
    /// tree itself where a file stands in the way.
    pub open spec fn with_dirs(self, path: Seq<Seq<char>>) -> Node {
        if self.survey(path, 0) is Found {
            self.grown(path, 0)
        } else {
            self
        }
    }
}

} // verus!

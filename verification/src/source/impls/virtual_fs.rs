//! The in-memory backend: a tree of files and folders that lives in one
//! value and is reached by paths from its root.

use crate::source::fs::{DirEntry, Entry, Failure, File, FileSystem, FsError};
use crate::source::laws::{
    lemma_graft_wf, lemma_removed_wf, lemma_walk_fails_within, lemma_walk_prefix, lemma_walk_wf,
    lemma_with_dirs_wf, lemma_written_wf,
};
use crate::source::path::{
    join_names, lemma_join_split, lemma_split_nonempty, names_of, separator, split, split_path,
};
use crate::source::tree::{empty_folder, index_of, put, Node, Resolution};
use vstd::prelude::*;

verus! {

/// A node of the tree. A folder owns its children; each child carries its
/// own name, and a folder is well formed when no two of its children share
/// one.
#[derive(Debug)]
pub enum VirtualFileSystemItem {
    File { name: String, data: Vec<u8> },
    Folder { name: String, contents: Vec<VirtualFileSystemItem> },
}

/// What a run of items is in contracts.
pub open spec fn nodes_of(items: Seq<VirtualFileSystemItem>) -> Seq<Node>
    decreases items,
{
    Seq::new(
        items.len(),
        |i: int|
            if 0 <= i < items.len() {
                items[i]@
            } else {
                arbitrary()
            },
    )
}

impl View for VirtualFileSystemItem {
    type V = Node;

    open spec fn view(&self) -> Node
        decreases self,
    {
        match self {
            VirtualFileSystemItem::File { name, data } => Node::File { name: name@, data: data@ },
            VirtualFileSystemItem::Folder { name, contents } => Node::Folder {
                name: name@,
                children: nodes_of(contents@),
            },
        }
    }
}

/// The index of the first item called `name`, or the number of items if
/// there is none.
fn find_child(items: &Vec<VirtualFileSystemItem>, name: &String) -> (k: usize)
    ensures
        k == index_of(nodes_of(items@), name@),
        k <= items.len(),
        k < items.len() ==> items[k as int]@.name() == name@,
{
    let mut k: usize = 0;
    proof {
        assert(nodes_of(items@).skip(0) == nodes_of(items@));
    }
    while k < items.len()
        invariant
            k <= items.len(),
            index_of(nodes_of(items@), name@) == k + index_of(
                nodes_of(items@).skip(k as int),
                name@,
            ),
        decreases items.len() - k,
    {
        proof {
            let rest = nodes_of(items@).skip(k as int);
            assert(rest[0] == items[k as int]@);
            assert(rest.skip(1) == nodes_of(items@).skip(k as int + 1));
        }
        if *items[k].name() == *name {
            return k;
        }
        k = k + 1;
    }
    k
}

impl VirtualFileSystemItem {
    /// The name of the item, whichever kind it is.
    pub fn name(&self) -> (name: &String)
        ensures
            name@ == self@.name(),
    {
        match self {
            VirtualFileSystemItem::File { name, .. } => name,
            VirtualFileSystemItem::Folder { name, .. } => name,
        }
    }

    /// Whether the item is a folder; it is a file if not.
    pub fn is_folder(&self) -> (folder: bool)
        ensures
            folder == (self@ is Folder),
    {
        match self {
            VirtualFileSystemItem::File { .. } => false,
            VirtualFileSystemItem::Folder { .. } => true,
        }
    }

    /// The line that stands for this item in a listing of its folder.
    pub fn as_dir_entry(&self) -> (entry: DirEntry)
        ensures
            entry@ == entry_of(self@),
    {
        match self {
            VirtualFileSystemItem::File { name, .. } => DirEntry::File { name: name.clone() },
            VirtualFileSystemItem::Folder { name, .. } => DirEntry::Folder { name: name.clone() },
        }
    }

    /// A file called `name` that holds `data`.
    pub fn file(name: &str, data: Vec<u8>) -> (item: Self)
        ensures
            item@ == (Node::File { name: name@, data: data@ }),
    {
        VirtualFileSystemItem::File { name: name.to_owned(), data }
    }

    /// A folder called `name` that holds nothing.
    pub fn folder(name: &str) -> (item: Self)
        ensures
            item@ == empty_folder(name@),
    {
        let item = VirtualFileSystemItem::Folder { name: name.to_owned(), contents: Vec::new() };
        assert(item@.children() == Seq::<Node>::empty());
        item
    }

    /// The children of a folder. Of a file there are none to give:
    /// `debug_path` then says in the error where the file stands.
    pub fn folder_contents(&self, debug_path: &str) -> (contents: Result<
        &Vec<VirtualFileSystemItem>,
        FsError,
    >)
        ensures
            match contents {
                Ok(items) => self@ is Folder && nodes_of(items@) == self@.children(),
                Err(e) => self@ is File && e@ == (Failure::NotADirectory { path: debug_path@ }),
            },
    {
        match self {
            VirtualFileSystemItem::Folder { contents, .. } => Ok(contents),
            VirtualFileSystemItem::File { .. } => Err(
                FsError::NotADirectory { path: debug_path.to_owned() },
            ),
        }
    }

    /// The children of a folder, handed out for change: what the caller
    /// makes of them are the children of the folder from then on. Of a file
    /// there are none to give: `debug_path` then says in the error where the
    /// file stands.
    pub fn folder_contents_mut(&mut self, debug_path: &str) -> (contents: Result<
        &mut Vec<VirtualFileSystemItem>,
        FsError,
    >)
        ensures
            match contents {
                Ok(items) => old(self)@ is Folder && nodes_of(items@) == old(self)@.children()
                    && final(self)@ == old(self)@.with_children(nodes_of(final(items)@)),
                Err(e) => old(self)@ is File && e@ == (Failure::NotADirectory {
                    path: debug_path@,
                }) && final(self)@ == old(self)@,
            },
    {
        match self {
            VirtualFileSystemItem::Folder { contents, .. } => Ok(contents),
            VirtualFileSystemItem::File { .. } => Err(
                FsError::NotADirectory { path: debug_path.to_owned() },
            ),
        }
    }
}

impl Clone for VirtualFileSystemItem {
    /// A copy of the whole subtree.
    fn clone(&self) -> (copy: Self)
        ensures
            copy@ == self@,
        decreases self,
    {
        match self {
            VirtualFileSystemItem::File { name, data } => {
                let copy = VirtualFileSystemItem::File { name: name.clone(), data: data.clone() };
                assert(copy@->File_data == data@);
                copy
            },
            VirtualFileSystemItem::Folder { name, contents } => {
                let mut items: Vec<VirtualFileSystemItem> = Vec::new();
                let mut i: usize = 0;
                while i < contents.len()
                    invariant
                        i <= contents.len(),
                        items.len() == i,
                        forall|j: int| 0 <= j < i ==> (#[trigger] items[j])@ == contents[j]@,
                        self is Folder,
                        self->contents == contents,
                    decreases contents.len() - i,
                {
                    items.push(contents[i].clone());
                    i = i + 1;
                }
                assert(nodes_of(items@) == nodes_of(contents@));
                VirtualFileSystemItem::Folder { name: name.clone(), contents: items }
            },
        }
    }
}

/// The line that stands for `node` in a listing.
pub open spec fn entry_of(node: Node) -> Entry {
    match node {
        Node::File { name, .. } => Entry::File { name },
        Node::Folder { name, .. } => Entry::Folder { name },
    }
}

/// A path taken apart: its names in order, the last of which is the name of
/// what the path leads to. There is always at least one name.
#[derive(Debug)]
pub struct VirtualFileSystemPath(Vec<String>);

impl View for VirtualFileSystemPath {
    type V = Seq<Seq<char>>;

    closed spec fn view(&self) -> Seq<Seq<char>> {
        names_of(self.0@)
    }
}

impl VirtualFileSystemPath {
    #[verifier::type_invariant]
    spec fn has_a_name(self) -> bool {
        self.0.len() >= 1
    }

    /// The path that `path` spells.
    pub fn new(path: &str) -> (taken: Self)
        ensures
            taken@ == split(path@),
    {
        let names = split_path(path);
        proof {
            lemma_split_nonempty(path@);
        }
        VirtualFileSystemPath(names)
    }

    /// All the names, in order.
    fn names(&self) -> (names: &[String])
        ensures
            names_of(names@) == self@,
    {
        self.0.as_slice()
    }

    /// The last name, as it is kept.
    fn leaf(&self) -> (name: &String)
        ensures
            self@.len() >= 1,
            name@ == self@.last(),
    {
        proof {
            use_type_invariant(self);
        }
        &self.0[self.0.len() - 1]
    }

    /// The last name: that of the file or folder that the path leads to.
    pub fn file_name(&self) -> (name: &str)
        ensures
            self@.len() >= 1,
            name@ == self@.last(),
    {
        self.leaf().as_str()
    }

    /// The names before the last: the folders to pass through, from the
    /// root on.
    pub fn parent_dirs(&self) -> (dirs: &[String])
        ensures
            self@.len() >= 1,
            names_of(dirs@) == self@.drop_last(),
    {
        proof {
            use_type_invariant(self);
        }
        let dirs = vstd::slice::slice_subrange(self.0.as_slice(), 0, self.0.len() - 1);
        assert(names_of(dirs@) == self@.drop_last());
        dirs
    }

    /// The path as text, each name with a separator behind it.
    pub fn to_string(&self) -> (text: String)
        ensures
            text@ == closed_text(self@),
    {
        let mut text = String::new();
        let mut i: usize = 0;
        while i < self.0.len()
            invariant
                i <= self.0.len(),
                text@ == closed_text(self@.take(i as int)),
            decreases self.0.len() - i,
        {
            proof {
                let now = self@.take(i as int + 1);
                assert(now.drop_last() == self@.take(i as int));
                assert(now.last() == self.0[i as int]@);
                reveal_strlit("/");
                assert("/"@ == seq![separator()]);
            }
            text.append(self.0[i].as_str());
            text.append("/");
            i = i + 1;
        }
        assert(self@.take(i as int) == self@);
        text
    }
}

impl<'a> From<&'a str> for VirtualFileSystemPath {
    fn from(value: &'a str) -> (taken: Self)
        ensures
            taken@ == split(value@),
    {
        VirtualFileSystemPath::new(value)
    }
}

impl<'a> vstd::std_specs::convert::FromSpecImpl<&'a str> for VirtualFileSystemPath {
    /// Two paths of the same names need not be the same value, so the
    /// conversion is specified by its `ensures`, over the view.
    open spec fn obeys_from_spec() -> bool {
        false
    }

    open spec fn from_spec(v: &'a str) -> Self {
        arbitrary()
    }
}

impl From<String> for VirtualFileSystemPath {
    fn from(value: String) -> (taken: Self)
        ensures
            taken@ == split(value@),
    {
        VirtualFileSystemPath::new(value.as_str())
    }
}

impl vstd::std_specs::convert::FromSpecImpl<String> for VirtualFileSystemPath {
    /// As for the conversion from `&str`.
    open spec fn obeys_from_spec() -> bool {
        false
    }

    open spec fn from_spec(v: String) -> Self {
        arbitrary()
    }
}

/// The names as one text, a separator behind each of them.
pub open spec fn closed_text(names: Seq<Seq<char>>) -> Seq<char>
    decreases names.len(),
{
    if names.len() == 0 {
        Seq::empty()
    } else {
        closed_text(names.drop_last()) + names.last() + seq![separator()]
    }
}

/// Resolves `names` from `root`, one folder per name.
fn descend<'a>(root: &'a VirtualFileSystemItem, names: &[String]) -> (found: Result<
    &'a VirtualFileSystemItem,
    FsError,
>)
    ensures
        match root@.resolve(names_of(names@)) {
            Resolution::Found(node) => found matches Ok(item) && item@ == node,
            other => found matches Err(e) && Some(e@) == other.failure(names_of(names@)),
        },
{
    let ghost path = names_of(names@);
    let mut current = root;
    let mut i: usize = 0;
    while i < names.len()
        invariant
            i <= names.len(),
            path == names_of(names@),
            root@.walk(path, 0) == current@.walk(path, i as int),
        decreases names.len() - i,
    {
        match current {
            VirtualFileSystemItem::File { .. } => {
                return Err(FsError::NotADirectory { path: join_names(names, i) });
            },
            VirtualFileSystemItem::Folder { contents, .. } => {
                let k = find_child(contents, &names[i]);
                if k < contents.len() {
                    current = &contents[k];
                } else {
                    return Err(FsError::NotFound { path: join_names(names, i + 1) });
                }
            },
        }
        i = i + 1;
    }
    Ok(current)
}

/// Resolves `names` from `root` as [`descend`] does, and hands the item out
/// for change: what the caller makes of it takes its place in the tree.
fn descend_mut<'a>(root: &'a mut VirtualFileSystemItem, names: &[String]) -> (found: Result<
    &'a mut VirtualFileSystemItem,
    FsError,
>)
    ensures
        match old(root)@.resolve(names_of(names@)) {
            Resolution::Found(node) => found matches Ok(item) && item@ == node && final(root)@
                == old(root)@.replaced(names_of(names@), final(item)@) && (final(item)@ == item@
                ==> final(root)@ == old(root)@),
            other => found matches Err(e) && Some(e@) == other.failure(names_of(names@))
                && final(root)@ == old(root)@,
        },
{
    let ghost path = names_of(names@);
    let mut current = root;
    let mut i: usize = 0;
    while i < names.len()
        invariant
            i <= names.len(),
            path == names_of(names@),
            old(root)@.walk(path, 0) == current@.walk(path, i as int),
            final(current)@ == current@ ==> final(root)@ == old(root)@,
            forall|new: Node|
                final(current)@ == #[trigger] current@.graft(path, i as int, new) ==> final(root)@
                    == old(root)@.graft(path, 0, new),
        decreases names.len() - i,
    {
        let ghost here = current@;
        let ghost whole = final(current)@;
        match current {
            VirtualFileSystemItem::File { .. } => {
                return Err(FsError::NotADirectory { path: join_names(names, i) });
            },
            VirtualFileSystemItem::Folder { contents, .. } => {
                let k = find_child(contents, &names[i]);
                if k < contents.len() {
                    let ghost items = contents@;
                    let ghost items_after = final(contents)@;
                    current = &mut contents[k];
                    proof {
                        let after = final(current)@;
                        let goal = final(root)@;
                        assert(items_after == items.update(k as int, *final(current)));
                        assert(nodes_of(items_after) == nodes_of(items).update(k as int, after));
                        assert(whole == here.with_children(
                            here.children().update(k as int, after),
                        ));
                        assert(after == current@ ==> here.children().update(k as int, after)
                            == here.children());
                        assert forall|new: Node|
                            after == #[trigger] current@.graft(path, i as int + 1, new) implies goal
                            == old(root)@.graft(path, 0, new) by {
                            assert(whole == here.graft(path, i as int, new));
                        }
                    }
                } else {
                    return Err(FsError::NotFound { path: join_names(names, i + 1) });
                }
            },
        }
        i = i + 1;
    }
    proof {
        let after = final(current)@;
        assert(current@.graft(path, i as int, after) == after);
    }
    Ok(current)
}

/// The store: one root folder, and below it all that was created.
#[derive(Debug)]
pub struct VirtualFileSystem {
    root: VirtualFileSystemItem,
}

impl View for VirtualFileSystem {
    type V = Node;

    /// The tree that the store holds, from its root.
    closed spec fn view(&self) -> Node {
        self.root@
    }
}

impl Clone for VirtualFileSystem {
    /// A store of its own that holds a copy of the whole tree.
    fn clone(&self) -> (copy: Self)
        ensures
            copy@ == self@,
    {
        VirtualFileSystem { root: self.root.clone() }
    }
}

impl VirtualFileSystem {
    /// The store is sound: its root is a folder, and in no folder of the
    /// tree do two children have the same name. A new store is sound, and
    /// every operation of [`FileSystem`] keeps it so.
    pub open spec fn wf(&self) -> bool {
        self@ is Folder && self@.wf()
    }

    /// A store that holds nothing: its root is a folder without children.
    pub fn new() -> (store: Self)
        ensures
            store@ == empty_folder(Seq::empty()),
            store.wf(),
    {
        proof {
            reveal_strlit("");
            assert(""@ == Seq::<char>::empty());
        }
        VirtualFileSystem { root: VirtualFileSystemItem::folder("") }
    }

    /// The item that `path` leads to.
    pub fn get_item(&self, path: &str) -> (found: Result<&VirtualFileSystemItem, FsError>)
        ensures
            match self@.resolve(split(path@)) {
                Resolution::Found(node) => found matches Ok(item) && item@ == node,
                other => found matches Err(e) && Some(e@) == other.failure(split(path@)),
            },
    {
        let taken = VirtualFileSystemPath::new(path);
        descend(&self.root, taken.names())
    }

    /// The item that `path` leads to, handed out for change: what the
    /// caller makes of it takes its place in the tree. The store stays sound
    /// if what takes its place is well formed and has the name of the item.
    pub fn get_item_mut(&mut self, path: &str) -> (found: Result<
        &mut VirtualFileSystemItem,
        FsError,
    >)
        ensures
            match old(self)@.resolve(split(path@)) {
                Resolution::Found(node) => found matches Ok(item) && item@ == node && final(self)@
                    == old(self)@.replaced(split(path@), final(item)@),
                other => found matches Err(e) && Some(e@) == other.failure(split(path@))
                    && final(self)@ == old(self)@,
            },
            old(self).wf() && (found matches Ok(item) ==> final(item)@.wf() && final(item)@.name()
                == item@.name()) ==> final(self).wf(),
    {
        let taken = VirtualFileSystemPath::new(path);
        proof {
            let tree = self@;
            if self.wf() && tree.resolve(taken@) is Found {
                lemma_split_nonempty(path@);
                let reached = tree.resolve(taken@)->Found_0;
                assert forall|new: Node| new.wf() && new.name() == reached.name() implies {
                    &&& (#[trigger] tree.replaced(taken@, new)).wf()
                    &&& tree.replaced(taken@, new) is Folder
                } by {
                    lemma_graft_wf(tree, taken@, 0, new);
                }
            }
        }
        descend_mut(&mut self.root, taken.names())
    }
}

/// Puts `item` among `items`: in the place of the first one of its name, or
/// at the end if there is none.
fn put_child(items: &mut Vec<VirtualFileSystemItem>, item: VirtualFileSystemItem)
    ensures
        nodes_of(final(items)@) == put(nodes_of(old(items)@), item@),
{
    let k = find_child(items, item.name());
    if k < items.len() {
        items[k] = item;
    } else {
        items.push(item);
    }
}

/// Makes a folder for every one of `names` below `root`, one inside the
/// other, and keeps those that exist. Changes nothing where a file stands in
/// the way.
fn grow(root: &mut VirtualFileSystemItem, names: &[String]) -> (done: Result<(), FsError>)
    ensures
        final(root)@ == old(root)@.with_dirs(names_of(names@)),
        match old(root)@.survey(names_of(names@), 0) {
            Resolution::Found(_) => done is Ok,
            other => done matches Err(e) && Some(e@) == other.failure(names_of(names@)),
        },
{
    let ghost path = names_of(names@);
    let n = names.len();
    let mut current = root;
    let mut i: usize = 0;
    while i < n
        invariant
            i <= n == names.len(),
            path == names_of(names@),
            old(root)@.survey(path, 0) is Found <==> current@.survey(path, i as int) is Found,
            !(old(root)@.survey(path, 0) is Found) ==> old(root)@.survey(path, 0)
                == current@.survey(path, i as int),
            current@.survey(path, i as int) is Blocked && final(current)@ == current@
                ==> final(root)@ == old(root)@,
            final(current)@ == current@.grown(path, i as int)
                ==> final(root)@ == old(root)@.grown(path, 0),
        decreases n - i,
    {
        let ghost here = current@;
        let ghost whole = final(current)@;
        match current {
            VirtualFileSystemItem::File { .. } => {
                return Err(FsError::NotADirectory { path: join_names(names, i) });
            },
            VirtualFileSystemItem::Folder { contents, .. } => {
                let k = find_child(contents, &names[i]);
                if k == contents.len() {
                    contents.push(VirtualFileSystemItem::folder(names[i].as_str()));
                }
                let ghost items = contents@;
                let ghost items_after = final(contents)@;
                current = &mut contents[k];
                proof {
                    let after = final(current)@;
                    assert(items_after == items.update(k as int, *final(current)));
                    assert(nodes_of(items_after) == nodes_of(items).update(k as int, after));
                    if here.has_child(path[i as int]) {
                        assert(nodes_of(items) == here.children());
                        assert(whole == here.with_children(
                            here.children().update(k as int, after),
                        ));
                        assert(after == current@ ==> here.children().update(k as int, after)
                            == here.children());
                    } else {
                        assert(nodes_of(items) == here.children().push(current@));
                        assert(nodes_of(items_after) == here.children().push(after));
                        assert(whole == here.with_children(here.children().push(after)));
                    }
                }
            },
        }
        i = i + 1;
    }
    if current.is_folder() {
        Ok(())
    } else {
        Err(FsError::NotADirectory { path: join_names(names, n) })
    }
}

/// Takes the child called by the last name of `path` out of the folder that
/// the names before it lead to, if it is of the kind that is asked for.
/// Changes nothing otherwise. `text` is the path as it was given.
fn detach(
    root: &mut VirtualFileSystemItem,
    path: &VirtualFileSystemPath,
    text: &str,
    folder_wanted: bool,
) -> (done: Result<(), FsError>)
    requires
        path@ == split(text@),
    ensures
        match old(root)@.resolve(path@) {
            Resolution::Found(node) => if (node is Folder) == folder_wanted {
                done is Ok && final(root)@ == old(root)@.removed(path@)
            } else {
                done matches Err(e) && e@ == wrong_kind(folder_wanted, text@) && final(root)@
                    == old(root)@
            },
            other => done matches Err(e) && Some(e@) == other.failure(path@) && final(root)@
                == old(root)@,
        },
{
    let dirs = path.parent_dirs();
    let leaf = path.leaf();
    proof {
        let n = path@.len();
        assert(path@.drop_last() == path@.take(n - 1));
        assert(path@.take(n as int) == path@);
        lemma_walk_prefix(root@, path@, 0, n - 1);
        lemma_walk_fails_within(root@, path@.drop_last(), 0);
        lemma_same_beginnings(path@);
        lemma_join_split(text@);
    }
    match descend_mut(root, dirs) {
        Ok(VirtualFileSystemItem::Folder { contents, .. }) => {
            let k = find_child(contents, leaf);
            if k < contents.len() {
                proof {
                    let child = contents[k as int]@;
                    assert(child == nodes_of(contents@)[k as int]);
                    assert(child.walk(path@, path@.len() as int) == Resolution::Found(child));
                }
                if contents[k].is_folder() == folder_wanted {
                    let ghost items = contents@;
                    contents.remove(k);
                    assert(nodes_of(contents@) == nodes_of(items).remove(k as int));
                    Ok(())
                } else if folder_wanted {
                    Err(FsError::NotADirectory { path: text.to_owned() })
                } else {
                    Err(FsError::NotAFile { path: text.to_owned() })
                }
            } else {
                Err(FsError::NotFound { path: text.to_owned() })
            }
        },
        Ok(VirtualFileSystemItem::File { .. }) => Err(
            FsError::NotADirectory { path: join_names(dirs, dirs.len()) },
        ),
        Err(e) => Err(e),
    }
}

/// The beginnings of a path without its last name are beginnings of the
/// path.
proof fn lemma_same_beginnings(path: Seq<Seq<char>>)
    requires
        path.len() >= 1,
    ensures
        forall|k: int| 0 <= k < path.len() ==> #[trigger] path.drop_last().take(k) == path.take(k),
{
    assert forall|k: int| 0 <= k < path.len() implies #[trigger] path.drop_last().take(k)
        == path.take(k) by {
        assert(path.drop_last().take(k) =~= path.take(k));
    }
}

/// The error for a removal that found a node of the other kind at `path`:
/// a file where a folder was to go, or a folder where a file was.
pub open spec fn wrong_kind(folder_wanted: bool, path: Seq<char>) -> Failure {
    if folder_wanted {
        Failure::NotADirectory { path }
    } else {
        Failure::NotAFile { path }
    }
}

impl FileSystem for VirtualFileSystem {
    /// The name and the content of the file that the path leads to.
    fn read_file(&self, relative_file_path: &str) -> (read: Result<File, FsError>)
        ensures
            match self@.resolve(split(relative_file_path@)) {
                Resolution::Found(Node::File { name, data }) => read matches Ok(file) && file.name@
                    == name && file.data@ == data,
                Resolution::Found(Node::Folder { .. }) => read matches Err(e) && e@ == (
                Failure::NotAFile { path: relative_file_path@ }),
                other => read matches Err(e) && Some(e@) == other.failure(
                    split(relative_file_path@),
                ),
            },
    {
        match self.get_item(relative_file_path) {
            Ok(VirtualFileSystemItem::File { name, data }) => {
                let file = File { name: name.clone(), data: data.clone() };
                assert(file.data@ == data@);
                Ok(file)
            },
            Ok(VirtualFileSystemItem::Folder { .. }) => Err(
                FsError::NotAFile { path: relative_file_path.to_owned() },
            ),
            Err(e) => Err(e),
        }
    }

    /// Puts a file with the content `file_data` into the folder that the
    /// names before the last lead to, in the place of what that folder held
    /// under the last name. No folder is made on the way.
    fn write_file(&mut self, relative_file_path: &str, file_data: Vec<u8>) -> (done: Result<
        (),
        FsError,
    >)
        ensures
            final(self)@ == old(self)@.written(split(relative_file_path@), file_data@),
            match old(self)@.resolve_folder(split(relative_file_path@).drop_last()) {
                Resolution::Found(_) => done is Ok,
                other => done matches Err(e) && Some(e@) == other.failure(
                    split(relative_file_path@),
                ),
            },
            old(self).wf() ==> final(self).wf(),
    {
        let path = VirtualFileSystemPath::new(relative_file_path);
        let dirs = path.parent_dirs();
        proof {
            lemma_walk_fails_within(self@, path@.drop_last(), 0);
            lemma_same_beginnings(path@);
            if self.wf() {
                lemma_written_wf(self@, path@, file_data@);
            }
        }
        match descend_mut(&mut self.root, dirs) {
            Ok(VirtualFileSystemItem::Folder { contents, .. }) => {
                put_child(contents, VirtualFileSystemItem::file(path.file_name(), file_data));
                Ok(())
            },
            Ok(VirtualFileSystemItem::File { .. }) => Err(
                FsError::NotADirectory { path: join_names(dirs, dirs.len()) },
            ),
            Err(e) => Err(e),
        }
    }

    /// Makes a folder for every name of the path, one inside the other, and
    /// keeps those that exist, with all they hold. Fails, and changes
    /// nothing, where one of the names is that of a file.
    fn create_dir(&mut self, relative_dir_path: &str) -> (done: Result<(), FsError>)
        ensures
            final(self)@ == old(self)@.with_dirs(split(relative_dir_path@)),
            match old(self)@.survey(split(relative_dir_path@), 0) {
                Resolution::Found(_) => done is Ok,
                other => done matches Err(e) && Some(e@) == other.failure(
                    split(relative_dir_path@),
                ),
            },
            old(self).wf() ==> final(self).wf(),
    {
        let path = VirtualFileSystemPath::new(relative_dir_path);
        proof {
            if self.wf() {
                lemma_with_dirs_wf(self@, path@);
            }
        }
        grow(&mut self.root, path.names())
    }

    /// One entry for each child of the folder that the path leads to, in
    /// the order in which the children came into the folder.
    fn read_dir(&self, relative_dir_path: &str) -> (listed: Result<Vec<DirEntry>, FsError>)
        ensures
            match self@.resolve(split(relative_dir_path@)) {
                Resolution::Found(Node::Folder { children, .. }) => listed matches Ok(entries)
                    && entries@.len() == children.len() && forall|i: int|
                    0 <= i < children.len() ==> (#[trigger] entries@[i])@ == entry_of(children[i]),
                Resolution::Found(Node::File { .. }) => listed matches Err(e) && e@ == (
                Failure::NotADirectory { path: relative_dir_path@ }),
                other => listed matches Err(e) && Some(e@) == other.failure(
                    split(relative_dir_path@),
                ),
            },
            self.wf() ==> (listed matches Ok(entries) ==> forall|i: int, j: int|
                0 <= i < j < entries@.len() ==> (#[trigger] entries@[i])@.name() != (
                #[trigger] entries@[j])@.name()),
    {
        proof {
            if self.wf() && self@.resolve(split(relative_dir_path@)) is Found {
                lemma_walk_wf(self@, split(relative_dir_path@), 0);
            }
        }
        let contents = match self.get_item(relative_dir_path) {
            Ok(item) => match item.folder_contents(relative_dir_path) {
                Ok(contents) => contents,
                Err(e) => {
                    return Err(e);
                },
            },
            Err(e) => {
                return Err(e);
            },
        };
        let mut entries: Vec<DirEntry> = Vec::new();
        let mut i: usize = 0;
        while i < contents.len()
            invariant
                i <= contents.len(),
                entries.len() == i,
                forall|j: int| 0 <= j < i ==> (#[trigger] entries@[j])@ == entry_of(contents[j]@),
            decreases contents.len() - i,
        {
            entries.push(contents[i].as_dir_entry());
            i = i + 1;
        }
        assert forall|j: int| 0 <= j < contents.len() implies (#[trigger] entries@[j])@
            == entry_of(nodes_of(contents@)[j]) by {
            assert(nodes_of(contents@)[j] == contents[j]@);
        }
        Ok(entries)
    }

    /// Takes the folder that the path leads to out of its parent, with all
    /// it holds. Fails, and changes nothing, where the path leads nowhere or
    /// to a file.
    fn remove_dir(&mut self, relative_dir_path: &str) -> (done: Result<(), FsError>)
        ensures
            match old(self)@.resolve(split(relative_dir_path@)) {
                Resolution::Found(Node::Folder { .. }) => {
                    &&& done is Ok
                    &&& final(self)@ == old(self)@.removed(split(relative_dir_path@))
                },
                Resolution::Found(Node::File { .. }) => {
                    &&& done matches Err(e) && e@ == wrong_kind(true, relative_dir_path@)
                    &&& final(self)@ == old(self)@
                },
                other => {
                    &&& done matches Err(e) && Some(e@) == other.failure(split(relative_dir_path@))
                    &&& final(self)@ == old(self)@
                },
            },
            old(self).wf() ==> final(self).wf(),
    {
        let path = VirtualFileSystemPath::new(relative_dir_path);
        proof {
            lemma_split_nonempty(relative_dir_path@);
            if self.wf() {
                lemma_removed_wf(self@, path@);
            }
        }
        detach(&mut self.root, &path, relative_dir_path, true)
    }

    /// Takes the file that the path leads to out of its parent. Fails, and
    /// changes nothing, where the path leads nowhere or to a folder.
    fn remove_file(&mut self, relative_file_path: &str) -> (done: Result<(), FsError>)
        ensures
            match old(self)@.resolve(split(relative_file_path@)) {
                Resolution::Found(Node::File { .. }) => {
                    &&& done is Ok
                    &&& final(self)@ == old(self)@.removed(split(relative_file_path@))
                },
                Resolution::Found(Node::Folder { .. }) => {
                    &&& done matches Err(e) && e@ == wrong_kind(false, relative_file_path@)
                    &&& final(self)@ == old(self)@
                },
                other => {
                    &&& done matches Err(e) && Some(e@) == other.failure(split(relative_file_path@))
                    &&& final(self)@ == old(self)@
                },
            },
            old(self).wf() ==> final(self).wf(),
    {
        let path = VirtualFileSystemPath::new(relative_file_path);
        proof {
            lemma_split_nonempty(relative_file_path@);
            if self.wf() {
                lemma_removed_wf(self@, path@);
            }
        }
        detach(&mut self.root, &path, relative_file_path, false)
    }
}

} // verus!

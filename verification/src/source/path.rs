//! Paths as text: what the names of a path are, and what text a sequence of
//! names makes.

use vstd::prelude::*;
use vstd::std_specs::iter::IteratorSpec;

verus! {

/// The character that separates the names of a path.
pub open spec fn separator() -> char {
    '/'
}

/// The names of a path: the stretches of `text` between its separators.
/// There is one more name than there are separators, and a name is empty
/// where nothing stands between two separators, or before the first or after
/// the last.
pub open spec fn split(text: Seq<char>) -> Seq<Seq<char>>
    decreases text.len(),
{
    if text.len() == 0 {
        seq![Seq::empty()]
    } else {
        let before = split(text.drop_last());
        if text.last() == separator() {
            before.push(Seq::empty())
        } else {
            before.update(before.len() - 1, before.last().push(text.last()))
        }
    }
}

/// The names with a separator between each two of them.
pub open spec fn join(names: Seq<Seq<char>>) -> Seq<char>
    decreases names.len(),
{
    if names.len() == 0 {
        Seq::empty()
    } else if names.len() == 1 {
        names[0]
    } else {
        join(names.drop_last()) + seq![separator()] + names.last()
    }
}

/// What a list of names is in contracts.
pub open spec fn names_of(names: Seq<String>) -> Seq<Seq<char>> {
    Seq::new(names.len(), |i: int| names[i]@)
}

/// A text always has at least one name.
pub proof fn lemma_split_nonempty(text: Seq<char>)
    ensures
        split(text).len() >= 1,
    decreases text.len(),
{
    if text.len() > 0 {
        lemma_split_nonempty(text.drop_last());
    }
}

/// No name of a text holds a separator.
pub proof fn lemma_split_names_are_plain(text: Seq<char>)
    ensures
        forall|k: int, j: int|
            0 <= k < split(text).len() && 0 <= j < split(text)[k].len() ==> split(text)[k][j]
                != separator(),
    decreases text.len(),
{
    if text.len() > 0 {
        lemma_split_names_are_plain(text.drop_last());
        lemma_split_nonempty(text.drop_last());
    }
}

/// Joining the names of a text gives the text back.
pub proof fn lemma_join_split(text: Seq<char>)
    ensures
        join(split(text)) == text,
    decreases text.len(),
{
    if text.len() > 0 {
        let shorter = text.drop_last();
        let before = split(shorter);
        lemma_join_split(shorter);
        lemma_split_nonempty(shorter);
        if text.last() == separator() {
            let now = before.push(Seq::empty());
            assert(now.drop_last() == before);
            assert(join(now) == join(before) + seq![separator()] + Seq::<char>::empty());
            assert(join(now) == text);
        } else {
            let now = before.update(before.len() - 1, before.last().push(text.last()));
            if before.len() == 1 {
                assert(join(now) == shorter.push(text.last()));
            } else {
                assert(now.drop_last() == before.drop_last());
                assert(join(now) == join(before.drop_last()) + seq![separator()]
                    + before.last().push(text.last()));
                assert(join(now) == join(before).push(text.last()));
            }
            assert(shorter.push(text.last()) == text);
        }
    } else {
        assert(join(split(text)) == text);
    }
}

/// Names that hold no separator are the names of the text that they join
/// to, if there is at least one of them.
pub proof fn lemma_split_join(names: Seq<Seq<char>>)
    requires
        names.len() >= 1,
        forall|k: int, j: int|
            0 <= k < names.len() && 0 <= j < names[k].len() ==> names[k][j] != separator(),
    ensures
        split(join(names)) == names,
    decreases names.len(),
{
    if names.len() == 1 {
        lemma_split_plain(names[0]);
        assert(seq![names[0]] == names);
    } else {
        let before = names.drop_last();
        lemma_split_join(before);
        let head = join(before) + seq![separator()];
        assert(head.drop_last() == join(before));
        assert(split(head) == before.push(Seq::empty()));
        lemma_split_append_plain(head, names.last());
        assert(before.push(Seq::empty()).update(before.len() as int, names.last()) == names);
    }
}

/// A text without a separator is its own single name.
proof fn lemma_split_plain(text: Seq<char>)
    requires
        forall|j: int| 0 <= j < text.len() ==> text[j] != separator(),
    ensures
        split(text) == seq![text],
    decreases text.len(),
{
    if text.len() > 0 {
        lemma_split_plain(text.drop_last());
        assert(text.drop_last().push(text.last()) == text);
        assert(seq![text.drop_last()].update(0, text) == seq![text]);
    } else {
        assert(Seq::<char>::empty() == text);
    }
}

/// Text without a separator, put behind a text, lengthens its last name.
proof fn lemma_split_append_plain(head: Seq<char>, tail: Seq<char>)
    requires
        forall|j: int| 0 <= j < tail.len() ==> tail[j] != separator(),
    ensures
        split(head).len() >= 1,
        split(head + tail) == split(head).update(
            split(head).len() - 1,
            split(head).last() + tail,
        ),
    decreases tail.len(),
{
    lemma_split_nonempty(head);
    if tail.len() == 0 {
        assert(head + tail == head);
        assert(split(head).last() + tail == split(head).last());
        assert(split(head).update(split(head).len() - 1, split(head).last()) == split(head));
    } else {
        lemma_split_append_plain(head, tail.drop_last());
        let whole = head + tail;
        assert(whole.drop_last() == head + tail.drop_last());
        assert(whole.last() == tail.last());
        assert((split(head).last() + tail.drop_last()).push(tail.last()) == split(head).last()
            + tail);
    }
}

/// The names of `path`, in order.
pub fn split_path(path: &str) -> (names: Vec<String>)
    ensures
        names_of(names@) == split(path@),
{
    broadcast use vstd::string::group_string_axioms;

    let mut names: Vec<String> = Vec::new();
    let n = path.unicode_len();
    let mut chars = path.chars();
    let mut start: usize = 0;
    let mut i: usize = 0;
    proof {
        assert(path@.take(0) == Seq::<char>::empty());
        assert(split(path@.take(0)) == names_of(names@).push(path@.subrange(0, 0)));
        assert(path@.skip(0) == path@);
    }
    while i < n
        invariant
            n == path@.len(),
            start <= i <= n,
            chars.remaining() == path@.skip(i as int),
            split(path@.take(i as int)) == names_of(names@).push(
                path@.subrange(start as int, i as int),
            ),
        decreases n - i,
    {
        let next = chars.next();
        let c = next.unwrap();
        proof {
            let now = path@.take(i as int + 1);
            assert(now.drop_last() == path@.take(i as int));
            assert(now.last() == c);
            assert(path@.skip(i as int).drop_first() == path@.skip(i as int + 1));
            lemma_split_nonempty(path@.take(i as int));
        }
        if c == '/' {
            let name = path.substring_char(start, i).to_owned();
            let ghost old_names = names_of(names@);
            names.push(name);
            assert(names_of(names@) == old_names.push(path@.subrange(start as int, i as int)));
            start = i + 1;
            assert(path@.subrange(start as int, i as int + 1) == Seq::<char>::empty());
        } else {
            assert(path@.subrange(start as int, i as int + 1) == path@.subrange(
                start as int,
                i as int,
            ).push(c));
        }
        i = i + 1;
    }
    let name = path.substring_char(start, n).to_owned();
    let ghost old_names = names_of(names@);
    names.push(name);
    proof {
        assert(names_of(names@) == old_names.push(path@.subrange(start as int, n as int)));
        assert(path@.take(n as int) == path@);
    }
    names
}

/// The first `count` of `names` as one text, a separator between each two.
pub fn join_names(names: &[String], count: usize) -> (text: String)
    requires
        count <= names.len(),
    ensures
        text@ == join(names_of(names@).take(count as int)),
{
    let mut text = String::new();
    let mut i: usize = 0;
    while i < count
        invariant
            i <= count <= names.len(),
            text@ == join(names_of(names@).take(i as int)),
        decreases count - i,
    {
        proof {
            let now = names_of(names@).take(i as int + 1);
            assert(now.drop_last() == names_of(names@).take(i as int));
            assert(now.last() == names[i as int]@);
            reveal_strlit("/");
            assert("/"@ == seq![separator()]);
        }
        if i > 0 {
            text.append("/");
        }
        text.append(names[i].as_str());
        i = i + 1;
    }
    text
}

} // verus!

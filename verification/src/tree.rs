//! The hierarchy of template names: names are paths whose segments `/`
//! separates, and templates that share the start of a path share a folder.

use crate::listing::in_walk_order;
use crate::models::{Template, TemplateView, TreeItem, TreeItemView};
use crate::text::{
    find, find_from, is_space, lemma_find_from, lemma_trimmed, slice, to_chars, to_string, trim,
    trimmed,
};
use vstd::prelude::*;

verus! {

/// A node of the hierarchy as a mathematical tree.
pub struct Node {
    pub name: Seq<char>,
    pub template_index: Option<usize>,
    pub children: Seq<Node>,
}

/// A node of the hierarchy: one segment of a path, with what lies below it
/// in the order in which it was first put there.
#[derive(Debug)]
pub struct TreeNode {
    pub name: String,
    pub template_index: Option<usize>,
    pub children: Vec<TreeNode>,
}

impl TreeNode {
    /// The mathematical tree that this node and all below it form.
    pub open spec fn model(&self) -> Node
        decreases self,
    {
        Node {
            name: self.name@,
            template_index: self.template_index,
            children: Seq::new(
                self.children@.len(),
                |i: int|
                    if 0 <= i < self.children@.len() {
                        self.children@[i].model()
                    } else {
                        arbitrary()
                    },
            ),
        }
    }
}

impl Clone for TreeNode {
    /// A copy of this node and of all that lies below it.
    fn clone(&self) -> (copy: TreeNode)
        ensures
            copy@ == self@,
        decreases self,
    {
        let mut children: Vec<TreeNode> = Vec::new();
        let mut i: usize = 0;
        while i < self.children.len()
            invariant
                i <= self.children@.len(),
                children@.len() == i,
                forall|j: int| 0 <= j < i ==> (#[trigger] children@[j]).model() == self.children@[j].model(),
            decreases self.children@.len() - i,
        {
            let child = self.children[i].clone();
            children.push(child);
            i += 1;
        }
        let copy = TreeNode {
            name: self.name.clone(),
            template_index: self.template_index,
            children,
        };
        assert(copy.model().children =~= self.model().children);
        copy
    }
}

impl View for TreeNode {
    type V = Node;

    open spec fn view(&self) -> Node {
        self.model()
    }
}

/// The node named `name` that has no template and nothing below it.
pub open spec fn leaf(name: Seq<char>) -> Node {
    Node { name, template_index: None, children: Seq::empty() }
}

/// The position of the first of `children`, from `from` on, that is named
/// `name`; `children.len()` where there is none.
pub open spec fn child_from(children: Seq<Node>, name: Seq<char>, from: int) -> int
    decreases children.len() - from,
{
    if from < 0 || from >= children.len() {
        children.len() as int
    } else if children[from].name == name {
        from
    } else {
        child_from(children, name, from + 1)
    }
}

/// `node` after the template `index` was put at `path` below it. Each
/// segment leads to the first child of that name, or to a new last child
/// where there is none; the node at the end of the path gets the template.
pub open spec fn inserted(node: Node, path: Seq<Seq<char>>, index: usize) -> Node
    decreases path.len(),
{
    if path.len() == 0 {
        Node { template_index: Some(index), ..node }
    } else {
        let at = child_from(node.children, path[0], 0);
        if at < node.children.len() {
            Node {
                children: node.children.update(
                    at,
                    inserted(node.children[at], path.drop_first(), index),
                ),
                ..node
            }
        } else {
            Node {
                children: node.children.push(inserted(leaf(path[0]), path.drop_first(), index)),
                ..node
            }
        }
    }
}

/// The rows for the first `count` children of `node` and all that lies below
/// them, where the children themselves stand at `depth`: each child's own row
/// comes first, then the rows below it, one level deeper.
pub open spec fn rows_of(node: Node, count: int, depth: int) -> Seq<TreeItemView>
    decreases node, count,
{
    if count <= 0 || count > node.children.len() {
        Seq::empty()
    } else {
        let child = node.children[count - 1];
        rows_of(node, count - 1, depth).push(
            TreeItemView { label: child.name, depth, template_index: child.template_index },
        ) + rows_of(child, child.children.len() as int, depth + 1)
    }
}

/// The rows for all that lies below `node`, whose children stand at `depth`.
pub open spec fn rows(node: Node, depth: int) -> Seq<TreeItemView> {
    rows_of(node, node.children.len() as int, depth)
}

/// Whether nothing lies more than `room` levels below `node`.
pub open spec fn shallow(node: Node, room: int) -> bool
    decreases node,
{
    node.children.len() == 0 || (room > 0 && forall|i: int|
        0 <= i < node.children.len() ==> shallow(#[trigger] node.children[i], room - 1))
}

/// The segments of the path `name` from position `from` on: the pieces
/// between `/`, each without the white space around it, unless nothing is
/// left of it.
pub open spec fn segments_from(name: Seq<char>, from: int) -> Seq<Seq<char>>
    decreases name.len() - from,
{
    if from < 0 || from > name.len() {
        Seq::empty()
    } else {
        let slash = find_from(name, '/', from);
        let segment = trimmed(name.subrange(from, slash));
        let found = if segment.len() > 0 {
            seq![segment]
        } else {
            Seq::empty()
        };
        if slash >= name.len() {
            found
        } else {
            proof {
                lemma_find_from(name, '/', from);
            }
            found + segments_from(name, slash + 1)
        }
    }
}

/// The segments of the path `name`.
pub open spec fn segments(name: Seq<char>) -> Seq<Seq<char>> {
    segments_from(name, 0)
}

/// No segment of a path is empty, and none has white space at its ends.
pub proof fn segments_are_trimmed(name: Seq<char>, from: int)
    ensures
        forall|i: int|
            0 <= i < segments_from(name, from).len() ==> {
                let segment = #[trigger] segments_from(name, from)[i];
                segment.len() > 0 && !is_space(segment[0]) && !is_space(segment.last())
            },
    decreases name.len() - from,
{
    if !(from < 0 || from > name.len()) {
        let slash = find_from(name, '/', from);
        lemma_find_from(name, '/', from);
        let segment = trimmed(name.subrange(from, slash));
        lemma_trimmed(name.subrange(from, slash));
        let found = if segment.len() > 0 {
            seq![segment]
        } else {
            Seq::empty()
        };
        if slash < name.len() {
            segments_are_trimmed(name, slash + 1);
            let rest = segments_from(name, slash + 1);
            assert forall|i: int| 0 <= i < segments_from(name, from).len() implies {
                let segment = #[trigger] segments_from(name, from)[i];
                segment.len() > 0 && !is_space(segment[0]) && !is_space(segment.last())
            } by {
                if i >= found.len() {
                    assert((found + rest)[i] == rest[i - found.len()]);
                }
            }
        }
    }
}

/// The hierarchy of `templates`: each is put at the path that its name
/// gives, in order, below a root without a name.
pub open spec fn tree_of(templates: Seq<TemplateView>) -> Node
    decreases templates.len(),
{
    if templates.len() == 0 {
        leaf(Seq::empty())
    } else {
        inserted(
            tree_of(templates.drop_last()),
            segments(templates.last().name),
            (templates.len() - 1) as usize,
        )
    }
}

/// The rows that show the hierarchy of `templates`.
pub open spec fn tree_rows(templates: Seq<TemplateView>) -> Seq<TreeItemView> {
    rows(tree_of(templates), 0)
}

/// Putting a template at a path of at most `room` segments below a node
/// under which nothing lies deeper than `room` leaves it so.
proof fn lemma_inserted_shallow(node: Node, path: Seq<Seq<char>>, index: usize, room: int)
    requires
        shallow(node, room),
        path.len() <= room,
    ensures
        shallow(inserted(node, path, index), room),
    decreases path.len(),
{
    if path.len() > 0 {
        let at = child_from(node.children, path[0], 0);
        let after = inserted(node, path, index);
        lemma_child_from(node.children, path[0], 0);
        if at < node.children.len() {
            lemma_inserted_shallow(node.children[at], path.drop_first(), index, room - 1);
        } else {
            lemma_inserted_shallow(leaf(path[0]), path.drop_first(), index, room - 1);
        }
        assert forall|i: int| 0 <= i < after.children.len() implies shallow(
            #[trigger] after.children[i],
            room - 1,
        ) by {
            if i < node.children.len() && i != at {
                assert(after.children[i] == node.children[i]);
            }
        }
    }
}

/// What `child_from` returns lies between `from` and the end, names a child
/// called `name` unless it is the end, and no child before it from `from` on
/// is called so.
proof fn lemma_child_from(children: Seq<Node>, name: Seq<char>, from: int)
    requires
        0 <= from <= children.len(),
    ensures
        from <= child_from(children, name, from) <= children.len(),
        child_from(children, name, from) < children.len() ==> children[child_from(
            children,
            name,
            from,
        )].name == name,
        forall|i: int|
            from <= i < child_from(children, name, from) ==> (#[trigger] children[i]).name != name,
    decreases children.len() - from,
{
    if from < children.len() && children[from].name != name {
        lemma_child_from(children, name, from + 1);
    }
}

/// Whether every template index at or below `node` names one of `templates`
/// whose path is the path of the node that holds it, where `path` is the
/// path of `node` itself.
spec fn placed(node: Node, path: Seq<Seq<char>>, templates: Seq<TemplateView>) -> bool
    decreases node,
{
    &&& node.template_index matches Some(index) ==> index < templates.len() && segments(
        templates[index as int].name,
    ) == path
    &&& forall|i: int|
        0 <= i < node.children.len() ==> placed(
            #[trigger] node.children[i],
            path.push(node.children[i].name),
            templates,
        )
}

/// What is placed among some templates is placed among more of them.
proof fn lemma_placed_among_more(
    node: Node,
    path: Seq<Seq<char>>,
    templates: Seq<TemplateView>,
    more: Seq<TemplateView>,
)
    requires
        placed(node, path, templates),
        templates.len() <= more.len(),
        forall|i: int| 0 <= i < templates.len() ==> templates[i] == more[i],
    ensures
        placed(node, path, more),
    decreases node,
{
    assert forall|i: int| 0 <= i < node.children.len() implies placed(
        #[trigger] node.children[i],
        path.push(node.children[i].name),
        more,
    ) by {
        lemma_placed_among_more(node.children[i], path.push(node.children[i].name), templates, more);
    }
}

/// Putting a template at the rest of its own path keeps every index in its
/// place.
proof fn lemma_inserted_placed(
    node: Node,
    path: Seq<Seq<char>>,
    rest: Seq<Seq<char>>,
    index: usize,
    templates: Seq<TemplateView>,
)
    requires
        placed(node, path, templates),
        index < templates.len(),
        segments(templates[index as int].name) == path + rest,
    ensures
        placed(inserted(node, rest, index), path, templates),
    decreases rest.len(),
{
    let after = inserted(node, rest, index);
    if rest.len() == 0 {
        assert(path + rest =~= path);
        assert forall|i: int| 0 <= i < after.children.len() implies placed(
            #[trigger] after.children[i],
            path.push(after.children[i].name),
            templates,
        ) by {
            assert(after.children[i] == node.children[i]);
        }
    } else {
        let at = child_from(node.children, rest[0], 0);
        lemma_child_from(node.children, rest[0], 0);
        let below = path.push(rest[0]);
        assert(below + rest.drop_first() =~= path + rest);
        if at < node.children.len() {
            lemma_inserted_placed(node.children[at], below, rest.drop_first(), index, templates);
            lemma_inserted_name(node.children[at], rest.drop_first(), index);
        } else {
            lemma_inserted_placed(leaf(rest[0]), below, rest.drop_first(), index, templates);
            lemma_inserted_name(leaf(rest[0]), rest.drop_first(), index);
        }
        assert forall|i: int| 0 <= i < after.children.len() implies placed(
            #[trigger] after.children[i],
            path.push(after.children[i].name),
            templates,
        ) by {
            if i < node.children.len() && i != at {
                assert(after.children[i] == node.children[i]);
            }
        }
    }
}

/// Putting a template somewhere below a node leaves the node its name.
proof fn lemma_inserted_name(node: Node, path: Seq<Seq<char>>, index: usize)
    ensures
        inserted(node, path, index).name == node.name,
{
}

/// In the hierarchy of `templates` every index is in its place.
proof fn lemma_tree_placed(templates: Seq<TemplateView>)
    requires
        templates.len() <= usize::MAX,
    ensures
        placed(tree_of(templates), Seq::empty(), templates),
    decreases templates.len(),
{
    if templates.len() > 0 {
        let before = templates.drop_last();
        lemma_tree_placed(before);
        lemma_placed_among_more(tree_of(before), Seq::empty(), before, templates);
        let path = segments(templates.last().name);
        assert(Seq::<Seq<char>>::empty() + path =~= path);
        lemma_inserted_placed(
            tree_of(before),
            Seq::empty(),
            path,
            (templates.len() - 1) as usize,
            templates,
        );
    }
}

/// Every row for what lies below a node whose indices are in their places
/// stands as deep as its path is long, and a row that opens a template is
/// labelled with the last segment of that template's path.
proof fn lemma_rows_placed(
    node: Node,
    count: int,
    path: Seq<Seq<char>>,
    templates: Seq<TemplateView>,
)
    requires
        placed(node, path, templates),
    ensures
        forall|r: int|
            0 <= r < rows_of(node, count, path.len() as int).len() ==> {
                let row = #[trigger] rows_of(node, count, path.len() as int)[r];
                &&& row.depth >= path.len()
                &&& row.template_index matches Some(index) ==> {
                    &&& index < templates.len()
                    &&& segments(templates[index as int].name).len() == row.depth + 1
                    &&& segments(templates[index as int].name).last() == row.label
                }
            },
    decreases node, count,
{
    let depth = path.len() as int;
    if !(count <= 0 || count > node.children.len()) {
        let child = node.children[count - 1];
        let below = path.push(child.name);
        let head = rows_of(node, count - 1, depth);
        let own = TreeItemView {
            label: child.name,
            depth,
            template_index: child.template_index,
        };
        let tail = rows_of(child, child.children.len() as int, depth + 1);
        lemma_rows_placed(node, count - 1, path, templates);
        assert(placed(child, below, templates));
        lemma_rows_placed(child, child.children.len() as int, below, templates);
        assert forall|r: int| 0 <= r < rows_of(node, count, depth).len() implies {
            let row = #[trigger] rows_of(node, count, depth)[r];
            &&& row.depth >= path.len()
            &&& row.template_index matches Some(index) ==> {
                &&& index < templates.len()
                &&& segments(templates[index as int].name).len() == row.depth + 1
                &&& segments(templates[index as int].name).last() == row.label
            }
        } by {
            let all = rows_of(node, count, depth);
            assert(all == head.push(own) + tail);
            if r < head.len() {
                assert(all[r] == head[r]);
            } else if r == head.len() {
                assert(all[r] == own);
                if child.template_index is Some {
                    assert(below.last() == child.name);
                }
            } else {
                assert(all[r] == tail[r - head.len() - 1]);
            }
        }
    }
}

/// A row that opens a template belongs to that template: the index names
/// one of the templates, the row is labelled with the last segment of its
/// path, and it stands one level deep for each segment before that.
pub proof fn rows_open_their_templates(templates: Seq<TemplateView>)
    requires
        templates.len() <= usize::MAX,
    ensures
        forall|r: int|
            0 <= r < tree_rows(templates).len() ==> {
                let row = #[trigger] tree_rows(templates)[r];
                &&& row.depth >= 0
                &&& row.template_index matches Some(index) ==> {
                    &&& index < templates.len()
                    &&& segments(templates[index as int].name).len() == row.depth + 1
                    &&& segments(templates[index as int].name).last() == row.label
                }
            },
{
    lemma_tree_placed(templates);
    let root = tree_of(templates);
    lemma_rows_placed(root, root.children.len() as int, Seq::empty(), templates);
}

/// The rows for what lies below a node start at the depth of its children,
/// never come higher up than that, and go down by one level at a time.
proof fn lemma_rows_shape(node: Node, count: int, depth: int)
    ensures
        forall|r: int|
            0 <= r < rows_of(node, count, depth).len() ==> (#[trigger] rows_of(
                node,
                count,
                depth,
            )[r]).depth >= depth,
        rows_of(node, count, depth).len() > 0 ==> rows_of(node, count, depth)[0].depth == depth,
        forall|r: int|
            0 <= r && r + 1 < rows_of(node, count, depth).len() ==> (#[trigger] rows_of(
                node,
                count,
                depth,
            )[r + 1]).depth <= rows_of(node, count, depth)[r].depth + 1,
        0 < count <= node.children.len() ==> rows_of(node, count, depth).len() > 0,
    decreases node, count,
{
    if !(count <= 0 || count > node.children.len()) {
        let child = node.children[count - 1];
        let head = rows_of(node, count - 1, depth);
        let own = TreeItemView {
            label: child.name,
            depth,
            template_index: child.template_index,
        };
        let tail = rows_of(child, child.children.len() as int, depth + 1);
        let all = rows_of(node, count, depth);
        lemma_rows_shape(node, count - 1, depth);
        lemma_rows_shape(child, child.children.len() as int, depth + 1);
        assert(all == head.push(own) + tail);
        assert forall|r: int| 0 <= r < all.len() implies (#[trigger] all[r]).depth >= depth by {
            if r < head.len() {
                assert(all[r] == head[r]);
            } else if r > head.len() {
                assert(all[r] == tail[r - head.len() - 1]);
            }
        }
        assert(all[0].depth == depth) by {
            if head.len() > 0 {
                assert(all[0] == head[0]);
            }
        }
        assert forall|r: int| 0 <= r && r + 1 < all.len() implies (#[trigger] all[r + 1]).depth
            <= all[r].depth + 1 by {
            if r + 1 < head.len() {
                assert(all[r] == head[r] && all[r + 1] == head[r + 1]);
            } else if r + 1 == head.len() {
                assert(all[r] == head[r] && all[r + 1] == own);
            } else if r == head.len() {
                assert(all[r] == own && all[r + 1] == tail[0]);
            } else {
                let k = r - head.len() - 1;
                assert(all[r] == tail[k]);
                assert(all[r + 1] == tail[k + 1]);
            }
        }
    }
}

/// The rows of a hierarchy are in the order of a walk through it: the first
/// row stands at the top level, and each row stands at most one level below
/// the row before it.
pub proof fn rows_go_down_by_one(templates: Seq<TemplateView>)
    ensures
        tree_rows(templates).len() > 0 ==> tree_rows(templates)[0].depth == 0,
        forall|r: int|
            0 <= r < tree_rows(templates).len() ==> (#[trigger] tree_rows(templates)[r]).depth >= 0,
        forall|r: int|
            0 <= r && r + 1 < tree_rows(templates).len() ==> (#[trigger] tree_rows(templates)[r
                + 1]).depth <= tree_rows(templates)[r].depth + 1,
{
    let root = tree_of(templates);
    lemma_rows_shape(root, root.children.len() as int, 0);
}

/// The rows of a hierarchy stand in walk order.
pub proof fn rows_are_in_walk_order(templates: Seq<TemplateView>)
    ensures
        in_walk_order(tree_rows(templates)),
{
    rows_go_down_by_one(templates);
}

/// Whether every node below `node` has a template or something below it.
spec fn grouping(node: Node) -> bool
    decreases node,
{
    forall|i: int|
        0 <= i < node.children.len() ==> {
            &&& (#[trigger] node.children[i]).template_index is Some || node.children[i].children.len()
                > 0
            &&& grouping(node.children[i])
        }
}

/// Putting a template below a node makes no node without a template and
/// without anything below it.
proof fn lemma_inserted_grouping(node: Node, path: Seq<Seq<char>>, index: usize)
    requires
        grouping(node),
    ensures
        grouping(inserted(node, path, index)),
        inserted(node, path, index).template_index is Some || inserted(
            node,
            path,
            index,
        ).children.len() > 0,
        inserted(node, path, index).children.len() >= node.children.len(),
    decreases path.len(),
{
    let after = inserted(node, path, index);
    if path.len() == 0 {
        assert forall|i: int| 0 <= i < after.children.len() implies {
            &&& (#[trigger] after.children[i]).template_index is Some || after.children[i].children.len()
                > 0
            &&& grouping(after.children[i])
        } by {
            assert(after.children[i] == node.children[i]);
        }
    } else {
        let at = child_from(node.children, path[0], 0);
        lemma_child_from(node.children, path[0], 0);
        if at < node.children.len() {
            lemma_inserted_grouping(node.children[at], path.drop_first(), index);
        } else {
            lemma_inserted_grouping(leaf(path[0]), path.drop_first(), index);
        }
        assert forall|i: int| 0 <= i < after.children.len() implies {
            &&& (#[trigger] after.children[i]).template_index is Some || after.children[i].children.len()
                > 0
            &&& grouping(after.children[i])
        } by {
            if i < node.children.len() && i != at {
                assert(after.children[i] == node.children[i]);
            }
        }
    }
}

/// In a hierarchy of templates every node has a template or something
/// below it.
proof fn lemma_tree_grouping(templates: Seq<TemplateView>)
    ensures
        grouping(tree_of(templates)),
    decreases templates.len(),
{
    if templates.len() > 0 {
        lemma_tree_grouping(templates.drop_last());
        lemma_inserted_grouping(
            tree_of(templates.drop_last()),
            segments(templates.last().name),
            (templates.len() - 1) as usize,
        );
    }
}

/// Below a node where every node has a template or something below it, a
/// row that opens no template is followed by a row one level deeper.
proof fn lemma_rows_grouping(node: Node, count: int, depth: int)
    requires
        grouping(node),
    ensures
        forall|r: int|
            0 <= r < rows_of(node, count, depth).len() && (#[trigger] rows_of(
                node,
                count,
                depth,
            )[r]).template_index is None ==> r + 1 < rows_of(node, count, depth).len() && rows_of(
                node,
                count,
                depth,
            )[r + 1].depth == rows_of(node, count, depth)[r].depth + 1,
    decreases node, count,
{
    if !(count <= 0 || count > node.children.len()) {
        let child = node.children[count - 1];
        let head = rows_of(node, count - 1, depth);
        let own = TreeItemView {
            label: child.name,
            depth,
            template_index: child.template_index,
        };
        let tail = rows_of(child, child.children.len() as int, depth + 1);
        let all = rows_of(node, count, depth);
        lemma_rows_grouping(node, count - 1, depth);
        lemma_rows_grouping(child, child.children.len() as int, depth + 1);
        lemma_rows_shape(child, child.children.len() as int, depth + 1);
        assert(all == head.push(own) + tail);
        assert forall|r: int| 0 <= r < all.len() && (#[trigger] all[r]).template_index is None implies r
            + 1 < all.len() && all[r + 1].depth == all[r].depth + 1 by {
            if r < head.len() {
                assert(all[r] == head[r]);
                assert(r + 1 < head.len());
                assert(all[r + 1] == head[r + 1]);
            } else if r == head.len() {
                assert(all[r] == own);
                assert(child.children.len() > 0);
                assert(all[r + 1] == tail[0]);
            } else {
                let k = r - head.len() - 1;
                assert(all[r] == tail[k]);
                assert(k + 1 < tail.len());
                assert(all[r + 1] == tail[k + 1]);
            }
        }
    }
}

/// A row that opens no template is a folder: the row after it stands one
/// level below it.
pub proof fn rows_without_template_are_folders(templates: Seq<TemplateView>)
    ensures
        forall|r: int|
            0 <= r < tree_rows(templates).len() && (#[trigger] tree_rows(
                templates,
            )[r]).template_index is None ==> r + 1 < tree_rows(templates).len() && tree_rows(
                templates,
            )[r + 1].depth == tree_rows(templates)[r].depth + 1,
{
    lemma_tree_grouping(templates);
    let root = tree_of(templates);
    lemma_rows_grouping(root, root.children.len() as int, 0);
}

impl TreeNode {
    /// A node named `name`, with no template and nothing below it.
    pub fn new(name: &str) -> (node: TreeNode)
        ensures
            node@ == leaf(name@),
    {
        let node = TreeNode {
            name: name.to_owned(),
            template_index: None,
            children: Vec::new(),
        };
        assert(node@.children =~= Seq::empty());
        node
    }

    /// The position of the first child named `name`, or the number of
    /// children where there is none.
    fn child_index(&self, name: &String) -> (at: usize)
        ensures
            at == child_from(self@.children, name@, 0),
            at <= self.children@.len(),
    {
        let mut i: usize = 0;
        while i < self.children.len()
            invariant
                i <= self.children@.len(),
                self@.children.len() == self.children@.len(),
                child_from(self@.children, name@, 0) == child_from(self@.children, name@, i as int),
            decreases self.children@.len() - i,
        {
            assert(self@.children[i as int] == self.children@[i as int].model());
            assert(self.children@[i as int].model().name == self.children@[i as int].name@);
            if self.children[i].name == *name {
                return i;
            }
            i += 1;
        }
        i
    }

    /// Puts the template `template_index` at the path `parts` below this
    /// node. Each part leads to the first child of that name; where there is
    /// none, a new child is added after the others. The node at the end of
    /// the path gets the template, in place of one that it had.
    pub fn insert(&mut self, parts: &[&str], template_index: usize)
        ensures
            final(self)@ == inserted(old(self)@, parts.deep_view(), template_index),
        decreases parts@.len(),
    {
        if parts.len() == 0 {
            self.template_index = Some(template_index);
            assert(self@.children =~= old(self)@.children);
            return ;
        }
        let part = parts[0];
        let rest = vstd::slice::slice_subrange(parts, 1, parts.len());
        assert(rest.deep_view() =~= parts.deep_view().drop_first());
        assert(parts.deep_view()[0] == part@);
        let name = part.to_owned();
        let at = self.child_index(&name);
        let ghost before = self@;
        if at < self.children.len() {
            let ghost child = self.children@[at as int]@;
            assert(before.children[at as int] == child);
            self.children[at].insert(rest, template_index);
            assert(self@.children =~= before.children.update(
                at as int,
                inserted(child, rest.deep_view(), template_index),
            ));
        } else {
            let mut node = TreeNode::new(part);
            node.insert(rest, template_index);
            self.children.push(node);
            assert(self@.children =~= before.children.push(
                inserted(leaf(part@), rest.deep_view(), template_index),
            ));
        }
    }

    /// Appends to `items` the rows for all that lies below this node, whose
    /// children stand at `depth`: for each child, in order, its own row and
    /// then the rows below it, one level deeper.
    pub fn flatten(&self, depth: usize, items: &mut Vec<TreeItem>)
        requires
            shallow(self@, usize::MAX - depth),
        ensures
            final(items).deep_view() == old(items).deep_view() + rows(self@, depth as int),
        decreases self,
    {
        let mut i: usize = 0;
        assert(items.deep_view() =~= old(items).deep_view() + rows_of(self@, 0, depth as int));
        while i < self.children.len()
            invariant
                i <= self.children@.len(),
                self@.children.len() == self.children@.len(),
                shallow(self@, usize::MAX - depth),
                items.deep_view() == old(items).deep_view() + rows_of(
                    self@,
                    i as int,
                    depth as int,
                ),
            decreases self.children@.len() - i,
        {
            let child = &self.children[i];
            let ghost before = items.deep_view();
            assert(self@.children[i as int] == child@);
            let item = TreeItem {
                label: child.name.clone(),
                depth,
                template_index: child.template_index,
            };
            let ghost row = item@;
            items.push(item);
            assert(items.deep_view() =~= before.push(row));
            child.flatten(depth + 1, items);
            assert(items.deep_view() =~= old(items).deep_view() + rows_of(
                self@,
                i + 1,
                depth as int,
            ));
            i += 1;
        }
    }
}

/// The segments of the path `name`.
fn split_path(name: &str) -> (parts: Vec<String>)
    ensures
        parts.deep_view() == segments(name@),
{
    let chars = to_chars(name);
    let s = chars.as_slice();
    let len = s.len();
    let mut parts: Vec<String> = Vec::new();
    let mut at: usize = 0;
    let mut more = true;
    assert(parts.deep_view() =~= Seq::<Seq<char>>::empty());
    while more
        invariant
            at <= len == s@.len(),
            s@ == name@,
            more ==> segments(s@) == parts.deep_view() + segments_from(s@, at as int),
            !more ==> segments(s@) == parts.deep_view(),
        decreases len - at + if more { 1int } else { 0int },
    {
        let ghost before = parts.deep_view();
        let slash = find(s, '/', at);
        let segment = trim(slice(s, at, slash));
        if segment.len() > 0 {
            parts.push(to_string(segment));
            assert(parts.deep_view() =~= before.push(segment@));
        }
        if slash < len {
            at = slash + 1;
            assert(segments(s@) =~= parts.deep_view() + segments_from(s@, at as int));
        } else {
            more = false;
            assert(segments(s@) =~= parts.deep_view());
        }
    }
    parts
}

/// The strings of `owned`, borrowed.
fn borrowed<'a>(owned: &'a Vec<String>) -> (parts: Vec<&'a str>)
    ensures
        parts.deep_view() == owned.deep_view(),
{
    let mut parts: Vec<&'a str> = Vec::new();
    let mut i: usize = 0;
    while i < owned.len()
        invariant
            i <= owned@.len(),
            parts@.len() == i,
            forall|j: int| 0 <= j < i ==> parts@[j]@ == owned@[j]@,
        decreases owned@.len() - i,
    {
        parts.push(owned[i].as_str());
        i += 1;
    }
    assert(parts.deep_view() =~= owned.deep_view());
    parts
}

/// The rows that show `templates` as a hierarchy.
///
/// A template's name is a path: `/` separates its segments, white space
/// around a segment does not count, and empty segments are left out. Each
/// segment of each path gets one row, below the row of the segment before
/// it, in the order in which the templates first brought it up. The row at
/// the end of a path opens the last template of that path; the others only
/// group.
pub fn build_tree_items(templates: &[Template]) -> (items: Vec<TreeItem>)
    ensures
        items.deep_view() == tree_rows(templates.deep_view()),
{
    let mut root = TreeNode::new("");
    let mut index: usize = 0;
    proof {
        reveal_strlit("");
        assert(""@ =~= Seq::<char>::empty());
        assert(templates.deep_view().take(0) =~= Seq::<TemplateView>::empty());
    }
    while index < templates.len()
        invariant
            index <= templates@.len(),
            root@ == tree_of(templates.deep_view().take(index as int)),
            shallow(root@, usize::MAX as int),
        decreases templates@.len() - index,
    {
        let owned = split_path(templates[index].name.as_str());
        let parts = borrowed(&owned);
        let count = parts.len();
        proof {
            let so_far = templates.deep_view().take(index + 1);
            assert(so_far.drop_last() =~= templates.deep_view().take(index as int));
            assert(so_far.last().name == templates@[index as int].name@);
            assert(parts.deep_view().len() == count);
            lemma_inserted_shallow(root@, parts.deep_view(), index, usize::MAX as int);
        }
        root.insert(parts.as_slice(), index);
        index += 1;
    }
    assert(templates.deep_view().take(index as int) =~= templates.deep_view());
    let mut items: Vec<TreeItem> = Vec::new();
    assert(items.deep_view() =~= Seq::<TreeItemView>::empty());
    root.flatten(0, &mut items);
    assert(Seq::<TreeItemView>::empty() + rows(root@, 0) =~= rows(root@, 0));
    items
}

} // verus!

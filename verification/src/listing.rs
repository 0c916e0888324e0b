//! What the list of templates shows: which rows are in sight, and the line
//! that draws each row of the hierarchy.

use crate::models::{TreeItem, TreeItemView};
use vstd::prelude::*;

verus! {

/// The sign before a row that groups others.
pub const ICON_FOLDER: &'static str = "\u{e5fe}";

/// The sign before a row that opens a template.
pub const ICON_TEMPLATE: &'static str = "\u{f0219}";

/// Drawn where a row is followed by another of the same folder.
pub const TREE_BRANCH: &'static str = "├─ ";

/// Drawn where a row is the last of its folder.
pub const TREE_LAST: &'static str = "└─ ";

/// Drawn below a folder that goes on further down.
pub const TREE_PIPE: &'static str = "│  ";

/// Drawn below a folder that has ended.
pub const TREE_EMPTY: &'static str = "   ";

/// A rectangle of the screen, in character cells.
#[derive(Clone, Copy, Debug, PartialEq, Eq, Structural)]
pub struct Area {
    pub x: u16,
    pub y: u16,
    pub width: u16,
    pub height: u16,
}

/// What is left of `area` inside a border of one cell. A side that is too
/// short for a border on both ends stays as it is.
pub fn inner_rect(area: Area) -> (inner: Area)
    requires
        area.width >= 2 ==> area.x < u16::MAX,
        area.height >= 2 ==> area.y < u16::MAX,
    ensures
        inner.x == if area.width >= 2 {
            area.x + 1
        } else {
            area.x as int
        },
        inner.width == if area.width >= 2 {
            area.width - 2
        } else {
            area.width as int
        },
        inner.y == if area.height >= 2 {
            area.y + 1
        } else {
            area.y as int
        },
        inner.height == if area.height >= 2 {
            area.height - 2
        } else {
            area.height as int
        },
{
    let mut inner = area;
    if inner.width >= 2 {
        inner.x += 1;
        inner.width -= 2;
    }
    if inner.height >= 2 {
        inner.y += 1;
        inner.height -= 2;
    }
    inner
}

/// Drawn before the selected row.
pub const SELECTED_MARKER: &'static str = "\u{ea9f} ";

/// Drawn before every other row.
pub const UNSELECTED_MARKER: &'static str = "  ";

/// Stands between the help and a note on the last line of the screen.
pub const NOTE_SEPARATOR: &'static str = "  |  ";

/// The number of screen lines that one field takes.
pub const FIELD_HEIGHT: u16 = 3;

/// The end of the window of `view_height` rows that starts at row `start`,
/// over `total` rows: the row after the last one in sight.
pub fn window_end(start: usize, view_height: usize, total: usize) -> (end: usize)
    ensures
        end == if start + view_height < total {
            start + view_height
        } else {
            total as int
        },
{
    if start >= total || view_height >= total - start {
        total
    } else {
        start + view_height
    }
}

/// The line `line` as the list shows it: after the marker of the selected
/// row or that of the others.
pub fn marked_line(selected: bool, line: &str) -> (marked: String)
    ensures
        marked@ == if selected {
            SELECTED_MARKER@
        } else {
            UNSELECTED_MARKER@
        } + line@,
{
    let mut marked = String::new();
    if selected {
        marked.append(SELECTED_MARKER);
    } else {
        marked.append(UNSELECTED_MARKER);
    }
    marked.append(line);
    marked
}

/// The last line of the screen: the help, and after it the note where there
/// is one to show.
pub fn with_note(help: &str, note: Option<&str>) -> (line: String)
    ensures
        line@ == match note {
            Some(text) => help@ + NOTE_SEPARATOR@ + text@,
            None => help@,
        },
{
    let mut line = String::new();
    line.append(help);
    match note {
        Some(text) => {
            line.append(NOTE_SEPARATOR);
            line.append(text);
        },
        None => {},
    }
    line
}

/// What a field shows: its value, and after it a bar where the field has the
/// cursor.
pub fn field_text(value: &str, active: bool) -> (text: String)
    ensures
        text@ == if active {
            value@.push('|')
        } else {
            value@
        },
{
    let mut text = String::new();
    text.append(value);
    if active {
        text.push('|');
    }
    text
}

/// How many fields fit into `inner`.
pub fn field_capacity(inner: Area) -> (capacity: usize)
    ensures
        capacity == inner.height / FIELD_HEIGHT,
{
    (inner.height / FIELD_HEIGHT) as usize
}

/// Where the field in place `place` of those in sight is drawn inside
/// `inner`: the fields stand below each other, each as wide as `inner`.
pub fn field_area(inner: Area, place: usize) -> (area: Area)
    requires
        place < inner.height / FIELD_HEIGHT,
        inner.y + inner.height <= u16::MAX,
    ensures
        area == (Area {
            x: inner.x,
            y: (inner.y + place * FIELD_HEIGHT) as u16,
            width: inner.width,
            height: FIELD_HEIGHT,
        }),
{
    Area {
        x: inner.x,
        y: inner.y + (place as u16) * FIELD_HEIGHT,
        width: inner.width,
        height: FIELD_HEIGHT,
    }
}

/// The first row in sight once `selected` has been brought into a window of
/// `view_height` rows over `total` rows that started at `current_scroll`.
pub open spec fn scrolled(current_scroll: int, selected: int, total: int, view_height: int) -> int {
    if total <= 0 || view_height <= 0 {
        0
    } else {
        let scroll = if current_scroll < total - 1 {
            current_scroll
        } else {
            total - 1
        };
        if selected < scroll {
            selected
        } else if selected >= scroll + view_height {
            selected + 1 - view_height
        } else {
            scroll
        }
    }
}

/// The first row to show so that row `selected` is in sight, in a window of
/// `view_height` rows over `total` rows whose first row was `current_scroll`.
///
/// The window stays where it is if it can, after being brought back inside
/// the rows; else it moves just far enough. With no rows or no height the
/// answer is 0.
pub fn ensure_visible(
    current_scroll: usize,
    selected: usize,
    total: usize,
    view_height: usize,
) -> (scroll: usize)
    ensures
        scroll == scrolled(
            current_scroll as int,
            selected as int,
            total as int,
            view_height as int,
        ),
        total > 0 && view_height > 0 ==> scroll <= selected < scroll + view_height,
{
    if total == 0 || view_height == 0 {
        return 0;
    }
    let scroll = if current_scroll < total - 1 {
        current_scroll
    } else {
        total - 1
    };
    if selected < scroll {
        selected
    } else if selected - scroll >= view_height {
        selected - view_height + 1
    } else {
        scroll
    }
}

/// Whether none of the rows from `from` on belongs to the folder of row
/// `index` beside it: the first of them that is not deeper than row `index`,
/// if there is one, lies higher up.
pub open spec fn last_from(items: Seq<TreeItemView>, index: int, from: int) -> bool
    decreases items.len() - from,
{
    if from < 0 || from >= items.len() {
        true
    } else if items[from].depth <= items[index].depth {
        items[from].depth < items[index].depth
    } else {
        last_from(items, index, from + 1)
    }
}

/// Whether row `index` is the last of its folder.
pub open spec fn is_last(items: Seq<TreeItemView>, index: int) -> bool {
    last_from(items, index, index + 1)
}

/// Whether the row after row `index` lies below it.
pub open spec fn has_child(items: Seq<TreeItemView>, index: int) -> bool {
    0 <= index && index + 1 < items.len() && items[index + 1].depth > items[index].depth
}

/// Whether row `index` is the last of its folder: no later row has its
/// depth before one that lies higher up.
pub fn is_last_sibling(items: &[TreeItem], index: usize) -> (last: bool)
    requires
        index < items@.len(),
    ensures
        last == is_last(items.deep_view(), index as int),
{
    let depth = items[index].depth;
    let mut i: usize = index + 1;
    while i < items.len()
        invariant
            index < i <= items@.len(),
            depth == items@[index as int].depth,
            is_last(items.deep_view(), index as int) == last_from(
                items.deep_view(),
                index as int,
                i as int,
            ),
        decreases items@.len() - i,
    {
        if items[i].depth <= depth {
            return items[i].depth < depth;
        }
        i += 1;
    }
    true
}

/// Whether the row after row `index` lies below it. A row that does not
/// exist has nothing below it.
pub fn has_children(items: &[TreeItem], index: usize) -> (has: bool)
    ensures
        has == has_child(items.deep_view(), index as int),
{
    if index >= items.len() || index + 1 >= items.len() {
        return false;
    }
    items[index + 1].depth > items[index].depth
}

/// For each folder that encloses row `index`, from the outermost in, whether
/// it goes on below that row. Row by row, the list is cut down to the row's
/// depth, and the row then adds whether its own folder goes on.
pub open spec fn branches_at(items: Seq<TreeItemView>, index: int) -> Seq<bool>
    decreases index,
{
    if index < 0 || index >= items.len() {
        Seq::empty()
    } else {
        let open = if index == 0 {
            Seq::empty()
        } else {
            branches_at(items, index - 1).push(!is_last(items, index - 1))
        };
        if items[index].depth < open.len() {
            open.take(items[index].depth)
        } else {
            open
        }
    }
}

/// Whether row `next` is the next row of the folder of row `index`: it
/// stands as deep, and every row between the two stands deeper.
pub open spec fn is_next_sibling(items: Seq<TreeItemView>, index: int, next: int) -> bool {
    &&& index < next < items.len()
    &&& items[next].depth == items[index].depth
    &&& forall|m: int| index < m < next ==> (#[trigger] items[m]).depth > items[index].depth
}

/// Scanning from `from`, with every row between row `index` and `from`
/// deeper than row `index`: the scan finds no end of the folder exactly
/// when row `index` has a next sibling.
proof fn lemma_last_from(items: Seq<TreeItemView>, index: int, from: int)
    requires
        0 <= index < from <= items.len(),
        forall|m: int| index < m < from ==> (#[trigger] items[m]).depth > items[index].depth,
    ensures
        !last_from(items, index, from) <==> exists|next: int| is_next_sibling(items, index, next),
    decreases items.len() - from,
{
    if from >= items.len() {
        assert forall|next: int| !is_next_sibling(items, index, next) by {
            if index < next < items.len() {
                assert(items[next].depth > items[index].depth);
            }
        }
    } else if items[from].depth <= items[index].depth {
        if items[from].depth == items[index].depth {
            assert(is_next_sibling(items, index, from));
        } else {
            assert forall|next: int| !is_next_sibling(items, index, next) by {
                if index < next < items.len() && items[next].depth == items[index].depth {
                    if next < from {
                        assert(items[next].depth > items[index].depth);
                    } else {
                        assert(items[from].depth < items[index].depth);
                    }
                }
            }
        }
    } else {
        lemma_last_from(items, index, from + 1);
    }
}

/// A row is the last of its folder exactly when it has no next sibling.
pub proof fn last_has_no_next_sibling(items: Seq<TreeItemView>, index: int)
    requires
        0 <= index < items.len(),
    ensures
        is_last(items, index) <==> !exists|next: int| is_next_sibling(items, index, next),
{
    lemma_last_from(items, index, index + 1);
}

/// Whether `items` stand as a walk through a hierarchy leaves them: the
/// first row at the top level, and each row at most one level below the row
/// before it.
pub open spec fn in_walk_order(items: Seq<TreeItemView>) -> bool {
    &&& forall|i: int| 0 <= i < items.len() ==> (#[trigger] items[i]).depth >= 0
    &&& items.len() > 0 ==> items[0].depth == 0
    &&& forall|i: int|
        0 <= i && i + 1 < items.len() ==> (#[trigger] items[i + 1]).depth <= items[i].depth + 1
}

/// The nearest row before row `index` that stands at `depth`, or -1 where
/// there is none. For rows in walk order and a depth above that of row
/// `index`, it is the folder at that depth around the row.
pub open spec fn ancestor(items: Seq<TreeItemView>, index: int, depth: int) -> int
    decreases index,
{
    if index <= 0 {
        -1
    } else if items[index - 1].depth == depth {
        index - 1
    } else {
        ancestor(items, index - 1, depth)
    }
}

/// For rows in walk order, a row has one entry for each level above it, and
/// the entry for a level says whether the folder at that level around the
/// row is followed by another row of its own folder.
pub proof fn branches_tell_of_ancestors(items: Seq<TreeItemView>, index: int)
    requires
        in_walk_order(items),
        0 <= index < items.len(),
    ensures
        branches_at(items, index).len() == items[index].depth,
        forall|k: int|
            0 <= k < items[index].depth ==> {
                let above = #[trigger] ancestor(items, index, k);
                &&& 0 <= above < index
                &&& items[above].depth == k
                &&& forall|j: int| above < j < index ==> (#[trigger] items[j]).depth > k
                &&& branches_at(items, index)[k] == !is_last(items, above)
            },
    decreases index,
{
    if index > 0 {
        let before = index - 1;
        branches_tell_of_ancestors(items, before);
        let open = branches_at(items, before).push(!is_last(items, before));
        assert(items[before + 1].depth <= items[before].depth + 1);
        assert(items[index].depth >= 0);
        assert forall|k: int| 0 <= k < items[index].depth implies {
            let above = #[trigger] ancestor(items, index, k);
            &&& 0 <= above < index
            &&& items[above].depth == k
            &&& forall|j: int| above < j < index ==> (#[trigger] items[j]).depth > k
            &&& branches_at(items, index)[k] == !is_last(items, above)
        } by {
            assert(branches_at(items, index)[k] == open[k]);
            if k < items[before].depth {
                let above = ancestor(items, before, k);
                assert(ancestor(items, index, k) == above);
                assert forall|j: int| above < j < index implies (#[trigger] items[j]).depth > k by {
                    if j == before {
                    }
                }
            }
        }
    } else {
        assert(items[0].depth == 0);
    }
}

/// The guide lines drawn for `branches`: a bar for a folder that goes on,
/// blanks for one that has ended.
pub open spec fn guides(branches: Seq<bool>) -> Seq<char>
    decreases branches.len(),
{
    if branches.len() == 0 {
        Seq::empty()
    } else {
        guides(branches.drop_last()) + if branches.last() {
            TREE_PIPE@
        } else {
            TREE_EMPTY@
        }
    }
}

/// The line that draws row `index`: the guide lines of the folders around
/// it, the connector, the sign, a blank and the label. The sign is that of a
/// folder where the row has rows below it or opens no template.
pub open spec fn line_at(items: Seq<TreeItemView>, index: int) -> Seq<char> {
    guides(branches_at(items, index)) + (if is_last(items, index) {
        TREE_LAST@
    } else {
        TREE_BRANCH@
    }) + (if has_child(items, index) || items[index].template_index is None {
        ICON_FOLDER@
    } else {
        ICON_TEMPLATE@
    }) + seq![' '] + items[index].label
}

/// The lines that draw `items`, one for each row.
pub open spec fn tree_lines(items: Seq<TreeItemView>) -> Seq<Seq<char>> {
    Seq::new(items.len(), |i: int| line_at(items, i))
}

/// The lines that draw `items` as a tree, one for each row: guide lines for
/// the folders around the row, a connector that tells whether the row is the
/// last of its folder, a sign for folder or template, and the label.
pub fn build_tree_lines(items: &[TreeItem]) -> (lines: Vec<String>)
    ensures
        lines.deep_view() == tree_lines(items.deep_view()),
{
    let mut lines: Vec<String> = Vec::new();
    let mut branches: Vec<bool> = Vec::new();
    let mut index: usize = 0;
    while index < items.len()
        invariant
            index <= items@.len(),
            lines@.len() == index,
            forall|i: int| 0 <= i < index ==> (#[trigger] lines@[i])@ == line_at(items.deep_view(), i),
            branches@ == if index == 0 {
                Seq::<bool>::empty()
            } else {
                branches_at(items.deep_view(), index - 1).push(
                    !is_last(items.deep_view(), index - 1),
                )
            },
        decreases items@.len() - index,
    {
        let item = &items[index];
        branches.truncate(item.depth);
        assert(branches@ =~= branches_at(items.deep_view(), index as int));
        let last = is_last_sibling(items, index);
        let folder = has_children(items, index) || item.template_index.is_none();
        let mut line = String::new();
        let mut i: usize = 0;
        assert(branches@.take(0) =~= Seq::<bool>::empty());
        while i < branches.len()
            invariant
                i <= branches@.len(),
                line@ == guides(branches@.take(i as int)),
            decreases branches@.len() - i,
        {
            assert(branches@.take(i + 1).drop_last() =~= branches@.take(i as int));
            if branches[i] {
                line.append(TREE_PIPE);
            } else {
                line.append(TREE_EMPTY);
            }
            i += 1;
        }
        assert(branches@.take(i as int) =~= branches@);
        if last {
            line.append(TREE_LAST);
        } else {
            line.append(TREE_BRANCH);
        }
        if folder {
            line.append(ICON_FOLDER);
        } else {
            line.append(ICON_TEMPLATE);
        }
        line.push(' ');
        line.append(item.label.as_str());
        assert(line@ =~= line_at(items.deep_view(), index as int));
        lines.push(line);
        branches.push(!last);
        index += 1;
    }
    assert(lines.deep_view() =~= tree_lines(items.deep_view()));
    lines
}

} // verus!

//! How a document is laid out.

use vstd::prelude::*;

use crate::yaml::{
    body_lines, comment_of, deeper, document_lines, entries_lines, entry_lines, first_field_lines,
    head_line, item_lines, items_lines, lemma_scalars_first, picked_lines, scalars_first, shallower,
    Entry, NodeView,
};

verus! {

/// The comment behind a line: two spaces, a hash, a space and the description, if there is one and
/// comments are wanted.
pub open spec fn remark(desc: Option<Seq<char>>, comments: bool) -> Seq<char> {
    match desc {
        Some(d) => if comments {
            "  # "@ + d
        } else {
            Seq::empty()
        },
        None => Seq::empty(),
    }
}

/// An entry begins with its key at the indentation and ends its first line with its comment. A
/// scalar and what is empty stand on that line. The entries of an object, the items of a list and
/// the hint for a mapping stand below, one level deeper.
pub proof fn lemma_entry_layout(
    key: Seq<char>,
    value: NodeView,
    desc: Option<Seq<char>>,
    indent: Seq<char>,
    comments: bool,
)
    ensures
        comment_of(desc, comments) == remark(desc, comments),
        ({
            let lines = entry_lines(key, value, desc, indent, comments);
            let below = lines.drop_first();
            &&& lines.len() > 0
            &&& match value {
                NodeView::Scalar(s) => lines[0] == indent + key + ": "@ + s + remark(desc, comments)
                    && below.len() == 0,
                NodeView::Object(entries) => if entries.len() == 0 {
                    lines[0] == indent + key + ": {}"@ + remark(desc, comments) && below.len() == 0
                } else {
                    lines[0] == indent + key + ":"@ + remark(desc, comments) && below
                        == entries_lines(entries, indent + "  "@, comments)
                },
                NodeView::Array(items) => if items.len() == 0 {
                    lines[0] == indent + key + ": []"@ + remark(desc, comments) && below.len() == 0
                } else {
                    lines[0] == indent + key + ":"@ + remark(desc, comments) && below
                        == items_lines(items, indent + "  "@, comments)
                },
                NodeView::Mapping => lines[0] == indent + key + ":"@ + remark(desc, comments)
                    && below == seq![indent + "  "@ + "# key: value"@],
            }
        }),
{
    let lines = entry_lines(key, value, desc, indent, comments);
    let body = body_lines(value, deeper(indent), comments);
    assert(lines[0] == head_line(indent, key, value, comment_of(desc, comments)));
    assert(lines.drop_first() =~= body);
    match value {
        NodeView::Object(entries) => {
            assert(body == entries_lines(entries, indent + "  "@, comments));
        },
        NodeView::Array(items) => {
            assert(body == items_lines(items, indent + "  "@, comments));
        },
        _ => {},
    }
}

/// The lines of entries are those of each entry in turn.
pub proof fn lemma_entries_in_turn(
    one: Seq<Entry>,
    other: Seq<Entry>,
    e: Entry,
    indent: Seq<char>,
    comments: bool,
)
    ensures
        entries_lines(one + other, indent, comments) == entries_lines(one, indent, comments)
            + entries_lines(other, indent, comments),
        entries_lines(seq![e], indent, comments) == entry_lines(e.0, e.1, e.2, indent, comments),
        entries_lines(Seq::empty(), indent, comments).len() == 0,
    decreases other.len(),
{
    assert(seq![e].drop_last() =~= Seq::empty());
    assert(seq![e].last() == e);
    assert(entries_lines(seq![e].drop_last(), indent, comments) =~= Seq::empty());
    assert(entries_lines(seq![e], indent, comments) =~= entry_lines(
        e.0,
        e.1,
        e.2,
        indent,
        comments,
    ));
    if other.len() == 0 {
        assert(one + other =~= one);
        assert(entries_lines(one, indent, comments) + entries_lines(other, indent, comments)
            =~= entries_lines(one, indent, comments));
    } else {
        assert((one + other).drop_last() =~= one + other.drop_last());
        assert((one + other).last() == other.last());
        lemma_entries_in_turn(one, other.drop_last(), e, indent, comments);
        assert(entries_lines(one + other, indent, comments) =~= entries_lines(
            one,
            indent,
            comments,
        ) + entries_lines(other, indent, comments));
    }
}

/// The lines of items are those of each item in turn.
pub proof fn lemma_items_in_turn(
    one: Seq<NodeView>,
    other: Seq<NodeView>,
    item: NodeView,
    indent: Seq<char>,
    comments: bool,
)
    ensures
        items_lines(one + other, indent, comments) == items_lines(one, indent, comments)
            + items_lines(other, indent, comments),
        items_lines(seq![item], indent, comments) == item_lines(item, indent, comments),
        items_lines(Seq::empty(), indent, comments).len() == 0,
    decreases other.len(),
{
    assert(seq![item].drop_last() =~= Seq::empty());
    assert(seq![item].last() == item);
    assert(items_lines(seq![item].drop_last(), indent, comments) =~= Seq::empty());
    assert(items_lines(seq![item], indent, comments) =~= item_lines(item, indent, comments));
    if other.len() == 0 {
        assert(one + other =~= one);
        assert(items_lines(one, indent, comments) + items_lines(other, indent, comments)
            =~= items_lines(one, indent, comments));
    } else {
        assert((one + other).drop_last() =~= one + other.drop_last());
        assert((one + other).last() == other.last());
        lemma_items_in_turn(one, other.drop_last(), item, indent, comments);
        assert(items_lines(one + other, indent, comments) =~= items_lines(one, indent, comments)
            + items_lines(other, indent, comments));
    }
}

/// Whether lines are those of entries at an indentation, but with a dash in place of the indentation
/// of the first of them.
pub open spec fn is_dashed(
    lines: Seq<Seq<char>>,
    plain: Seq<Seq<char>>,
    outer: Seq<char>,
) -> bool {
    &&& lines.len() == plain.len()
    &&& lines.len() > 0
    &&& exists|rest: Seq<char>| #[trigger]
        (outer + "  "@ + rest) == plain[0] && lines[0] == outer + "- "@ + rest
    &&& forall|k: int| 0 < k < lines.len() ==> #[trigger] lines[k] == plain[k]
}

proof fn lemma_shallower(outer: Seq<char>)
    ensures
        shallower(outer + "  "@) == outer,
        deeper(outer) == outer + "  "@,
{
    reveal_strlit("  ");
    assert(shallower(outer + "  "@) =~= outer);
}

proof fn lemma_head_start(
    start: Seq<char>,
    key: Seq<char>,
    value: NodeView,
    cmt: Seq<char>,
)
    ensures
        head_line(start, key, value, cmt) == start + head_line(Seq::empty(), key, value, cmt),
{
    assert(head_line(start, key, value, cmt) =~= start + head_line(
        Seq::empty(),
        key,
        value,
        cmt,
    ));
}

/// The first entry of an object in a list is laid out as any entry, with a dash in place of the last
/// level of its indentation.
pub proof fn lemma_first_entry_dashed(
    key: Seq<char>,
    value: NodeView,
    desc: Option<Seq<char>>,
    outer: Seq<char>,
    comments: bool,
)
    ensures
        is_dashed(
            first_field_lines(key, value, remark(desc, comments), outer + "  "@, comments),
            entry_lines(key, value, desc, outer + "  "@, comments),
            outer,
        ),
{
    let indent = outer + "  "@;
    let cmt = comment_of(desc, comments);
    let rest = head_line(Seq::empty(), key, value, cmt);
    let lines = first_field_lines(key, value, cmt, indent, comments);
    let plain = entry_lines(key, value, desc, indent, comments);
    lemma_shallower(outer);
    lemma_head_start(outer + "- "@, key, value, cmt);
    lemma_head_start(indent, key, value, cmt);
    assert(lines[0] == outer + "- "@ + rest);
    assert((outer + "  "@ + rest) == plain[0]);
    assert(lines.drop_first() =~= plain.drop_first());
    assert forall|k: int| 0 < k < lines.len() implies #[trigger] lines[k] == plain[k] by {
        assert(lines.drop_first()[k - 1] == lines[k]);
        assert(plain.drop_first()[k - 1] == plain[k]);
    }
}

proof fn lemma_picked_dashed(
    entries: Seq<Entry>,
    order: Seq<int>,
    outer: Seq<char>,
    comments: bool,
)
    requires
        order.len() > 0,
        forall|k: int| 0 <= k < order.len() ==> 0 <= #[trigger] order[k] < entries.len(),
    ensures
        is_dashed(
            picked_lines(entries, order, outer + "  "@, comments),
            entries_lines(order.map_values(|i: int| entries[i]), outer + "  "@, comments),
            outer,
        ),
    decreases order.len(),
{
    let indent = outer + "  "@;
    let picked = order.map_values(|i: int| entries[i]);
    let rest = order.drop_last();
    let e = entries[order.last()];
    assert(picked.drop_last() =~= rest.map_values(|i: int| entries[i]));
    assert(picked.last() == e);
    assert(0 <= order[order.len() - 1] < entries.len());
    if order.len() == 1 {
        lemma_first_entry_dashed(e.0, e.1, e.2, outer, comments);
        assert(picked_lines(entries, rest, indent, comments) =~= Seq::empty());
        assert(entries_lines(picked.drop_last(), indent, comments) =~= Seq::empty());
        assert(picked_lines(entries, order, indent, comments) =~= first_field_lines(
            e.0,
            e.1,
            comment_of(e.2, comments),
            indent,
            comments,
        ));
        assert(entries_lines(picked, indent, comments) =~= entry_lines(
            e.0,
            e.1,
            e.2,
            indent,
            comments,
        ));
    } else {
        lemma_picked_dashed(entries, rest, outer, comments);
        let a = picked_lines(entries, rest, indent, comments);
        let b = entries_lines(picked.drop_last(), indent, comments);
        let more = entry_lines(e.0, e.1, e.2, indent, comments);
        assert(picked_lines(entries, order, indent, comments) == a + more);
        assert(entries_lines(picked, indent, comments) == b + more);
        let text = choose|text: Seq<char>| #[trigger]
            (outer + "  "@ + text) == b[0] && a[0] == outer + "- "@ + text;
        assert((outer + "  "@ + text) == (b + more)[0] && (a + more)[0] == outer + "- "@ + text);
        assert forall|k: int| 0 < k < (a + more).len() implies #[trigger] (a + more)[k] == (b
            + more)[k] by {
            if k < a.len() {
                assert((a + more)[k] == a[k] && (b + more)[k] == b[k]);
            }
        }
    }
}

/// An item of a list begins with a dash. A scalar stands behind it, and what holds nothing as an empty
/// object. An object is laid out as its entries, scalars first and else in their order, with the
/// dash in place of the indentation of the first; a list in a list as its items.
pub proof fn lemma_item_layout(item: NodeView, outer: Seq<char>, comments: bool) -> (order: Seq<
    int,
>)
    ensures
        ({
            let lines = item_lines(item, outer + "  "@, comments);
            match item {
                NodeView::Scalar(s) => lines == seq![outer + "- "@ + s],
                NodeView::Mapping => lines == seq![outer + "- {}"@],
                NodeView::Array(items) => lines == items_lines(items, outer + "  "@, comments),
                NodeView::Object(entries) => if entries.len() == 0 {
                    lines == seq![outer + "- {}"@]
                } else {
                    &&& order.len() == entries.len()
                    &&& forall|i: int| 0 <= i < entries.len() ==> #[trigger] order.contains(i)
                    &&& forall|j: int, k: int|
                        0 <= j < k < order.len() ==> {
                            let a = #[trigger] order[j];
                            let b = #[trigger] order[k];
                            &&& 0 <= a < entries.len()
                            &&& 0 <= b < entries.len()
                            &&& (entries[b].1 is Scalar) ==> (entries[a].1 is Scalar)
                            &&& (entries[a].1 is Scalar) == (entries[b].1 is Scalar) ==> a < b
                        }
                    &&& is_dashed(
                        lines,
                        entries_lines(
                            order.map_values(|i: int| entries[i]),
                            outer + "  "@,
                            comments,
                        ),
                        outer,
                    )
                },
            }
        }),
{
    lemma_shallower(outer);
    match item {
        NodeView::Object(entries) => {
            let order = scalars_first(entries);
            lemma_scalars_first(entries);
            if entries.len() > 0 {
                lemma_picked_dashed(entries, order, outer, comments);
            }
            order
        },
        _ => Seq::empty(),
    }
}

/// A document is laid out as its entries, without an indentation; what is no object has no lines.
pub proof fn lemma_document_layout(node: NodeView, comments: bool)
    ensures
        match node {
            NodeView::Object(entries) => document_lines(node, comments) == entries_lines(
                entries,
                Seq::empty(),
                comments,
            ),
            _ => document_lines(node, comments).len() == 0,
        },
{
}

}

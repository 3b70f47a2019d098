//! YAML text from a tree of nodes.

use vstd::prelude::*;
use vstd::string::*;

use crate::text::{join, joined, lemma_texts_push, opt_text, texts};

verus! {

/// A node in the YAML scaffold tree.  Built from the schema, then emitted as
/// YAML text in a second pass.  Separating construction from emission keeps
/// both halves simple and makes indentation/array-item formatting automatic.
#[derive(Debug, PartialEq, Eq)]
pub enum YamlNode {
    /// A scalar value, already formatted for YAML (e.g. `"\"hello\""`, `"0"`).
    Scalar(String),
    /// An ordered mapping: `(key, value, optional_description)`.
    Object(Vec<(String, YamlNode, Option<String>)>),
    /// A sequence with one example item.
    Array(Vec<YamlNode>),
    /// A free-form map — rendered as a `# key: value` placeholder comment.
    Mapping,
}

/// What an entry of a mapping is: its key, its value and its description.
pub type Entry = (Seq<char>, NodeView, Option<Seq<char>>);

/// What a node is.
#[verifier::ext_equal]
pub enum NodeView {
    Scalar(Seq<char>),
    Object(Seq<(Seq<char>, NodeView, Option<Seq<char>>)>),
    Array(Seq<NodeView>),
    Mapping,
}

impl YamlNode {
    pub open spec fn view(&self) -> NodeView
        decreases *self,
    {
        match *self {
            YamlNode::Scalar(s) => NodeView::Scalar(s@),
            YamlNode::Object(entries) => NodeView::Object(
                Seq::new(
                    entries@.len(),
                    |i: int|
                        if 0 <= i < entries@.len() {
                            (entries@[i].0@, entries@[i].1@, opt_text(entries@[i].2))
                        } else {
                            arbitrary()
                        },
                ),
            ),
            YamlNode::Array(items) => NodeView::Array(
                Seq::new(
                    items@.len(),
                    |i: int|
                        if 0 <= i < items@.len() {
                            items@[i]@
                        } else {
                            arbitrary()
                        },
                ),
            ),
            YamlNode::Mapping => NodeView::Mapping,
        }
    }
}

/// What the nodes of a list are.
pub open spec fn node_views(items: Seq<YamlNode>) -> Seq<NodeView> {
    items.map_values(|n: YamlNode| n@)
}

/// What the entries of a mapping are.
pub open spec fn entry_views(entries: Seq<(String, YamlNode, Option<String>)>) -> Seq<Entry> {
    entries.map_values(|e: (String, YamlNode, Option<String>)| (e.0@, e.1@, opt_text(e.2)))
}

/// What a node is, by its variant.
pub broadcast proof fn lemma_node_view(n: YamlNode)
    ensures
        #![trigger n@]
        n@ == (match n {
            YamlNode::Scalar(s) => NodeView::Scalar(s@),
            YamlNode::Object(entries) => NodeView::Object(entry_views(entries@)),
            YamlNode::Array(items) => NodeView::Array(node_views(items@)),
            YamlNode::Mapping => NodeView::Mapping,
        }),
{
    match n {
        YamlNode::Object(entries) => {
            assert(n@->Object_0 =~= entry_views(entries@));
        },
        YamlNode::Array(items) => {
            assert(n@->Array_0 =~= node_views(items@));
        },
        _ => {},
    }
}

/// The comment on a line: the description, if there is one and comments are wanted.
pub open spec fn comment_of(desc: Option<Seq<char>>, comments: bool) -> Seq<char> {
    match desc {
        Some(d) => if comments {
            "  # "@ + d
        } else {
            Seq::empty()
        },
        None => Seq::empty(),
    }
}

/// One level of indentation more.
pub open spec fn deeper(indent: Seq<char>) -> Seq<char> {
    indent + "  "@
}

/// One level of indentation less, where there is one.
pub open spec fn shallower(indent: Seq<char>) -> Seq<char> {
    if indent.len() < 2 {
        Seq::empty()
    } else {
        indent.take(indent.len() - 2)
    }
}

/// The positions of those entries whose values are scalars, or of those whose values are not.
pub open spec fn positions(entries: Seq<Entry>, scalar: bool) -> Seq<int>
    decreases entries.len(),
{
    if entries.len() == 0 {
        Seq::empty()
    } else {
        let before = positions(entries.drop_last(), scalar);
        if (entries.last().1 is Scalar) == scalar {
            before.push(entries.len() - 1)
        } else {
            before
        }
    }
}

/// The order in which the entries of an object in a list are written: scalars first.
pub open spec fn scalars_first(entries: Seq<Entry>) -> Seq<int> {
    positions(entries, true) + positions(entries, false)
}

/// The first line of an entry, `start` being what stands before the key.
pub open spec fn head_line(start: Seq<char>, key: Seq<char>, value: NodeView, cmt: Seq<char>) -> Seq<
    char,
> {
    match value {
        NodeView::Scalar(s) => start + key + ": "@ + s + cmt,
        NodeView::Object(entries) => if entries.len() == 0 {
            start + key + ": {}"@ + cmt
        } else {
            start + key + ":"@ + cmt
        },
        NodeView::Array(items) => if items.len() == 0 {
            start + key + ": []"@ + cmt
        } else {
            start + key + ":"@ + cmt
        },
        NodeView::Mapping => start + key + ":"@ + cmt,
    }
}

/// The lines of an entry after the first, `indent` being the indentation of the values in it.
pub open spec fn body_lines(value: NodeView, indent: Seq<char>, comments: bool) -> Seq<Seq<char>>
    decreases value, 0nat,
{
    match value {
        NodeView::Scalar(_) => Seq::empty(),
        NodeView::Object(entries) => entries_lines(entries, indent, comments),
        NodeView::Array(items) => items_lines(items, indent, comments),
        NodeView::Mapping => seq![indent + "# key: value"@],
    }
}

/// The lines of an entry at an indentation.
pub open spec fn entry_lines(
    key: Seq<char>,
    value: NodeView,
    desc: Option<Seq<char>>,
    indent: Seq<char>,
    comments: bool,
) -> Seq<Seq<char>>
    decreases value, 1nat,
{
    seq![head_line(indent, key, value, comment_of(desc, comments))] + body_lines(
        value,
        deeper(indent),
        comments,
    )
}

/// The lines of entries one after the other.
pub open spec fn entries_lines(entries: Seq<Entry>, indent: Seq<char>, comments: bool) -> Seq<
    Seq<char>,
>
    decreases entries, 0nat,
{
    if entries.len() == 0 {
        Seq::empty()
    } else {
        let last = entries.last();
        entries_lines(entries.drop_last(), indent, comments) + entry_lines(
            last.0,
            last.1,
            last.2,
            indent,
            comments,
        )
    }
}

/// The lines of the first entry of an object in a list: the dash stands on its first line.
pub open spec fn first_field_lines(
    key: Seq<char>,
    value: NodeView,
    cmt: Seq<char>,
    indent: Seq<char>,
    comments: bool,
) -> Seq<Seq<char>>
    decreases value, 1nat,
{
    seq![head_line(shallower(indent) + "- "@, key, value, cmt)] + body_lines(
        value,
        deeper(indent),
        comments,
    )
}

/// The lines of the entries at the given positions, the first of them with a dash.
pub open spec fn picked_lines(
    entries: Seq<Entry>,
    order: Seq<int>,
    indent: Seq<char>,
    comments: bool,
) -> Seq<Seq<char>>
    decreases entries, order.len(),
{
    if order.len() == 0 {
        Seq::empty()
    } else {
        let i = order.last();
        let before = picked_lines(entries, order.drop_last(), indent, comments);
        if 0 <= i < entries.len() {
            if order.len() == 1 {
                before + first_field_lines(
                    entries[i].0,
                    entries[i].1,
                    comment_of(entries[i].2, comments),
                    indent,
                    comments,
                )
            } else {
                before + entry_lines(entries[i].0, entries[i].1, entries[i].2, indent, comments)
            }
        } else {
            before
        }
    }
}

/// The lines of an item of a list whose parts have the given indentation.
pub open spec fn item_lines(item: NodeView, indent: Seq<char>, comments: bool) -> Seq<Seq<char>>
    decreases item, 0nat,
{
    match item {
        NodeView::Scalar(s) => seq![shallower(indent) + "- "@ + s],
        NodeView::Object(entries) => if entries.len() == 0 {
            seq![shallower(indent) + "- {}"@]
        } else {
            picked_lines(entries, scalars_first(entries), indent, comments)
        },
        NodeView::Array(items) => items_lines(items, indent, comments),
        NodeView::Mapping => seq![shallower(indent) + "- {}"@],
    }
}

/// The lines of items one after the other.
pub open spec fn items_lines(items: Seq<NodeView>, indent: Seq<char>, comments: bool) -> Seq<
    Seq<char>,
>
    decreases items, 0nat,
{
    if items.len() == 0 {
        Seq::empty()
    } else {
        items_lines(items.drop_last(), indent, comments) + item_lines(
            items.last(),
            indent,
            comments,
        )
    }
}

/// The lines of a document: those of its entries. Only a mapping has any.
pub open spec fn document_lines(node: NodeView, comments: bool) -> Seq<Seq<char>> {
    match node {
        NodeView::Object(entries) => entries_lines(entries, Seq::empty(), comments),
        _ => Seq::empty(),
    }
}

/// What an optional string slice holds.
pub open spec fn opt_str(s: Option<&str>) -> Option<Seq<char>> {
    match s {
        Some(t) => Some(t@),
        None => None,
    }
}

fn as_opt_str(s: &Option<String>) -> (r: Option<&str>)
    ensures
        opt_str(r) == opt_text(*s),
{
    match s {
        Some(t) => Some(t.as_str()),
        None => None,
    }
}

/// Format an optional description as an inline YAML comment.
pub fn inline_comment(desc: Option<&str>, comments: bool) -> (r: String)
    ensures
        r@ == comment_of(opt_str(desc), comments),
{
    let mut r: String = String::new();
    match desc {
        Some(d) => {
            if comments {
                r.append("  # ");
                r.append(d);
            }
        },
        None => {},
    }
    proof {
        assert(r@ =~= comment_of(opt_str(desc), comments));
    }
    r
}

fn indented(indent: &str) -> (r: String)
    ensures
        r@ == deeper(indent@),
{
    let mut r: String = indent.to_owned();
    r.append("  ");
    r
}

fn outdented(indent: &str) -> (r: String)
    ensures
        r@ == shallower(indent@),
{
    let size: usize = indent.unicode_len();
    if size < 2 {
        String::new()
    } else {
        let r: &str = indent.substring_char(0, size - 2);
        proof {
            assert(r@ =~= indent@.take(size - 2));
        }
        r.to_owned()
    }
}

fn push_line(lines: &mut Vec<String>, line: String)
    ensures
        texts(final(lines)@) == texts(old(lines)@).push(line@),
{
    proof {
        lemma_texts_push(lines@, line);
    }
    lines.push(line);
}

fn head(start: &str, key: &str, value: &YamlNode, cmt: &str) -> (r: String)
    ensures
        r@ == head_line(start@, key@, value@, cmt@),
{
    broadcast use lemma_node_view;

    let mut r: String = start.to_owned();
    r.append(key);
    match value {
        YamlNode::Scalar(s) => {
            r.append(": ");
            r.append(s.as_str());
        },
        YamlNode::Object(entries) => {
            if entries.len() == 0 {
                r.append(": {}");
            } else {
                r.append(":");
            }
        },
        YamlNode::Array(items) => {
            if items.len() == 0 {
                r.append(": []");
            } else {
                r.append(":");
            }
        },
        YamlNode::Mapping => {
            r.append(":");
        },
    }
    r.append(cmt);
    r
}

fn emit_body(lines: &mut Vec<String>, value: &YamlNode, indent: &str, comments: bool)
    ensures
        texts(final(lines)@) == texts(old(lines)@) + body_lines(value@, indent@, comments),
    decreases value@, 0nat,
{
    broadcast use lemma_node_view;

    let ghost before = texts(lines@);
    match value {
        YamlNode::Scalar(_) => {
            proof {
                assert(before =~= before + body_lines(value@, indent@, comments));
            }
        },
        YamlNode::Object(entries) => {
            let ghost all = entry_views(entries@);
            let mut i: usize = 0;
            proof {
                assert(before =~= before + entries_lines(all.take(0), indent@, comments));
            }
            while i < entries.len()
                invariant
                    i <= entries@.len(),
                    all == entry_views(entries@),
                    value@ == NodeView::Object(all),
                    texts(lines@) == before + entries_lines(
                        all.take(i as int),
                        indent@,
                        comments,
                    ),
                decreases entries@.len() - i,
            {
                proof {
                    assert(decreases_to!(value@ => value@->Object_0));
                    assert(decreases_to!(all => all[i as int]));
                    assert(decreases_to!(all[i as int] => all[i as int].1));
                    assert(all.take(i + 1).drop_last() =~= all.take(i as int));
                    assert(all.take(i + 1).last() == all[i as int]);
                }
                emit_entry(
                    lines,
                    entries[i].0.as_str(),
                    &entries[i].1,
                    as_opt_str(&entries[i].2),
                    indent,
                    comments,
                );
                proof {
                    assert(texts(lines@) =~= before + entries_lines(
                        all.take(i + 1),
                        indent@,
                        comments,
                    ));
                }
                i = i + 1;
            }
            proof {
                assert(all.take(i as int) =~= all);
            }
        },
        YamlNode::Array(items) => {
            proof {
                assert(decreases_to!(value@ => value@->Array_0));
            }
            emit_items(lines, items, indent, comments);
        },
        YamlNode::Mapping => {
            let mut line: String = indent.to_owned();
            line.append("# key: value");
            push_line(lines, line);
            proof {
                assert(texts(lines@) =~= before + body_lines(value@, indent@, comments));
            }
        },
    }
}

fn emit_items(lines: &mut Vec<String>, items: &Vec<YamlNode>, indent: &str, comments: bool)
    ensures
        texts(final(lines)@) == texts(old(lines)@) + items_lines(
            node_views(items@),
            indent@,
            comments,
        ),
    decreases node_views(items@), 0nat,
{
    let ghost before = texts(lines@);
    let ghost all = node_views(items@);
    let mut i: usize = 0;
    proof {
        assert(before =~= before + items_lines(all.take(0), indent@, comments));
    }
    while i < items.len()
        invariant
            i <= items@.len(),
            all == node_views(items@),
            texts(lines@) == before + items_lines(all.take(i as int), indent@, comments),
        decreases items@.len() - i,
    {
        proof {
            assert(decreases_to!(all => all[i as int]));
            assert(all.take(i + 1).drop_last() =~= all.take(i as int));
            assert(all.take(i + 1).last() == all[i as int]);
        }
        emit_array_item(lines, &items[i], indent, comments);
        proof {
            assert(texts(lines@) =~= before + items_lines(all.take(i + 1), indent@, comments));
        }
        i = i + 1;
    }
    proof {
        assert(all.take(i as int) =~= all);
    }
}

/// Emit a single key-value entry at the given indentation, which is the text that its line starts
/// with.
pub fn emit_entry(
    lines: &mut Vec<String>,
    key: &str,
    value: &YamlNode,
    desc: Option<&str>,
    indent: &str,
    comments: bool,
)
    ensures
        texts(final(lines)@) == texts(old(lines)@) + entry_lines(
            key@,
            value@,
            opt_str(desc),
            indent@,
            comments,
        ),
    decreases value@, 1nat,
{
    let ghost before = texts(lines@);
    let cmt: String = inline_comment(desc, comments);
    push_line(lines, head(indent, key, value, cmt.as_str()));
    emit_body(lines, value, indented(indent).as_str(), comments);
    proof {
        assert(texts(lines@) =~= before + entry_lines(
            key@,
            value@,
            opt_str(desc),
            indent@,
            comments,
        ));
    }
}

fn scalars_first_order(entries: &Vec<(String, YamlNode, Option<String>)>) -> (r: Vec<usize>)
    ensures
        r@.map_values(|i: usize| i as int) == scalars_first(entry_views(entries@)),
        forall|k: int| 0 <= k < r@.len() ==> (#[trigger] r@[k]) < entries@.len(),
{
    let mut r: Vec<usize> = Vec::new();
    proof {
        assert(r@.map_values(|i: usize| i as int) =~= Seq::<int>::empty());
    }
    add_positions(entries, true, &mut r);
    add_positions(entries, false, &mut r);
    proof {
        assert(Seq::<int>::empty() + positions(entry_views(entries@), true) =~= positions(
            entry_views(entries@),
            true,
        ));
    }
    r
}

fn add_positions(
    entries: &Vec<(String, YamlNode, Option<String>)>,
    scalar: bool,
    order: &mut Vec<usize>,
)
    requires
        forall|k: int|
            0 <= k < old(order)@.len() ==> (#[trigger] old(order)@[k]) < entries@.len(),
    ensures
        final(order)@.map_values(|i: usize| i as int) == old(order)@.map_values(
            |i: usize| i as int,
        ) + positions(entry_views(entries@), scalar),
        forall|k: int|
            0 <= k < final(order)@.len() ==> (#[trigger] final(order)@[k]) < entries@.len(),
{
    broadcast use lemma_node_view;

    let ghost before = order@.map_values(|i: usize| i as int);
    let ghost all = entry_views(entries@);
    let mut i: usize = 0;
    proof {
        assert(before =~= before + positions(all.take(0), scalar));
    }
    while i < entries.len()
        invariant
            i <= entries@.len(),
            all == entry_views(entries@),
            order@.map_values(|i: usize| i as int) == before + positions(
                all.take(i as int),
                scalar,
            ),
            forall|k: int| 0 <= k < order@.len() ==> (#[trigger] order@[k]) < entries@.len(),
        decreases entries@.len() - i,
    {
        proof {
            assert(all.take(i + 1).drop_last() =~= all.take(i as int));
            assert(all.take(i + 1).last() == all[i as int]);
            assert(all[i as int].1 == entries@[i as int].1@);
            assert(order@.push(i).map_values(|i: usize| i as int) =~= order@.map_values(
                |i: usize| i as int,
            ).push(i as int));
        }
        if matches!(entries[i].1, YamlNode::Scalar(_)) == scalar {
            order.push(i);
        }
        i = i + 1;
    }
    proof {
        assert(all.take(i as int) =~= all);
    }
}

/// Emit an array item (the `- …` line(s)). The indentation is that of the parts of the item; the
/// dash stands one level before it.
pub fn emit_array_item(lines: &mut Vec<String>, item: &YamlNode, indent: &str, comments: bool)
    ensures
        texts(final(lines)@) == texts(old(lines)@) + item_lines(item@, indent@, comments),
    decreases item@, 0nat,
{
    broadcast use lemma_node_view;

    let ghost before = texts(lines@);
    let mut line: String = outdented(indent);
    match item {
        YamlNode::Scalar(s) => {
            line.append("- ");
            line.append(s.as_str());
            push_line(lines, line);
            proof {
                assert(texts(lines@) =~= before + item_lines(item@, indent@, comments));
            }
        },
        YamlNode::Object(entries) => {
            if entries.len() == 0 {
                line.append("- {}");
                push_line(lines, line);
                proof {
                    assert(texts(lines@) =~= before + item_lines(item@, indent@, comments));
                }
            } else {
                // Scalar fields first for clean `- key: value` syntax, then complex fields
                // (objects, arrays, maps) below.
                let order: Vec<usize> = scalars_first_order(entries);
                let ghost all = entry_views(entries@);
                let ghost steps = scalars_first(all);
                let mut k: usize = 0;
                proof {
                    assert(before =~= before + picked_lines(
                        all,
                        steps.take(0),
                        indent@,
                        comments,
                    ));
                }
                while k < order.len()
                    invariant
                        k <= order@.len(),
                        all == entry_views(entries@),
                        item@ == NodeView::Object(all),
                        steps == order@.map_values(|i: usize| i as int),
                        forall|k: int|
                            0 <= k < order@.len() ==> (#[trigger] order@[k]) < entries@.len(),
                        texts(lines@) == before + picked_lines(
                            all,
                            steps.take(k as int),
                            indent@,
                            comments,
                        ),
                    decreases order@.len() - k,
                {
                    let i: usize = order[k];
                    proof {
                        assert(decreases_to!(item@ => item@->Object_0));
                        assert(decreases_to!(all => all[i as int]));
                        assert(decreases_to!(all[i as int] => all[i as int].1));
                        assert(steps.take(k + 1).drop_last() =~= steps.take(k as int));
                        assert(steps.take(k + 1).last() == i as int);
                    }
                    let desc: Option<&str> = as_opt_str(&entries[i].2);
                    if k == 0 {
                        let cmt: String = inline_comment(desc, comments);
                        emit_first_array_field(
                            lines,
                            entries[i].0.as_str(),
                            &entries[i].1,
                            cmt.as_str(),
                            indent,
                            comments,
                        );
                    } else {
                        emit_entry(
                            lines,
                            entries[i].0.as_str(),
                            &entries[i].1,
                            desc,
                            indent,
                            comments,
                        );
                    }
                    proof {
                        assert(texts(lines@) =~= before + picked_lines(
                            all,
                            steps.take(k + 1),
                            indent@,
                            comments,
                        ));
                    }
                    k = k + 1;
                }
                proof {
                    assert(steps.take(k as int) =~= steps);
                }
            }
        },
        YamlNode::Array(items) => {
            // Array of arrays — unusual but handle it
            proof {
                assert(decreases_to!(item@ => item@->Array_0));
            }
            emit_items(lines, items, indent, comments);
        },
        YamlNode::Mapping => {
            line.append("- {}");
            push_line(lines, line);
            proof {
                assert(texts(lines@) =~= before + item_lines(item@, indent@, comments));
            }
        },
    }
}

/// Emit the first field of an object that lives inside an array.
/// Scalar fields get the compact `- key: value` form.
/// Complex fields get `- key:` and their parts below.
pub fn emit_first_array_field(
    lines: &mut Vec<String>,
    key: &str,
    value: &YamlNode,
    cmt: &str,
    indent: &str,
    comments: bool,
)
    ensures
        texts(final(lines)@) == texts(old(lines)@) + first_field_lines(
            key@,
            value@,
            cmt@,
            indent@,
            comments,
        ),
    decreases value@, 1nat,
{
    let ghost before = texts(lines@);
    let mut start: String = outdented(indent);
    start.append("- ");
    push_line(lines, head(start.as_str(), key, value, cmt));
    emit_body(lines, value, indented(indent).as_str(), comments);
    proof {
        assert(texts(lines@) =~= before + first_field_lines(
            key@,
            value@,
            cmt@,
            indent@,
            comments,
        ));
    }
}

/// The document as text.
pub fn emit_yaml(node: &YamlNode, comments: bool) -> (r: String)
    ensures
        r@ == joined(document_lines(node@, comments), "\n"@),
{
    broadcast use lemma_node_view;

    let mut lines: Vec<String> = Vec::new();
    proof {
        assert(texts(lines@) =~= Seq::empty());
        reveal_strlit("");
        assert(""@ =~= Seq::<char>::empty());
    }
    match node {
        YamlNode::Object(_) => {
            emit_body(&mut lines, node, "", comments);
        },
        _ => {},
    }
    proof {
        assert(texts(lines@) =~= document_lines(node@, comments));
    }
    join(&lines, "\n")
}

/// Whether `full` is `bare` with or without a comment behind it.
pub open spec fn is_commented(bare: Seq<char>, full: Seq<char>) -> bool {
    full == bare || exists|d: Seq<char>| full == #[trigger] (bare + ("  # "@ + d))
}

/// Whether some lines are others with or without comments behind them.
pub open spec fn are_commented(bare: Seq<Seq<char>>, full: Seq<Seq<char>>) -> bool {
    &&& bare.len() == full.len()
    &&& forall|i: int| 0 <= i < bare.len() ==> is_commented(#[trigger] bare[i], full[i])
}

proof fn lemma_are_commented_add(
    b0: Seq<Seq<char>>,
    f0: Seq<Seq<char>>,
    b1: Seq<Seq<char>>,
    f1: Seq<Seq<char>>,
)
    requires
        are_commented(b0, f0),
        are_commented(b1, f1),
    ensures
        are_commented(b0 + b1, f0 + f1),
{
    assert forall|i: int| 0 <= i < (b0 + b1).len() implies is_commented(
        #[trigger] (b0 + b1)[i],
        (f0 + f1)[i],
    ) by {
        if i < b0.len() {
            assert(is_commented(b0[i], f0[i]));
        } else {
            assert(is_commented(b1[i - b0.len()], f1[i - b0.len()]));
        }
    }
}

proof fn lemma_head_commented(
    start: Seq<char>,
    key: Seq<char>,
    value: NodeView,
    desc: Option<Seq<char>>,
)
    ensures
        are_commented(
            seq![head_line(start, key, value, comment_of(desc, false))],
            seq![head_line(start, key, value, comment_of(desc, true))],
        ),
{
    let bare = head_line(start, key, value, comment_of(desc, false));
    let full = head_line(start, key, value, comment_of(desc, true));
    match desc {
        Some(d) => {
            assert(full =~= bare + ("  # "@ + d));
        },
        None => {},
    }
}

proof fn lemma_body_commented(value: NodeView, indent: Seq<char>)
    ensures
        are_commented(body_lines(value, indent, false), body_lines(value, indent, true)),
    decreases value, 0nat,
{
    match value {
        NodeView::Object(entries) => {
            lemma_entries_commented(entries, indent);
        },
        NodeView::Array(items) => {
            lemma_items_commented(items, indent);
        },
        _ => {},
    }
}

proof fn lemma_entries_commented(entries: Seq<Entry>, indent: Seq<char>)
    ensures
        are_commented(
            entries_lines(entries, indent, false),
            entries_lines(entries, indent, true),
        ),
    decreases entries, 0nat,
{
    if entries.len() > 0 {
        let last = entries.last();
        lemma_entries_commented(entries.drop_last(), indent);
        lemma_entry_commented(last.0, last.1, last.2, indent);
        lemma_are_commented_add(
            entries_lines(entries.drop_last(), indent, false),
            entries_lines(entries.drop_last(), indent, true),
            entry_lines(last.0, last.1, last.2, indent, false),
            entry_lines(last.0, last.1, last.2, indent, true),
        );
    }
}

proof fn lemma_entry_commented(
    key: Seq<char>,
    value: NodeView,
    desc: Option<Seq<char>>,
    indent: Seq<char>,
)
    ensures
        are_commented(
            entry_lines(key, value, desc, indent, false),
            entry_lines(key, value, desc, indent, true),
        ),
        are_commented(
            first_field_lines(key, value, comment_of(desc, false), indent, false),
            first_field_lines(key, value, comment_of(desc, true), indent, true),
        ),
    decreases value, 1nat,
{
    let dash = shallower(indent) + "- "@;
    let inner = deeper(indent);
    lemma_body_commented(value, inner);
    lemma_head_commented(indent, key, value, desc);
    lemma_head_commented(dash, key, value, desc);
    lemma_are_commented_add(
        seq![head_line(indent, key, value, comment_of(desc, false))],
        seq![head_line(indent, key, value, comment_of(desc, true))],
        body_lines(value, inner, false),
        body_lines(value, inner, true),
    );
    lemma_are_commented_add(
        seq![head_line(dash, key, value, comment_of(desc, false))],
        seq![head_line(dash, key, value, comment_of(desc, true))],
        body_lines(value, inner, false),
        body_lines(value, inner, true),
    );
}

proof fn lemma_picked_commented(entries: Seq<Entry>, order: Seq<int>, indent: Seq<char>)
    ensures
        are_commented(
            picked_lines(entries, order, indent, false),
            picked_lines(entries, order, indent, true),
        ),
    decreases entries, order.len(),
{
    if order.len() > 0 {
        let i = order.last();
        let rest = order.drop_last();
        lemma_picked_commented(entries, rest, indent);
        if 0 <= i < entries.len() {
            let e = entries[i];
            lemma_entry_commented(e.0, e.1, e.2, indent);
            if order.len() == 1 {
                lemma_are_commented_add(
                    picked_lines(entries, rest, indent, false),
                    picked_lines(entries, rest, indent, true),
                    first_field_lines(e.0, e.1, comment_of(e.2, false), indent, false),
                    first_field_lines(e.0, e.1, comment_of(e.2, true), indent, true),
                );
            } else {
                lemma_are_commented_add(
                    picked_lines(entries, rest, indent, false),
                    picked_lines(entries, rest, indent, true),
                    entry_lines(e.0, e.1, e.2, indent, false),
                    entry_lines(e.0, e.1, e.2, indent, true),
                );
            }
        }
    }
}

proof fn lemma_items_commented(items: Seq<NodeView>, indent: Seq<char>)
    ensures
        are_commented(items_lines(items, indent, false), items_lines(items, indent, true)),
    decreases items, 0nat,
{
    if items.len() > 0 {
        let rest = items.drop_last();
        lemma_items_commented(rest, indent);
        match items.last() {
            NodeView::Object(entries) => {
                lemma_picked_commented(entries, scalars_first(entries), indent);
            },
            NodeView::Array(inner) => {
                lemma_items_commented(inner, indent);
            },
            _ => {},
        }
        lemma_are_commented_add(
            items_lines(rest, indent, false),
            items_lines(rest, indent, true),
            item_lines(items.last(), indent, false),
            item_lines(items.last(), indent, true),
        );
    }
}

/// Comments are only ever added behind lines: with comments, each line of the document is what it
/// is without them, with or without a comment after it.
pub proof fn lemma_comments_only_append(node: NodeView)
    ensures
        are_commented(document_lines(node, false), document_lines(node, true)),
{
    match node {
        NodeView::Object(entries) => {
            lemma_entries_commented(entries, Seq::empty());
        },
        _ => {},
    }
}

/// A node without descriptions.
pub open spec fn undescribed(node: NodeView) -> NodeView
    decreases node,
{
    match node {
        NodeView::Object(entries) => NodeView::Object(
            Seq::new(
                entries.len(),
                |i: int|
                    if 0 <= i < entries.len() {
                        (entries[i].0, undescribed(entries[i].1), None)
                    } else {
                        arbitrary()
                    },
            ),
        ),
        NodeView::Array(items) => NodeView::Array(
            Seq::new(
                items.len(),
                |i: int|
                    if 0 <= i < items.len() {
                        undescribed(items[i])
                    } else {
                        arbitrary()
                    },
            ),
        ),
        _ => node,
    }
}

/// Entries without descriptions.
pub open spec fn entries_undescribed(entries: Seq<Entry>) -> Seq<Entry> {
    entries.map_values(|e: Entry| (e.0, undescribed(e.1), None))
}

/// Items without descriptions.
pub open spec fn items_undescribed(items: Seq<NodeView>) -> Seq<NodeView> {
    items.map_values(|n: NodeView| undescribed(n))
}

/// A node without descriptions, by its variant.
pub proof fn lemma_undescribed(node: NodeView)
    ensures
        node matches NodeView::Object(entries) ==> undescribed(node) == NodeView::Object(
            entries_undescribed(entries),
        ),
        node matches NodeView::Array(items) ==> undescribed(node) == NodeView::Array(
            items_undescribed(items),
        ),
        (undescribed(node) is Scalar) == (node is Scalar),
{
    match node {
        NodeView::Object(entries) => {
            assert(undescribed(node)->Object_0 =~= entries_undescribed(entries));
        },
        NodeView::Array(items) => {
            assert(undescribed(node)->Array_0 =~= items_undescribed(items));
        },
        _ => {},
    }
}

proof fn lemma_positions_undescribed(entries: Seq<Entry>, scalar: bool)
    ensures
        positions(entries_undescribed(entries), scalar) == positions(entries, scalar),
    decreases entries.len(),
{
    if entries.len() > 0 {
        lemma_positions_undescribed(entries.drop_last(), scalar);
        lemma_undescribed(entries.last().1);
        assert(entries_undescribed(entries).drop_last() =~= entries_undescribed(
            entries.drop_last(),
        ));
    }
}

proof fn lemma_body_undescribed(value: NodeView, indent: Seq<char>)
    ensures
        body_lines(undescribed(value), indent, true) == body_lines(value, indent, false),
    decreases value, 0nat,
{
    lemma_undescribed(value);
    match value {
        NodeView::Object(entries) => {
            lemma_entries_undescribed(entries, indent);
        },
        NodeView::Array(items) => {
            lemma_items_undescribed(items, indent);
        },
        _ => {},
    }
}

proof fn lemma_entry_undescribed(
    key: Seq<char>,
    value: NodeView,
    desc: Option<Seq<char>>,
    indent: Seq<char>,
)
    ensures
        entry_lines(key, undescribed(value), None, indent, true) == entry_lines(
            key,
            value,
            desc,
            indent,
            false,
        ),
        first_field_lines(
            key,
            undescribed(value),
            comment_of(None, true),
            indent,
            true,
        ) == first_field_lines(key, value, comment_of(desc, false), indent, false),
    decreases value, 1nat,
{
    lemma_undescribed(value);
    lemma_body_undescribed(value, deeper(indent));
}

proof fn lemma_entries_undescribed(entries: Seq<Entry>, indent: Seq<char>)
    ensures
        entries_lines(entries_undescribed(entries), indent, true) == entries_lines(
            entries,
            indent,
            false,
        ),
    decreases entries, 0nat,
{
    if entries.len() > 0 {
        let last = entries.last();
        assert(entries_undescribed(entries).drop_last() =~= entries_undescribed(
            entries.drop_last(),
        ));
        lemma_entries_undescribed(entries.drop_last(), indent);
        lemma_entry_undescribed(last.0, last.1, last.2, indent);
    }
}

proof fn lemma_picked_undescribed(entries: Seq<Entry>, order: Seq<int>, indent: Seq<char>)
    ensures
        picked_lines(entries_undescribed(entries), order, indent, true) == picked_lines(
            entries,
            order,
            indent,
            false,
        ),
    decreases entries, order.len(),
{
    if order.len() > 0 {
        let i = order.last();
        lemma_picked_undescribed(entries, order.drop_last(), indent);
        if 0 <= i < entries.len() {
            lemma_entry_undescribed(entries[i].0, entries[i].1, entries[i].2, indent);
        }
    }
}

proof fn lemma_items_undescribed(items: Seq<NodeView>, indent: Seq<char>)
    ensures
        items_lines(items_undescribed(items), indent, true) == items_lines(items, indent, false),
    decreases items, 0nat,
{
    if items.len() > 0 {
        let rest = items.drop_last();
        let last = items.last();
        assert(items_undescribed(items).drop_last() =~= items_undescribed(rest));
        assert(items_undescribed(items).last() == undescribed(last));
        lemma_items_undescribed(rest, indent);
        lemma_undescribed(last);
        match last {
            NodeView::Object(entries) => {
                lemma_positions_undescribed(entries, true);
                lemma_positions_undescribed(entries, false);
                lemma_picked_undescribed(entries, scalars_first(entries), indent);
            },
            NodeView::Array(inner) => {
                lemma_items_undescribed(inner, indent);
            },
            _ => {},
        }
        assert(item_lines(undescribed(last), indent, true) == item_lines(last, indent, false));
    }
}

/// Without comments the descriptions do not matter: the document is that of the same tree without
/// any.
pub proof fn lemma_descriptions_suppressed(node: NodeView)
    ensures
        document_lines(node, false) == document_lines(undescribed(node), true),
{
    lemma_undescribed(node);
    match node {
        NodeView::Object(entries) => {
            lemma_entries_undescribed(entries, Seq::empty());
        },
        _ => {},
    }
}

/// Whether each line starts with `indent`.
pub open spec fn all_start(lines: Seq<Seq<char>>, indent: Seq<char>) -> bool {
    forall|i: int| 0 <= i < lines.len() ==> indent.is_prefix_of(#[trigger] lines[i])
}

proof fn lemma_all_start_add(a: Seq<Seq<char>>, b: Seq<Seq<char>>, indent: Seq<char>)
    requires
        all_start(a, indent),
        all_start(b, indent),
    ensures
        all_start(a + b, indent),
{
    assert forall|i: int| 0 <= i < (a + b).len() implies indent.is_prefix_of(
        #[trigger] (a + b)[i],
    ) by {
        if i < a.len() {
            assert((a + b)[i] == a[i]);
        } else {
            assert((a + b)[i] == b[i - a.len()]);
        }
    }
}

proof fn lemma_starts_with(indent: Seq<char>, rest: Seq<char>)
    ensures
        indent.is_prefix_of(indent + rest),
{
    assert(indent =~= (indent + rest).take(indent.len() as int));
}

proof fn lemma_head_starts(
    indent: Seq<char>,
    start: Seq<char>,
    key: Seq<char>,
    value: NodeView,
    cmt: Seq<char>,
)
    requires
        indent.is_prefix_of(start),
    ensures
        all_start(seq![head_line(start, key, value, cmt)], indent),
{
    let line = head_line(start, key, value, cmt);
    assert(line.take(start.len() as int) =~= start);
    assert(indent =~= line.take(indent.len() as int)) by {
        assert(start.take(indent.len() as int) =~= line.take(indent.len() as int));
    }
}

proof fn lemma_levels(indent: Seq<char>)
    ensures
        shallower(deeper(indent)) == indent,
        indent.is_prefix_of(deeper(indent)),
        shallower(indent).is_prefix_of(indent),
{
    reveal_strlit("  ");
    assert(shallower(deeper(indent)) =~= indent);
    assert(indent =~= deeper(indent).take(indent.len() as int));
    assert(shallower(indent) =~= indent.take(shallower(indent).len() as int));
}

proof fn lemma_all_start_weaken(lines: Seq<Seq<char>>, indent: Seq<char>, less: Seq<char>)
    requires
        all_start(lines, indent),
        less.is_prefix_of(indent),
    ensures
        all_start(lines, less),
{
    assert forall|i: int| 0 <= i < lines.len() implies less.is_prefix_of(#[trigger] lines[i]) by {
        assert(indent.is_prefix_of(lines[i]));
        assert(less =~= lines[i].take(less.len() as int)) by {
            assert(indent.take(less.len() as int) =~= lines[i].take(less.len() as int));
        }
    }
}

proof fn lemma_body_indented(value: NodeView, indent: Seq<char>, comments: bool)
    ensures
        all_start(body_lines(value, indent, comments), shallower(indent)),
    decreases value, 0nat,
{
    lemma_levels(indent);
    match value {
        NodeView::Object(entries) => {
            lemma_entries_indented(entries, indent, comments);
            lemma_all_start_weaken(
                entries_lines(entries, indent, comments),
                indent,
                shallower(indent),
            );
        },
        NodeView::Array(items) => {
            lemma_items_indented(items, indent, comments);
        },
        NodeView::Mapping => {
            lemma_starts_with(indent, "# key: value"@);
            lemma_all_start_weaken(seq![indent + "# key: value"@], indent, shallower(indent));
        },
        NodeView::Scalar(_) => {},
    }
}

/// Each line of an entry starts with the indentation of the entry.
pub proof fn lemma_entry_indented(
    key: Seq<char>,
    value: NodeView,
    desc: Option<Seq<char>>,
    indent: Seq<char>,
    comments: bool,
)
    ensures
        all_start(entry_lines(key, value, desc, indent, comments), indent),
    decreases value, 1nat,
{
    lemma_levels(indent);
    lemma_starts_with(indent, Seq::empty());
    assert(indent + Seq::<char>::empty() =~= indent);
    lemma_head_starts(indent, indent, key, value, comment_of(desc, comments));
    lemma_body_indented(value, deeper(indent), comments);
    lemma_all_start_add(
        seq![head_line(indent, key, value, comment_of(desc, comments))],
        body_lines(value, deeper(indent), comments),
        indent,
    );
}

proof fn lemma_first_field_indented(
    key: Seq<char>,
    value: NodeView,
    cmt: Seq<char>,
    indent: Seq<char>,
    comments: bool,
)
    ensures
        all_start(
            first_field_lines(key, value, cmt, indent, comments),
            shallower(indent),
        ),
    decreases value, 1nat,
{
    let dash = shallower(indent) + "- "@;
    lemma_levels(indent);
    lemma_starts_with(shallower(indent), "- "@);
    lemma_head_starts(shallower(indent), dash, key, value, cmt);
    lemma_body_indented(value, deeper(indent), comments);
    lemma_all_start_weaken(
        body_lines(value, deeper(indent), comments),
        indent,
        shallower(indent),
    );
    lemma_all_start_add(
        seq![head_line(dash, key, value, cmt)],
        body_lines(value, deeper(indent), comments),
        shallower(indent),
    );
}

proof fn lemma_entries_indented(entries: Seq<Entry>, indent: Seq<char>, comments: bool)
    ensures
        all_start(entries_lines(entries, indent, comments), indent),
    decreases entries, 0nat,
{
    if entries.len() > 0 {
        let last = entries.last();
        lemma_entries_indented(entries.drop_last(), indent, comments);
        lemma_entry_indented(last.0, last.1, last.2, indent, comments);
        lemma_all_start_add(
            entries_lines(entries.drop_last(), indent, comments),
            entry_lines(last.0, last.1, last.2, indent, comments),
            indent,
        );
    }
}

proof fn lemma_picked_indented(
    entries: Seq<Entry>,
    order: Seq<int>,
    indent: Seq<char>,
    comments: bool,
)
    ensures
        all_start(picked_lines(entries, order, indent, comments), shallower(indent)),
    decreases entries, order.len(),
{
    if order.len() > 0 {
        let i = order.last();
        let rest = order.drop_last();
        lemma_picked_indented(entries, rest, indent, comments);
        if 0 <= i < entries.len() {
            let e = entries[i];
            lemma_levels(indent);
            lemma_first_field_indented(
                e.0,
                e.1,
                comment_of(e.2, comments),
                indent,
                comments,
            );
            lemma_entry_indented(e.0, e.1, e.2, indent, comments);
            lemma_all_start_weaken(
                entry_lines(e.0, e.1, e.2, indent, comments),
                indent,
                shallower(indent),
            );
            lemma_all_start_add(
                picked_lines(entries, rest, indent, comments),
                first_field_lines(e.0, e.1, comment_of(e.2, comments), indent, comments),
                shallower(indent),
            );
            lemma_all_start_add(
                picked_lines(entries, rest, indent, comments),
                entry_lines(e.0, e.1, e.2, indent, comments),
                shallower(indent),
            );
        }
    }
}

proof fn lemma_items_indented(items: Seq<NodeView>, indent: Seq<char>, comments: bool)
    ensures
        all_start(items_lines(items, indent, comments), shallower(indent)),
    decreases items, 0nat,
{
    if items.len() > 0 {
        let rest = items.drop_last();
        let last = items.last();
        lemma_items_indented(rest, indent, comments);
        match last {
            NodeView::Scalar(s) => {
                lemma_starts_with(shallower(indent), "- "@ + s);
                assert(shallower(indent) + "- "@ + s =~= shallower(indent) + ("- "@ + s));
            },
            NodeView::Object(entries) => {
                if entries.len() > 0 {
                    lemma_picked_indented(entries, scalars_first(entries), indent, comments);
                } else {
                    lemma_starts_with(shallower(indent), "- {}"@);
                }
            },
            NodeView::Array(inner) => {
                lemma_items_indented(inner, indent, comments);
            },
            NodeView::Mapping => {
                lemma_starts_with(shallower(indent), "- {}"@);
            },
        }
        lemma_all_start_add(
            items_lines(rest, indent, comments),
            item_lines(last, indent, comments),
            shallower(indent),
        );
    }
}

proof fn lemma_positions(entries: Seq<Entry>, scalar: bool)
    ensures
        positions(entries, true).len() + positions(entries, false).len() == entries.len(),
        forall|k: int|
            0 <= k < positions(entries, scalar).len() ==> {
                let i = #[trigger] positions(entries, scalar)[k];
                0 <= i < entries.len() && (entries[i].1 is Scalar) == scalar
            },
        forall|j: int, k: int|
            0 <= j < k < positions(entries, scalar).len() ==> #[trigger] positions(
                entries,
                scalar,
            )[j] < #[trigger] positions(entries, scalar)[k],
        forall|i: int|
            0 <= i < entries.len() && ((#[trigger] entries[i]).1 is Scalar) == scalar
                ==> positions(entries, scalar).contains(i),
    decreases entries.len(),
{
    if entries.len() > 0 {
        let rest = entries.drop_last();
        let before = positions(rest, scalar);
        let now = positions(entries, scalar);
        lemma_positions(rest, scalar);
        assert forall|k: int| 0 <= k < now.len() implies {
            let i = #[trigger] now[k];
            0 <= i < entries.len() && (entries[i].1 is Scalar) == scalar
        } by {
            if k < before.len() {
                assert(now[k] == before[k]);
                assert(rest[before[k]] == entries[before[k]]);
            }
        }
        assert forall|j: int, k: int| 0 <= j < k < now.len() implies #[trigger] now[j]
            < #[trigger] now[k] by {
            assert(now[j] == before[j]);
            if k < before.len() {
                assert(now[k] == before[k]);
            }
        }
        assert forall|i: int|
            0 <= i < entries.len() && ((#[trigger] entries[i]).1 is Scalar)
                == scalar implies now.contains(i) by {
            if i < rest.len() {
                assert(rest[i] == entries[i]);
                assert(before.contains(i));
                let k = choose|k: int| 0 <= k < before.len() && before[k] == i;
                assert(now[k] == i);
            } else {
                assert(now[now.len() - 1] == i);
            }
        }
    }
}

/// An object in a list is written with each of its entries once, and scalars come first: no entry
/// whose value is a scalar comes after one whose value is not, and else the order is kept.
pub proof fn lemma_scalars_first(entries: Seq<Entry>)
    ensures
        scalars_first(entries).len() == entries.len(),
        forall|i: int| 0 <= i < entries.len() ==> #[trigger] scalars_first(entries).contains(i),
        forall|k: int|
            0 <= k < entries.len() ==> 0 <= #[trigger] scalars_first(entries)[k] < entries.len(),
        forall|j: int, k: int|
            0 <= j < k < entries.len() ==> {
                let a = #[trigger] scalars_first(entries)[j];
                let b = #[trigger] scalars_first(entries)[k];
                &&& 0 <= a < entries.len()
                &&& 0 <= b < entries.len()
                &&& (entries[b].1 is Scalar) ==> (entries[a].1 is Scalar)
                &&& (entries[a].1 is Scalar) == (entries[b].1 is Scalar) ==> a < b
            },
{
    let s = positions(entries, true);
    let c = positions(entries, false);
    let all = scalars_first(entries);
    lemma_positions(entries, true);
    lemma_positions(entries, false);
    assert forall|i: int| 0 <= i < entries.len() implies #[trigger] all.contains(i) by {
        if entries[i].1 is Scalar {
            assert(s.contains(i));
            let k = choose|k: int| 0 <= k < s.len() && s[k] == i;
            assert(all[k] == i);
        } else {
            assert(c.contains(i));
            let k = choose|k: int| 0 <= k < c.len() && c[k] == i;
            assert(all[s.len() + k] == i);
        }
    }
    assert forall|k: int| 0 <= k < entries.len() implies 0 <= #[trigger] all[k] < entries.len() by {
        if k < s.len() {
            assert(all[k] == s[k]);
        } else {
            assert(all[k] == c[k - s.len()]);
        }
    }
    assert forall|j: int, k: int| 0 <= j < k < entries.len() implies {
        let a = #[trigger] all[j];
        let b = #[trigger] all[k];
        &&& 0 <= a < entries.len()
        &&& 0 <= b < entries.len()
        &&& (entries[b].1 is Scalar) ==> (entries[a].1 is Scalar)
        &&& (entries[a].1 is Scalar) == (entries[b].1 is Scalar) ==> a < b
    } by {
        if j < s.len() {
            assert(all[j] == s[j]);
        } else {
            assert(all[j] == c[j - s.len()]);
        }
        if k < s.len() {
            assert(all[k] == s[k]);
        } else {
            assert(all[k] == c[k - s.len()]);
        }
    }
}

}

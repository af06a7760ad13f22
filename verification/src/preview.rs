//! The preview of a note: its Markdown syntax tree, the text each node shows,
//! and the blocks, images and link definitions the preview is built from.
use vstd::prelude::*;
use ::markdown::mdast::Node as MdastNode;
use crate::markdown::char_index_at;
use crate::text::{byte_offset, is_boundary, push_all, push_char, push_str, utf8_len};

verus! {

broadcast use vstd::std_specs::vec::group_vec_axioms;

/// A node of a Markdown syntax tree (CommonMark with the GitHub extensions
/// and front matter), holding what the preview reads of it.
pub enum MdNode {
    Root { children: Vec<MdNode> },
    Heading { depth: u8, children: Vec<MdNode> },
    Paragraph { children: Vec<MdNode> },
    /// A fenced or indented code block with its info-string language.
    Code { lang: Option<String>, value: String },
    /// A list; `start` is the number of its first item when it is ordered.
    List { ordered: bool, start: Option<u32>, children: Vec<MdNode> },
    /// A list item: whether it is a checked task (`None` when it is no
    /// task) and the byte offset in the source at which it starts.
    ListItem { checked: Option<bool>, offset: Option<usize>, children: Vec<MdNode> },
    Blockquote { children: Vec<MdNode> },
    ThematicBreak,
    Image { alt: String, url: String },
    ImageReference { alt: String, identifier: String },
    /// A link reference definition and its byte span in the source.
    Definition { identifier: String, url: String, span: Option<(usize, usize)> },
    Table { children: Vec<MdNode> },
    TableRow { children: Vec<MdNode> },
    TableCell { children: Vec<MdNode> },
    Yaml { value: String },
    Toml { value: String },
    Text { value: String },
    Emphasis { children: Vec<MdNode> },
    Strong { children: Vec<MdNode> },
    Delete { children: Vec<MdNode> },
    InlineCode { value: String },
    Link { url: String, children: Vec<MdNode> },
    Break,
    InlineMath { value: String },
    FootnoteReference { identifier: String },
    Html { value: String },
    /// Any other node, with its children.
    Other { children: Vec<MdNode> },
}

/// Text with `<` and `>` written as the entities `&lt;` and `&gt;`.
pub open spec fn escaped(s: Seq<char>) -> Seq<char>
    decreases s.len(),
{
    if s.len() == 0 {
        Seq::empty()
    } else {
        escaped(s.drop_last()) + if s.last() == '<' {
            seq!['&', 'l', 't', ';']
        } else if s.last() == '>' {
            seq!['&', 'g', 't', ';']
        } else {
            seq![s.last()]
        }
    }
}

/// The decimal digits of `n`.
pub open spec fn decimal_text(n: nat) -> Seq<char>
    decreases n,
{
    if n < 10 {
        seq![digit_char(n)]
    } else {
        decimal_text(n / 10).push(digit_char(n % 10))
    }
}

/// The ASCII digit for `d < 10`.
pub open spec fn digit_char(d: nat) -> char {
    if d == 0 {
        '0'
    } else if d == 1 {
        '1'
    } else if d == 2 {
        '2'
    } else if d == 3 {
        '3'
    } else if d == 4 {
        '4'
    } else if d == 5 {
        '5'
    } else if d == 6 {
        '6'
    } else if d == 7 {
        '7'
    } else if d == 8 {
        '8'
    } else {
        '9'
    }
}

/// The text of the first `k` nodes of `nodes`, joined with `sep`.
pub open spec fn joined_text(nodes: Vec<MdNode>, k: int, sep: Seq<char>) -> Seq<char>
    decreases nodes, k,
{
    if k <= 0 || k > nodes.len() {
        Seq::empty()
    } else if k == 1 {
        node_text(nodes[0])
    } else {
        joined_text(nodes, k - 1, sep) + sep + node_text(nodes[k - 1])
    }
}

/// The text of all `nodes` run together.
pub open spec fn inline_text(nodes: Vec<MdNode>) -> Seq<char>
    decreases nodes, nodes.len() + 1,
{
    joined_text(nodes, nodes.len() as int, Seq::empty())
}

/// The text of all `nodes`, one per line.
pub open spec fn lines_text(nodes: Vec<MdNode>) -> Seq<char>
    decreases nodes, nodes.len() + 1,
{
    joined_text(nodes, nodes.len() as int, seq!['\n'])
}

/// The text of all `nodes`, separated by ` | `.
pub open spec fn cells_text(nodes: Vec<MdNode>) -> Seq<char>
    decreases nodes, nodes.len() + 1,
{
    joined_text(nodes, nodes.len() as int, seq![' ', '|', ' '])
}

/// The marker of item `index` of a list: `N. ` (its number, counted in
/// 32 bits from `start`, or from 1) when the list is ordered, else `- `.
pub open spec fn item_marker(ordered: bool, start: Option<u32>, index: int) -> Seq<char> {
    if ordered {
        let first: int = match start {
            Some(s) => s as int,
            None => 1,
        };
        decimal_text(((first + index) % 0x1_0000_0000) as nat) + seq!['.', ' ']
    } else {
        seq!['-', ' ']
    }
}

/// The text of a list item: its marker, its check box, and its children run together.
pub open spec fn item_text(ordered: bool, start: Option<u32>, index: int, item: MdNode) -> Seq<char>
    decreases item, 0int,
{
    match item {
        MdNode::ListItem { checked, children, .. } => item_marker(ordered, start, index) + match checked {
            Some(true) => seq!['[', 'x', ']', ' '],
            Some(false) => seq!['[', ' ', ']', ' '],
            None => Seq::empty(),
        } + inline_text(children),
        _ => Seq::empty(),
    }
}

/// The text of the first `k` items of a list, one per line.
pub open spec fn list_items_text(ordered: bool, start: Option<u32>, items: Vec<MdNode>, k: int) -> Seq<char>
    decreases items, k,
{
    if k <= 0 || k > items.len() {
        Seq::empty()
    } else if k == 1 {
        item_text(ordered, start, 0, items[0])
    } else {
        list_items_text(ordered, start, items, k - 1) + seq!['\n'] + item_text(
            ordered,
            start,
            k - 1,
            items[k - 1],
        )
    }
}

/// The text of a table row: its cells separated by ` | `.
pub open spec fn row_text(row: MdNode) -> Seq<char>
    decreases row, 0int,
{
    match row {
        MdNode::TableRow { children } => cells_text(children),
        _ => Seq::empty(),
    }
}

/// The text of the first `k` rows of a table, one per line.
pub open spec fn rows_text(rows: Vec<MdNode>, k: int) -> Seq<char>
    decreases rows, k,
{
    if k <= 0 || k > rows.len() {
        Seq::empty()
    } else if k == 1 {
        row_text(rows[0])
    } else {
        rows_text(rows, k - 1) + seq!['\n'] + row_text(rows[k - 1])
    }
}

/// The Markdown text the preview shows for a node.
pub open spec fn node_text(n: MdNode) -> Seq<char>
    decreases n, 0int,
{
    match n {
        MdNode::Paragraph { children } => inline_text(children),
        MdNode::Heading { children, .. } => inline_text(children),
        MdNode::Blockquote { children } => lines_text(children),
        MdNode::List { ordered, start, children } => list_items_text(
            ordered,
            start,
            children,
            children.len() as int,
        ),
        MdNode::ListItem { children, .. } => lines_text(children),
        MdNode::Code { value, .. } => value@,
        MdNode::ThematicBreak => seq!['-', '-', '-'],
        MdNode::Table { children } => rows_text(children, children.len() as int),
        MdNode::TableRow { children } => cells_text(children),
        MdNode::TableCell { children } => inline_text(children),
        MdNode::Text { value } => escaped(value@),
        MdNode::Emphasis { children } => seq!['*'] + inline_text(children) + seq!['*'],
        MdNode::Strong { children } => seq!['*', '*'] + inline_text(children) + seq!['*', '*'],
        MdNode::Delete { children } => seq!['~', '~'] + inline_text(children) + seq!['~', '~'],
        MdNode::InlineCode { value } => seq!['`'] + value@ + seq!['`'],
        MdNode::Link { url, children } => seq!['['] + inline_text(children) + seq![']', '('] + url@
            + seq![')'],
        MdNode::Image { alt, url } => seq!['!', '['] + alt@ + seq![']', '('] + url@ + seq![')'],
        MdNode::Break => seq!['\n'],
        MdNode::InlineMath { value } => value@,
        MdNode::FootnoteReference { identifier } => seq!['['] + identifier@ + seq![']'],
        MdNode::Html { value } => escaped(value@),
        _ => Seq::empty(),
    }
}

/// Writes `<` and `>` as the entities `&lt;` and `&gt;`.
pub fn escape_styled_text(value: &str) -> (r: String)
    ensures
        r@ == escaped(value@),
{
    let v = crate::text::chars_of(value);
    let mut out = String::new();
    let mut i: usize = 0;
    while i < v.len()
        invariant
            i <= v@.len(),
            v@ == value@,
            out@ == escaped(v@.take(i as int)),
        decreases v@.len() - i,
    {
        let c = v[i];
        if c == '<' {
            push_all(&mut out, vec!['&', 'l', 't', ';'].as_slice());
        } else if c == '>' {
            push_all(&mut out, vec!['&', 'g', 't', ';'].as_slice());
        } else {
            push_char(&mut out, c);
        }
        proof {
            assert(v@.take(i + 1).drop_last() =~= v@.take(i as int));
            assert(out@ =~= escaped(v@.take(i + 1)));
        }
        i = i + 1;
    }
    proof {
        assert(v@.take(v@.len() as int) =~= v@);
    }
    out
}

fn digit(d: u32) -> (c: char)
    requires
        d < 10,
    ensures
        c == digit_char(d as nat),
{
    if d == 0 {
        '0'
    } else if d == 1 {
        '1'
    } else if d == 2 {
        '2'
    } else if d == 3 {
        '3'
    } else if d == 4 {
        '4'
    } else if d == 5 {
        '5'
    } else if d == 6 {
        '6'
    } else if d == 7 {
        '7'
    } else if d == 8 {
        '8'
    } else {
        '9'
    }
}

/// Appends the decimal digits of `n`.
pub(crate) fn push_decimal(out: &mut String, n: u64)
    ensures
        final(out)@ == old(out)@ + decimal_text(n as nat),
    decreases n,
{
    if n < 10 {
        push_char(out, digit(n as u32));
        proof {
            assert(final(out)@ =~= old(out)@ + decimal_text(n as nat)) by {
                assert(decimal_text(n as nat) =~= seq![digit_char(n as nat)]);
            }
        }
    } else {
        push_decimal(out, n / 10);
        push_char(out, digit((n % 10) as u32));
        proof {
            assert(final(out)@ =~= old(out)@ + decimal_text(n as nat));
        }
    }
}

/// No characters.
fn no_chars() -> (r: Vec<char>)
    ensures
        r@ == Seq::<char>::empty(),
{
    Vec::new()
}

/// A line break.
fn line_break() -> (r: Vec<char>)
    ensures
        r@ == seq!['\n'],
{
    let r = vec!['\n'];
    proof {
        assert(r@ =~= seq!['\n']);
    }
    r
}

/// The separator of table cells.
fn cell_separator() -> (r: Vec<char>)
    ensures
        r@ == seq![' ', '|', ' '],
{
    let r = vec![' ', '|', ' '];
    proof {
        assert(r@ =~= seq![' ', '|', ' ']);
    }
    r
}

/// The characters of a short literal.
fn chars_from(a: char, b: char, n: usize) -> (r: Vec<char>)
    requires
        1 <= n <= 2,
    ensures
        n == 1 ==> r@ == seq![a],
        n == 2 ==> r@ == seq![a, b],
{
    let mut r = Vec::new();
    r.push(a);
    if n == 2 {
        r.push(b);
    }
    proof {
        if n == 1 {
            assert(r@ =~= seq![a]);
        } else {
            assert(r@ =~= seq![a, b]);
        }
    }
    r
}

/// The text of the nodes of `nodes`, joined with `sep`.
fn join_markdown(nodes: &Vec<MdNode>, sep: &[char]) -> (r: String)
    ensures
        r@ == joined_text(*nodes, nodes.len() as int, sep@),
    decreases nodes, 1int,
{
    let mut out = String::new();
    let mut i: usize = 0;
    while i < nodes.len()
        invariant
            i <= nodes@.len(),
            out@ == joined_text(*nodes, i as int, sep@),
        decreases nodes@.len() - i,
    {
        if i > 0 {
            push_all(&mut out, sep);
        }
        let text = node_markdown(&nodes[i]);
        push_str(&mut out, text.as_str());
        i = i + 1;
    }
    out
}

/// The text of a list item.
fn item_markdown(ordered: bool, start: Option<u32>, index: usize, item: &MdNode) -> (r: String)
    ensures
        r@ == item_text(ordered, start, index as int, *item),
    decreases item, 0int,
{
    match item {
        MdNode::ListItem { checked, children, .. } => {
            let mut out = String::new();
            if ordered {
                let first: u32 = match start {
                    Some(s) => s,
                    None => 1,
                };
                let number = ((first as u128 + index as u128) % 0x1_0000_0000) as u32;
                push_decimal(&mut out, number as u64);
                push_char(&mut out, '.');
                push_char(&mut out, ' ');
            } else {
                push_char(&mut out, '-');
                push_char(&mut out, ' ');
            }
            proof {
                assert(out@ =~= item_marker(ordered, start, index as int));
            }
            match checked {
                Some(true) => push_all(&mut out, vec!['[', 'x', ']', ' '].as_slice()),
                Some(false) => push_all(&mut out, vec!['[', ' ', ']', ' '].as_slice()),
                None => {},
            }
            let text = join_markdown(children, no_chars().as_slice());
            push_str(&mut out, text.as_str());
            proof {
                assert(out@ =~= item_text(ordered, start, index as int, *item));
            }
            out
        },
        _ => String::new(),
    }
}

/// The text of a list: its items, one per line.
fn list_markdown(ordered: bool, start: Option<u32>, items: &Vec<MdNode>) -> (r: String)
    ensures
        r@ == list_items_text(ordered, start, *items, items.len() as int),
    decreases items, 1int,
{
    let mut out = String::new();
    let mut i: usize = 0;
    while i < items.len()
        invariant
            i <= items@.len(),
            out@ == list_items_text(ordered, start, *items, i as int),
        decreases items@.len() - i,
    {
        if i > 0 {
            push_char(&mut out, '\n');
        }
        let text = item_markdown(ordered, start, i, &items[i]);
        push_str(&mut out, text.as_str());
        proof {
            if i > 0 {
                assert(out@ =~= list_items_text(ordered, start, *items, i + 1));
            }
        }
        i = i + 1;
    }
    out
}

/// The text of a table: its rows, one per line, with cells separated by ` | `.
fn table_markdown(rows: &Vec<MdNode>) -> (r: String)
    ensures
        r@ == rows_text(*rows, rows.len() as int),
    decreases rows, 1int,
{
    let mut out = String::new();
    let mut i: usize = 0;
    while i < rows.len()
        invariant
            i <= rows@.len(),
            out@ == rows_text(*rows, i as int),
        decreases rows@.len() - i,
    {
        if i > 0 {
            push_char(&mut out, '\n');
        }
        let text = match &rows[i] {
            MdNode::TableRow { children } => join_markdown(children, cell_separator().as_slice()),
            _ => String::new(),
        };
        proof {
            assert(text@ == row_text(rows@[i as int]));
        }
        push_str(&mut out, text.as_str());
        proof {
            if i > 0 {
                assert(out@ =~= rows_text(*rows, i + 1));
            }
        }
        i = i + 1;
    }
    out
}

/// Wraps `inner` between `open` and `close`.
fn wrapped(open: &[char], inner: String, close: &[char]) -> (r: String)
    ensures
        r@ == open@ + inner@ + close@,
{
    let mut out = crate::text::string_of(open);
    push_str(&mut out, inner.as_str());
    push_all(&mut out, close);
    out
}

/// The Markdown text the preview shows for a node.
pub fn node_markdown(n: &MdNode) -> (r: String)
    ensures
        r@ == node_text(*n),
    decreases n, 0int,
{
    match n {
        MdNode::Paragraph { children } => join_markdown(children, no_chars().as_slice()),
        MdNode::Heading { children, .. } => join_markdown(children, no_chars().as_slice()),
        MdNode::Blockquote { children } => join_markdown(children, line_break().as_slice()),
        MdNode::List { ordered, start, children } => list_markdown(*ordered, *start, children),
        MdNode::ListItem { children, .. } => join_markdown(children, line_break().as_slice()),
        MdNode::Code { value, .. } => crate::text::owned(value.as_str()),
        MdNode::ThematicBreak => {
            let mut out = crate::text::string_of(chars_from('-', '-', 2).as_slice());
            push_char(&mut out, '-');
            out
        },
        MdNode::Table { children } => table_markdown(children),
        MdNode::TableRow { children } => join_markdown(children, cell_separator().as_slice()),
        MdNode::TableCell { children } => join_markdown(children, no_chars().as_slice()),
        MdNode::Text { value } => escape_styled_text(value.as_str()),
        MdNode::Emphasis { children } => wrapped(
            chars_from('*', '*', 1).as_slice(),
            join_markdown(children, no_chars().as_slice()),
            chars_from('*', '*', 1).as_slice(),
        ),
        MdNode::Strong { children } => wrapped(
            chars_from('*', '*', 2).as_slice(),
            join_markdown(children, no_chars().as_slice()),
            chars_from('*', '*', 2).as_slice(),
        ),
        MdNode::Delete { children } => wrapped(
            chars_from('~', '~', 2).as_slice(),
            join_markdown(children, no_chars().as_slice()),
            chars_from('~', '~', 2).as_slice(),
        ),
        MdNode::InlineCode { value } => wrapped(
            chars_from('`', '`', 1).as_slice(),
            crate::text::owned(value.as_str()),
            chars_from('`', '`', 1).as_slice(),
        ),
        MdNode::Link { url, children } => {
            let mut out = wrapped(
                chars_from('[', '[', 1).as_slice(),
                join_markdown(children, no_chars().as_slice()),
                chars_from(']', '(', 2).as_slice(),
            );
            push_str(&mut out, url.as_str());
            push_char(&mut out, ')');
            out
        },
        MdNode::Image { alt, url } => {
            let mut out = wrapped(
                chars_from('!', '[', 2).as_slice(),
                crate::text::owned(alt.as_str()),
                chars_from(']', '(', 2).as_slice(),
            );
            push_str(&mut out, url.as_str());
            push_char(&mut out, ')');
            out
        },
        MdNode::Break => crate::text::string_of(line_break().as_slice()),
        MdNode::InlineMath { value } => crate::text::owned(value.as_str()),
        MdNode::FootnoteReference { identifier } => wrapped(
            chars_from('[', '[', 1).as_slice(),
            crate::text::owned(identifier.as_str()),
            chars_from(']', ']', 1).as_slice(),
        ),
        MdNode::Html { value } => escape_styled_text(value.as_str()),
        _ => String::new(),
    }
}

/// An image shown by the preview: its alternative text and where it points.
#[derive(Clone, Debug, PartialEq, Eq)]
pub struct ImageReference {
    pub alt: String,
    pub destination: String,
}

/// What a preview block shows.
#[derive(Clone, Copy, Debug, PartialEq, Eq, Structural)]
pub enum PreviewBlockKind {
    Body,
    Heading(u8),
    /// A task item, checked or not.
    Task(bool),
    Mermaid,
    Code,
    /// A list, ordered or not.
    List(bool),
    Quote,
    Rule,
    Image,
    Table,
}

/// One block of the preview.
#[derive(Clone, Debug, PartialEq, Eq)]
pub struct PreviewBlock {
    pub kind: PreviewBlockKind,
    pub markdown: String,
    pub image: Option<ImageReference>,
    /// For a task, the byte offset of its list item in the source.
    pub task_offset: Option<usize>,
}

/// The preview of a note: its blocks, the images it shows in document order,
/// and the source text of its link reference definitions.
#[derive(Clone, Debug, PartialEq, Eq)]
pub struct PreviewDocument {
    pub blocks: Vec<PreviewBlock>,
    pub images: Vec<ImageReference>,
    pub link_definitions: Vec<String>,
}

/// An image as the specifications see it: alternative text and destination.
pub type ImageModel = (Seq<char>, Seq<char>);

/// A block as the specifications see it: kind, text, image and task offset.
pub type BlockModel = (PreviewBlockKind, Seq<char>, Option<ImageModel>, Option<usize>);

impl ImageReference {
    pub open spec fn model(self) -> ImageModel {
        (self.alt@, self.destination@)
    }
}

impl PreviewBlock {
    pub open spec fn model(self) -> BlockModel {
        (
            self.kind,
            self.markdown@,
            match self.image {
                Some(i) => Some(i.model()),
                None => None,
            },
            self.task_offset,
        )
    }
}

/// The models of a list of blocks.
pub open spec fn block_models(blocks: Seq<PreviewBlock>) -> Seq<BlockModel> {
    blocks.map_values(|b: PreviewBlock| b.model())
}

/// The models of a list of images.
pub open spec fn image_models(images: Seq<ImageReference>) -> Seq<ImageModel> {
    images.map_values(|i: ImageReference| i.model())
}

/// A list whose items are all task items.
pub open spec fn is_task_items(items: Vec<MdNode>) -> bool {
    items.len() > 0 && forall|i: int|
        0 <= i < items.len() ==> match #[trigger] items[i] {
            MdNode::ListItem { checked, .. } => checked is Some,
            _ => false,
        }
}

/// The label of a task item made of the first `k` of its children: the text
/// of those that are not lists, one per line; and whether there was any.
pub open spec fn label_text(nodes: Vec<MdNode>, k: int) -> (Seq<char>, bool)
    decreases k,
{
    if k <= 0 || k > nodes.len() {
        (Seq::empty(), false)
    } else {
        let (text, any) = label_text(nodes, k - 1);
        if nodes[k - 1] is List {
            (text, any)
        } else if any {
            (text + seq!['\n'] + node_text(nodes[k - 1]), true)
        } else {
            (node_text(nodes[k - 1]), true)
        }
    }
}

/// The task blocks of the first `k` items of a task list.
pub open spec fn task_blocks(items: Vec<MdNode>, k: int) -> Seq<BlockModel>
    decreases items, k,
{
    if k <= 0 || k > items.len() {
        Seq::empty()
    } else {
        task_blocks(items, k - 1) + item_task_blocks(items[k - 1])
    }
}

/// The blocks of one task item: the task itself, then the tasks of the task
/// lists nested in it.
pub open spec fn item_task_blocks(item: MdNode) -> Seq<BlockModel>
    decreases item, 0int,
{
    match item {
        MdNode::ListItem { checked, offset, children } => seq![
            (
                PreviewBlockKind::Task(
                    match checked {
                        Some(c) => c,
                        None => false,
                    },
                ),
                label_text(children, children.len() as int).0,
                None,
                offset,
            ),
        ] + nested_task_blocks(children, children.len() as int),
        _ => Seq::empty(),
    }
}

/// The task blocks of the task lists among the first `k` children of an item.
pub open spec fn nested_task_blocks(nodes: Vec<MdNode>, k: int) -> Seq<BlockModel>
    decreases nodes, k,
{
    if k <= 0 || k > nodes.len() {
        Seq::empty()
    } else {
        nested_task_blocks(nodes, k - 1) + match nodes[k - 1] {
            MdNode::List { children, .. } => if is_task_items(children) {
                task_blocks(children, children.len() as int)
            } else {
                Seq::empty()
            },
            _ => Seq::empty(),
        }
    }
}

/// A block with no image and no task offset.
pub open spec fn plain_block(kind: PreviewBlockKind, text: Seq<char>) -> BlockModel {
    (kind, text, None, None)
}

/// The block of an image.
pub open spec fn image_block(alt: Seq<char>, url: Seq<char>) -> BlockModel {
    (PreviewBlockKind::Image, alt, Some((alt, url)), None)
}

/// The language name `mermaid`, in any ASCII case.
pub open spec fn is_mermaid(lang: Option<String>) -> bool {
    match lang {
        Some(l) => crate::text::ascii_lower(l@) == seq!['m', 'e', 'r', 'm', 'a', 'i', 'd'],
        None => false,
    }
}

/// The blocks a top-level node of a note shows.
pub open spec fn node_blocks(n: MdNode) -> Seq<BlockModel> {
    match n {
        MdNode::Heading { depth, children } => seq![
            plain_block(PreviewBlockKind::Heading(depth), inline_text(children)),
        ],
        MdNode::Paragraph { children } => if children.len() == 1 && children[0] is Image {
            match children[0] {
                MdNode::Image { alt, url } => seq![image_block(alt@, url@)],
                _ => Seq::empty(),
            }
        } else {
            seq![plain_block(PreviewBlockKind::Body, inline_text(children))]
        },
        MdNode::Code { lang, value } => if is_mermaid(lang) {
            seq![plain_block(PreviewBlockKind::Mermaid, value@)]
        } else {
            seq![plain_block(PreviewBlockKind::Code, value@)]
        },
        MdNode::List { ordered, start, children } => if is_task_items(children) {
            task_blocks(children, children.len() as int)
        } else {
            seq![
                plain_block(
                    PreviewBlockKind::List(ordered),
                    list_items_text(ordered, start, children, children.len() as int),
                ),
            ]
        },
        MdNode::Blockquote { children } => seq![
            plain_block(PreviewBlockKind::Quote, lines_text(children)),
        ],
        MdNode::ThematicBreak => seq![plain_block(PreviewBlockKind::Rule, Seq::empty())],
        MdNode::Image { alt, url } => seq![image_block(alt@, url@)],
        MdNode::Table { children } => seq![
            plain_block(PreviewBlockKind::Table, rows_text(children, children.len() as int)),
        ],
        MdNode::Yaml { value } => seq![plain_block(PreviewBlockKind::Code, value@)],
        MdNode::Toml { value } => seq![plain_block(PreviewBlockKind::Code, value@)],
        _ => Seq::empty(),
    }
}

/// The blocks of the first `k` nodes of `nodes`, in order.
pub open spec fn nodes_blocks(nodes: Vec<MdNode>, k: int) -> Seq<BlockModel>
    decreases k,
{
    if k <= 0 || k > nodes.len() {
        Seq::empty()
    } else {
        nodes_blocks(nodes, k - 1) + node_blocks(nodes[k - 1])
    }
}

/// The blocks of a document: those of the root's children, or of the node
/// itself when it is no root.
pub open spec fn document_blocks(tree: MdNode) -> Seq<BlockModel> {
    match tree {
        MdNode::Root { children } => nodes_blocks(children, children.len() as int),
        _ => node_blocks(tree),
    }
}

fn block_of(kind: PreviewBlockKind, markdown: String) -> (b: PreviewBlock)
    ensures
        b.model() == plain_block(kind, markdown@),
{
    PreviewBlock { kind, markdown, image: None, task_offset: None }
}

fn image_block_of(alt: &String, url: &String) -> (b: PreviewBlock)
    ensures
        b.model() == image_block(alt@, url@),
{
    PreviewBlock {
        kind: PreviewBlockKind::Image,
        markdown: crate::text::owned(alt.as_str()),
        image: Some(
            ImageReference {
                alt: crate::text::owned(alt.as_str()),
                destination: crate::text::owned(url.as_str()),
            },
        ),
        task_offset: None,
    }
}

/// Whether every item of a list is a task item.
fn is_task_list(items: &Vec<MdNode>) -> (r: bool)
    ensures
        r == is_task_items(*items),
{
    if items.len() == 0 {
        return false;
    }
    let mut i: usize = 0;
    while i < items.len()
        invariant
            i <= items@.len(),
            forall|k: int|
                0 <= k < i ==> match #[trigger] items[k] {
                    MdNode::ListItem { checked, .. } => checked is Some,
                    _ => false,
                },
        decreases items@.len() - i,
    {
        match &items[i] {
            MdNode::ListItem { checked, .. } => {
                if checked.is_none() {
                    return false;
                }
            },
            _ => {
                return false;
            },
        }
        i = i + 1;
    }
    true
}

/// The label of a task item: the text of its children that are not lists,
/// one per line.
fn task_label(nodes: &Vec<MdNode>) -> (r: String)
    ensures
        r@ == label_text(*nodes, nodes.len() as int).0,
{
    let mut out = String::new();
    let mut any = false;
    let mut i: usize = 0;
    while i < nodes.len()
        invariant
            i <= nodes@.len(),
            (out@, any) == label_text(*nodes, i as int),
            !any ==> out@ == Seq::<char>::empty(),
        decreases nodes@.len() - i,
    {
        let is_list = match &nodes[i] {
            MdNode::List { .. } => true,
            _ => false,
        };
        if !is_list {
            if any {
                push_char(&mut out, '\n');
            }
            let text = node_markdown(&nodes[i]);
            push_str(&mut out, text.as_str());
            proof {
                if !any {
                    assert(out@ =~= node_text(nodes[i as int]));
                }
            }
            any = true;
        }
        i = i + 1;
    }
    out
}

/// Appends the task blocks of a task list's items.
fn push_task_blocks(items: &Vec<MdNode>, blocks: &mut Vec<PreviewBlock>)
    ensures
        block_models(final(blocks)@) == block_models(old(blocks)@) + task_blocks(
            *items,
            items.len() as int,
        ),
    decreases items, 1int,
{
    let mut i: usize = 0;
    while i < items.len()
        invariant
            i <= items@.len(),
            block_models(blocks@) == block_models(old(blocks)@) + task_blocks(*items, i as int),
        decreases items@.len() - i,
    {
        push_item_task_blocks(&items[i], blocks);
        proof {
            assert(block_models(blocks@) =~= block_models(old(blocks)@) + task_blocks(*items, i + 1));
        }
        i = i + 1;
    }
}

/// Appends the blocks of one task item.
fn push_item_task_blocks(item: &MdNode, blocks: &mut Vec<PreviewBlock>)
    ensures
        block_models(final(blocks)@) == block_models(old(blocks)@) + item_task_blocks(*item),
    decreases item, 0int,
{
    match item {
        MdNode::ListItem { checked, offset, children } => {
            let done = match checked {
                Some(c) => *c,
                None => false,
            };
            let label = task_label(children);
            blocks.push(
                PreviewBlock {
                    kind: PreviewBlockKind::Task(done),
                    markdown: label,
                    image: None,
                    task_offset: *offset,
                },
            );
            let ghost first = blocks@;
            let mut j: usize = 0;
            while j < children.len()
                invariant
                    j <= children@.len(),
                    *item is ListItem,
                    item->ListItem_children == *children,
                    block_models(blocks@) == block_models(first) + nested_task_blocks(
                        *children,
                        j as int,
                    ),
                    block_models(first) == block_models(old(blocks)@) + seq![
                        (
                            PreviewBlockKind::Task(done),
                            label_text(*children, children.len() as int).0,
                            None::<ImageModel>,
                            *offset,
                        ),
                    ],
                decreases children@.len() - j,
            {
                let ghost prior = blocks@;
                match &children[j] {
                    MdNode::List { children: nested, .. } => {
                        if is_task_list(nested) {
                            proof {
                                assert(decreases_to!(*item => item->ListItem_children));
                                assert(item->ListItem_children == *children);
                                assert(decreases_to!(*children => children[j as int]));
                                assert(decreases_to!(children[j as int] => *nested));
                                assert(decreases_to!(*item => *nested));
                            }
                            push_task_blocks(nested, blocks);
                        }
                    },
                    _ => {},
                }
                proof {
                    assert(block_models(blocks@) =~= block_models(first) + nested_task_blocks(
                        *children,
                        j + 1,
                    ));
                }
                j = j + 1;
            }
            proof {
                assert(block_models(blocks@) =~= block_models(old(blocks)@) + item_task_blocks(
                    *item,
                ));
            }
        },
        _ => {
            proof {
                assert(block_models(blocks@) =~= block_models(old(blocks)@) + item_task_blocks(
                    *item,
                ));
            }
        },
    }
}

/// Whether a code block's language is `mermaid`, in any ASCII case.
fn is_mermaid_lang(lang: &Option<String>) -> (r: bool)
    ensures
        r == is_mermaid(*lang),
{
    match lang {
        Some(l) => {
            let v = crate::text::chars_of(l.as_str());
            let lower = crate::text::ascii_lowercase(v.as_slice());
            let expected = vec!['m', 'e', 'r', 'm', 'a', 'i', 'd'];
            proof {
                assert(expected@ =~= seq!['m', 'e', 'r', 'm', 'a', 'i', 'd']);
            }
            crate::text::seq_eq(lower.as_slice(), expected.as_slice())
        },
        None => false,
    }
}

/// The blocks a top-level node of a note shows.
fn block_from_node(node: &MdNode) -> (r: Vec<PreviewBlock>)
    ensures
        block_models(r@) == node_blocks(*node),
{
    let mut blocks: Vec<PreviewBlock> = Vec::new();
    match node {
        MdNode::Heading { depth, children } => {
            blocks.push(block_of(PreviewBlockKind::Heading(*depth), join_markdown(children, no_chars().as_slice())));
        },
        MdNode::Paragraph { children } => {
            let mut done = false;
            if children.len() == 1 {
                match &children[0] {
                    MdNode::Image { alt, url } => {
                        blocks.push(image_block_of(alt, url));
                        done = true;
                    },
                    _ => {},
                }
            }
            if !done {
                blocks.push(block_of(PreviewBlockKind::Body, join_markdown(children, no_chars().as_slice())));
            }
        },
        MdNode::Code { lang, value } => {
            let kind = if is_mermaid_lang(lang) {
                PreviewBlockKind::Mermaid
            } else {
                PreviewBlockKind::Code
            };
            blocks.push(block_of(kind, crate::text::owned(value.as_str())));
        },
        MdNode::List { ordered, start, children } => {
            if is_task_list(children) {
                push_task_blocks(children, &mut blocks);
            } else {
                blocks.push(block_of(PreviewBlockKind::List(*ordered), list_markdown(*ordered, *start, children)));
            }
        },
        MdNode::Blockquote { children } => {
            blocks.push(block_of(PreviewBlockKind::Quote, join_markdown(children, line_break().as_slice())));
        },
        MdNode::ThematicBreak => {
            blocks.push(block_of(PreviewBlockKind::Rule, String::new()));
        },
        MdNode::Image { alt, url } => {
            blocks.push(image_block_of(alt, url));
        },
        MdNode::Table { children } => {
            blocks.push(block_of(PreviewBlockKind::Table, table_markdown(children)));
        },
        MdNode::Yaml { value } => {
            blocks.push(block_of(PreviewBlockKind::Code, crate::text::owned(value.as_str())));
        },
        MdNode::Toml { value } => {
            blocks.push(block_of(PreviewBlockKind::Code, crate::text::owned(value.as_str())));
        },
        _ => {},
    }
    proof {
        assert(block_models(blocks@) =~= node_blocks(*node));
    }
    blocks
}

/// The children of a node, when it has any.
pub open spec fn child_nodes(n: MdNode) -> Option<Vec<MdNode>> {
    match n {
        MdNode::Root { children } => Some(children),
        MdNode::Heading { children, .. } => Some(children),
        MdNode::Paragraph { children } => Some(children),
        MdNode::List { children, .. } => Some(children),
        MdNode::ListItem { children, .. } => Some(children),
        MdNode::Blockquote { children } => Some(children),
        MdNode::Table { children } => Some(children),
        MdNode::TableRow { children } => Some(children),
        MdNode::TableCell { children } => Some(children),
        MdNode::Emphasis { children } => Some(children),
        MdNode::Strong { children } => Some(children),
        MdNode::Delete { children } => Some(children),
        MdNode::Link { children, .. } => Some(children),
        MdNode::Other { children } => Some(children),
        _ => None,
    }
}

/// A node decreases to its children.
pub proof fn lemma_child_nodes_decrease(n: MdNode)
    ensures
        child_nodes(n) is Some ==> decreases_to!(n => child_nodes(n)->0),
{
    match n {
        MdNode::Root { children } => {},
        MdNode::Heading { children, .. } => {},
        MdNode::Paragraph { children } => {},
        MdNode::List { children, .. } => {},
        MdNode::ListItem { children, .. } => {},
        MdNode::Blockquote { children } => {},
        MdNode::Table { children } => {},
        MdNode::TableRow { children } => {},
        MdNode::TableCell { children } => {},
        MdNode::Emphasis { children } => {},
        MdNode::Strong { children } => {},
        MdNode::Delete { children } => {},
        MdNode::Link { children, .. } => {},
        MdNode::Other { children } => {},
        _ => {},
    }
}

/// A link reference definition as the specifications see it: its
/// identifier, its destination and its byte span in the source.
pub type DefinitionModel = (Seq<char>, Seq<char>, Option<(usize, usize)>);

/// The link reference definitions of a tree, in document order.
pub open spec fn definitions_in(n: MdNode) -> Seq<DefinitionModel>
    decreases n, 0int,
{
    let own = match n {
        MdNode::Definition { identifier, url, span } => seq![(identifier@, url@, span)],
        _ => Seq::empty(),
    };
    match child_nodes(n) {
        Some(children) => {
            proof {
                lemma_child_nodes_decrease(n);
            }
            own + definitions_in_all(children, children.len() as int)
        },
        None => own,
    }
}

/// The link reference definitions in the first `k` trees of `nodes`.
pub open spec fn definitions_in_all(nodes: Vec<MdNode>, k: int) -> Seq<DefinitionModel>
    decreases nodes, k,
{
    if k <= 0 || k > nodes.len() {
        Seq::empty()
    } else {
        definitions_in_all(nodes, k - 1) + definitions_in(nodes[k - 1])
    }
}

/// The destination the last definition of `identifier` gives.
pub open spec fn destination_of(defs: Seq<DefinitionModel>, identifier: Seq<char>) -> Option<Seq<char>>
    decreases defs.len(),
{
    if defs.len() == 0 {
        None
    } else if defs.last().0 == identifier {
        Some(defs.last().1)
    } else {
        destination_of(defs.drop_last(), identifier)
    }
}

/// The images a tree shows, in document order: inline images, and image
/// references whose identifier `defs` defines.
pub open spec fn images_in(n: MdNode, defs: Seq<DefinitionModel>) -> Seq<ImageModel>
    decreases n, 0int,
{
    let own = match n {
        MdNode::Image { alt, url } => seq![(alt@, url@)],
        MdNode::ImageReference { alt, identifier } => match destination_of(defs, identifier@) {
            Some(url) => seq![(alt@, url)],
            None => Seq::empty(),
        },
        _ => Seq::empty(),
    };
    match child_nodes(n) {
        Some(children) => {
            proof {
                lemma_child_nodes_decrease(n);
            }
            own + images_in_all(children, children.len() as int, defs)
        },
        None => own,
    }
}

/// The images in the first `k` trees of `nodes`.
pub open spec fn images_in_all(nodes: Vec<MdNode>, k: int, defs: Seq<DefinitionModel>) -> Seq<ImageModel>
    decreases nodes, k,
{
    if k <= 0 || k > nodes.len() {
        Seq::empty()
    } else {
        images_in_all(nodes, k - 1, defs) + images_in(nodes[k - 1], defs)
    }
}

/// A definition as stored while collecting.
pub struct Definition {
    pub identifier: String,
    pub url: String,
    pub span: Option<(usize, usize)>,
}

impl Definition {
    pub open spec fn model(self) -> DefinitionModel {
        (self.identifier@, self.url@, self.span)
    }
}

/// The models of a list of definitions.
pub open spec fn definition_models(defs: Seq<Definition>) -> Seq<DefinitionModel> {
    defs.map_values(|d: Definition| d.model())
}

/// The children of a node, when it has any.
fn children_of(n: &MdNode) -> (r: Option<&Vec<MdNode>>)
    ensures
        match child_nodes(*n) {
            Some(c) => r == Some(&c),
            None => r is None,
        },
{
    match n {
        MdNode::Root { children } => Some(children),
        MdNode::Heading { children, .. } => Some(children),
        MdNode::Paragraph { children } => Some(children),
        MdNode::List { children, .. } => Some(children),
        MdNode::ListItem { children, .. } => Some(children),
        MdNode::Blockquote { children } => Some(children),
        MdNode::Table { children } => Some(children),
        MdNode::TableRow { children } => Some(children),
        MdNode::TableCell { children } => Some(children),
        MdNode::Emphasis { children } => Some(children),
        MdNode::Strong { children } => Some(children),
        MdNode::Delete { children } => Some(children),
        MdNode::Link { children, .. } => Some(children),
        MdNode::Other { children } => Some(children),
        _ => None,
    }
}

/// Appends the link reference definitions of a tree, in document order.
fn collect_definitions(node: &MdNode, defs: &mut Vec<Definition>)
    ensures
        definition_models(final(defs)@) == definition_models(old(defs)@) + definitions_in(*node),
    decreases node, 0int,
{
    match node {
        MdNode::Definition { identifier, url, span } => {
            defs.push(
                Definition {
                    identifier: crate::text::owned(identifier.as_str()),
                    url: crate::text::owned(url.as_str()),
                    span: *span,
                },
            );
        },
        _ => {},
    }
    let ghost own = definition_models(defs@);
    proof {
        assert(own =~= definition_models(old(defs)@) + match *node {
            MdNode::Definition { identifier, url, span } => seq![(identifier@, url@, span)],
            _ => Seq::<DefinitionModel>::empty(),
        });
    }
    match children_of(node) {
        Some(children) => {
            proof {
                lemma_child_nodes_decrease(*node);
            }
            let mut i: usize = 0;
            while i < children.len()
                invariant
                    i <= children@.len(),
                    child_nodes(*node) == Some(*children),
                    definition_models(defs@) == own + definitions_in_all(*children, i as int),
                decreases children@.len() - i,
            {
                proof {
                    lemma_child_nodes_decrease(*node);
                    assert(decreases_to!(*children => children[i as int]));
                }
                collect_definitions(&children[i], defs);
                proof {
                    assert(definition_models(defs@) =~= own + definitions_in_all(*children, i + 1));
                }
                i = i + 1;
            }
        },
        None => {},
    }
}

/// The destination the last definition of `identifier` gives.
fn find_destination(defs: &Vec<Definition>, identifier: &String) -> (r: Option<String>)
    ensures
        match r {
            Some(u) => destination_of(definition_models(defs@), identifier@) == Some(u@),
            None => destination_of(definition_models(defs@), identifier@) is None,
        },
{
    let mut i = defs.len();
    proof {
        assert(defs@.take(i as int) =~= defs@);
    }
    while i > 0
        invariant
            i <= defs@.len(),
            destination_of(definition_models(defs@), identifier@) == destination_of(
                definition_models(defs@.take(i as int)),
                identifier@,
            ),
        decreases i,
    {
        proof {
            assert(definition_models(defs@.take(i as int)).drop_last() =~= definition_models(
                defs@.take(i - 1),
            ));
        }
        if crate::text::str_eq(defs[i - 1].identifier.as_str(), identifier.as_str()) {
            return Some(crate::text::owned(defs[i - 1].url.as_str()));
        }
        i = i - 1;
    }
    None
}

/// Appends the images of a tree, in document order.
fn collect_images(node: &MdNode, defs: &Vec<Definition>, images: &mut Vec<ImageReference>)
    ensures
        image_models(final(images)@) == image_models(old(images)@) + images_in(
            *node,
            definition_models(defs@),
        ),
    decreases node, 0int,
{
    match node {
        MdNode::Image { alt, url } => {
            images.push(
                ImageReference {
                    alt: crate::text::owned(alt.as_str()),
                    destination: crate::text::owned(url.as_str()),
                },
            );
        },
        MdNode::ImageReference { alt, identifier } => {
            match find_destination(defs, identifier) {
                Some(destination) => {
                    images.push(ImageReference { alt: crate::text::owned(alt.as_str()), destination });
                },
                None => {},
            }
        },
        _ => {},
    }
    let ghost own = image_models(images@);
    let ghost d = definition_models(defs@);
    proof {
        assert(own =~= image_models(old(images)@) + match *node {
            MdNode::Image { alt, url } => seq![(alt@, url@)],
            MdNode::ImageReference { alt, identifier } => match destination_of(d, identifier@) {
                Some(url) => seq![(alt@, url)],
                None => Seq::<ImageModel>::empty(),
            },
            _ => Seq::<ImageModel>::empty(),
        });
    }
    match children_of(node) {
        Some(children) => {
            let mut i: usize = 0;
            while i < children.len()
                invariant
                    i <= children@.len(),
                    child_nodes(*node) == Some(*children),
                    d == definition_models(defs@),
                    image_models(images@) == own + images_in_all(*children, i as int, d),
                decreases children@.len() - i,
            {
                proof {
                    lemma_child_nodes_decrease(*node);
                    assert(decreases_to!(*children => children[i as int]));
                }
                collect_images(&children[i], defs, images);
                proof {
                    assert(image_models(images@) =~= own + images_in_all(*children, i + 1, d));
                }
                i = i + 1;
            }
        },
        None => {},
    }
}

/// The source text of each definition whose span lies on character
/// boundaries of `source`, in order.
pub open spec fn definition_texts(source: Seq<char>, defs: Seq<DefinitionModel>) -> Seq<Seq<char>>
    decreases defs.len(),
{
    if defs.len() == 0 {
        Seq::empty()
    } else {
        definition_texts(source, defs.drop_last()) + match defs.last().2 {
            Some((a, b)) => if a <= b && is_boundary(source, a as int) && is_boundary(
                source,
                b as int,
            ) {
                seq![source.subrange(char_index_at(source, a as int), char_index_at(source, b as int))]
            } else {
                Seq::empty()
            },
            None => Seq::empty(),
        }
    }
}

/// The character sequences of a list of strings.
pub open spec fn string_views(v: Seq<String>) -> Seq<Seq<char>> {
    v.map_values(|s: String| s@)
}

proof fn lemma_utf8_len_bound(s: Seq<char>)
    ensures
        utf8_len(s) <= 4 * s.len(),
    decreases s.len(),
{
    if s.len() > 0 {
        lemma_utf8_len_bound(s.drop_last());
    }
}

/// The byte offset of every character boundary of `s`.
fn boundary_offsets(s: &[char]) -> (r: Vec<u128>)
    ensures
        r@.len() == s@.len() + 1,
        forall|k: int| 0 <= k <= s@.len() ==> r@[k] == byte_offset(s@, k),
{
    let mut r: Vec<u128> = Vec::new();
    r.push(0);
    proof {
        assert(s@.take(0) =~= Seq::<char>::empty());
    }
    let mut b: u128 = 0;
    let mut i: usize = 0;
    while i < s.len()
        invariant
            i <= s@.len(),
            r@.len() == i + 1,
            b == byte_offset(s@, i as int),
            forall|k: int| 0 <= k <= i ==> r@[k] == byte_offset(s@, k),
        decreases s@.len() - i,
    {
        proof {
            crate::text::lemma_byte_offset_step(s@, i as int);
            lemma_utf8_len_bound(s@.take(i + 1));
        }
        b = b + crate::text::char_width_of(s[i]) as u128;
        r.push(b);
        i = i + 1;
    }
    r
}

/// The character index at which byte `b` begins, if it is a boundary.
fn index_of_offset(s: &[char], offsets: &Vec<u128>, b: usize) -> (r: Option<usize>)
    requires
        offsets@.len() == s@.len() + 1,
        forall|k: int| 0 <= k <= s@.len() ==> offsets@[k] == byte_offset(s@, k),
    ensures
        match r {
            Some(k) => is_boundary(s@, b as int) && k == char_index_at(s@, b as int) && k
                <= s@.len(),
            None => !is_boundary(s@, b as int),
        },
{
    let mut k: usize = 0;
    while k < offsets.len()
        invariant
            offsets@.len() == s@.len() + 1,
            forall|m: int| 0 <= m <= s@.len() ==> offsets@[m] == byte_offset(s@, m),
            k <= offsets@.len(),
            forall|m: int| 0 <= m < k ==> byte_offset(s@, m) != b,
        decreases offsets@.len() - k,
    {
        if offsets[k] == b as u128 {
            proof {
                assert(is_boundary(s@, b as int));
                let c = char_index_at(s@, b as int);
                if c != k {
                    if c < k {
                        crate::text::lemma_byte_offset_strict(s@, c, k as int);
                    } else {
                        crate::text::lemma_byte_offset_strict(s@, k as int, c);
                    }
                }
            }
            return Some(k);
        }
        k = k + 1;
    }
    None
}

/// The source texts of the link reference definitions that lie on
/// character boundaries of `source`, in order.
fn definition_sources(source: &str, defs: &Vec<Definition>) -> (r: Vec<String>)
    ensures
        string_views(r@) == definition_texts(source@, definition_models(defs@)),
{
    let v = crate::text::chars_of(source);
    let offsets = boundary_offsets(v.as_slice());
    let mut texts: Vec<String> = Vec::new();
    let mut i: usize = 0;
    while i < defs.len()
        invariant
            i <= defs@.len(),
            v@ == source@,
            offsets@.len() == v@.len() + 1,
            forall|k: int| 0 <= k <= v@.len() ==> offsets@[k] == byte_offset(v@, k),
            string_views(texts@) == definition_texts(source@, definition_models(defs@.take(i as int))),
        decreases defs@.len() - i,
    {
        proof {
            assert(definition_models(defs@.take(i + 1)).drop_last() =~= definition_models(
                defs@.take(i as int),
            ));
            assert(definition_models(defs@.take(i + 1)).last() == defs@[i as int].model());
        }
        let ghost before = texts@;
        match defs[i].span {
            Some((a, b)) => {
                if a <= b {
                    match (index_of_offset(v.as_slice(), &offsets, a), index_of_offset(v.as_slice(), &offsets, b)) {
                        (Some(ka), Some(kb)) => {
                            proof {
                                if kb < ka {
                                    crate::text::lemma_byte_offset_strict(v@, kb as int, ka as int);
                                }
                            }
                            texts.push(crate::text::string_of_range(v.as_slice(), ka, kb));
                            proof {
                                assert(string_views(texts@) =~= string_views(before).push(
                                    v@.subrange(ka as int, kb as int),
                                ));
                            }
                        },
                        _ => {},
                    }
                }
            },
            None => {},
        }
        proof {
            assert(string_views(texts@) =~= definition_texts(
                source@,
                definition_models(defs@.take(i + 1)),
            ));
        }
        i = i + 1;
    }
    proof {
        assert(defs@.take(defs@.len() as int) =~= defs@);
    }
    texts
}

/// The preview of a note whose syntax tree is `tree`: the blocks its
/// top-level nodes show, the images it shows in document order (image
/// references resolved through the last definition of their identifier),
/// and the source text of its link reference definitions.
pub fn preview_of_tree(source: &str, tree: &MdNode) -> (r: PreviewDocument)
    ensures
        block_models(r.blocks@) == document_blocks(*tree),
        image_models(r.images@) == images_in(*tree, definitions_in(*tree)),
        string_views(r.link_definitions@) == definition_texts(source@, definitions_in(*tree)),
{
    let mut defs: Vec<Definition> = Vec::new();
    collect_definitions(tree, &mut defs);
    proof {
        assert(definition_models(defs@) =~= definitions_in(*tree));
    }
    let mut images: Vec<ImageReference> = Vec::new();
    collect_images(tree, &defs, &mut images);
    proof {
        assert(image_models(images@) =~= images_in(*tree, definitions_in(*tree)));
    }
    let link_definitions = definition_sources(source, &defs);
    let mut blocks: Vec<PreviewBlock> = Vec::new();
    match tree {
        MdNode::Root { children } => {
            let mut i: usize = 0;
            while i < children.len()
                invariant
                    i <= children@.len(),
                    block_models(blocks@) == nodes_blocks(*children, i as int),
                decreases children@.len() - i,
            {
                let mut more = block_from_node(&children[i]);
                let ghost before = blocks@;
                blocks.append(&mut more);
                proof {
                    assert(block_models(blocks@) =~= nodes_blocks(*children, i + 1));
                }
                i = i + 1;
            }
        },
        _ => {
            blocks = block_from_node(tree);
        },
    }
    PreviewDocument { blocks, images, link_definitions }
}

/// The syntax tree node of the `markdown` crate.
#[verifier::external_type_specification]
#[verifier::external_body]
pub struct ExMdastNode(::markdown::mdast::Node);

/// The syntax tree that `markdown::to_mdast` builds for `source` under
/// CommonMark with the GitHub extensions and front matter, as an `MdNode`
/// tree; `None` when the parser reports an error.
pub uninterp spec fn markdown_tree(source: Seq<char>) -> Option<MdNode>;

/// `markdown::to_mdast` with the GitHub extensions and front matter enabled.
/// Trusted to give `markdown_tree(source)`: the parser's tree converted node
/// for node, or `None` when the parser reports an error.
#[verifier::external_body]
fn parse_markdown(source: &str) -> (r: Option<MdNode>)
    ensures
        r == markdown_tree(source@),
{
    let options = ::markdown::ParseOptions {
        constructs: ::markdown::Constructs { frontmatter: true, ..::markdown::Constructs::gfm() },
        ..::markdown::ParseOptions::gfm()
    };
    match ::markdown::to_mdast(source, &options) {
        Ok(root) => Some(from_mdast(&root)),
        Err(_) => None,
    }
}

/// Converts a `markdown` syntax tree node into an `MdNode`, variant for
/// variant; this part handles the document and its block containers.
#[verifier::external_body]
fn from_mdast(node: &MdastNode) -> MdNode {
    match node {
        MdastNode::Root(x) => MdNode::Root { children: from_mdast_all(&x.children) },
        MdastNode::Heading(x) => MdNode::Heading { depth: x.depth, children: from_mdast_all(&x.children) },
        MdastNode::Paragraph(x) => MdNode::Paragraph { children: from_mdast_all(&x.children) },
        MdastNode::Blockquote(x) => MdNode::Blockquote { children: from_mdast_all(&x.children) },
        MdastNode::List(x) => MdNode::List { ordered: x.ordered, start: x.start, children: from_mdast_all(&x.children) },
        other => from_mdast_items(other),
    }
}

/// Continues `from_mdast`: list items (with their start offset), code
/// blocks and tables.
#[verifier::external_body]
fn from_mdast_items(node: &MdastNode) -> MdNode {
    match node {
        MdastNode::ListItem(x) => MdNode::ListItem {
            checked: x.checked,
            offset: x.position.as_ref().map(|p| p.start.offset),
            children: from_mdast_all(&x.children),
        },
        MdastNode::Code(x) => MdNode::Code { lang: x.lang.clone(), value: x.value.clone() },
        MdastNode::Table(x) => MdNode::Table { children: from_mdast_all(&x.children) },
        MdastNode::TableRow(x) => MdNode::TableRow { children: from_mdast_all(&x.children) },
        MdastNode::TableCell(x) => MdNode::TableCell { children: from_mdast_all(&x.children) },
        other => from_mdast_inline(other),
    }
}

/// Continues `from_mdast`: text and its styles, links and inline code.
#[verifier::external_body]
fn from_mdast_inline(node: &MdastNode) -> MdNode {
    match node {
        MdastNode::Text(x) => MdNode::Text { value: x.value.clone() },
        MdastNode::Emphasis(x) => MdNode::Emphasis { children: from_mdast_all(&x.children) },
        MdastNode::Strong(x) => MdNode::Strong { children: from_mdast_all(&x.children) },
        MdastNode::Delete(x) => MdNode::Delete { children: from_mdast_all(&x.children) },
        MdastNode::Link(x) => MdNode::Link { url: x.url.clone(), children: from_mdast_all(&x.children) },
        MdastNode::InlineCode(x) => MdNode::InlineCode { value: x.value.clone() },
        other => from_mdast_leaf(other),
    }
}

/// Continues `from_mdast`: images, definitions (with their byte span), HTML
/// and math.
#[verifier::external_body]
fn from_mdast_leaf(node: &MdastNode) -> MdNode {
    match node {
        MdastNode::Image(x) => MdNode::Image { alt: x.alt.clone(), url: x.url.clone() },
        MdastNode::ImageReference(x) => MdNode::ImageReference { alt: x.alt.clone(), identifier: x.identifier.clone() },
        MdastNode::Definition(x) => MdNode::Definition {
            identifier: x.identifier.clone(),
            url: x.url.clone(),
            span: x.position.as_ref().map(|p| (p.start.offset, p.end.offset)),
        },
        MdastNode::Html(x) => MdNode::Html { value: x.value.clone() },
        MdastNode::InlineMath(x) => MdNode::InlineMath { value: x.value.clone() },
        other => from_mdast_rest(other),
    }
}

/// Ends `from_mdast`: front matter, footnote references, breaks; any other
/// node keeps only its children.
#[verifier::external_body]
fn from_mdast_rest(node: &MdastNode) -> MdNode {
    match node {
        MdastNode::Yaml(x) => MdNode::Yaml { value: x.value.clone() },
        MdastNode::Toml(x) => MdNode::Toml { value: x.value.clone() },
        MdastNode::FootnoteReference(x) => MdNode::FootnoteReference { identifier: x.identifier.clone() },
        MdastNode::ThematicBreak(_) => MdNode::ThematicBreak,
        MdastNode::Break(_) => MdNode::Break,
        other => MdNode::Other { children: other.children().map_or_else(Vec::new, from_mdast_all) },
    }
}

/// Converts a list of `markdown` syntax tree nodes with `from_mdast`.
#[verifier::external_body]
fn from_mdast_all(nodes: &Vec<MdastNode>) -> Vec<MdNode> {
    nodes.iter().map(from_mdast).collect()
}

/// The preview of a note. When the parser reports an error the preview is
/// empty.
pub fn preview_document(source: &str) -> (r: PreviewDocument)
    ensures
        match markdown_tree(source@) {
            Some(tree) => {
                &&& block_models(r.blocks@) == document_blocks(tree)
                &&& image_models(r.images@) == images_in(tree, definitions_in(tree))
                &&& string_views(r.link_definitions@) == definition_texts(
                    source@,
                    definitions_in(tree),
                )
            },
            None => r.blocks@.len() == 0 && r.images@.len() == 0 && r.link_definitions@.len() == 0,
        },
{
    match parse_markdown(source) {
        Some(tree) => preview_of_tree(source, &tree),
        None => PreviewDocument { blocks: Vec::new(), images: Vec::new(), link_definitions: Vec::new() },
    }
}


proof fn lemma_nodes_blocks_prefix(nodes: Vec<MdNode>, k: int, m: int)
    requires
        0 <= k <= m <= nodes.len(),
    ensures
        nodes_blocks(nodes, m).len() >= nodes_blocks(nodes, k).len(),
        forall|i: int| 0 <= i < nodes_blocks(nodes, k).len() ==> #[trigger] nodes_blocks(nodes, m)[i]
            == nodes_blocks(nodes, k)[i],
    decreases m - k,
{
    if k < m {
        lemma_nodes_blocks_prefix(nodes, k, m - 1);
    }
}

/// A heading keeps its level in the preview: a heading of depth `d` shows as
/// a block of kind `Heading(d)`, whether it is the whole document or one of
/// the document's top-level nodes (the block right after those of the nodes
/// before it).
pub proof fn law_headings_keep_their_level(depth: u8, text: Vec<MdNode>, children: Vec<MdNode>, k: int)
    ensures
        document_blocks(MdNode::Heading { depth, children: text }).len() == 1,
        document_blocks(MdNode::Heading { depth, children: text })[0].0 == PreviewBlockKind::Heading(depth),
        (0 <= k < children.len() && children[k] is Heading) ==> ({
            let before = nodes_blocks(children, k).len();
            &&& before < document_blocks(MdNode::Root { children }).len()
            &&& document_blocks(MdNode::Root { children })[before as int].0 == PreviewBlockKind::Heading(
                children[k]->depth,
            )
        }),
{
    if 0 <= k < children.len() && children[k] is Heading {
        lemma_nodes_blocks_prefix(children, k + 1, children.len() as int);
        let before = nodes_blocks(children, k);
        assert(nodes_blocks(children, k + 1) == before + node_blocks(children[k]));
        assert(nodes_blocks(children, k + 1)[before.len() as int] == node_blocks(children[k])[0]);
    }
}
} // verus!

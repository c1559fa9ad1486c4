//! A YAML document as a tree of plain values.
//!
//! The text is read by `serde_yaml`; everything after that works on [`Node`],
//! which keeps exactly what the descriptor schema looks at.

use vstd::prelude::*;

verus! {

/// `serde_yaml::Value`, a parsed document as `serde_yaml` holds it. Nothing
/// is known of what is inside but through [`value_tree`].
#[verifier::external_type_specification]
#[verifier::external_body]
pub struct ExValue(serde_yaml::Value);

/// One node of a parsed YAML document.
#[derive(Debug, PartialEq)]
pub enum Node {
    /// `~`, `null` or nothing at all.
    Null,
    /// `true` or `false`.
    Bool(bool),
    /// A number, as `serde_yaml` prints its value: `7` for `7`, and for
    /// `0x10` sixteen.
    Number(String),
    /// A string scalar.
    Text(String),
    /// A sequence, in document order.
    List(Vec<Node>),
    /// A mapping, entry by entry in document order.
    Table(Vec<(Node, Node)>),
}

/// The mathematical value of a [`Node`].
pub ghost enum Tree {
    Null,
    Bool(bool),
    Number(Seq<char>),
    Text(Seq<char>),
    List(Seq<Tree>),
    Table(Seq<(Tree, Tree)>),
}

/// The trees of a list's items.
pub open spec fn trees(items: Seq<Node>) -> Seq<Tree> {
    Seq::new(items.len(), |i: int| items[i]@)
}

/// The trees of a table's entries.
pub open spec fn pairs(entries: Seq<(Node, Node)>) -> Seq<(Tree, Tree)> {
    Seq::new(entries.len(), |i: int| (entries[i].0@, entries[i].1@))
}

/// The tree that a node stands for.
pub open spec fn tree(node: Node) -> Tree
    decreases node,
{
    match node {
        Node::Null => Tree::Null,
        Node::Bool(b) => Tree::Bool(b),
        Node::Number(n) => Tree::Number(n@),
        Node::Text(s) => Tree::Text(s@),
        Node::List(items) => Tree::List(
            Seq::new(
                items@.len(),
                |i: int| if 0 <= i < items@.len() { tree(items@[i]) } else { Tree::Null },
            ),
        ),
        Node::Table(entries) => Tree::Table(
            Seq::new(
                entries@.len(),
                |i: int|
                    if 0 <= i < entries@.len() {
                        (tree(entries@[i].0), tree(entries@[i].1))
                    } else {
                        (Tree::Null, Tree::Null)
                    },
            ),
        ),
    }
}

impl View for Node {
    type V = Tree;

    open spec fn view(&self) -> Tree {
        tree(*self)
    }
}

/// How much indentation and how many opening marks a line may have
/// together for the text to be read.
pub const DEPTH_LIMIT: usize = 64;

/// A space or a tab.
pub open spec fn is_blank(c: char) -> bool {
    c == ' ' || c == '\t'
}

/// A character that ends a line.
pub open spec fn is_break(c: char) -> bool {
    c == '\n' || c == '\r'
}

/// One of the marks `-`, `?` and `:`. Where a blank, a line's end or the
/// text's end follows, such a mark may open a block collection.
pub open spec fn is_mark(c: char) -> bool {
    c == '-' || c == '?' || c == ':'
}

/// A character after which a mark counts.
pub open spec fn ends_mark(c: char) -> bool {
    is_blank(c) || is_break(c) || c == '\0'
}

/// One more, as long as that is worth counting.
pub open spec fn bump(weight: nat) -> nat {
    if weight <= DEPTH_LIMIT {
        weight + 1
    } else {
        weight
    }
}

/// Where a reading of a text for its depth stands.
pub ghost struct Scan {
    /// Nothing but blanks on this line so far.
    pub leading: bool,
    /// The last character was a mark.
    pub mark: bool,
    /// The blanks that lead this line and the marks on it that count, so
    /// far.
    pub weight: nat,
    /// The most that any line weighed at any place.
    pub most: nat,
}

/// The reading of a text, one character on.
pub open spec fn scan_char(s: Scan, c: char) -> Scan {
    let counted = if s.mark && ends_mark(c) {
        bump(s.weight)
    } else {
        s.weight
    };
    let most = if counted > s.most {
        counted
    } else {
        s.most
    };
    if is_break(c) {
        Scan { leading: true, mark: false, weight: 0, most }
    } else if s.leading && is_blank(c) {
        let led = bump(counted);
        Scan {
            leading: true,
            mark: false,
            weight: led,
            most: if led > most {
                led
            } else {
                most
            },
        }
    } else {
        Scan { leading: false, mark: is_mark(c), weight: counted, most }
    }
}

/// The reading of a whole text.
pub open spec fn scan(text: Seq<char>) -> Scan
    decreases text.len(),
{
    if text.len() == 0 {
        Scan { leading: true, mark: false, weight: 0, most: 0 }
    } else {
        scan_char(scan(text.drop_last()), text.last())
    }
}

/// The most that a line of the text weighs at any place: the blanks that
/// lead it, and the marks before that place that count. A mark at the very
/// end of the text counts.
pub open spec fn weight_of(text: Seq<char>) -> nat {
    let s = scan(text);
    if s.mark && bump(s.weight) > s.most {
        bump(s.weight)
    } else {
        s.most
    }
}

/// A text that is read. The parser goes one call deeper for each collection
/// that is open. A block collection opens at a mark that counts, at a
/// column of its own, so at no place are more open than the line is
/// indented, and one, and the marks that count before the place on its
/// line. With the weight of every line bounded, the depth of block
/// collections is bounded; that of flow collections the parser bounds
/// itself.
pub open spec fn is_shallow(text: Seq<char>) -> bool {
    weight_of(text) <= DEPTH_LIMIT
}

/// Tells whether a text is read.
pub fn shallow(text: &str) -> (r: bool)
    ensures
        r == is_shallow(text@),
{
    let mut leading = true;
    let mut mark = false;
    let mut weight: usize = 0;
    let mut most: usize = 0;
    for c in it: text.chars()
        invariant
            it.seq() == text@,
            weight <= DEPTH_LIMIT + 1,
            most <= DEPTH_LIMIT + 1,
            scan(text@.take(it.index() as int)) == (Scan {
                leading,
                mark,
                weight: weight as nat,
                most: most as nat,
            }),
    {
        let ghost at = it.index() as int;
        assert(c == text@[at]);
        assert(text@.take(at + 1).drop_last() =~= text@.take(at));
        assert(text@.take(at + 1).last() == c);
        let blank = c == ' ' || c == '\t';
        let broken = c == '\n' || c == '\r';
        if mark && (blank || broken || c == '\0') && weight <= DEPTH_LIMIT {
            weight = weight + 1;
        }
        if weight > most {
            most = weight;
        }
        if broken {
            leading = true;
            mark = false;
            weight = 0;
        } else if leading && blank {
            mark = false;
            if weight <= DEPTH_LIMIT {
                weight = weight + 1;
            }
            if weight > most {
                most = weight;
            }
        } else {
            leading = false;
            mark = c == '-' || c == '?' || c == ':';
        }
    }
    assert(text@.take(text@.len() as int) =~= text@);
    if mark && weight <= DEPTH_LIMIT && weight + 1 > most {
        most = weight + 1;
    }
    most <= DEPTH_LIMIT
}

/// Why a text was not read into a tree.
#[derive(Debug, PartialEq)]
pub enum Unread {
    /// The text is indented or marked more deeply than is read.
    TooDeep,
    /// The text is no YAML; the parser's message.
    Syntax(String),
}

pub ghost enum UnreadView {
    TooDeep,
    Syntax(Seq<char>),
}

impl View for Unread {
    type V = UnreadView;

    open spec fn view(&self) -> UnreadView {
        match self {
            Unread::TooDeep => UnreadView::TooDeep,
            Unread::Syntax(message) => UnreadView::Syntax(message@),
        }
    }
}

/// What a text is read as: its tree, or why it has none.
pub open spec fn document(text: Seq<char>) -> Result<Tree, UnreadView> {
    if !is_shallow(text) {
        Err(UnreadView::TooDeep)
    } else {
        match yaml_document(text) {
            Ok(tree) => Ok(tree),
            Err(message) => Err(UnreadView::Syntax(message)),
        }
    }
}

/// What `serde_yaml::from_str` makes of a text: the document as a value of
/// `serde_yaml`, seen as a tree, or the message of the error it reports.
pub uninterp spec fn yaml_document(text: Seq<char>) -> Result<Tree, Seq<char>>;

/// What a value of `serde_yaml` holds, as a tree.
pub uninterp spec fn value_tree(value: serde_yaml::Value) -> Tree;

/// The trees of a sequence's items.
pub open spec fn value_trees(items: Seq<serde_yaml::Value>) -> Seq<Tree> {
    Seq::new(items.len(), |i: int| value_tree(items[i]))
}

/// The trees of a mapping's entries.
pub open spec fn value_pairs(entries: Seq<(serde_yaml::Value, serde_yaml::Value)>) -> Seq<
    (Tree, Tree),
> {
    Seq::new(entries.len(), |i: int| (value_tree(entries[i].0), value_tree(entries[i].1)))
}

/// A value of `serde_yaml` taken apart one level: its kind, with what it
/// holds directly.
enum Shape {
    Null,
    Bool(bool),
    Number(String),
    Text(String),
    List(Vec<serde_yaml::Value>),
    Table(Vec<(serde_yaml::Value, serde_yaml::Value)>),
}

/// Calls `serde_yaml::from_str` for a `serde_yaml::Value`. The contract only
/// gives the outcome its name: the same text always reads as the same
/// value, or fails with the same message.
///
/// The parser behind it calls itself once for each collection that is open,
/// without a bound on block collections, so a text that may nest them
/// deeply is left out.
#[verifier::external_body]
fn from_text(text: &str) -> (r: Result<serde_yaml::Value, String>)
    requires
        is_shallow(text@),
    ensures
        match r {
            Ok(value) => yaml_document(text@) == Ok::<Tree, Seq<char>>(value_tree(value)),
            Err(message) => yaml_document(text@) == Err::<Tree, Seq<char>>(message@),
        },
{
    match serde_yaml::from_str::<serde_yaml::Value>(text) {
        Ok(value) => Ok(value),
        Err(e) => Err(e.to_string()),
    }
}

/// Tells the variants of `serde_yaml::Value` apart and hands out what each
/// holds: a scalar's value, a number as its `Display` prints it, a
/// sequence's items in order, a mapping's entries in the order the mapping
/// keeps them. The contract says that the
/// value's tree is made of just that.
#[verifier::external_body]
fn shape(value: serde_yaml::Value) -> (r: Shape)
    ensures
        match r {
            Shape::Null => value_tree(value) == Tree::Null,
            Shape::Bool(b) => value_tree(value) == Tree::Bool(b),
            Shape::Number(n) => value_tree(value) == Tree::Number(n@),
            Shape::Text(s) => value_tree(value) == Tree::Text(s@),
            Shape::List(items) => value_tree(value) == Tree::List(value_trees(items@)),
            Shape::Table(entries) => value_tree(value) == Tree::Table(value_pairs(entries@)),
        },
{
    match value {
        serde_yaml::Value::Null => Shape::Null,
        serde_yaml::Value::Bool(b) => Shape::Bool(b),
        serde_yaml::Value::Number(n) => Shape::Number(n.to_string()),
        serde_yaml::Value::String(s) => Shape::Text(s),
        serde_yaml::Value::Sequence(items) => Shape::List(items),
        serde_yaml::Value::Mapping(entries) => Shape::Table(entries.into_iter().collect()),
    }
}

/// A list's tree holds the trees of its items.
pub proof fn lemma_list_view(items: Vec<Node>)
    ensures
        Node::List(items)@ == Tree::List(trees(items@)),
{
    assert(Node::List(items)@->List_0 =~= trees(items@));
}

/// A table's tree holds the trees of its entries.
pub proof fn lemma_table_view(entries: Vec<(Node, Node)>)
    ensures
        Node::Table(entries)@ == Tree::Table(pairs(entries@)),
{
    let shown = Node::Table(entries)@->Table_0;
    assert forall|i: int| 0 <= i < shown.len() implies shown[i] == pairs(entries@)[i] by {
        assert(shown[i] == (entries@[i].0@, entries@[i].1@));
    }
    assert(shown =~= pairs(entries@));
}

/// A sequence turned round.
spec fn turned<A>(s: Seq<A>) -> Seq<A> {
    Seq::new(s.len(), |i: int| s[s.len() - 1 - i])
}

/// Puts the items of a vector in the opposite order.
fn turn<A>(items: Vec<A>) -> (r: Vec<A>)
    ensures
        r@ == turned(items@),
{
    let mut items = items;
    let ghost all = items@;
    let mut r: Vec<A> = Vec::new();
    while items.len() > 0
        invariant
            items.len() + r.len() == all.len(),
            items@ == all.subrange(0, items.len() as int),
            forall|i: int| 0 <= i < r.len() ==> r@[i] == all[all.len() - 1 - i],
        decreases items.len(),
    {
        let item = items.pop().unwrap();
        r.push(item);
    }
    assert(r@ =~= turned(all));
    r
}

impl Node {
    /// The node for a value of `serde_yaml`: the same tree, in plain values.
    fn of(value: serde_yaml::Value) -> (node: Node)
        ensures
            node@ == value_tree(value),
        decreases value_tree(value),
    {
        match shape(value) {
            Shape::Null => Node::Null,
            Shape::Bool(b) => Node::Bool(b),
            Shape::Number(n) => Node::Number(n),
            Shape::Text(s) => Node::Text(s),
            Shape::List(items) => {
                let ghost all = items@;
                let ghost whole = value_tree(value);
                let mut items = turn(items);
                let mut nodes: Vec<Node> = Vec::new();
                while items.len() > 0
                    invariant
                        whole == Tree::List(value_trees(all)),
                        whole == value_tree(value),
                        items.len() + nodes.len() == all.len(),
                        forall|i: int|
                            0 <= i < items.len() ==> items@[i] == all[all.len() - 1 - i],
                        forall|i: int| 0 <= i < nodes.len() ==> nodes@[i]@ == value_tree(all[i]),
                    decreases items.len(),
                {
                    let ghost at = nodes.len() as int;
                    let item = items.pop().unwrap();
                    assert(item == all[at]);
                    assert(value_trees(all)[at] == value_tree(item));
                    proof {
                        let below = whole->List_0;
                        assert(below == value_trees(all));
                        assert(decreases_to!(whole => below));
                        vstd::seq::axiom_seq_index_decreases(below, at);
                        assert(decreases_to!(whole => value_tree(item)));
                    }
                    let node = Node::of(item);
                    nodes.push(node);
                }
                proof {
                    lemma_list_view(nodes);
                    assert(trees(nodes@) =~= value_trees(all));
                }
                Node::List(nodes)
            },
            Shape::Table(entries) => {
                let ghost all = entries@;
                let ghost whole = value_tree(value);
                let mut entries = turn(entries);
                let mut nodes: Vec<(Node, Node)> = Vec::new();
                while entries.len() > 0
                    invariant
                        whole == Tree::Table(value_pairs(all)),
                        whole == value_tree(value),
                        entries.len() + nodes.len() == all.len(),
                        forall|i: int|
                            0 <= i < entries.len() ==> entries@[i] == all[all.len() - 1 - i],
                        forall|i: int|
                            0 <= i < nodes.len() ==> nodes@[i].0@ == value_tree(all[i].0)
                                && nodes@[i].1@ == value_tree(all[i].1),
                    decreases entries.len(),
                {
                    let ghost at = nodes.len() as int;
                    let entry = entries.pop().unwrap();
                    assert(entry == all[at]);
                    assert(value_pairs(all)[at] == (value_tree(entry.0), value_tree(entry.1)));
                    proof {
                        let below = whole->Table_0;
                        assert(below == value_pairs(all));
                        assert(decreases_to!(whole => below));
                        vstd::seq::axiom_seq_index_decreases(below, at);
                        assert(decreases_to!(below[at] => below[at].0));
                        assert(decreases_to!(below[at] => below[at].1));
                        assert(decreases_to!(whole => value_tree(entry.0)));
                        assert(decreases_to!(whole => value_tree(entry.1)));
                    }
                    let key = Node::of(entry.0);
                    let held = Node::of(entry.1);
                    nodes.push((key, held));
                }
                proof {
                    lemma_table_view(nodes);
                    assert(pairs(nodes@) =~= value_pairs(all));
                }
                Node::Table(nodes)
            },
        }
    }

    /// Reads a YAML text into its tree, as [`document`] lays down.
    pub fn read(text: &str) -> (r: Result<Node, Unread>)
        ensures
            match r {
                Ok(node) => document(text@) == Ok::<Tree, UnreadView>(node@),
                Err(e) => document(text@) == Err::<Tree, UnreadView>(e@),
            },
    {
        if !shallow(text) {
            return Err(Unread::TooDeep);
        }
        match from_text(text) {
            Ok(value) => Ok(Node::of(value)),
            Err(message) => Err(Unread::Syntax(message)),
        }
    }
}

} // verus!

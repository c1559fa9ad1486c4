//! The descriptor: named groups, each an ordered list of bundles.
//!
//! The document's syntax is YAML and is read by `serde_yaml`. Its schema is
//! laid down here, by [`document_of`], over the tree that came out. A
//! document is a mapping from group names to sequences of bundles. A bundle
//! is a mapping with up to three entries, each a mapping itself:
//!
//! * `package`, with `name` (a scalar; empty if left out);
//! * `link`, with `dst` and `src` (scalars, both required), `relink` (a
//!   boolean, `false` if left out) and `create` (a boolean, `true` if left
//!   out);
//! * `shell`, with `command` (a scalar; empty if left out).
//!
//! A name, a path and a command are taken as text whatever kind of scalar
//! they read as: a number by the text that `serde_yaml` prints for it, a
//! boolean as `true` or `false`. A null has no text. An entry of a bundle
//! that is left out or null is not there. Other entries are passed over.

use crate::error::{IoFailure, IoFailureView, IoKind};
use crate::pacman::{Package, PackageView};
use crate::shell::{Shell, ShellView};
use crate::symlink::{SymLink, SymLinkView};
use crate::yaml::{
    document, lemma_list_view, lemma_table_view, pairs, trees, Node, Tree, Unread, UnreadView,
};
use vstd::prelude::*;
use vstd::std_specs::convert::FromSpecImpl;
use vstd::string::StringExecFns;

verus! {

/// Where a document departs from the schema.
#[derive(Debug, Clone, Copy, PartialEq, Eq, Structural)]
pub enum Fault {
    /// The document is not a mapping.
    Document,
    /// The name of a group is not a scalar with a text.
    GroupName,
    /// Two groups have the same name.
    Duplicate,
    /// A group is not a sequence.
    Group,
    /// A bundle is not a mapping.
    Bundle,
    /// A `package` entry is not a mapping, or its `name` has no text.
    Package,
    /// A `link` entry is not a mapping, lacks `dst` or `src`, or has an
    /// entry of the wrong type.
    Link,
    /// A `shell` entry is not a mapping, or its `command` has no text.
    Shell,
}

/// Why there is no descriptor.
#[derive(Debug, PartialEq)]
pub enum Error {
    /// There is no file where the descriptor should be.
    NotFound,
    /// The file is there and could not be read.
    Io(IoFailure),
    /// The text is indented or marked more deeply than is read.
    TooDeep,
    /// Not valid YAML; the parser's message.
    Yaml(String),
    /// Valid YAML that is no descriptor.
    Schema(Fault),
}

pub ghost enum ErrorView {
    NotFound,
    Io(IoFailureView),
    TooDeep,
    Yaml(Seq<char>),
    Schema(Fault),
}

impl View for Error {
    type V = ErrorView;

    open spec fn view(&self) -> ErrorView {
        match self {
            Error::NotFound => ErrorView::NotFound,
            Error::Io(failure) => ErrorView::Io(failure@),
            Error::TooDeep => ErrorView::TooDeep,
            Error::Yaml(message) => ErrorView::Yaml(message@),
            Error::Schema(fault) => ErrorView::Schema(*fault),
        }
    }
}

impl Fault {
    /// What is wrong, in words.
    pub open spec fn text(self) -> Seq<char> {
        match self {
            Fault::Document => "the document is not a mapping of groups"@,
            Fault::GroupName => "the name of a group is not a scalar"@,
            Fault::Duplicate => "two groups have the same name"@,
            Fault::Group => "a group is not a sequence of bundles"@,
            Fault::Bundle => "a bundle is not a mapping"@,
            Fault::Package => "invalid package"@,
            Fault::Link => "invalid link"@,
            Fault::Shell => "invalid shell command"@,
        }
    }

    /// What is wrong, in words.
    pub fn describe(self) -> (text: String)
        ensures
            text@ == self.text(),
    {
        match self {
            Fault::Document => String::from_str("the document is not a mapping of groups"),
            Fault::GroupName => String::from_str("the name of a group is not a scalar"),
            Fault::Duplicate => String::from_str("two groups have the same name"),
            Fault::Group => String::from_str("a group is not a sequence of bundles"),
            Fault::Bundle => String::from_str("a bundle is not a mapping"),
            Fault::Package => String::from_str("invalid package"),
            Fault::Link => String::from_str("invalid link"),
            Fault::Shell => String::from_str("invalid shell command"),
        }
    }
}

impl ErrorView {
    /// The text shown to the user for this error.
    pub open spec fn message(self) -> Seq<char> {
        match self {
            ErrorView::NotFound => "Unable to locate config file"@,
            ErrorView::Io(failure) => failure.message,
            ErrorView::TooDeep => "Problem with config: nested too deeply"@,
            ErrorView::Yaml(message) => "Problem with config: "@ + message,
            ErrorView::Schema(fault) => "Problem with config: "@ + fault.text(),
        }
    }
}

impl Error {
    /// The text shown to the user for this error.
    pub fn message(&self) -> (text: String)
        ensures
            text@ == self@.message(),
    {
        match self {
            Error::NotFound => String::from_str("Unable to locate config file"),
            Error::Io(failure) => failure.message.clone(),
            Error::TooDeep => String::from_str("Problem with config: nested too deeply"),
            Error::Yaml(message) => String::from_str("Problem with config: ").concat(
                message.as_str(),
            ),
            Error::Schema(fault) => String::from_str("Problem with config: ").concat(
                fault.describe().as_str(),
            ),
        }
    }
}

impl From<IoFailure> for Error {
    /// A file that is not there has an error of its own; any other failure
    /// to read is handed on.
    fn from(failure: IoFailure) -> (error: Error) {
        match failure.kind {
            IoKind::NotFound => Error::NotFound,
            _ => Error::Io(failure),
        }
    }
}

impl FromSpecImpl<IoFailure> for Error {
    open spec fn obeys_from_spec() -> bool {
        true
    }

    open spec fn from_spec(failure: IoFailure) -> Error {
        if failure.kind == IoKind::NotFound {
            Error::NotFound
        } else {
            Error::Io(failure)
        }
    }
}

/// One bundle: up to one package, one link and one shell command.
#[derive(Debug, PartialEq)]
pub struct Values {
    pub package: Option<Package>,
    pub link: Option<SymLink>,
    pub shell: Option<Shell>,
}

pub ghost struct ValuesView {
    pub package: Option<PackageView>,
    pub link: Option<SymLinkView>,
    pub shell: Option<ShellView>,
}

impl View for Values {
    type V = ValuesView;

    open spec fn view(&self) -> ValuesView {
        ValuesView {
            package: self.package.deep_view(),
            link: self.link.deep_view(),
            shell: self.shell.deep_view(),
        }
    }
}

impl DeepView for Values {
    type V = ValuesView;

    open spec fn deep_view(&self) -> ValuesView {
        self@
    }
}

impl Values {
    pub fn new(package: Option<Package>, link: Option<SymLink>, shell: Option<Shell>) -> (values:
        Values)
        ensures
            values.package == package,
            values.link == link,
            values.shell == shell,
    {
        Values { package, link, shell }
    }
}

/// A group: its name and its bundles in order.
#[derive(Debug, PartialEq)]
pub struct Group {
    pub name: String,
    pub values: Vec<Values>,
}

pub ghost struct GroupView {
    pub name: Seq<char>,
    pub values: Seq<ValuesView>,
}

impl View for Group {
    type V = GroupView;

    open spec fn view(&self) -> GroupView {
        GroupView { name: self.name@, values: self.values.deep_view() }
    }
}

impl DeepView for Group {
    type V = GroupView;

    open spec fn deep_view(&self) -> GroupView {
        self@
    }
}

impl Group {
    pub fn new(name: &str, values: Vec<Values>) -> (group: Group)
        ensures
            group@ == (GroupView { name: name@, values: values.deep_view() }),
    {
        Group { name: name.to_owned(), values }
    }
}

/// No two groups have the same name.
pub open spec fn distinct(groups: Seq<GroupView>) -> bool {
    forall|i: int, j: int| 0 <= i < j < groups.len() ==> groups[i].name != groups[j].name
}

/// Some group has this name.
pub open spec fn has_group(groups: Seq<GroupView>, name: Seq<char>) -> bool {
    exists|i: int| 0 <= i < groups.len() && #[trigger] groups[i].name == name
}

/// The value of the first entry of a mapping whose key is the string `key`.
pub open spec fn field(entries: Seq<(Tree, Tree)>, key: Seq<char>) -> Option<Tree>
    decreases entries.len(),
{
    if entries.len() == 0 {
        None
    } else if entries.first().0 == Tree::Text(key) {
        Some(entries.first().1)
    } else {
        field(entries.drop_first(), key)
    }
}

/// The text of a scalar: a string's own, a number's as it is printed, and
/// `true` or `false` for a boolean. Nothing else has a text.
pub open spec fn scalar_text(tree: Tree) -> Option<Seq<char>> {
    match tree {
        Tree::Text(text) => Some(text),
        Tree::Number(text) => Some(text),
        Tree::Bool(flag) => Some(
            if flag {
                "true"@
            } else {
                "false"@
            },
        ),
        _ => None,
    }
}

/// A string entry: its text, or `default` where the entry is left out.
/// Nothing where the entry is there and has no text.
pub open spec fn text_or(entry: Option<Tree>, default: Seq<char>) -> Option<Seq<char>> {
    match entry {
        None => Some(default),
        Some(tree) => scalar_text(tree),
    }
}

/// A string entry that must be there: its text.
pub open spec fn text_of(entry: Option<Tree>) -> Option<Seq<char>> {
    match entry {
        None => None,
        Some(tree) => scalar_text(tree),
    }
}

/// A boolean entry: its value, or `default` where the entry is left out.
/// Nothing where the entry is there and no boolean.
pub open spec fn flag_or(entry: Option<Tree>, default: bool) -> Option<bool> {
    match entry {
        None => Some(default),
        Some(Tree::Bool(flag)) => Some(flag),
        Some(_) => None,
    }
}

/// The package that a `package` entry stands for, if it stands for one.
pub open spec fn package_of(tree: Tree) -> Option<PackageView> {
    match tree {
        Tree::Table(entries) => match text_or(field(entries, "name"@), Seq::empty()) {
            Some(name) => Some(PackageView { name }),
            None => None,
        },
        _ => None,
    }
}

/// The link that a `link` entry stands for, if it stands for one.
pub open spec fn link_of(tree: Tree) -> Option<SymLinkView> {
    match tree {
        Tree::Table(entries) => match (
            text_of(field(entries, "dst"@)),
            text_of(field(entries, "src"@)),
            flag_or(field(entries, "relink"@), false),
            flag_or(field(entries, "create"@), true),
        ) {
            (Some(dst), Some(src), Some(relink), Some(create)) => Some(
                SymLinkView { dst, src, relink, create },
            ),
            _ => None,
        },
        _ => None,
    }
}

/// The command that a `shell` entry stands for, if it stands for one.
pub open spec fn shell_of(tree: Tree) -> Option<ShellView> {
    match tree {
        Tree::Table(entries) => match text_or(field(entries, "command"@), Seq::empty()) {
            Some(command) => Some(ShellView { command }),
            None => None,
        },
        _ => None,
    }
}

/// An entry of a bundle: nothing where it is left out or null.
pub open spec fn member(entries: Seq<(Tree, Tree)>, key: Seq<char>) -> Option<Tree> {
    match field(entries, key) {
        Some(Tree::Null) => None,
        other => other,
    }
}

/// The bundle that a tree stands for, or the first thing wrong with it,
/// looking at the package, then the link, then the command.
pub open spec fn bundle_of(tree: Tree) -> Result<ValuesView, Fault> {
    match tree {
        Tree::Table(entries) => {
            let package = member(entries, "package"@);
            let link = member(entries, "link"@);
            let shell = member(entries, "shell"@);
            if package is Some && package_of(package->0) is None {
                Err(Fault::Package)
            } else if link is Some && link_of(link->0) is None {
                Err(Fault::Link)
            } else if shell is Some && shell_of(shell->0) is None {
                Err(Fault::Shell)
            } else {
                Ok(
                    ValuesView {
                        package: if package is Some {
                            package_of(package->0)
                        } else {
                            None
                        },
                        link: if link is Some {
                            link_of(link->0)
                        } else {
                            None
                        },
                        shell: if shell is Some {
                            shell_of(shell->0)
                        } else {
                            None
                        },
                    },
                )
            }
        },
        _ => Err(Fault::Bundle),
    }
}

/// The bundles that a sequence of trees stands for, after those in `done`;
/// or the first thing wrong.
pub open spec fn bundles_from(items: Seq<Tree>, done: Seq<ValuesView>) -> Result<
    Seq<ValuesView>,
    Fault,
>
    decreases items.len(),
{
    if items.len() == 0 {
        Ok(done)
    } else {
        match bundle_of(items.first()) {
            Ok(values) => bundles_from(items.drop_first(), done.push(values)),
            Err(fault) => Err(fault),
        }
    }
}

/// The group that an entry of the document stands for, given the groups
/// `done` before it; or the first thing wrong with it.
pub open spec fn group_of(entry: (Tree, Tree), done: Seq<GroupView>) -> Result<GroupView, Fault> {
    match scalar_text(entry.0) {
        Some(name) => if has_group(done, name) {
            Err(Fault::Duplicate)
        } else {
            match entry.1 {
                Tree::List(items) => match bundles_from(items, Seq::empty()) {
                    Ok(values) => Ok(GroupView { name, values }),
                    Err(fault) => Err(fault),
                },
                _ => Err(Fault::Group),
            }
        },
        None => Err(Fault::GroupName),
    }
}

/// The groups that the entries of a document stand for, after those in
/// `done`; or the first thing wrong.
pub open spec fn groups_from(entries: Seq<(Tree, Tree)>, done: Seq<GroupView>) -> Result<
    Seq<GroupView>,
    Fault,
>
    decreases entries.len(),
{
    if entries.len() == 0 {
        Ok(done)
    } else {
        match group_of(entries.first(), done) {
            Ok(group) => groups_from(entries.drop_first(), done.push(group)),
            Err(fault) => Err(fault),
        }
    }
}

/// The schema: the groups that a document stands for, in its order, or the
/// first thing wrong with it.
pub open spec fn document_of(tree: Tree) -> Result<Seq<GroupView>, Fault> {
    match tree {
        Tree::Table(entries) => groups_from(entries, Seq::empty()),
        _ => Err(Fault::Document),
    }
}

/// What a text comes to as a descriptor: its groups; that it is too deep
/// to be read, or the parser's message, where it has no tree; or what is
/// wrong where its tree is no descriptor.
pub open spec fn descriptor_of(text: Seq<char>) -> Result<Seq<GroupView>, ErrorView> {
    match document(text) {
        Err(UnreadView::TooDeep) => Err(ErrorView::TooDeep),
        Err(UnreadView::Syntax(message)) => Err(ErrorView::Yaml(message)),
        Ok(tree) => match document_of(tree) {
            Ok(groups) => Ok(groups),
            Err(fault) => Err(ErrorView::Schema(fault)),
        },
    }
}

/// What [`bundles_from`] comes to, item by item: where it succeeds there
/// is one bundle for each item, in order, after those that were done; where
/// it fails, the fault is that of the first item that is no bundle.
pub proof fn lemma_bundles_item_by_item(items: Seq<Tree>, done: Seq<ValuesView>)
    ensures
        match bundles_from(items, done) {
            Ok(all) => {
                &&& all.len() == done.len() + items.len()
                &&& forall|i: int| 0 <= i < done.len() ==> all[i] == done[i]
                &&& forall|i: int|
                    0 <= i < items.len() ==> bundle_of(#[trigger] items[i]) == Ok::<
                        ValuesView,
                        Fault,
                    >(all[done.len() + i])
            },
            Err(fault) => exists|k: int|
                {
                    &&& 0 <= k < items.len()
                    &&& bundle_of(#[trigger] items[k]) == Err::<ValuesView, Fault>(fault)
                    &&& forall|i: int| 0 <= i < k ==> bundle_of(#[trigger] items[i]) is Ok
                },
        },
    decreases items.len(),
{
    if items.len() > 0 {
        let rest = items.drop_first();
        match bundle_of(items.first()) {
            Ok(values) => {
                lemma_bundles_item_by_item(rest, done.push(values));
                match bundles_from(rest, done.push(values)) {
                    Ok(all) => {
                        assert forall|i: int| 0 <= i < done.len() implies all[i] == done[i] by {
                            assert(done.push(values)[i] == done[i]);
                        }
                        assert forall|i: int| 0 <= i < items.len() implies bundle_of(
                            #[trigger] items[i],
                        ) == Ok::<ValuesView, Fault>(all[done.len() + i]) by {
                            if i == 0 {
                                assert(all[done.len() as int] == done.push(values)[done.len() as int]);
                            } else {
                                assert(items[i] == rest[i - 1]);
                            }
                        }
                    },
                    Err(fault) => {
                        let k = choose|k: int|
                            {
                                &&& 0 <= k < rest.len()
                                &&& bundle_of(#[trigger] rest[k]) == Err::<ValuesView, Fault>(fault)
                                &&& forall|i: int|
                                    0 <= i < k ==> bundle_of(#[trigger] rest[i]) is Ok
                            };
                        assert(items[k + 1] == rest[k]);
                        assert forall|i: int| 0 <= i < k + 1 implies bundle_of(
                            #[trigger] items[i],
                        ) is Ok by {
                            if i > 0 {
                                assert(items[i] == rest[i - 1]);
                            }
                        }
                    },
                }
            },
            Err(fault) => {
                assert(bundle_of(items[0]) == Err::<ValuesView, Fault>(fault));
            },
        }
    }
}

/// What [`groups_from`] comes to where it succeeds: one group for each
/// entry, in order, after those that were done; each named by its entry's
/// key and holding the bundles of its entry's sequence; and no two of one
/// name, if that held of those that were done.
pub proof fn lemma_groups_entry_by_entry(entries: Seq<(Tree, Tree)>, done: Seq<GroupView>)
    requires
        groups_from(entries, done) is Ok,
    ensures
        ({
            let all = groups_from(entries, done)->Ok_0;
            &&& all.len() == done.len() + entries.len()
            &&& forall|i: int| 0 <= i < done.len() ==> all[i] == done[i]
            &&& forall|i: int|
                #![trigger entries[i]]
                0 <= i < entries.len() ==> {
                    &&& scalar_text(entries[i].0) == Some(all[done.len() + i].name)
                    &&& entries[i].1 is List
                    &&& bundles_from(entries[i].1->List_0, Seq::empty()) == Ok::<
                        Seq<ValuesView>,
                        Fault,
                    >(all[done.len() + i].values)
                }
            &&& distinct(done) ==> distinct(all)
        }),
    decreases entries.len(),
{
    if entries.len() > 0 {
        let rest = entries.drop_first();
        let group = group_of(entries.first(), done)->Ok_0;
        let more = done.push(group);
        lemma_groups_entry_by_entry(rest, more);
        let all = groups_from(rest, more)->Ok_0;
        assert forall|i: int| 0 <= i < done.len() implies all[i] == done[i] by {
            assert(more[i] == done[i]);
        }
        assert(all[done.len() as int] == more[done.len() as int]);
        assert forall|i: int|
            #![trigger entries[i]]
            0 <= i < entries.len() implies {
            &&& scalar_text(entries[i].0) == Some(all[done.len() + i].name)
            &&& entries[i].1 is List
            &&& bundles_from(entries[i].1->List_0, Seq::empty()) == Ok::<Seq<ValuesView>, Fault>(
                all[done.len() + i].values,
            )
        } by {
            if i > 0 {
                assert(entries[i] == rest[i - 1]);
            }
        }
        if distinct(done) {
            assert forall|i: int, j: int| 0 <= i < j < more.len() implies more[i].name
                != more[j].name by {
                if j == done.len() {
                    assert(!has_group(done, group.name));
                    assert(done[i].name != group.name);
                }
            }
        }
    }
}

/// The tree of an entry that was looked up.
pub open spec fn tree_of(found: Option<&Node>) -> Option<Tree> {
    match found {
        Some(node) => Some(node@),
        None => None,
    }
}

fn lookup<'a>(entries: &'a Vec<(Node, Node)>, key: &str) -> (found: Option<&'a Node>)
    ensures
        tree_of(found) == field(pairs(entries@), key@),
{
    let ghost all = pairs(entries@);
    let wanted = String::from_str(key);
    let mut i: usize = 0;
    assert(all.subrange(0, all.len() as int) =~= all);
    while i < entries.len()
        invariant
            i <= entries.len(),
            all == pairs(entries@),
            wanted@ == key@,
            field(all, key@) == field(all.subrange(i as int, all.len() as int), key@),
        decreases entries.len() - i,
    {
        let ghost rest = all.subrange(i as int, all.len() as int);
        assert(rest.first() == all[i as int]);
        assert(rest.drop_first() =~= all.subrange(i + 1, all.len() as int));
        let hit = match &entries[i].0 {
            Node::Text(name) => *name == wanted,
            _ => false,
        };
        if hit {
            return Some(&entries[i].1);
        }
        i += 1;
    }
    None
}

fn present<'a>(entries: &'a Vec<(Node, Node)>, key: &str) -> (found: Option<&'a Node>)
    ensures
        tree_of(found) == member(pairs(entries@), key@),
{
    match lookup(entries, key) {
        Some(Node::Null) => None,
        other => other,
    }
}

fn scalar(node: &Node) -> (r: Option<String>)
    ensures
        r.deep_view() == scalar_text(node@),
{
    match node {
        Node::Text(text) => Some(text.clone()),
        Node::Number(text) => Some(text.clone()),
        Node::Bool(flag) => Some(
            if *flag {
                String::from_str("true")
            } else {
                String::from_str("false")
            },
        ),
        _ => None,
    }
}

fn text(entry: Option<&Node>) -> (r: Option<String>)
    ensures
        r.deep_view() == text_or(tree_of(entry), Seq::empty()),
{
    match entry {
        None => Some(String::new()),
        Some(node) => scalar(node),
    }
}

fn needed(entry: Option<&Node>) -> (r: Option<String>)
    ensures
        r.deep_view() == text_of(tree_of(entry)),
{
    match entry {
        None => None,
        Some(node) => scalar(node),
    }
}

fn flag(entry: Option<&Node>, default: bool) -> (r: Option<bool>)
    ensures
        r == flag_or(tree_of(entry), default),
{
    match entry {
        None => Some(default),
        Some(Node::Bool(flag)) => Some(*flag),
        Some(_) => None,
    }
}

fn package(node: &Node) -> (r: Option<Package>)
    ensures
        r.deep_view() == package_of(node@),
{
    match node {
        Node::Table(entries) => {
            proof {
                lemma_table_view(*entries);
            }
            match text(lookup(entries, "name")) {
                Some(name) => Some(Package { name }),
                None => None,
            }
        },
        _ => None,
    }
}

fn link(node: &Node) -> (r: Option<SymLink>)
    ensures
        r.deep_view() == link_of(node@),
{
    match node {
        Node::Table(entries) => {
            proof {
                lemma_table_view(*entries);
            }
            let dst = match needed(lookup(entries, "dst")) {
                Some(path) => path,
                None => { return None; },
            };
            let src = match needed(lookup(entries, "src")) {
                Some(path) => path,
                None => { return None; },
            };
            let relink = match flag(lookup(entries, "relink"), false) {
                Some(relink) => relink,
                None => { return None; },
            };
            let create = match flag(lookup(entries, "create"), true) {
                Some(create) => create,
                None => { return None; },
            };
            Some(SymLink { dst, src, relink, create })
        },
        _ => None,
    }
}

fn shell(node: &Node) -> (r: Option<Shell>)
    ensures
        r.deep_view() == shell_of(node@),
{
    match node {
        Node::Table(entries) => {
            proof {
                lemma_table_view(*entries);
            }
            match text(lookup(entries, "command")) {
                Some(command) => Some(Shell { command }),
                None => None,
            }
        },
        _ => None,
    }
}

fn bundle(node: &Node) -> (r: Result<Values, Fault>)
    ensures
        match r {
            Ok(values) => bundle_of(node@) == Ok::<ValuesView, Fault>(values@),
            Err(fault) => bundle_of(node@) == Err::<ValuesView, Fault>(fault),
        },
{
    match node {
        Node::Table(entries) => {
            proof {
                lemma_table_view(*entries);
            }
            let package = match present(entries, "package") {
                None => None,
                Some(entry) => match package(entry) {
                    Some(package) => Some(package),
                    None => { return Err(Fault::Package); },
                },
            };
            let link = match present(entries, "link") {
                None => None,
                Some(entry) => match link(entry) {
                    Some(link) => Some(link),
                    None => { return Err(Fault::Link); },
                },
            };
            let shell = match present(entries, "shell") {
                None => None,
                Some(entry) => match shell(entry) {
                    Some(shell) => Some(shell),
                    None => { return Err(Fault::Shell); },
                },
            };
            Ok(Values { package, link, shell })
        },
        _ => Err(Fault::Bundle),
    }
}

fn bundles(items: &Vec<Node>) -> (r: Result<Vec<Values>, Fault>)
    ensures
        match r {
            Ok(values) => bundles_from(trees(items@), Seq::empty()) == Ok::<Seq<ValuesView>, Fault>(
                values.deep_view(),
            ),
            Err(fault) => bundles_from(trees(items@), Seq::empty()) == Err::<Seq<ValuesView>, Fault>(
                fault,
            ),
        },
{
    let ghost all = trees(items@);
    let mut done: Vec<Values> = Vec::new();
    let mut i: usize = 0;
    assert(all.subrange(0, all.len() as int) =~= all);
    assert(done.deep_view() =~= Seq::<ValuesView>::empty());
    while i < items.len()
        invariant
            i <= items.len(),
            all == trees(items@),
            bundles_from(all, Seq::empty()) == bundles_from(
                all.subrange(i as int, all.len() as int),
                done.deep_view(),
            ),
        decreases items.len() - i,
    {
        let ghost rest = all.subrange(i as int, all.len() as int);
        let ghost had = done.deep_view();
        assert(rest.first() == items@[i as int]@);
        assert(rest.drop_first() =~= all.subrange(i + 1, all.len() as int));
        match bundle(&items[i]) {
            Ok(values) => {
                done.push(values);
                assert(done.deep_view() =~= had.push(values@));
            },
            Err(fault) => { return Err(fault); },
        }
        i += 1;
    }
    Ok(done)
}

/// The place of the first of the first `upto` groups that has this name.
fn find(groups: &Vec<Group>, upto: usize, name: &str) -> (at: Option<usize>)
    requires
        upto <= groups.len(),
    ensures
        match at {
            Some(i) => i < upto && groups.deep_view()[i as int].name == name@ && forall|k: int|
                0 <= k < i ==> groups.deep_view()[k].name != name@,
            None => forall|k: int| 0 <= k < upto ==> groups.deep_view()[k].name != name@,
        },
{
    let wanted = String::from_str(name);
    let mut i: usize = 0;
    while i < upto
        invariant
            i <= upto <= groups.len(),
            wanted@ == name@,
            forall|k: int| 0 <= k < i ==> groups.deep_view()[k].name != name@,
        decreases upto - i,
    {
        if groups[i].name == wanted {
            return Some(i);
        }
        i += 1;
    }
    None
}

fn group(entry: &(Node, Node), done: &Vec<Group>) -> (r: Result<Group, Fault>)
    ensures
        match r {
            Ok(group) => group_of((entry.0@, entry.1@), done.deep_view()) == Ok::<GroupView, Fault>(
                group@,
            ),
            Err(fault) => group_of((entry.0@, entry.1@), done.deep_view()) == Err::<
                GroupView,
                Fault,
            >(fault),
        },
{
    match scalar(&entry.0) {
        Some(name) => {
            if find(done, done.len(), name.as_str()).is_some() {
                return Err(Fault::Duplicate);
            }
            match &entry.1 {
                Node::List(items) => {
                    proof {
                        lemma_list_view(*items);
                    }
                    match bundles(items) {
                        Ok(values) => Ok(Group { name, values }),
                        Err(fault) => Err(fault),
                    }
                },
                _ => Err(Fault::Group),
            }
        },
        None => Err(Fault::GroupName),
    }
}

fn groups(entries: &Vec<(Node, Node)>) -> (r: Result<Vec<Group>, Fault>)
    ensures
        match r {
            Ok(groups) => distinct(groups.deep_view()) && groups_from(
                pairs(entries@),
                Seq::empty(),
            ) == Ok::<Seq<GroupView>, Fault>(groups.deep_view()),
            Err(fault) => groups_from(pairs(entries@), Seq::empty()) == Err::<
                Seq<GroupView>,
                Fault,
            >(fault),
        },
{
    let ghost all = pairs(entries@);
    let mut done: Vec<Group> = Vec::new();
    let mut i: usize = 0;
    assert(all.subrange(0, all.len() as int) =~= all);
    assert(done.deep_view() =~= Seq::<GroupView>::empty());
    while i < entries.len()
        invariant
            i <= entries.len(),
            all == pairs(entries@),
            distinct(done.deep_view()),
            groups_from(all, Seq::empty()) == groups_from(
                all.subrange(i as int, all.len() as int),
                done.deep_view(),
            ),
        decreases entries.len() - i,
    {
        let ghost rest = all.subrange(i as int, all.len() as int);
        let ghost had = done.deep_view();
        assert(rest.first() == (entries@[i as int].0@, entries@[i as int].1@));
        assert(rest.drop_first() =~= all.subrange(i + 1, all.len() as int));
        match group(&entries[i], &done) {
            Ok(group) => {
                assert(!has_group(had, group@.name));
                done.push(group);
                assert(done.deep_view() =~= had.push(group@));
                assert forall|a: int, b: int| 0 <= a < b < done.deep_view().len() implies done.deep_view()[a].name
                    != done.deep_view()[b].name by {
                    if b == had.len() {
                        assert(had[a].name != group@.name);
                    }
                }
            },
            Err(fault) => { return Err(fault); },
        }
        i += 1;
    }
    Ok(done)
}

/// A descriptor: its groups in the order of the document, no two of one
/// name.
#[derive(Debug, PartialEq)]
pub struct Config {
    values: Vec<Group>,
}

impl View for Config {
    type V = Seq<GroupView>;

    closed spec fn view(&self) -> Seq<GroupView> {
        self.values.deep_view()
    }
}

impl Config {
    #[verifier::type_invariant]
    spec fn names_differ(self) -> bool {
        distinct(self.values.deep_view())
    }

    /// Reads a descriptor from its YAML text, as [`descriptor_of`] lays
    /// down.
    pub fn new(content: &str) -> (r: Result<Config, Error>)
        ensures
            match r {
                Ok(config) => descriptor_of(content@) == Ok::<Seq<GroupView>, ErrorView>(config@),
                Err(e) => descriptor_of(content@) == Err::<Seq<GroupView>, ErrorView>(e@),
            },
            r matches Ok(config) ==> distinct(config@),
    {
        match Node::read(content) {
            Err(Unread::TooDeep) => Err(Error::TooDeep),
            Err(Unread::Syntax(message)) => Err(Error::Yaml(message)),
            Ok(node) => match Config::decode(&node) {
                Ok(config) => Ok(config),
                Err(fault) => Err(Error::Schema(fault)),
            },
        }
    }

    /// Reads a descriptor from a document's tree, as [`document_of`] lays
    /// down.
    pub fn decode(node: &Node) -> (r: Result<Config, Fault>)
        ensures
            match r {
                Ok(config) => document_of(node@) == Ok::<Seq<GroupView>, Fault>(config@),
                Err(fault) => document_of(node@) == Err::<Seq<GroupView>, Fault>(fault),
            },
            r matches Ok(config) ==> distinct(config@),
    {
        match node {
            Node::Table(entries) => {
                proof {
                    lemma_table_view(*entries);
                }
                match groups(entries) {
                    Ok(values) => Ok(Config { values }),
                    Err(fault) => Err(fault),
                }
            },
            _ => Err(Fault::Document),
        }
    }

    /// Makes a descriptor of these groups, if no two have the same name.
    pub fn from_groups(groups: Vec<Group>) -> (r: Result<Config, Error>)
        ensures
            r is Ok <==> distinct(groups.deep_view()),
            r matches Ok(config) ==> config@ == groups.deep_view(),
            r matches Err(e) ==> e@ == ErrorView::Schema(Fault::Duplicate),
    {
        let mut i: usize = 0;
        while i < groups.len()
            invariant
                i <= groups.len(),
                distinct(groups.deep_view().subrange(0, i as int)),
            decreases groups.len() - i,
        {
            match find(&groups, i, groups[i].name.as_str()) {
                Some(k) => {
                    assert(groups.deep_view()[k as int].name == groups.deep_view()[i as int].name);
                    return Err(Error::Schema(Fault::Duplicate));
                },
                None => {},
            }
            i += 1;
        }
        assert(groups.deep_view().subrange(0, groups.len() as int) =~= groups.deep_view());
        Ok(Config { values: groups })
    }

    /// The groups, in the order of the document.
    pub fn groups(&self) -> (groups: &Vec<Group>)
        ensures
            groups.deep_view() == self@,
            distinct(self@),
    {
        proof {
            use_type_invariant(self);
        }
        &self.values
    }

    /// The bundles of the group of this name, if there is one.
    pub fn get(&self, group: &str) -> (found: Option<&Vec<Values>>)
        ensures
            distinct(self@),
            found is Some <==> has_group(self@, group@),
            found matches Some(values) ==> exists|i: int|
                0 <= i < self@.len() && #[trigger] self@[i].name == group@ && self@[i].values
                    == values.deep_view(),
    {
        proof {
            use_type_invariant(self);
        }
        match find(&self.values, self.values.len(), group) {
            Some(i) => {
                assert(self@[i as int].name == group@);
                Some(&self.values[i].values)
            },
            None => None,
        }
    }
}

} // verus!

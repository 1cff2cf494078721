//! The conditions of a rule: what is asked of the values of an event record, and how these
//! conditions are combined.
use std::sync::Arc;

use vstd::prelude::*;
use vstd::string::StrSliceExecFns;

use crate::event;
use crate::event::{get_event_value, Value, ValueView};
use crate::matcher;
use crate::matcher::{
    concat_selection_key, ContainsMatcher, EndsWithMatcher, LeafMatcher, MatcherView,
    MinlengthMatcher, RegexMatcher, RegexesFileMatcher, StartsWithMatcher, WhitelistFileMatcher,
};
use crate::table::TextTable;
use crate::text;
use crate::text::{clone_texts, concat2, position, text_eq, to_chars};
use crate::yaml::{Yaml, YamlView};

verus! {

/// The part of a key before its options.
pub open spec fn key_name(key: Seq<char>) -> Seq<char> {
    key.take(text::find_char(key, '|', 0))
}

pub open spec fn key_names(keys: Seq<Seq<char>>) -> Seq<Seq<char>> {
    Seq::new(keys.len(), |i: int| key_name(keys[i]))
}

/// The first option of a key: what stands between the first `|` and the next one or the end.
pub open spec fn key_option(key: Seq<char>) -> Option<Seq<char>> {
    let bar = text::find_char(key, '|', 0);
    if bar < key.len() {
        Some(key.subrange(bar + 1, text::find_char(key, '|', bar + 1)))
    } else {
        None
    }
}

/// The matcher that an option asks for.
pub open spec fn option_matcher(option: Seq<char>) -> Option<MatcherView> {
    if option == "startswith"@ {
        Some(MatcherView::StartsWith(seq![]))
    } else if option == "endswith"@ {
        Some(MatcherView::EndsWith(seq![]))
    } else if option == "contains"@ {
        Some(MatcherView::Contains(seq![]))
    } else {
        None
    }
}

/// The matcher after the options of the keys have been read in turn, and the first option that
/// is not known, where the reading ends.
pub open spec fn read_options(keys: Seq<Seq<char>>, matcher: Option<MatcherView>) -> (
    Option<MatcherView>,
    Option<Seq<char>>,
)
    decreases keys.len(),
{
    if keys.len() == 0 {
        (matcher, None)
    } else {
        match key_option(keys[0]) {
            None => read_options(keys.skip(1), matcher),
            Some(option) => match option_matcher(option) {
                Some(m) => read_options(keys.skip(1), Some(m)),
                None => (matcher, Some(option)),
            },
        }
    }
}

/// The matchers that keys ask for, in the order in which they are tried.
pub open spec fn key_matchers() -> Seq<MatcherView> {
    seq![
        MatcherView::Regex(None),
        MatcherView::Minlength(0),
        MatcherView::Regexes(seq![]),
        MatcherView::Whitelist(seq![]),
    ]
}

/// The first of some matchers that is the one for the given keys.
pub open spec fn first_target(matchers: Seq<MatcherView>, keys: Seq<Seq<char>>) -> Option<
    MatcherView,
>
    decreases matchers.len(),
{
    if matchers.len() == 0 {
        None
    } else if matcher::is_target(matchers[0], keys) {
        Some(matchers[0])
    } else {
        first_target(matchers.skip(1), keys)
    }
}

/// Model of a [`LeafSelectionNode`].
pub struct LeafView {
    pub keys: Seq<Seq<char>>,
    pub value: YamlView,
    pub matcher: Option<MatcherView>,
}

impl LeafView {
    /// The matcher that the options of the keys, or else the keys behind the first one, ask for.
    pub open spec fn chosen_matcher(self) -> Option<MatcherView> {
        let optional = read_options(self.keys, self.matcher).0;
        if optional is Some {
            optional
        } else {
            first_target(key_matchers(), key_names(self.keys).skip(1))
        }
    }

    /// The leaf after it has been set up, and the messages about what is wrong with it.
    pub open spec fn set_up(self, files: Map<Seq<char>, Seq<Seq<Seq<char>>>>) -> (
        LeafView,
        Seq<Seq<char>>,
    ) {
        let (optional, unknown) = read_options(self.keys, self.matcher);
        let names = key_names(self.keys);
        let rest = names.skip(1);
        let chosen = self.chosen_matcher();
        if self.keys.len() == 0 {
            (self, seq!["Found no key. key:"@ + matcher::key_path(seq![])])
        } else if unknown is Some {
            (
                LeafView { keys: self.keys, value: self.value, matcher: optional },
                seq!["Found unknown key option. option: "@ + unknown->0],
            )
        } else if chosen is None {
            (
                LeafView { keys: names, value: self.value, matcher: None },
                seq!["Found unknown key. key:"@ + matcher::key_path(rest)],
            )
        } else if self.value is BadValue {
            (
                LeafView { keys: names, value: self.value, matcher: chosen },
                seq!["Cannot parse yaml file. key:"@ + matcher::key_path(rest)],
            )
        } else {
            let (m, messages) = chosen->0.set_up(rest, self.value, files);
            (LeafView { keys: names, value: self.value, matcher: Some(m) }, messages)
        }
    }

    /// The file that the leaf takes its list from, where it is one that needs a list.
    pub open spec fn file_name(self) -> Option<Seq<char>> {
        if self.keys.len() == 0 || read_options(self.keys, self.matcher).1 is Some {
            None
        } else {
            match self.chosen_matcher() {
                Some(MatcherView::Regexes(_)) => self.value.file_name(),
                Some(MatcherView::Whitelist(_)) => self.value.file_name(),
                _ => None,
            }
        }
    }

    /// The leaf applies to an event record. A leaf on `EventData` is about the data items of
    /// the event, and applies if it does to any of them.
    pub open spec fn selects(
        self,
        event: ValueView,
        aliases: Map<Seq<char>, Seq<char>>,
    ) -> bool {
        match self.matcher {
            None => false,
            Some(m) => if self.keys.len() == 0 {
                m.matches(None)
            } else if self.keys[0] == "EventData"@ {
                data_matches(m, event::event_value("Event.EventData.Data"@, event, aliases))
            } else {
                m.matches(event::event_value(self.keys[0], event, aliases))
            },
        }
    }
}

/// A matcher applies to the data of an event: to an item of a list, or else to a boolean, an
/// integer or a string. Any other data counts as absent.
pub open spec fn data_matches(m: MatcherView, data: Option<ValueView>) -> bool {
    match data {
        Some(ValueView::Array(items)) => any_item_matches(m, items),
        Some(ValueView::Bool(_)) => m.matches(data),
        Some(ValueView::String(_)) => m.matches(data),
        Some(ValueView::Number(n)) => if n.is_i64() {
            m.matches(data)
        } else {
            m.matches(None)
        },
        _ => m.matches(None),
    }
}

pub open spec fn any_item_matches(m: MatcherView, items: Seq<ValueView>) -> bool {
    exists|i: int| 0 <= i < items.len() && m.matches(Some(#[trigger] items[i]))
}

/// Model of a [`SelectionNode`].
pub enum NodeView {
    And(Seq<NodeView>),
    Or(Seq<NodeView>),
    Not(Box<NodeView>),
    Ref(Box<NodeView>),
    Leaf(LeafView),
}

impl NodeView {
    /// The condition holds of an event record.
    pub open spec fn selects(
        self,
        event: ValueView,
        aliases: Map<Seq<char>, Seq<char>>,
    ) -> bool
        decreases self,
    {
        match self {
            NodeView::And(nodes) => all_select(nodes, event, aliases),
            NodeView::Or(nodes) => any_selects(nodes, event, aliases),
            NodeView::Not(node) => !node.selects(event, aliases),
            NodeView::Ref(node) => node.selects(event, aliases),
            NodeView::Leaf(leaf) => leaf.selects(event, aliases),
        }
    }

    /// The condition after its leaves have been set up, and the messages about what is wrong.
    /// What is negated or referred to has been set up elsewhere.
    pub open spec fn set_up(self, files: Map<Seq<char>, Seq<Seq<Seq<char>>>>) -> (
        NodeView,
        Seq<Seq<char>>,
    )
        decreases self,
    {
        match self {
            NodeView::And(nodes) => {
                let results = nodes_set_up(nodes, files);
                (NodeView::And(set_up_nodes(results)), messages_of(results))
            },
            NodeView::Or(nodes) => {
                let results = nodes_set_up(nodes, files);
                (NodeView::Or(set_up_nodes(results)), messages_of(results))
            },
            NodeView::Leaf(leaf) => (NodeView::Leaf(leaf.set_up(files).0), leaf.set_up(files).1),
            _ => (self, seq![]),
        }
    }

    /// The conditions that the condition is directly made of.
    pub open spec fn childs(self) -> Seq<NodeView> {
        match self {
            NodeView::And(nodes) => nodes,
            NodeView::Or(nodes) => nodes,
            NodeView::Not(node) => seq![*node],
            NodeView::Ref(node) => seq![*node],
            NodeView::Leaf(_) => seq![],
        }
    }

    /// The children, then the descendants of each child.
    pub open spec fn descendants(self) -> Seq<NodeView>
        decreases self, 1int,
    {
        match self {
            NodeView::And(nodes) => nodes + all_descendants(nodes),
            NodeView::Or(nodes) => nodes + all_descendants(nodes),
            NodeView::Not(node) => seq![*node] + node.descendants(),
            NodeView::Ref(node) => seq![*node] + node.descendants(),
            NodeView::Leaf(_) => seq![],
        }
    }

    /// The files that the leaves take their lists from.
    pub open spec fn file_names(self) -> Seq<Seq<char>>
        decreases self, 1int,
    {
        match self {
            NodeView::And(nodes) => all_file_names(nodes),
            NodeView::Or(nodes) => all_file_names(nodes),
            NodeView::Leaf(leaf) => match leaf.file_name() {
                Some(name) => seq![name],
                None => seq![],
            },
            _ => seq![],
        }
    }
}

/// All of the conditions hold of an event record.
pub open spec fn all_select(
    nodes: Seq<NodeView>,
    event: ValueView,
    aliases: Map<Seq<char>, Seq<char>>,
) -> bool
    decreases nodes,
{
    forall|i: int| 0 <= i < nodes.len() ==> (#[trigger] nodes[i]).selects(event, aliases)
}

/// One of the conditions holds of an event record.
pub open spec fn any_selects(
    nodes: Seq<NodeView>,
    event: ValueView,
    aliases: Map<Seq<char>, Seq<char>>,
) -> bool
    decreases nodes,
{
    exists|i: int| 0 <= i < nodes.len() && (#[trigger] nodes[i]).selects(event, aliases)
}

pub open spec fn nodes_set_up(
    nodes: Seq<NodeView>,
    files: Map<Seq<char>, Seq<Seq<Seq<char>>>>,
) -> Seq<(NodeView, Seq<Seq<char>>)>
    decreases nodes,
{
    Seq::new(
        nodes.len(),
        |i: int|
            if 0 <= i < nodes.len() {
                nodes[i].set_up(files)
            } else {
                (NodeView::And(seq![]), seq![])
            },
    )
}

pub open spec fn set_up_nodes(results: Seq<(NodeView, Seq<Seq<char>>)>) -> Seq<NodeView> {
    Seq::new(results.len(), |i: int| results[i].0)
}

/// The messages of all results, in order.
pub open spec fn messages_of(results: Seq<(NodeView, Seq<Seq<char>>)>) -> Seq<Seq<char>>
    decreases results.len(),
{
    if results.len() == 0 {
        seq![]
    } else {
        messages_of(results.drop_last()) + results.last().1
    }
}

pub open spec fn all_descendants(nodes: Seq<NodeView>) -> Seq<NodeView>
    decreases nodes, 0int,
{
    if nodes.len() == 0 {
        seq![]
    } else {
        all_descendants(nodes.drop_last()) + nodes.last().descendants()
    }
}

pub open spec fn all_file_names(nodes: Seq<NodeView>) -> Seq<Seq<char>>
    decreases nodes, 0int,
{
    if nodes.len() == 0 {
        seq![]
    } else {
        all_file_names(nodes.drop_last()) + nodes.last().file_names()
    }
}

/// Two sets of files hold the same under the given names.
pub open spec fn same_files(
    names: Seq<Seq<char>>,
    a: Map<Seq<char>, Seq<Seq<Seq<char>>>>,
    b: Map<Seq<char>, Seq<Seq<Seq<char>>>>,
) -> bool {
    forall|i: int| 0 <= i < names.len() ==> same_file(#[trigger] names[i], a, b)
}

pub open spec fn same_file(
    name: Seq<char>,
    a: Map<Seq<char>, Seq<Seq<Seq<char>>>>,
    b: Map<Seq<char>, Seq<Seq<Seq<char>>>>,
) -> bool {
    a.contains_key(name) == b.contains_key(name) && (a.contains_key(name) ==> a[name] == b[name])
}

/// What a condition is set up to depends on no other files than those it names.
pub proof fn lemma_only_named_files(
    node: NodeView,
    a: Map<Seq<char>, Seq<Seq<Seq<char>>>>,
    b: Map<Seq<char>, Seq<Seq<Seq<char>>>>,
)
    requires
        same_files(node.file_names(), a, b),
    ensures
        node.set_up(a) == node.set_up(b),
    decreases node,
{
    match node {
        NodeView::And(nodes) => lemma_only_named_files_all(nodes, a, b),
        NodeView::Or(nodes) => lemma_only_named_files_all(nodes, a, b),
        NodeView::Leaf(leaf) => {
            if let Some(name) = leaf.file_name() {
                assert(same_file(node.file_names()[0], a, b));
            }
        },
        _ => {},
    }
}

proof fn lemma_only_named_files_all(
    nodes: Seq<NodeView>,
    a: Map<Seq<char>, Seq<Seq<Seq<char>>>>,
    b: Map<Seq<char>, Seq<Seq<Seq<char>>>>,
)
    requires
        same_files(all_file_names(nodes), a, b),
    ensures
        nodes_set_up(nodes, a) == nodes_set_up(nodes, b),
    decreases nodes,
{
    if nodes.len() > 0 {
        let before = all_file_names(nodes.drop_last());
        let last = nodes.last().file_names();
        assert forall|i: int| 0 <= i < before.len() implies same_file(
            #[trigger] before[i],
            a,
            b,
        ) by {
            assert(same_file(all_file_names(nodes)[i], a, b));
        }
        assert forall|i: int| 0 <= i < last.len() implies same_file(#[trigger] last[i], a, b) by {
            assert(same_file(all_file_names(nodes)[before.len() + i], a, b));
        }
        lemma_only_named_files_all(nodes.drop_last(), a, b);
        lemma_only_named_files(nodes.last(), a, b);
        assert forall|i: int| 0 <= i < nodes.len() implies nodes_set_up(nodes, a)[i]
            == nodes_set_up(nodes, b)[i] by {
            if i < nodes.len() - 1 {
                assert(nodes_set_up(nodes.drop_last(), a)[i] == nodes_set_up(
                    nodes.drop_last(),
                    b,
                )[i]);
            }
        }
    }
    assert(nodes_set_up(nodes, a) =~= nodes_set_up(nodes, b));
}

/// A condition.
#[derive(Debug)]
pub enum SelectionNode {
    And(AndSelectionNode),
    Or(OrSelectionNode),
    Not(NotSelectionNode),
    Ref(RefSelectionNode),
    Leaf(LeafSelectionNode),
}

/// All of the conditions hold.
#[derive(Debug)]
pub struct AndSelectionNode {
    pub child_nodes: Vec<SelectionNode>,
}

/// One of the conditions holds.
#[derive(Debug)]
pub struct OrSelectionNode {
    pub child_nodes: Vec<SelectionNode>,
}

/// The condition does not hold.
#[derive(Debug)]
pub struct NotSelectionNode {
    pub node: Box<SelectionNode>,
}

/// The condition that a name refers to, shared with the table of names.
#[derive(Debug)]
pub struct RefSelectionNode {
    pub selection_node: Arc<SelectionNode>,
}

/// A condition on one value of an event record.
#[derive(Debug)]
pub struct LeafSelectionNode {
    pub key_list: Vec<String>,
    pub select_value: Yaml,
    pub matcher: Option<LeafMatcher>,
}

pub open spec fn matcher_view(matcher: Option<LeafMatcher>) -> Option<MatcherView> {
    match matcher {
        Some(m) => Some(m@),
        None => None,
    }
}

impl View for LeafSelectionNode {
    type V = LeafView;

    open spec fn view(&self) -> LeafView {
        LeafView {
            keys: text::texts(self.key_list@),
            value: self.select_value@,
            matcher: matcher_view(self.matcher),
        }
    }
}

impl SelectionNode {
    pub open spec fn model(self) -> NodeView
        decreases self,
    {
        match self {
            SelectionNode::And(n) => NodeView::And(node_views(n.child_nodes@)),
            SelectionNode::Or(n) => NodeView::Or(node_views(n.child_nodes@)),
            SelectionNode::Not(n) => NodeView::Not(Box::new(n.node.model())),
            SelectionNode::Ref(n) => NodeView::Ref(Box::new(n.selection_node.model())),
            SelectionNode::Leaf(n) => NodeView::Leaf(n@),
        }
    }
}

pub open spec fn node_views(nodes: Seq<SelectionNode>) -> Seq<NodeView>
    decreases nodes,
{
    Seq::new(
        nodes.len(),
        |i: int|
            if 0 <= i < nodes.len() {
                nodes[i].model()
            } else {
                NodeView::And(seq![])
            },
    )
}

impl View for SelectionNode {
    type V = NodeView;

    open spec fn view(&self) -> NodeView {
        self.model()
    }
}

impl View for AndSelectionNode {
    type V = NodeView;

    open spec fn view(&self) -> NodeView {
        NodeView::And(node_views(self.child_nodes@))
    }
}

impl View for OrSelectionNode {
    type V = NodeView;

    open spec fn view(&self) -> NodeView {
        NodeView::Or(node_views(self.child_nodes@))
    }
}

impl View for NotSelectionNode {
    type V = NodeView;

    open spec fn view(&self) -> NodeView {
        NodeView::Not(Box::new(self.node@))
    }
}

impl View for RefSelectionNode {
    type V = NodeView;

    open spec fn view(&self) -> NodeView {
        NodeView::Ref(Box::new(self.selection_node@))
    }
}

/// Whether all of the conditions hold.
fn select_all(
    child_nodes: &Vec<SelectionNode>,
    event_record: &Value,
    aliases: &TextTable<String>,
) -> (r: bool)
    ensures
        r == all_select(
            node_views(child_nodes@),
            event_record@,
            event::alias_views(aliases@),
        ),
    decreases child_nodes,
{
    let ghost names = event::alias_views(aliases@);
    let ghost views = node_views(child_nodes@);
    for i in 0..child_nodes.len()
        invariant
            names == event::alias_views(aliases@),
            views == node_views(child_nodes@),
            forall|j: int| 0 <= j < i ==> (#[trigger] views[j]).selects(event_record@, names),
    {
        assert(decreases_to!(child_nodes => child_nodes@[i as int]));
        assert(views[i as int] == child_nodes@[i as int]@);
        if !child_nodes[i].select(event_record, aliases) {
            return false;
        }
    }
    true
}

/// Whether one of the conditions holds.
fn select_any(
    child_nodes: &Vec<SelectionNode>,
    event_record: &Value,
    aliases: &TextTable<String>,
) -> (r: bool)
    ensures
        r == any_selects(
            node_views(child_nodes@),
            event_record@,
            event::alias_views(aliases@),
        ),
    decreases child_nodes,
{
    let ghost names = event::alias_views(aliases@);
    let ghost views = node_views(child_nodes@);
    for i in 0..child_nodes.len()
        invariant
            names == event::alias_views(aliases@),
            views == node_views(child_nodes@),
            forall|j: int| 0 <= j < i ==> !(#[trigger] views[j]).selects(event_record@, names),
    {
        assert(decreases_to!(child_nodes => child_nodes@[i as int]));
        assert(views[i as int] == child_nodes@[i as int]@);
        if child_nodes[i].select(event_record, aliases) {
            return true;
        }
    }
    false
}

pub open spec fn ref_views(nodes: Seq<&SelectionNode>) -> Seq<NodeView> {
    Seq::new(nodes.len(), |i: int| nodes[i]@)
}

fn refs(child_nodes: &Vec<SelectionNode>) -> (r: Vec<&SelectionNode>)
    ensures
        ref_views(r@) == node_views(child_nodes@),
{
    let mut r: Vec<&SelectionNode> = Vec::new();
    for i in 0..child_nodes.len()
        invariant
            r@.len() == i,
            forall|j: int| 0 <= j < i ==> (#[trigger] r@[j])@ == child_nodes@[j]@,
    {
        r.push(&child_nodes[i]);
    }
    assert(ref_views(r@) =~= node_views(child_nodes@));
    r
}

/// The conditions and the descendants of each.
fn with_descendants(child_nodes: &Vec<SelectionNode>) -> (r: Vec<&SelectionNode>)
    ensures
        ref_views(r@) == node_views(child_nodes@) + all_descendants(node_views(child_nodes@)),
    decreases child_nodes,
{
    let ghost views = node_views(child_nodes@);
    let mut r = refs(child_nodes);
    assert(views + all_descendants(views.take(0)) =~= views);
    for i in 0..child_nodes.len()
        invariant
            views == node_views(child_nodes@),
            ref_views(r@) == views + all_descendants(views.take(i as int)),
    {
        assert(decreases_to!(child_nodes => child_nodes@[i as int]));
        assert(views.take(i + 1).drop_last() =~= views.take(i as int));
        assert(views[i as int] == child_nodes@[i as int]@);
        let mut descendants = child_nodes[i].get_descendants();
        let ghost before = ref_views(r@);
        let ghost added = ref_views(descendants@);
        r.append(&mut descendants);
        assert(ref_views(r@) =~= before + added);
        assert(before + added =~= views + all_descendants(views.take(i + 1)));
    }
    assert(views.take(views.len() as int) =~= views);
    r
}

/// Sets up all of the conditions and collects the messages.
fn init_all(
    child_nodes: &mut Vec<SelectionNode>,
    csv_files: &TextTable<Vec<Vec<String>>>,
) -> (r: Result<(), Vec<String>>)
    ensures
        ({
            let results = nodes_set_up(
                node_views(old(child_nodes)@),
                matcher::file_views(csv_files@),
            );
            &&& node_views(final(child_nodes)@) == set_up_nodes(results)
            &&& matcher::reports(r, messages_of(results))
        }),
    decreases *old(child_nodes),
{
    let ghost files = matcher::file_views(csv_files@);
    let ghost before = child_nodes@;
    let ghost views = node_views(before);
    let ghost results = nodes_set_up(views, files);
    let mut err_msgs: Vec<String> = Vec::new();
    assert(text::texts(err_msgs@) =~= messages_of(results.take(0)));
    let n = child_nodes.len();
    for i in 0..n
        invariant
            n == before.len(),
            before == old(child_nodes)@,
            views == node_views(before),
            files == matcher::file_views(csv_files@),
            results == nodes_set_up(views, files),
            child_nodes@.len() == before.len(),
            forall|j: int| 0 <= j < i ==> (#[trigger] child_nodes@[j])@ == results[j].0,
            forall|j: int| i <= j < before.len() ==> (#[trigger] child_nodes@[j]) == before[j],
            text::texts(err_msgs@) == messages_of(results.take(i as int)),
    {
        assert(decreases_to!(*old(child_nodes) => before[i as int]));
        assert(views[i as int] == before[i as int]@);
        assert(results.take(i + 1).drop_last() =~= results.take(i as int));
        let res = child_nodes[i].init(csv_files);
        let ghost messages = text::texts(err_msgs@);
        if let Err(mut msgs) = res {
            let ghost added = text::texts(msgs@);
            err_msgs.append(&mut msgs);
            assert(text::texts(err_msgs@) =~= messages + added);
        }
    }
    assert(results.take(results.len() as int) =~= results);
    assert(node_views(child_nodes@) =~= set_up_nodes(results));
    if err_msgs.is_empty() {
        Ok(())
    } else {
        Err(err_msgs)
    }
}

impl SelectionNode {
    /// Whether the condition holds of an event record. Keys of the record are paths or aliases
    /// of paths.
    pub fn select(&self, event_record: &Value, aliases: &TextTable<String>) -> (r: bool)
        ensures
            r == self@.selects(event_record@, event::alias_views(aliases@)),
        decreases self,
    {
        match self {
            SelectionNode::And(n) => n.select(event_record, aliases),
            SelectionNode::Or(n) => n.select(event_record, aliases),
            SelectionNode::Not(n) => n.select(event_record, aliases),
            SelectionNode::Ref(n) => n.select(event_record, aliases),
            SelectionNode::Leaf(n) => n.select(event_record, aliases),
        }
    }

    /// Sets up the leaves of the condition. `csv_files` holds the rows of the files that can
    /// be read.
    pub fn init(&mut self, csv_files: &TextTable<Vec<Vec<String>>>) -> (r: Result<
        (),
        Vec<String>,
    >)
        ensures
            final(self)@ == old(self)@.set_up(matcher::file_views(csv_files@)).0,
            matcher::reports(r, old(self)@.set_up(matcher::file_views(csv_files@)).1),
        decreases *old(self),
    {
        match self {
            SelectionNode::And(n) => n.init(csv_files),
            SelectionNode::Or(n) => n.init(csv_files),
            SelectionNode::Not(n) => n.init(csv_files),
            SelectionNode::Ref(n) => n.init(csv_files),
            SelectionNode::Leaf(n) => n.init(csv_files),
        }
    }

    /// The children of the condition.
    pub fn get_childs(&self) -> (r: Vec<&SelectionNode>)
        ensures
            ref_views(r@) == self@.childs(),
    {
        match self {
            SelectionNode::And(n) => n.get_childs(),
            SelectionNode::Or(n) => n.get_childs(),
            SelectionNode::Not(n) => n.get_childs(),
            SelectionNode::Ref(n) => n.get_childs(),
            SelectionNode::Leaf(n) => n.get_childs(),
        }
    }

    /// The descendants of the condition.
    pub fn get_descendants(&self) -> (r: Vec<&SelectionNode>)
        ensures
            ref_views(r@) == self@.descendants(),
        decreases self,
    {
        match self {
            SelectionNode::And(n) => n.get_descendants(),
            SelectionNode::Or(n) => n.get_descendants(),
            SelectionNode::Not(n) => n.get_descendants(),
            SelectionNode::Ref(n) => n.get_descendants(),
            SelectionNode::Leaf(n) => n.get_descendants(),
        }
    }
}

/// The files that the leaves of some conditions take their lists from.
fn collect_file_names(nodes: &Vec<SelectionNode>) -> (r: Vec<String>)
    ensures
        text::texts(r@) == all_file_names(node_views(nodes@)),
    decreases nodes,
{
    let ghost views = node_views(nodes@);
    let mut r: Vec<String> = Vec::new();
    assert(text::texts(r@) =~= seq![]);
    for i in 0..nodes.len()
        invariant
            views == node_views(nodes@),
            text::texts(r@) == all_file_names(views.take(i as int)),
    {
        assert(decreases_to!(nodes => nodes@[i as int]));
        assert(views.take(i + 1).drop_last() =~= views.take(i as int));
        assert(views[i as int] == nodes@[i as int]@);
        let mut names = nodes[i].csv_file_names();
        let ghost before = text::texts(r@);
        let ghost added = text::texts(names@);
        r.append(&mut names);
        assert(text::texts(r@) =~= before + added);
    }
    assert(views.take(views.len() as int) =~= views);
    r
}

impl SelectionNode {
    /// The files that the leaves take their lists from. They are what has to be read before the
    /// condition is set up.
    pub fn csv_file_names(&self) -> (r: Vec<String>)
        ensures
            text::texts(r@) == self@.file_names(),
        decreases self,
    {
        match self {
            SelectionNode::And(n) => collect_file_names(&n.child_nodes),
            SelectionNode::Or(n) => collect_file_names(&n.child_nodes),
            SelectionNode::Leaf(n) => {
                let mut r: Vec<String> = Vec::new();
                if let Some(name) = n.csv_file_name() {
                    r.push(name);
                }
                assert(text::texts(r@) =~= self@.file_names());
                r
            },
            _ => {
                let r: Vec<String> = Vec::new();
                assert(text::texts(r@) =~= seq![]);
                r
            },
        }
    }
}

impl AndSelectionNode {
    pub fn new() -> (r: AndSelectionNode)
        ensures
            r@ == NodeView::And(seq![]),
            r.child_nodes@.len() == 0,
    {
        let r = AndSelectionNode { child_nodes: Vec::new() };
        assert(node_views(r.child_nodes@) =~= seq![]);
        r
    }

    pub fn select(&self, event_record: &Value, aliases: &TextTable<String>) -> (r: bool)
        ensures
            r == self@.selects(event_record@, event::alias_views(aliases@)),
        decreases self,
    {
        select_all(&self.child_nodes, event_record, aliases)
    }

    pub fn init(&mut self, csv_files: &TextTable<Vec<Vec<String>>>) -> (r: Result<
        (),
        Vec<String>,
    >)
        ensures
            final(self)@ == old(self)@.set_up(matcher::file_views(csv_files@)).0,
            matcher::reports(r, old(self)@.set_up(matcher::file_views(csv_files@)).1),
        decreases *old(self),
    {
        init_all(&mut self.child_nodes, csv_files)
    }

    pub fn get_childs(&self) -> (r: Vec<&SelectionNode>)
        ensures
            ref_views(r@) == self@.childs(),
    {
        refs(&self.child_nodes)
    }

    pub fn get_descendants(&self) -> (r: Vec<&SelectionNode>)
        ensures
            ref_views(r@) == self@.descendants(),
        decreases self,
    {
        with_descendants(&self.child_nodes)
    }
}

impl OrSelectionNode {
    pub fn new() -> (r: OrSelectionNode)
        ensures
            r@ == NodeView::Or(seq![]),
            r.child_nodes@.len() == 0,
    {
        let r = OrSelectionNode { child_nodes: Vec::new() };
        assert(node_views(r.child_nodes@) =~= seq![]);
        r
    }

    pub fn select(&self, event_record: &Value, aliases: &TextTable<String>) -> (r: bool)
        ensures
            r == self@.selects(event_record@, event::alias_views(aliases@)),
        decreases self,
    {
        select_any(&self.child_nodes, event_record, aliases)
    }

    pub fn init(&mut self, csv_files: &TextTable<Vec<Vec<String>>>) -> (r: Result<
        (),
        Vec<String>,
    >)
        ensures
            final(self)@ == old(self)@.set_up(matcher::file_views(csv_files@)).0,
            matcher::reports(r, old(self)@.set_up(matcher::file_views(csv_files@)).1),
        decreases *old(self),
    {
        init_all(&mut self.child_nodes, csv_files)
    }

    pub fn get_childs(&self) -> (r: Vec<&SelectionNode>)
        ensures
            ref_views(r@) == self@.childs(),
    {
        refs(&self.child_nodes)
    }

    pub fn get_descendants(&self) -> (r: Vec<&SelectionNode>)
        ensures
            ref_views(r@) == self@.descendants(),
        decreases self,
    {
        with_descendants(&self.child_nodes)
    }
}

impl NotSelectionNode {
    pub fn new(node: Box<SelectionNode>) -> (r: NotSelectionNode)
        ensures
            r@ == NodeView::Not(Box::new(node@)),
    {
        NotSelectionNode { node }
    }

    pub fn select(&self, event_record: &Value, aliases: &TextTable<String>) -> (r: bool)
        ensures
            r == self@.selects(event_record@, event::alias_views(aliases@)),
        decreases self,
    {
        !self.node.select(event_record, aliases)
    }

    pub fn init(&mut self, _csv_files: &TextTable<Vec<Vec<String>>>) -> (r: Result<
        (),
        Vec<String>,
    >)
        ensures
            r is Ok,
            *final(self) == *old(self),
    {
        Ok(())
    }

    /// The condition that is negated.
    pub fn get_childs(&self) -> (r: Vec<&SelectionNode>)
        ensures
            ref_views(r@) == self@.childs(),
    {
        let r: Vec<&SelectionNode> = vec![&*self.node];
        assert(ref_views(r@) =~= self@.childs());
        r
    }

    /// The condition that is negated and its descendants.
    pub fn get_descendants(&self) -> (r: Vec<&SelectionNode>)
        ensures
            ref_views(r@) == self@.descendants(),
        decreases self,
    {
        let mut r = self.get_childs();
        let mut descendants = self.node.get_descendants();
        let ghost childs = ref_views(r@);
        let ghost added = ref_views(descendants@);
        r.append(&mut descendants);
        assert(ref_views(r@) =~= childs + added);
        r
    }
}

impl RefSelectionNode {
    pub fn new(selection_node: Arc<SelectionNode>) -> (r: RefSelectionNode)
        ensures
            r@ == NodeView::Ref(Box::new(selection_node@)),
    {
        RefSelectionNode { selection_node }
    }

    pub fn select(&self, event_record: &Value, aliases: &TextTable<String>) -> (r: bool)
        ensures
            r == self@.selects(event_record@, event::alias_views(aliases@)),
        decreases self,
    {
        self.selection_node.select(event_record, aliases)
    }

    pub fn init(&mut self, _csv_files: &TextTable<Vec<Vec<String>>>) -> (r: Result<
        (),
        Vec<String>,
    >)
        ensures
            r is Ok,
            *final(self) == *old(self),
    {
        Ok(())
    }

    /// The condition that is referred to.
    pub fn get_childs(&self) -> (r: Vec<&SelectionNode>)
        ensures
            ref_views(r@) == self@.childs(),
    {
        let r: Vec<&SelectionNode> = vec![&*self.selection_node];
        assert(ref_views(r@) =~= self@.childs());
        r
    }

    /// The condition that is referred to and its descendants.
    pub fn get_descendants(&self) -> (r: Vec<&SelectionNode>)
        ensures
            ref_views(r@) == self@.descendants(),
        decreases self,
    {
        let mut r = self.get_childs();
        let mut descendants = self.selection_node.get_descendants();
        let ghost childs = ref_views(r@);
        let ghost added = ref_views(descendants@);
        r.append(&mut descendants);
        assert(ref_views(r@) =~= childs + added);
        r
    }
}

impl LeafSelectionNode {
    pub fn new(key_list: Vec<String>, value_yaml: Yaml) -> (r: LeafSelectionNode)
        ensures
            r@ == (LeafView {
                keys: text::texts(key_list@),
                value: value_yaml@,
                matcher: None,
            }),
    {
        LeafSelectionNode { key_list, select_value: value_yaml, matcher: None }
    }

    /// The first key; the empty string if there is none.
    pub fn get_key(&self) -> (r: String)
        ensures
            r@ == (if self@.keys.len() == 0 {
                seq![]
            } else {
                self@.keys[0]
            }),
    {
        if self.key_list.is_empty() {
            let r = String::new();
            assert(r@ =~= seq![]);
            return r;
        }
        self.key_list[0].clone()
    }

    /// The value of the first key in an event record.
    pub fn get_event_value<'a>(&self, event_value: &'a Value, aliases: &TextTable<String>) -> (r:
        Option<&'a Value>)
        ensures
            event::value_view(r) == (if self@.keys.len() == 0 {
                None
            } else {
                event::event_value(self@.keys[0], event_value@, event::alias_views(aliases@))
            }),
    {
        if self.key_list.is_empty() {
            return None;
        }
        get_event_value(self.get_key().as_str(), event_value, aliases)
    }

    /// The matchers that keys ask for. They are tried from the first to the last.
    pub fn get_matchers(&self) -> (r: Vec<LeafMatcher>)
        ensures
            r@.map_values(|m: LeafMatcher| m@) == key_matchers(),
    {
        let r = vec![
            LeafMatcher::Regex(RegexMatcher::new()),
            LeafMatcher::Minlength(MinlengthMatcher::new()),
            LeafMatcher::Regexes(RegexesFileMatcher::new()),
            LeafMatcher::Whitelist(WhitelistFileMatcher::new()),
        ];
        assert(r@.map_values(|m: LeafMatcher| m@) =~= key_matchers());
        r
    }

    /// Whether the leaf applies to an event record.
    pub fn select(&self, event_record: &Value, aliases: &TextTable<String>) -> (r: bool)
        ensures
            r == self@.selects(event_record@, event::alias_views(aliases@)),
    {
        match &self.matcher {
            None => false,
            Some(m) => {
                if self.key_list.len() > 0 && text_eq(self.key_list[0].as_str(), "EventData") {
                    let data = get_event_value("Event.EventData.Data", event_record, aliases);
                    return is_data_match(m, data);
                }
                m.is_match(self.get_event_value(event_record, aliases))
            },
        }
    }

    /// Takes the options off the keys and sets up the matcher that the options, or else the
    /// keys behind the first one, ask for. A leaf without a key is reported. `csv_files` holds
    /// the rows of the files that can be read.
    pub fn init(&mut self, csv_files: &TextTable<Vec<Vec<String>>>) -> (r: Result<
        (),
        Vec<String>,
    >)
        ensures
            final(self)@ == old(self)@.set_up(matcher::file_views(csv_files@)).0,
            matcher::reports(r, old(self)@.set_up(matcher::file_views(csv_files@)).1),
    {
        if self.key_list.is_empty() {
            assert(text::texts(self.key_list@) =~= seq![]);
            let message = concat2(
                "Found no key. key:",
                concat_selection_key(&self.key_list).as_str(),
            );
            return one_message(message);
        }
        let ghost before = self@;
        let ghost keys = before.keys;
        let ghost names = key_names(keys);
        let ghost read = read_options(keys, before.matcher);
        let mut fixed_key_list: Vec<String> = Vec::new();
        assert(keys.skip(0) =~= keys);
        assert(text::texts(fixed_key_list@) =~= names.take(0));
        let n = self.key_list.len();
        for i in 0..n
            invariant
                n == keys.len(),
                before == old(self)@,
                keys == before.keys,
                keys.len() > 0,
                names == key_names(keys),
                read == read_options(keys, before.matcher),
                self@.keys == keys,
                self@.value == before.value,
                read_options(keys.skip(i as int), self@.matcher) == read,
                text::texts(fixed_key_list@) == names.take(i as int),
        {
            assert(keys.skip(i as int)[0] == self.key_list@[i as int]@);
            assert(keys.skip(i as int).skip(1) =~= keys.skip(i + 1));
            let (name, option) = split_key(self.key_list[i].as_str());
            if let Some(option) = option {
                match new_option_matcher(option.as_str()) {
                    Some(m) => {
                        self.matcher = Some(m);
                    },
                    None => {
                        let message = concat2(
                            "Found unknown key option. option: ",
                            option.as_str(),
                        );
                        return one_message(message);
                    },
                }
            }
            let ghost fixed = text::texts(fixed_key_list@);
            fixed_key_list.push(name);
            assert(text::texts(fixed_key_list@) =~= fixed.push(names[i as int]));
            assert(names.take(i + 1) =~= names.take(i as int).push(names[i as int]));
        }
        assert(names.take(keys.len() as int) =~= names);
        let mut match_key_list = clone_texts(&fixed_key_list);
        self.key_list = fixed_key_list;
        match_key_list.remove(0);
        assert(text::texts(match_key_list@) =~= names.skip(1));
        if self.matcher.is_none() {
            self.matcher = find_target(self.get_matchers(), &match_key_list);
        }
        if self.matcher.is_none() {
            let message = concat2(
                "Found unknown key. key:",
                concat_selection_key(&match_key_list).as_str(),
            );
            return one_message(message);
        }
        if self.select_value.is_badvalue() {
            let message = concat2(
                "Cannot parse yaml file. key:",
                concat_selection_key(&match_key_list).as_str(),
            );
            return one_message(message);
        }
        match &mut self.matcher {
            Some(m) => m.init(&match_key_list, &self.select_value, csv_files),
            None => Ok(()),
        }
    }

    /// The file that the leaf takes its list from, where it needs a list.
    pub fn csv_file_name(&self) -> (r: Option<String>)
        ensures
            text::text_of(r) == self@.file_name(),
    {
        if self.key_list.is_empty() {
            return None;
        }
        let ghost keys = self@.keys;
        let ghost names = key_names(keys);
        let mut optional = self.matcher.is_some();
        let mut from_list = match &self.matcher {
            Some(LeafMatcher::Regexes(_)) => true,
            Some(LeafMatcher::Whitelist(_)) => true,
            _ => false,
        };
        let ghost mut current = self@.matcher;
        let mut match_key_list: Vec<String> = Vec::new();
        assert(keys.skip(0) =~= keys);
        assert(text::texts(match_key_list@) =~= names.take(0));
        for i in 0..self.key_list.len()
            invariant
                keys == self@.keys,
                keys.len() > 0,
                names == key_names(keys),
                read_options(keys, self@.matcher) == read_options(keys.skip(i as int), current),
                optional == (current is Some),
                from_list == (current matches Some(m) && (m is Regexes || m is Whitelist)),
                text::texts(match_key_list@) == names.take(i as int),
        {
            assert(keys.skip(i as int)[0] == self.key_list@[i as int]@);
            assert(keys.skip(i as int).skip(1) =~= keys.skip(i + 1));
            let (name, option) = split_key(self.key_list[i].as_str());
            if let Some(option) = option {
                match new_option_matcher(option.as_str()) {
                    Some(m) => {
                        optional = true;
                        from_list = false;
                        proof {
                            current = Some(m@);
                        }
                    },
                    None => {
                        return None;
                    },
                }
            }
            let ghost fixed = text::texts(match_key_list@);
            match_key_list.push(name);
            assert(text::texts(match_key_list@) =~= fixed.push(names[i as int]));
            assert(names.take(i + 1) =~= names.take(i as int).push(names[i as int]));
        }
        assert(names.take(keys.len() as int) =~= names);
        if !optional {
            match_key_list.remove(0);
            assert(text::texts(match_key_list@) =~= names.skip(1));
            from_list = match find_target(self.get_matchers(), &match_key_list) {
                Some(LeafMatcher::Regexes(_)) => true,
                Some(LeafMatcher::Whitelist(_)) => true,
                _ => false,
            };
        }
        if from_list {
            self.select_value.file_string()
        } else {
            None
        }
    }

    /// A leaf has no children.
    pub fn get_childs(&self) -> (r: Vec<&SelectionNode>)
        ensures
            r@.len() == 0,
    {
        Vec::new()
    }

    pub fn get_descendants(&self) -> (r: Vec<&SelectionNode>)
        ensures
            r@.len() == 0,
    {
        Vec::new()
    }
}

fn one_message(message: String) -> (r: Result<(), Vec<String>>)
    ensures
        matcher::reports(r, seq![message@]),
{
    let messages = vec![message];
    assert(text::texts(messages@) =~= seq![message@]);
    Err(messages)
}

/// A key, taken apart into its name and its first option.
fn split_key(key: &str) -> (r: (String, Option<String>))
    ensures
        r.0@ == key_name(key@),
        text::text_of(r.1) == key_option(key@),
{
    let chars = to_chars(key);
    let bar = position(&chars, '|');
    let name = key.substring_char(0, bar).to_owned();
    assert(name@ =~= key_name(key@));
    if bar == chars.len() {
        return (name, None);
    }
    let mut end: usize = bar + 1;
    while end < chars.len() && chars[end] != '|'
        invariant
            chars@ == key@,
            bar < end <= chars@.len(),
            text::find_char(key@, '|', bar + 1) == text::find_char(key@, '|', end as int),
        decreases chars@.len() - end,
    {
        end = end + 1;
    }
    (name, Some(key.substring_char(bar + 1, end).to_owned()))
}

fn new_option_matcher(option: &str) -> (r: Option<LeafMatcher>)
    ensures
        matcher_view(r) == option_matcher(option@),
{
    if text_eq(option, "startswith") {
        Some(LeafMatcher::StartsWith(StartsWithMatcher::new()))
    } else if text_eq(option, "endswith") {
        Some(LeafMatcher::EndsWith(EndsWithMatcher::new()))
    } else if text_eq(option, "contains") {
        Some(LeafMatcher::Contains(ContainsMatcher::new()))
    } else {
        None
    }
}

/// The first matcher that is the one for the given keys.
fn find_target(matchers: Vec<LeafMatcher>, key_list: &Vec<String>) -> (r: Option<LeafMatcher>)
    ensures
        matcher_view(r) == first_target(
            matchers@.map_values(|m: LeafMatcher| m@),
            text::texts(key_list@),
        ),
{
    let ghost views = matchers@.map_values(|m: LeafMatcher| m@);
    let ghost keys = text::texts(key_list@);
    assert(views.skip(0) =~= views);
    for m in it: matchers
        invariant
            views == it.seq().map_values(|m: LeafMatcher| m@),
            keys == text::texts(key_list@),
            first_target(views, keys) == first_target(views.skip(it.index() as int), keys),
    {
        assert(views.skip(it.index() as int)[0] == m@);
        assert(views.skip(it.index() as int).skip(1) =~= views.skip(it.index() as int + 1));
        if m.is_target_key(key_list) {
            return Some(m);
        }
    }
    None
}

/// Whether a matcher applies to the data of an event.
fn is_data_match(m: &LeafMatcher, data: Option<&Value>) -> (r: bool)
    ensures
        r == data_matches(m@, event::value_view(data)),
{
    match data {
        Some(Value::Array(items)) => {
            let ghost views = event::value_views(items@);
            for i in 0..items.len()
                invariant
                    views == event::value_views(items@),
                    event::value_view(data) == Some(ValueView::Array(views)),
                    forall|j: int| 0 <= j < i ==> !m@.matches(Some(#[trigger] views[j])),
            {
                assert(views[i as int] == items@[i as int]@);
                if m.is_match(Some(&items[i])) {
                    return true;
                }
            }
            false
        },
        Some(Value::Number(n)) => if n.is_i64() {
            m.is_match(data)
        } else {
            m.is_match(None)
        },
        Some(Value::Bool(_)) => m.is_match(data),
        Some(Value::String(_)) => m.is_match(data),
        _ => m.is_match(None),
    }
}

} // verus!

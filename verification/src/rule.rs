//! Rules: named selections and a condition over them.
use std::sync::Arc;

use vstd::prelude::*;

use crate::aggregation;
use crate::aggregation::{AggegationConditionCompiler, AggregationParseInfo, AggregationView};
use crate::condition;
use crate::condition::ConditionCompiler;
use crate::event;
use crate::event::{Value, ValueView};
use crate::matcher;
use crate::selection;
use crate::selection::{
    AndSelectionNode, LeafSelectionNode, LeafView, NodeView, OrSelectionNode, RefSelectionNode,
    SelectionNode,
};
use crate::table::TextTable;
use crate::text;
use crate::text::{clone_texts, text_eq};
use crate::yaml;
use crate::yaml::{Yaml, YamlView};

verus! {

/// The text of a string; no text for anything else.
pub open spec fn string_text(yaml: YamlView) -> Seq<char> {
    match yaml {
        YamlView::String(s) => s,
        _ => seq![],
    }
}

/// The condition that the YAML of a selection stands for, below the given keys: a hash is a
/// conjunction, an array is a disjunction, and anything else is a leaf.
pub open spec fn selection_of(keys: Seq<Seq<char>>, yaml: YamlView) -> NodeView
    decreases yaml,
{
    match yaml {
        YamlView::Hash(entries) => NodeView::And(entry_selections(keys, entries)),
        YamlView::Array(items) => NodeView::Or(item_selections(keys, items)),
        _ => NodeView::Leaf(LeafView { keys, value: yaml, matcher: None }),
    }
}

pub open spec fn entry_selections(
    keys: Seq<Seq<char>>,
    entries: Seq<(YamlView, YamlView)>,
) -> Seq<NodeView>
    decreases entries,
{
    Seq::new(
        entries.len(),
        |i: int|
            if 0 <= i < entries.len() {
                selection_of(keys.push(string_text(entries[i].0)), entries[i].1)
            } else {
                NodeView::And(seq![])
            },
    )
}

pub open spec fn item_selections(keys: Seq<Seq<char>>, items: Seq<YamlView>) -> Seq<NodeView>
    decreases items,
{
    Seq::new(
        items.len(),
        |i: int|
            if 0 <= i < items.len() {
                selection_of(keys, items[i])
            } else {
                NodeView::And(seq![])
            },
    )
}

/// The keys of every hash are strings.
pub open spec fn string_keys(yaml: YamlView) -> bool
    decreases yaml,
{
    match yaml {
        YamlView::Hash(entries) => entries_string_keys(entries),
        YamlView::Array(items) => items_string_keys(items),
        _ => true,
    }
}

pub open spec fn entries_string_keys(entries: Seq<(YamlView, YamlView)>) -> bool
    decreases entries,
{
    forall|i: int|
        0 <= i < entries.len() ==> (#[trigger] entries[i]).0 is String && string_keys(entries[i].1)
}

pub open spec fn items_string_keys(items: Seq<YamlView>) -> bool
    decreases items,
{
    forall|i: int| 0 <= i < items.len() ==> string_keys(#[trigger] items[i])
}

/// An entry of a detection that is a selection: it has a name, and not the one of the condition.
pub open spec fn is_selection(key: YamlView) -> bool {
    string_text(key).len() > 0 && string_text(key) != "condition"@
}

/// The selections of a detection can be set up: the keys of their hashes are strings.
pub open spec fn can_set_up(detection: YamlView) -> bool {
    match detection {
        YamlView::Hash(entries) => entries_can_set_up(entries),
        _ => true,
    }
}

pub open spec fn entries_can_set_up(entries: Seq<(YamlView, YamlView)>) -> bool {
    forall|i: int| 0 <= i < entries.len() ==> entry_can_set_up(#[trigger] entries[i])
}

pub open spec fn entry_can_set_up(entry: (YamlView, YamlView)) -> bool {
    is_selection(entry.0) ==> string_keys(entry.1)
}

/// The named conditions after the selections of a detection have been set up in turn, and the
/// messages about what is wrong with the others. A selection that something is wrong with gets
/// no name.
pub open spec fn named_selections(
    entries: Seq<(YamlView, YamlView)>,
    names: Map<Seq<char>, NodeView>,
    files: Map<Seq<char>, Seq<Seq<Seq<char>>>>,
) -> (Map<Seq<char>, NodeView>, Seq<Seq<char>>)
    decreases entries.len(),
{
    if entries.len() == 0 {
        (names, seq![])
    } else {
        let (before, messages) = named_selections(entries.drop_last(), names, files);
        let (key, value) = entries.last();
        if !is_selection(key) {
            (before, messages)
        } else {
            let (node, wrong) = selection_of(seq![], value).set_up(files);
            if wrong.len() > 0 {
                (before, messages + wrong)
            } else {
                (before.insert(string_text(key), node), messages)
            }
        }
    }
}

/// The files that the selections of a detection take their lists from.
pub open spec fn detection_files(detection: YamlView) -> Seq<Seq<char>> {
    match detection {
        YamlView::Hash(entries) => entry_files(entries),
        _ => seq![],
    }
}

pub open spec fn entry_files(entries: Seq<(YamlView, YamlView)>) -> Seq<Seq<char>>
    decreases entries.len(),
{
    if entries.len() == 0 {
        seq![]
    } else {
        let (key, value) = entries.last();
        entry_files(entries.drop_last()) + (if is_selection(key) {
            selection_of(seq![], value).file_names()
        } else {
            seq![]
        })
    }
}

/// Model of a [`DetectionNode`].
pub struct DetectionView {
    pub names: Map<Seq<char>, NodeView>,
    pub condition: Option<NodeView>,
    pub aggregation: Option<AggregationView>,
}

impl DetectionView {
    /// The detection after its selections have been set up, and the messages about what is
    /// wrong with them.
    pub open spec fn names_set_up(
        self,
        detection: YamlView,
        files: Map<Seq<char>, Seq<Seq<Seq<char>>>>,
    ) -> (DetectionView, Seq<Seq<char>>) {
        match detection {
            YamlView::Hash(entries) => {
                let (names, messages) = named_selections(entries, self.names, files);
                (
                    DetectionView { names, ..self },
                    if messages.len() == 0 && names.dom().len() == 0 {
                        seq!["There are no selection node under detection."@]
                    } else {
                        messages
                    },
                )
            },
            _ => (self, seq!["not found detection node"@]),
        }
    }

    /// The detection after its expression has been compiled, and the messages about what is
    /// wrong with it.
    pub open spec fn expression_set_up(self, expression: Seq<char>) -> (
        DetectionView,
        Seq<Seq<char>>,
    ) {
        let condition = condition::compiled_condition(expression, self.names);
        let aggregation = aggregation::compiled_aggregation(expression);
        (
            DetectionView {
                names: self.names,
                condition: match condition {
                    Ok(node) => Some(node),
                    Err(_) => self.condition,
                },
                aggregation: match aggregation {
                    Ok(info) => info,
                    Err(_) => self.aggregation,
                },
            },
            error_messages(condition) + error_messages(aggregation),
        )
    }

    /// The detection after its only selection has been adopted as its condition.
    pub open spec fn only_selection_adopted(self) -> DetectionView {
        let only = self.names[self.names.dom().choose()];
        DetectionView {
            names: self.names,
            condition: Some(NodeView::Or(seq![NodeView::Ref(Box::new(only))])),
            aggregation: None,
        }
    }

    /// The detection after it has been set up, and the messages about what is wrong with it.
    /// Without a condition, a detection adopts its only selection.
    pub open spec fn set_up(
        self,
        detection: YamlView,
        files: Map<Seq<char>, Seq<Seq<Seq<char>>>>,
    ) -> (DetectionView, Seq<Seq<char>>) {
        let (named, messages) = self.names_set_up(detection, files);
        if messages.len() > 0 {
            (named, messages)
        } else {
            match detection.index("condition"@) {
                YamlView::String(expression) => named.expression_set_up(expression),
                _ => if named.names.dom().len() >= 2 {
                    (named, seq!["There are no condition node under detection."@])
                } else {
                    (named.only_selection_adopted(), seq![])
                },
            }
        }
    }

    /// The condition holds of an event record; without one, nothing does.
    pub open spec fn selects(
        self,
        event: ValueView,
        aliases: Map<Seq<char>, Seq<char>>,
    ) -> bool {
        match self.condition {
            Some(node) => node.selects(event, aliases),
            None => false,
        }
    }
}

proof fn lemma_only_key(names: Map<Seq<char>, NodeView>, key: Seq<char>)
    requires
        names.dom().finite(),
        names.dom().len() < 2,
        names.contains_key(key),
    ensures
        names.dom().choose() == key,
{
    let other = names.dom().choose();
    assert(names.dom().contains(key));
    assert(names.dom().contains(other));
    if other != key {
        let rest = names.dom().remove(key);
        assert(rest.contains(other));
        assert(rest.len() > 0) by {
            if rest.len() == 0 {
                rest.lemma_len0_is_empty();
            }
        }
    }
}

/// The message of an error.
pub open spec fn error_messages<T>(r: Result<T, Seq<char>>) -> Seq<Seq<char>> {
    match r {
        Ok(_) => seq![],
        Err(msg) => seq![msg],
    }
}

pub open spec fn node_view(node: Option<SelectionNode>) -> Option<NodeView> {
    match node {
        Some(n) => Some(n@),
        None => None,
    }
}

/// What a rule asks of event records.
#[derive(Debug)]
pub struct DetectionNode {
    pub name_to_selection: TextTable<Arc<SelectionNode>>,
    pub condition: Option<SelectionNode>,
    pub aggregation_condition: Option<AggregationParseInfo>,
}

impl View for DetectionNode {
    type V = DetectionView;

    open spec fn view(&self) -> DetectionView {
        DetectionView {
            names: condition::name_views(self.name_to_selection@),
            condition: node_view(self.condition),
            aggregation: aggregation::aggregation_view(self.aggregation_condition),
        }
    }
}

impl DetectionNode {
    pub fn new() -> (r: DetectionNode)
        ensures
            r@ == empty_detection(),
    {
        let r = DetectionNode {
            name_to_selection: TextTable::new(),
            condition: None,
            aggregation_condition: None,
        };
        assert(r@.names =~= Map::empty());
        r
    }

    /// Sets up the detection from its YAML. Without a condition, its only selection is adopted,
    /// whatever it is called. `csv_files` holds the rows of the files that can be
    /// read.
    pub fn init(
        &mut self,
        detection_yaml: &Yaml,
        csv_files: &TextTable<Vec<Vec<String>>>,
    ) -> (r: Result<(), Vec<String>>)
        requires
            can_set_up(detection_yaml@),
        ensures
            final(self)@ == old(self)@.set_up(
                detection_yaml@,
                matcher::file_views(csv_files@),
            ).0,
            matcher::reports(
                r,
                old(self)@.set_up(detection_yaml@, matcher::file_views(csv_files@)).1,
            ),
    {
        self.parse_name_to_selection(detection_yaml, csv_files)?;
        let ghost named = self@;
        let condition_str = match detection_yaml.index("condition").as_str() {
            Some(cond_str) => cond_str.to_owned(),
            None => {
                proof {
                    assert(named.names.dom() =~= self.name_to_selection@.dom());
                }
                if self.name_to_selection.len() >= 2 {
                    let messages = vec!["There are no condition node under detection.".to_owned()];
                    assert(text::texts(messages@) =~= seq![
                        "There are no condition node under detection."@,
                    ]);
                    return Err(messages);
                }
                self.adopt_only_selection();
                return Ok(());
            },
        };
        let mut err_msgs: Vec<String> = Vec::new();
        let compiler = ConditionCompiler::new();
        match compiler.compile_condition(condition_str.clone(), &self.name_to_selection) {
            Err(err_msg) => {
                err_msgs.push(err_msg);
            },
            Ok(node) => {
                self.condition = Some(node);
            },
        }
        let ghost condition = condition::compiled_condition(condition_str@, named.names);
        assert(text::texts(err_msgs@) =~= error_messages(condition));
        let agg_compiler = AggegationConditionCompiler::new();
        match agg_compiler.compile(condition_str) {
            Err(err_msg) => {
                err_msgs.push(err_msg);
            },
            Ok(info) => {
                self.aggregation_condition = info;
            },
        }
        assert(text::texts(err_msgs@) =~= named.expression_set_up(condition_str@).1);
        if err_msgs.is_empty() {
            Ok(())
        } else {
            Err(err_msgs)
        }
    }

    /// Makes the only selection the condition.
    fn adopt_only_selection(&mut self)
        requires
            old(self)@.names.dom().len() == 1,
        ensures
            final(self)@ == old(self)@.only_selection_adopted(),
    {
        let ghost names = self@.names;
        assert(names.dom() =~= self.name_to_selection@.dom());
        let mut only: Option<Arc<SelectionNode>> = None;
        if let Some(key) = self.name_to_selection.some_key() {
            proof {
                lemma_only_key(names, key@);
            }
            if let Some(node) = self.name_to_selection.get(key.as_str()) {
                only = Some(Arc::clone(node));
            }
        }
        if let Some(node) = only {
            let reference = SelectionNode::Ref(RefSelectionNode::new(node));
            let mut adopted = OrSelectionNode::new();
            adopted.child_nodes.push(reference);
            assert(selection::node_views(adopted.child_nodes@) =~= seq![reference@]);
            self.condition = Some(SelectionNode::Or(adopted));
        }
        self.aggregation_condition = None;
    }

    /// Whether the condition holds of an event record.
    pub fn select(&self, event_record: &Value, aliases: &TextTable<String>) -> (r: bool)
        ensures
            r == self@.selects(event_record@, event::alias_views(aliases@)),
    {
        match &self.condition {
            Some(condition) => condition.select(event_record, aliases),
            None => false,
        }
    }

    /// Sets up the selections of a detection. `csv_files` holds the rows of the files that can
    /// be read.
    pub fn parse_name_to_selection(
        &mut self,
        detection_yaml: &Yaml,
        csv_files: &TextTable<Vec<Vec<String>>>,
    ) -> (r: Result<(), Vec<String>>)
        requires
            can_set_up(detection_yaml@),
        ensures
            final(self)@ == old(self)@.names_set_up(
                detection_yaml@,
                matcher::file_views(csv_files@),
            ).0,
            matcher::reports(
                r,
                old(self)@.names_set_up(detection_yaml@, matcher::file_views(csv_files@)).1,
            ),
    {
        let detection_hash = match detection_yaml.as_hash() {
            None => {
                let messages = vec!["not found detection node".to_owned()];
                assert(text::texts(messages@) =~= seq!["not found detection node"@]);
                return Err(messages);
            },
            Some(detection_hash) => detection_hash,
        };
        let ghost before = self@;
        let ghost files = matcher::file_views(csv_files@);
        let ghost entries = yaml::entry_views(detection_hash@);
        let mut err_msgs: Vec<String> = Vec::new();
        assert(text::texts(err_msgs@) =~= seq![]);
        assert(entries.take(0) =~= seq![]);
        for i in 0..detection_hash.len()
            invariant
                before == old(self)@,
                files == matcher::file_views(csv_files@),
                entries == yaml::entry_views(detection_hash@),
                detection_yaml@ == YamlView::Hash(entries),
                entries_can_set_up(entries),
                self@.condition == before.condition,
                self@.aggregation == before.aggregation,
                (self@.names, text::texts(err_msgs@)) == named_selections(
                    entries.take(i as int),
                    before.names,
                    files,
                ),
        {
            assert(entries.take(i + 1).drop_last() =~= entries.take(i as int));
            assert(entries[i as int] == (
                detection_hash@[i as int].0@,
                detection_hash@[i as int].1@,
            ));
            assert(entry_can_set_up(entries[i as int]));
            let name = match detection_hash[i].0.as_str() {
                Some(name) => name.to_owned(),
                None => String::new(),
            };
            assert(name@ =~= string_text(entries[i as int].0));
            if !name.as_str().is_empty() && !text_eq(name.as_str(), "condition") {
                if let Some(mut selection_node) = self.parse_selection(&detection_hash[i].1) {
                    let ghost node = selection_node@;
                    match selection_node.init(csv_files) {
                        Err(mut msgs) => {
                            let ghost earlier = text::texts(err_msgs@);
                            let ghost wrong = text::texts(msgs@);
                            err_msgs.append(&mut msgs);
                            assert(text::texts(err_msgs@) =~= earlier + wrong);
                        },
                        Ok(_) => {
                            let ghost names = self@.names;
                            let rc_selection = Arc::new(selection_node);
                            self.name_to_selection.insert(name, rc_selection);
                            assert(self@.names =~= names.insert(name@, node.set_up(files).0));
                        },
                    }
                }
            }
        }
        assert(entries.take(entries.len() as int) =~= entries);
        if !err_msgs.is_empty() {
            return Err(err_msgs);
        }
        assert(self@.names.dom() =~= self.name_to_selection@.dom());
        if self.name_to_selection.len() == 0 {
            let messages = vec!["There are no selection node under detection.".to_owned()];
            assert(text::texts(messages@) =~= seq![
                "There are no selection node under detection."@,
            ]);
            return Err(messages);
        }
        Ok(())
    }

    /// The condition that the YAML of a selection stands for.
    pub fn parse_selection(&self, selection_yaml: &Yaml) -> (r: Option<SelectionNode>)
        requires
            string_keys(selection_yaml@),
        ensures
            r matches Some(node) && node@ == selection_of(seq![], selection_yaml@),
    {
        let key_list: Vec<String> = Vec::new();
        assert(text::texts(key_list@) =~= seq![]);
        Some(self.parse_selection_recursively(key_list, selection_yaml))
    }

    /// The condition that the YAML of a part of a selection stands for, below the given keys.
    pub fn parse_selection_recursively(&self, key_list: Vec<String>, yaml: &Yaml) -> (r:
        SelectionNode)
        requires
            string_keys(yaml@),
        ensures
            r@ == selection_of(text::texts(key_list@), yaml@),
        decreases yaml,
    {
        match yaml {
            Yaml::Hash(yaml_hash) => {
                let mut and_node = AndSelectionNode::new();
                and_node.child_nodes = self.parse_entries(&key_list, yaml_hash);
                SelectionNode::And(and_node)
            },
            Yaml::Array(items) => {
                let mut or_node = OrSelectionNode::new();
                or_node.child_nodes = self.parse_items(&key_list, items);
                SelectionNode::Or(or_node)
            },
            _ => SelectionNode::Leaf(LeafSelectionNode::new(key_list, yaml.clone())),
        }
    }

    fn parse_entries(&self, key_list: &Vec<String>, entries: &Vec<(Yaml, Yaml)>) -> (r: Vec<
        SelectionNode,
    >)
        requires
            entries_string_keys(yaml::entry_views(entries@)),
        ensures
            selection::node_views(r@) == entry_selections(
                text::texts(key_list@),
                yaml::entry_views(entries@),
            ),
        decreases entries,
    {
        let ghost keys = text::texts(key_list@);
        let ghost views = yaml::entry_views(entries@);
        let ghost results = entry_selections(keys, views);
        let mut nodes: Vec<SelectionNode> = Vec::new();
        for i in 0..entries.len()
            invariant
                keys == text::texts(key_list@),
                views == yaml::entry_views(entries@),
                results == entry_selections(keys, views),
                entries_string_keys(views),
                nodes@.len() == i,
                forall|j: int| 0 <= j < i ==> (#[trigger] nodes@[j])@ == results[j],
        {
            assert(decreases_to!(entries => entries@[i as int]));
            assert(decreases_to!(entries@[i as int] => entries@[i as int].1));
            assert(views[i as int] == (entries@[i as int].0@, entries@[i as int].1@));
            let mut child_key_list = clone_texts(key_list);
            let ghost before = text::texts(child_key_list@);
            if let Some(name) = entries[i].0.as_str() {
                child_key_list.push(name.to_owned());
            }
            assert(text::texts(child_key_list@) =~= before.push(string_text(views[i as int].0)));
            nodes.push(self.parse_selection_recursively(child_key_list, &entries[i].1));
        }
        assert(selection::node_views(nodes@) =~= results);
        nodes
    }

    fn parse_items(&self, key_list: &Vec<String>, items: &Vec<Yaml>) -> (r: Vec<SelectionNode>)
        requires
            items_string_keys(yaml::yaml_views(items@)),
        ensures
            selection::node_views(r@) == item_selections(
                text::texts(key_list@),
                yaml::yaml_views(items@),
            ),
        decreases items,
    {
        let ghost keys = text::texts(key_list@);
        let ghost views = yaml::yaml_views(items@);
        let ghost results = item_selections(keys, views);
        let mut nodes: Vec<SelectionNode> = Vec::new();
        for i in 0..items.len()
            invariant
                keys == text::texts(key_list@),
                views == yaml::yaml_views(items@),
                results == item_selections(keys, views),
                items_string_keys(views),
                nodes@.len() == i,
                forall|j: int| 0 <= j < i ==> (#[trigger] nodes@[j])@ == results[j],
        {
            assert(decreases_to!(items => items@[i as int]));
            assert(views[i as int] == items@[i as int]@);
            nodes.push(self.parse_selection_recursively(clone_texts(key_list), &items[i]));
        }
        assert(selection::node_views(nodes@) =~= results);
        nodes
    }
}

/// A rule: its YAML, and what it asks of event records once it has been set up.
#[derive(Debug)]
pub struct RuleNode {
    pub yaml: Yaml,
    pub detection: Option<DetectionNode>,
}

pub open spec fn detection_view(detection: Option<DetectionNode>) -> Option<DetectionView> {
    match detection {
        Some(d) => Some(d@),
        None => None,
    }
}

/// A detection that nothing has been set up of.
pub open spec fn empty_detection() -> DetectionView {
    DetectionView { names: Map::empty(), condition: None, aggregation: None }
}

/// The rule with the given YAML.
pub fn create_rule(yaml: Yaml) -> (r: RuleNode)
    ensures
        r.yaml == yaml,
        r.detection is None,
{
    RuleNode::new(yaml)
}

impl RuleNode {
    pub fn new(yaml: Yaml) -> (r: RuleNode)
        ensures
            r.yaml == yaml,
            r.detection is None,
    {
        RuleNode { yaml, detection: None }
    }

    /// Whether the rule can be set up: the keys of all hashes in its selections are strings.
    pub fn can_init(&self) -> (r: bool)
        ensures
            r == can_set_up(self.yaml@.index("detection"@)),
    {
        let detection = self.yaml.index("detection");
        let entries = match detection.as_hash() {
            Some(entries) => entries,
            None => {
                return true;
            },
        };
        let ghost views = yaml::entry_views(entries@);
        for i in 0..entries.len()
            invariant
                views == yaml::entry_views(entries@),
                detection@ == YamlView::Hash(views),
                detection@ == self.yaml@.index("detection"@),
                forall|j: int| 0 <= j < i ==> entry_can_set_up(#[trigger] views[j]),
        {
            assert(views[i as int] == (entries@[i as int].0@, entries@[i as int].1@));
            if is_selection_key(&entries[i].0) {
                if !has_string_keys(&entries[i].1) {
                    assert(!entry_can_set_up(views[i as int]));
                    return false;
                }
            }
        }
        true
    }

    /// The files that the rule takes lists from. They are what has to be read before the rule is
    /// set up.
    pub fn csv_file_names(&self) -> (r: Vec<String>)
        requires
            can_set_up(self.yaml@.index("detection"@)),
        ensures
            text::texts(r@) == detection_files(self.yaml@.index("detection"@)),
    {
        let detection = self.yaml.index("detection");
        let mut r: Vec<String> = Vec::new();
        assert(text::texts(r@) =~= seq![]);
        if let Some(entries) = detection.as_hash() {
            let ghost views = yaml::entry_views(entries@);
            assert(views.take(0) =~= seq![]);
            for i in 0..entries.len()
                invariant
                    views == yaml::entry_views(entries@),
                    entries_can_set_up(views),
                    text::texts(r@) == entry_files(views.take(i as int)),
            {
                let ghost before = text::texts(r@);
                assert(views.take(i + 1).drop_last() =~= views.take(i as int));
                assert(views[i as int] == (entries@[i as int].0@, entries@[i as int].1@));
                assert(entry_can_set_up(views[i as int]));
                if is_selection_key(&entries[i].0) {
                    let node = DetectionNode::new().parse_selection(&entries[i].1);
                    if let Some(node) = node {
                        let mut names = node.csv_file_names();
                        let ghost added = text::texts(names@);
                        r.append(&mut names);
                        assert(text::texts(r@) =~= before + added);
                    }
                } else {
                    assert(before + seq![] =~= before);
                }
            }
            assert(views.take(views.len() as int) =~= views);
        }
        r
    }

    /// Sets the rule up from its YAML. `csv_files` holds the rows of the files that can be read.
    pub fn init(&mut self, csv_files: &TextTable<Vec<Vec<String>>>) -> (r: Result<
        (),
        Vec<String>,
    >)
        requires
            can_set_up(old(self).yaml@.index("detection"@)),
        ensures
            final(self).yaml == old(self).yaml,
            ({
                let (detection, messages) = empty_detection().set_up(
                    old(self).yaml@.index("detection"@),
                    matcher::file_views(csv_files@),
                );
                &&& detection_view(final(self).detection) == Some(detection)
                &&& matcher::reports(r, messages)
            }),
    {
        let mut detection = DetectionNode::new();
        let detection_result = detection.init(self.yaml.index("detection"), csv_files);
        self.detection = Some(detection);
        detection_result
    }

    /// Whether the rule detects an event record. A rule that has not been set up detects
    /// nothing.
    pub fn select(&self, event_record: &Value, aliases: &TextTable<String>) -> (r: bool)
        ensures
            r == (match detection_view(self.detection) {
                Some(detection) => detection.selects(
                    event_record@,
                    event::alias_views(aliases@),
                ),
                None => false,
            }),
    {
        match &self.detection {
            Some(detection) => detection.select(event_record, aliases),
            None => false,
        }
    }
}

fn is_selection_key(key: &Yaml) -> (r: bool)
    ensures
        r == is_selection(key@),
{
    match key.as_str() {
        Some(name) => !name.is_empty() && !text_eq(name, "condition"),
        None => false,
    }
}

/// Whether the keys of every hash are strings.
fn has_string_keys(yaml: &Yaml) -> (r: bool)
    ensures
        r == string_keys(yaml@),
    decreases yaml,
{
    match yaml {
        Yaml::Hash(entries) => all_entries_string_keyed(entries),
        Yaml::Array(items) => all_items_string_keyed(items),
        _ => true,
    }
}

fn all_entries_string_keyed(entries: &Vec<(Yaml, Yaml)>) -> (r: bool)
    ensures
        r == entries_string_keys(yaml::entry_views(entries@)),
    decreases entries,
{
    let ghost views = yaml::entry_views(entries@);
    for i in 0..entries.len()
        invariant
            views == yaml::entry_views(entries@),
            forall|j: int|
                0 <= j < i ==> (#[trigger] views[j]).0 is String && string_keys(views[j].1),
    {
        assert(decreases_to!(entries => entries@[i as int]));
        assert(decreases_to!(entries@[i as int] => entries@[i as int].1));
        assert(views[i as int] == (entries@[i as int].0@, entries@[i as int].1@));
        if entries[i].0.as_str().is_none() || !has_string_keys(&entries[i].1) {
            return false;
        }
    }
    true
}

fn all_items_string_keyed(items: &Vec<Yaml>) -> (r: bool)
    ensures
        r == items_string_keys(yaml::yaml_views(items@)),
    decreases items,
{
    let ghost views = yaml::yaml_views(items@);
    for i in 0..items.len()
        invariant
            views == yaml::yaml_views(items@),
            forall|j: int| 0 <= j < i ==> string_keys(#[trigger] views[j]),
    {
        assert(decreases_to!(items => items@[i as int]));
        assert(views[i as int] == items@[i as int]@);
        if !has_string_keys(&items[i]) {
            return false;
        }
    }
    true
}

} // verus!

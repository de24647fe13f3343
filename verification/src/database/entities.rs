use crate::objects::pairs_map;
use crate::rules::GenerationRuleView;
use crate::state::{ObjectRow, RuleRow};
use vstd::prelude::*;
use vstd::string::*;

verus! {

/// A value in the stored document of an object.
#[derive(Debug, PartialEq, Eq)]
pub enum AttributeValue {
    /// A single scalar, as text.
    Scalar(String),
    /// Anything else: a list, a record, nothing.
    Composite,
}

impl Clone for AttributeValue {
    fn clone(&self) -> (copy: Self)
        ensures
            copy == *self,
    {
        match self {
            AttributeValue::Scalar(text) => AttributeValue::Scalar(text.clone()),
            AttributeValue::Composite => AttributeValue::Composite,
        }
    }
}

/// An [`AttributeValue`] with its text as a sequence of characters.
pub enum AttributeValueView {
    Scalar(Seq<char>),
    Composite,
}

impl View for AttributeValue {
    type V = AttributeValueView;

    open spec fn view(&self) -> AttributeValueView {
        match self {
            AttributeValue::Scalar(text) => AttributeValueView::Scalar(text@),
            AttributeValue::Composite => AttributeValueView::Composite,
        }
    }
}

/// A value as a document format with six kinds of value knows it: nothing,
/// a truth value, a number by its text, a text, a list, a record.
#[derive(Debug, PartialEq, Eq)]
pub enum JsonValueKind {
    Null,
    Bool(bool),
    Number(String),
    Text(String),
    Array,
    Object,
}

/// A [`JsonValueKind`] with its texts as sequences of characters.
pub enum JsonValueKindView {
    Null,
    Bool(bool),
    Number(Seq<char>),
    Text(Seq<char>),
    Array,
    Object,
}

impl View for JsonValueKind {
    type V = JsonValueKindView;

    open spec fn view(&self) -> JsonValueKindView {
        match self {
            JsonValueKind::Null => JsonValueKindView::Null,
            JsonValueKind::Bool(flag) => JsonValueKindView::Bool(*flag),
            JsonValueKind::Number(text) => JsonValueKindView::Number(text@),
            JsonValueKind::Text(text) => JsonValueKindView::Text(text@),
            JsonValueKind::Array => JsonValueKindView::Array,
            JsonValueKind::Object => JsonValueKindView::Object,
        }
    }
}

/// What a value is as the value of an attribute: a text, a number and a
/// truth value are single scalars, each by its text; nothing, a list and a
/// record are not.
pub open spec fn scalar_of(value: JsonValueKindView) -> AttributeValueView {
    match value {
        JsonValueKindView::Text(text) => AttributeValueView::Scalar(text),
        JsonValueKindView::Number(text) => AttributeValueView::Scalar(text),
        JsonValueKindView::Bool(flag) => AttributeValueView::Scalar(
            if flag {
                "true"@
            } else {
                "false"@
            },
        ),
        JsonValueKindView::Null => AttributeValueView::Composite,
        JsonValueKindView::Array => AttributeValueView::Composite,
        JsonValueKindView::Object => AttributeValueView::Composite,
    }
}

/// Tells what a value is as the value of an attribute.
pub fn attribute_value_of(value: JsonValueKind) -> (result: AttributeValue)
    ensures
        result@ == scalar_of(value@),
{
    match value {
        JsonValueKind::Text(text) => AttributeValue::Scalar(text),
        JsonValueKind::Number(text) => AttributeValue::Scalar(text),
        JsonValueKind::Bool(flag) => AttributeValue::Scalar(
            if flag {
                String::from_str("true")
            } else {
                String::from_str("false")
            },
        ),
        JsonValueKind::Null => AttributeValue::Composite,
        JsonValueKind::Array => AttributeValue::Composite,
        JsonValueKind::Object => AttributeValue::Composite,
    }
}

/// The document that is stored as a record with the given entries, or as
/// something that is no record where there are no entries to give.
pub fn document_of(entries: Option<Vec<(String, JsonValueKind)>>) -> (document: Document)
    ensures
        match entries {
            None => document == Document::Other,
            Some(given) => document matches Document::Record(values) && values@.len()
                == given@.len() && forall|i: int|
                0 <= i < given@.len() ==> (#[trigger] values@[i]).0@ == given@[i].0@ && values@[i].1@
                    == scalar_of(given@[i].1@),
        },
{
    match entries {
        None => Document::Other,
        Some(given) => {
            let ghost all = given@;
            let mut given = given;
            let mut turned: Vec<(String, AttributeValue)> = Vec::new();
            // An entry leaves a list at its end: the values come out last first.
            while given.len() > 0
                invariant
                    given@.len() + turned@.len() == all.len(),
                    given@ == all.take(given@.len() as int),
                    forall|j: int|
                        0 <= j < turned@.len() ==> (#[trigger] turned@[j]).0@ == all[all.len() - 1
                            - j].0@ && turned@[j].1@ == scalar_of(all[all.len() - 1 - j].1@),
                decreases given@.len(),
            {
                let (name, value) = given.pop().unwrap();
                turned.push((name, attribute_value_of(value)));
                assert(given@ =~= all.take(given@.len() as int));
            }
            let mut values: Vec<(String, AttributeValue)> = Vec::new();
            while turned.len() > 0
                invariant
                    values@.len() + turned@.len() == all.len(),
                    forall|j: int|
                        0 <= j < turned@.len() ==> (#[trigger] turned@[j]).0@ == all[all.len() - 1
                            - j].0@ && turned@[j].1@ == scalar_of(all[all.len() - 1 - j].1@),
                    forall|i: int|
                        0 <= i < values@.len() ==> (#[trigger] values@[i]).0@ == all[i].0@
                            && values@[i].1@ == scalar_of(all[i].1@),
                decreases turned@.len(),
            {
                let entry = turned.pop().unwrap();
                values.push(entry);
            }
            Document::Record(values)
        },
    }
}

/// The document stored for an object.
#[derive(Debug, PartialEq, Eq)]
pub enum Document {
    /// A record: a value under each of some names. Of two entries with one
    /// name the later one counts.
    Record(Vec<(String, AttributeValue)>),
    /// Anything that is no record.
    Other,
}

/// Every entry holds a single scalar.
pub open spec fn all_scalar(entries: Seq<(String, AttributeValue)>) -> bool {
    forall|i: int| 0 <= i < entries.len() ==> (#[trigger] entries[i]).1 is Scalar
}

/// Name and text of each entry, in the same order.
pub open spec fn texts(entries: Seq<(String, AttributeValue)>) -> Seq<(Seq<char>, Seq<char>)> {
    entries.map_values(|entry: (String, AttributeValue)| (entry.0@, entry.1->Scalar_0@))
}

impl View for Document {
    type V = Option<Map<Seq<char>, Seq<char>>>;

    /// The attributes that the document holds, where it is a flat record of
    /// scalars.
    open spec fn view(&self) -> Option<Map<Seq<char>, Seq<char>>> {
        match self {
            Document::Record(entries) => if all_scalar(entries@) {
                Some(pairs_map(texts(entries@)))
            } else {
                None
            },
            Document::Other => None,
        }
    }
}

impl Clone for Document {
    fn clone(&self) -> (copy: Self)
        ensures
            copy@ == self@,
    {
        match self {
            Document::Record(entries) => {
                let mut copied: Vec<(String, AttributeValue)> = Vec::new();
                let mut i: usize = 0;
                while i < entries.len()
                    invariant
                        i <= entries@.len(),
                        copied@ == entries@.take(i as int),
                    decreases entries@.len() - i,
                {
                    let name = entries[i].0.clone();
                    let value = entries[i].1.clone();
                    copied.push((name, value));
                    assert(copied@ =~= entries@.take(i + 1));
                    i += 1;
                }
                assert(entries@.take(i as int) =~= entries@);
                Document::Record(copied)
            },
            Document::Other => Document::Other,
        }
    }
}

/// An object as the store holds it.
#[derive(Debug, PartialEq, Eq)]
pub struct ObjectModel {
    pub id: String,
    pub attributes: Document,
}

impl View for ObjectModel {
    type V = ObjectRow;

    open spec fn view(&self) -> ObjectRow {
        ObjectRow { id: self.id@, attributes: self.attributes@ }
    }
}

impl Clone for ObjectModel {
    fn clone(&self) -> (copy: Self)
        ensures
            copy@ == self@,
    {
        ObjectModel { id: self.id.clone(), attributes: self.attributes.clone() }
    }
}

/// The kind of a rule, as the store names it.
#[derive(Clone, Copy, Debug, PartialEq, Eq, Structural)]
pub enum GenerationType {
    Equals,
    Regex,
}

/// The text of a column, or the empty text where the column holds nothing.
pub open spec fn text_or_empty(column: Option<String>) -> Seq<char> {
    match column {
        Some(text) => text@,
        None => Seq::empty(),
    }
}

/// A rule as the store holds it: the field by its identifier, pattern and
/// replacer in columns that may be empty.
#[derive(Debug, PartialEq, Eq)]
pub struct RuleModel {
    pub id: String,
    pub field_id: String,
    pub generation_type: GenerationType,
    pub regex_pattern: Option<String>,
    pub regex_replacer: Option<String>,
}

impl RuleModel {
    /// The way to make keys that the columns stand for; an empty column of
    /// a regex rule stands for the empty text.
    pub open spec fn rule_type(&self) -> GenerationRuleView {
        match self.generation_type {
            GenerationType::Equals => GenerationRuleView::Equals,
            GenerationType::Regex => GenerationRuleView::Regex {
                pattern: text_or_empty(self.regex_pattern),
                replacer: text_or_empty(self.regex_replacer),
            },
        }
    }
}

impl View for RuleModel {
    type V = RuleRow;

    open spec fn view(&self) -> RuleRow {
        RuleRow { id: self.id@, field_id: self.field_id@, rule_type: self.rule_type() }
    }
}

/// A copy of a column.
fn clone_column(column: &Option<String>) -> (copy: Option<String>)
    ensures
        copy == *column,
{
    match column {
        Some(text) => Some(text.clone()),
        None => None,
    }
}

impl Clone for RuleModel {
    fn clone(&self) -> (copy: Self)
        ensures
            copy == *self,
    {
        RuleModel {
            id: self.id.clone(),
            field_id: self.field_id.clone(),
            generation_type: self.generation_type,
            regex_pattern: clone_column(&self.regex_pattern),
            regex_replacer: clone_column(&self.regex_replacer),
        }
    }
}

} // verus!

//! The template's embedded question schema: a parsed structured document is
//! validated and interpreted into typed prompt descriptors, skipping
//! malformed entries with a warning rather than failing, so a scaffold
//! completes with or without a usable schema.

use vstd::prelude::*;

use crate::errors::CPRConfigError;
use crate::text::str_eq;

verus! {

/// A scalar of a parsed structured document.
#[derive(Debug)]
pub enum DocScalar {
    /// A string.
    Text(String),
    /// An integer.
    Integer(i64),
    /// A boolean.
    Boolean(bool),
    /// A value of a kind the schema never reads (a float, a datetime).
    Other,
}

/// A node of a parsed structured document.
#[derive(Debug)]
pub enum DocNode {
    /// A scalar value.
    Scalar(DocScalar),
    /// An ordered sequence of values.
    List(Vec<DocNode>),
    /// An ordered table of named values.
    Table(Vec<(String, DocNode)>),
}

/// The kind of an interactive question.
#[derive(Clone, Copy, Debug, PartialEq, Eq, Structural)]
pub enum QuestionKind {
    /// A yes/no confirmation.
    Confirm,
    /// A free-form string input.
    Input,
    /// An integer input.
    Int,
    /// A non-integer numeric input.
    Float,
    /// A single choice from a list.
    Select,
    /// Any number of choices from a list.
    MultiSelect,
    /// An ordering of the choices in a list.
    OrderSelect,
}

/// The three kinds whose prompt presents a choice list.
pub open spec fn is_selection(k: QuestionKind) -> bool {
    k is Select || k is MultiSelect || k is OrderSelect
}

/// The reserved choice text that renders as a visual separator in a prompt
/// list instead of a selectable choice.
pub open spec fn separator_text() -> Seq<char> {
    "---"@
}

/// Mathematical form of a question descriptor.
#[verifier::ext_equal]
pub struct QuestionView {
    /// The answer's name in the environment.
    pub key: Seq<char>,
    /// The prompt text shown to the user.
    pub message: Seq<char>,
    /// The kind of prompt.
    pub kind: QuestionKind,
    /// The choice list, separators included; empty for non-selection kinds.
    pub choices: Seq<Seq<char>>,
}

/// A typed prompt descriptor interpreted from one schema entry.
#[derive(Debug)]
pub struct QuestionSpec {
    /// The answer's name in the environment.
    pub key: String,
    /// The prompt text shown to the user.
    pub message: String,
    /// The kind of prompt.
    pub kind: QuestionKind,
    /// The choice list, separators included; empty for non-selection kinds.
    pub choices: Vec<String>,
}

impl View for QuestionSpec {
    type V = QuestionView;

    open spec fn view(&self) -> QuestionView {
        QuestionView {
            key: self.key@,
            message: self.message@,
            kind: self.kind,
            choices: self.choices@.map_values(|s: String| s@),
        }
    }
}

/// The choices that carry a value: every choice but the separators.
pub open spec fn kept_choices(c: Seq<Seq<char>>) -> Seq<Seq<char>>
    decreases c.len(),
{
    if c.len() == 0 {
        Seq::empty()
    } else {
        let init = kept_choices(c.take(c.len() - 1));
        if c[c.len() - 1] == separator_text() {
            init
        } else {
            init.push(c[c.len() - 1])
        }
    }
}

impl QuestionSpec {
    /// Selection kinds carry a choice list with at least one selectable
    /// (non-separator) choice; other kinds carry none.
    pub open spec fn wf(self) -> bool {
        if is_selection(self.kind) {
            self.choices@.len() > 0 && kept_choices(self@.choices).len() > 0
        } else {
            self.choices@.len() == 0
        }
    }

    /// The choices that carry a value, in order: the choice list without
    /// its separators. An ordering prompt's underlying value set is built
    /// from these, while the full list keeps the separators for display.
    pub fn typed_choices(&self) -> (r: Vec<String>)
        ensures
            r@.map_values(|s: String| s@) == kept_choices(self@.choices),
    {
        let mut out: Vec<String> = Vec::new();
        let n = self.choices.len();
        let mut i: usize = 0;
        proof {
            assert(self@.choices.take(0) =~= Seq::<Seq<char>>::empty());
            assert(out@.map_values(|s: String| s@) =~= kept_choices(self@.choices.take(0)));
        }
        while i < n
            invariant
                n == self.choices@.len(),
                i <= n,
                out@.map_values(|s: String| s@) == kept_choices(self@.choices.take(i as int)),
            decreases n - i,
        {
            let sep = str_eq(self.choices[i].as_str(), "---");
            proof {
                assert(self@.choices.take(i + 1).take(i as int) =~= self@.choices.take(i as int));
                assert(self@.choices.take(i + 1)[i as int] == self@.choices[i as int]);
            }
            if !sep {
                let item = self.choices[i].clone();
                out.push(item);
                proof {
                    assert(out@.map_values(|s: String| s@) =~= kept_choices(
                        self@.choices.take(i + 1),
                    ));
                }
            } else {
                proof {
                    assert(out@.map_values(|s: String| s@) =~= kept_choices(
                        self@.choices.take(i + 1),
                    ));
                }
            }
            i = i + 1;
        }
        proof {
            assert(self@.choices.take(n as int) =~= self@.choices);
        }
        out
    }
}

/// A condition found and tolerated while interpreting the schema.
#[derive(Clone, Copy, Debug, PartialEq, Eq, Structural)]
pub enum SchemaWarning {
    /// The document has no `questions` entry holding a sequence.
    NoQuestionList,
    /// The entry at this position of the `questions` sequence is malformed
    /// or of an unknown type and was skipped.
    SkippedEntry(usize),
}

/// The value of the first field named `k`, if any.
pub open spec fn field_of(fs: Seq<(String, DocNode)>, k: Seq<char>) -> Option<DocNode>
    decreases fs.len(),
{
    if fs.len() == 0 {
        None
    } else if fs[0].0@ == k {
        Some(fs[0].1)
    } else {
        field_of(fs.skip(1), k)
    }
}

/// The text of field `k`, when the field exists and holds a string.
pub open spec fn text_field_spec(fs: Seq<(String, DocNode)>, k: Seq<char>) -> Option<Seq<char>> {
    match field_of(fs, k) {
        Some(DocNode::Scalar(DocScalar::Text(s))) => Some(s@),
        _ => None,
    }
}

/// The strings of a choice list, when every element is a string.
pub open spec fn string_choices(l: Seq<DocNode>) -> Option<Seq<Seq<char>>>
    decreases l.len(),
{
    if l.len() == 0 {
        Some(Seq::empty())
    } else {
        match string_choices(l.take(l.len() - 1)) {
            None => None,
            Some(r) => match l[l.len() - 1] {
                DocNode::Scalar(DocScalar::Text(s)) => Some(r.push(s@)),
                _ => None,
            },
        }
    }
}

/// The choice texts of field `choices`, when it exists, holds a sequence,
/// and every element of the sequence is a string.
pub open spec fn choices_field_spec(fs: Seq<(String, DocNode)>) -> Option<Seq<Seq<char>>> {
    match field_of(fs, "choices"@) {
        Some(DocNode::List(items)) => string_choices(items@),
        _ => None,
    }
}

/// The question kind a type name denotes, if any.
pub open spec fn kind_of_name(n: Seq<char>) -> Option<QuestionKind> {
    if n == "confirm"@ {
        Some(QuestionKind::Confirm)
    } else if n == "input"@ {
        Some(QuestionKind::Input)
    } else if n == "int"@ {
        Some(QuestionKind::Int)
    } else if n == "float"@ {
        Some(QuestionKind::Float)
    } else if n == "select"@ {
        Some(QuestionKind::Select)
    } else if n == "multi_select"@ {
        Some(QuestionKind::MultiSelect)
    } else if n == "order_select"@ {
        Some(QuestionKind::OrderSelect)
    } else {
        None
    }
}

/// The question one schema entry describes, or `None` when the entry is
/// malformed: not a table; missing a string `key`, `message` or `type`;
/// an unknown `type`; or, for selection kinds, a missing, non-sequence,
/// non-string, empty or separator-only choice list.
pub open spec fn question_of(e: DocNode) -> Option<QuestionView> {
    match e {
        DocNode::Table(fields) => {
            match (
                text_field_spec(fields@, "key"@),
                text_field_spec(fields@, "message"@),
                text_field_spec(fields@, "type"@),
            ) {
                (Some(key), Some(message), Some(tyname)) => {
                    match kind_of_name(tyname) {
                        None => None,
                        Some(kind) => {
                            if is_selection(kind) {
                                match choices_field_spec(fields@) {
                                    None => None,
                                    Some(cs) => {
                                        if cs.len() > 0 && kept_choices(cs).len() > 0 {
                                            Some(
                                                QuestionView { key, message, kind, choices: cs },
                                            )
                                        } else {
                                            None
                                        }
                                    },
                                }
                            } else {
                                Some(
                                    QuestionView { key, message, kind, choices: Seq::empty() },
                                )
                            }
                        },
                    }
                },
                _ => None,
            }
        },
        _ => None,
    }
}

/// The questions of a `questions` sequence, in entry order, malformed
/// entries skipped.
pub open spec fn questions_of(entries: Seq<DocNode>) -> Seq<QuestionView>
    decreases entries.len(),
{
    if entries.len() == 0 {
        Seq::empty()
    } else {
        let init = questions_of(entries.take(entries.len() - 1));
        match question_of(entries[entries.len() - 1]) {
            Some(q) => init.push(q),
            None => init,
        }
    }
}

/// One warning for each skipped entry, in entry order.
pub open spec fn skipped_of(entries: Seq<DocNode>) -> Seq<SchemaWarning>
    decreases entries.len(),
{
    if entries.len() == 0 {
        Seq::empty()
    } else {
        let init = skipped_of(entries.take(entries.len() - 1));
        match question_of(entries[entries.len() - 1]) {
            Some(_) => init,
            None => init.push(SchemaWarning::SkippedEntry((entries.len() - 1) as usize)),
        }
    }
}

/// The document's `questions` sequence, when the document is a table whose
/// `questions` field holds a sequence.
pub open spec fn question_entries(doc: DocNode) -> Option<Seq<DocNode>> {
    match doc {
        DocNode::Table(fields) => match field_of(fields@, "questions"@) {
            Some(DocNode::List(entries)) => Some(entries@),
            _ => None,
        },
        _ => None,
    }
}

/// The questions the document describes: those of its `questions` sequence,
/// or none when the document has no such sequence.
pub open spec fn interpret_spec(doc: DocNode) -> Seq<QuestionView> {
    match question_entries(doc) {
        Some(entries) => questions_of(entries),
        None => Seq::empty(),
    }
}

/// The warnings interpretation emits: one per skipped entry, or a single
/// warning when the document has no `questions` sequence.
pub open spec fn warnings_of(doc: DocNode) -> Seq<SchemaWarning> {
    match question_entries(doc) {
        Some(entries) => skipped_of(entries),
        None => seq![SchemaWarning::NoQuestionList],
    }
}

/// The value of the first field named `key`, as `field_of` describes it.
fn field_lookup<'a>(fields: &'a Vec<(String, DocNode)>, key: &str) -> (r: Option<&'a DocNode>)
    ensures
        match r {
            Some(n) => field_of(fields@, key@) == Some(*n),
            None => field_of(fields@, key@) is None,
        },
{
    let n = fields.len();
    let mut i: usize = 0;
    proof {
        assert(fields@.skip(0) =~= fields@);
    }
    while i < n
        invariant
            n == fields@.len(),
            i <= n,
            field_of(fields@, key@) == field_of(fields@.skip(i as int), key@),
        decreases n - i,
    {
        proof {
            assert(fields@.skip(i as int)[0] == fields@[i as int]);
        }
        if str_eq(fields[i].0.as_str(), key) {
            return Some(&fields[i].1);
        }
        proof {
            assert(fields@.skip(i as int).skip(1) =~= fields@.skip(i + 1));
        }
        i = i + 1;
    }
    proof {
        assert(fields@.skip(n as int) =~= Seq::<(String, DocNode)>::empty());
    }
    None
}

/// The text of field `key`, as `text_field_spec` describes it.
fn text_field(fields: &Vec<(String, DocNode)>, key: &str) -> (r: Option<String>)
    ensures
        match r {
            Some(s) => text_field_spec(fields@, key@) == Some(s@),
            None => text_field_spec(fields@, key@) is None,
        },
{
    match field_lookup(fields, key) {
        Some(node) => match node {
            DocNode::Scalar(sc) => match sc {
                DocScalar::Text(s) => Some(s.clone()),
                _ => None,
            },
            _ => None,
        },
        None => None,
    }
}

/// If a prefix of the choice list already fails to be all-strings, the
/// whole list does.
proof fn lemma_string_choices_prefix_none(l: Seq<DocNode>, i: int)
    requires
        0 <= i <= l.len(),
        string_choices(l.take(i)) is None,
    ensures
        string_choices(l) is None,
    decreases l.len() - i,
{
    if i == l.len() {
        assert(l.take(i) =~= l);
    } else {
        assert(l.take(i + 1).take(i) =~= l.take(i));
        lemma_string_choices_prefix_none(l, i + 1);
    }
}

/// The choice texts of the `choices` field, as `choices_field_spec`
/// describes them.
fn choice_strings(fields: &Vec<(String, DocNode)>) -> (r: Option<Vec<String>>)
    ensures
        match r {
            Some(v) => choices_field_spec(fields@) == Some(
                v@.map_values(|s: String| s@),
            ),
            None => choices_field_spec(fields@) is None,
        },
{
    match field_lookup(fields, "choices") {
        Some(node) => match node {
            DocNode::List(items) => {
                proof {
                    assert(*node == DocNode::List(*items));
                }
                let n = items.len();
                let mut out: Vec<String> = Vec::new();
                let mut i: usize = 0;
                proof {
                    assert(items@.take(0) =~= Seq::<DocNode>::empty());
                    assert(out@.map_values(|s: String| s@) =~= Seq::<Seq<char>>::empty());
                }
                while i < n
                    invariant
                        n == items@.len(),
                        i <= n,
                        field_of(fields@, "choices"@) == Some(DocNode::List(*items)),
                        string_choices(items@.take(i as int)) == Some(
                            out@.map_values(|s: String| s@),
                        ),
                    decreases n - i,
                {
                    proof {
                        assert(items@.take(i + 1).take(i as int) =~= items@.take(i as int));
                        assert(items@.take(i + 1)[i as int] == items@[i as int]);
                    }
                    match &items[i] {
                        DocNode::Scalar(sc) => match sc {
                            DocScalar::Text(s) => {
                                out.push(s.clone());
                                proof {
                                    assert(out@.map_values(|s2: String| s2@)
                                        =~= string_choices(items@.take(i as int))->Some_0.push(
                                        s@,
                                    ));
                                }
                            },
                            _ => {
                                proof {
                                    assert(string_choices(items@.take(i + 1)) is None);
                                    lemma_string_choices_prefix_none(items@, i + 1);
                                }
                                return None;
                            },
                        },
                        _ => {
                            proof {
                                assert(string_choices(items@.take(i + 1)) is None);
                                lemma_string_choices_prefix_none(items@, i + 1);
                            }
                            return None;
                        },
                    }
                    i = i + 1;
                }
                proof {
                    assert(items@.take(n as int) =~= items@);
                }
                Some(out)
            },
            _ => None,
        },
        None => None,
    }
}

/// The question kind `ty` names, as `kind_of_name` describes it.
fn parse_kind(ty: &String) -> (r: Option<QuestionKind>)
    ensures
        r == kind_of_name(ty@),
{
    if str_eq(ty.as_str(), "confirm") {
        Some(QuestionKind::Confirm)
    } else if str_eq(ty.as_str(), "input") {
        Some(QuestionKind::Input)
    } else if str_eq(ty.as_str(), "int") {
        Some(QuestionKind::Int)
    } else if str_eq(ty.as_str(), "float") {
        Some(QuestionKind::Float)
    } else if str_eq(ty.as_str(), "select") {
        Some(QuestionKind::Select)
    } else if str_eq(ty.as_str(), "multi_select") {
        Some(QuestionKind::MultiSelect)
    } else if str_eq(ty.as_str(), "order_select") {
        Some(QuestionKind::OrderSelect)
    } else {
        None
    }
}

/// Whether the kind presents a choice list, executable form.
fn is_selection_kind(k: QuestionKind) -> (r: bool)
    ensures
        r == is_selection(k),
{
    match k {
        QuestionKind::Select => true,
        QuestionKind::MultiSelect => true,
        QuestionKind::OrderSelect => true,
        _ => false,
    }
}

/// Counts the selectable (non-separator) choices of `v`.
fn count_kept(v: &Vec<String>) -> (r: usize)
    ensures
        r == kept_choices(v@.map_values(|s: String| s@)).len(),
{
    let n = v.len();
    let mut count: usize = 0;
    let mut i: usize = 0;
    proof {
        assert(v@.take(0).map_values(|s: String| s@) =~= Seq::<Seq<char>>::empty());
        assert(v@.take(0).map_values(|s: String| s@) =~= v@.map_values(|s: String| s@).take(0));
    }
    while i < n
        invariant
            n == v@.len(),
            i <= n,
            count <= i,
            count == kept_choices(v@.map_values(|s: String| s@).take(i as int)).len(),
        decreases n - i,
    {
        let ghost cs = v@.map_values(|s: String| s@);
        proof {
            assert(cs.take(i + 1).take(i as int) =~= cs.take(i as int));
            assert(cs.take(i + 1)[i as int] == cs[i as int]);
            assert(cs[i as int] == v@[i as int]@);
        }
        if !str_eq(v[i].as_str(), "---") {
            count = count + 1;
        }
        i = i + 1;
    }
    proof {
        assert(v@.map_values(|s: String| s@).take(n as int) =~= v@.map_values(|s: String| s@));
    }
    count
}

/// The question one schema entry describes, as `question_of` describes it;
/// a returned descriptor is well-formed.
fn question_of_entry(e: &DocNode) -> (r: Option<QuestionSpec>)
    ensures
        match r {
            Some(q) => question_of(*e) == Some(q@) && q.wf(),
            None => question_of(*e) is None,
        },
{
    let fields = match e {
        DocNode::Table(fields) => fields,
        _ => {
            return None;
        },
    };
    let key = match text_field(fields, "key") {
        Some(k) => k,
        None => {
            return None;
        },
    };
    let message = match text_field(fields, "message") {
        Some(m) => m,
        None => {
            return None;
        },
    };
    let tyname = match text_field(fields, "type") {
        Some(t) => t,
        None => {
            return None;
        },
    };
    let kind = match parse_kind(&tyname) {
        Some(k) => k,
        None => {
            return None;
        },
    };
    if is_selection_kind(kind) {
        let cs = match choice_strings(fields) {
            Some(cs) => cs,
            None => {
                return None;
            },
        };
        if cs.len() == 0 {
            return None;
        }
        if count_kept(&cs) == 0 {
            return None;
        }
        let q = QuestionSpec { key, message, kind, choices: cs };
        proof {
            assert(q@ =~= question_of(*e)->Some_0);
        }
        Some(q)
    } else {
        let q = QuestionSpec { key, message, kind, choices: Vec::new() };
        proof {
            assert(q@.choices =~= Seq::<Seq<char>>::empty());
            assert(q@ =~= question_of(*e)->Some_0);
        }
        Some(q)
    }
}

/// Interprets a parsed schema document: the questions of its `questions`
/// sequence in entry order, each well-formed, plus one warning per skipped
/// entry — or no questions and a single warning when the document carries
/// no `questions` sequence. Never fails: a malformed entry is skipped, not
/// fatal.
pub fn interpret(doc: &DocNode) -> (r: (Vec<QuestionSpec>, Vec<SchemaWarning>))
    ensures
        r.0@.map_values(|q: QuestionSpec| q@) == interpret_spec(*doc),
        r.1@ == warnings_of(*doc),
        forall|i: int| 0 <= i < r.0@.len() ==> (#[trigger] r.0@[i]).wf(),
{
    let fields = match doc {
        DocNode::Table(fields) => fields,
        _ => {
            let qs: Vec<QuestionSpec> = Vec::new();
            let mut ws: Vec<SchemaWarning> = Vec::new();
            ws.push(SchemaWarning::NoQuestionList);
            proof {
                assert(ws@ =~= seq![SchemaWarning::NoQuestionList]);
                assert(qs@.map_values(|q: QuestionSpec| q@) =~= Seq::<QuestionView>::empty());
            }
            return (qs, ws);
        },
    };
    let entries = match field_lookup(fields, "questions") {
        Some(node) => match node {
            DocNode::List(entries) => entries,
            _ => {
                let qs: Vec<QuestionSpec> = Vec::new();
                let mut ws: Vec<SchemaWarning> = Vec::new();
                ws.push(SchemaWarning::NoQuestionList);
                proof {
                    assert(ws@ =~= seq![SchemaWarning::NoQuestionList]);
                    assert(qs@.map_values(|q: QuestionSpec| q@) =~= Seq::<QuestionView>::empty());
                }
                return (qs, ws);
            },
        },
        None => {
            let qs: Vec<QuestionSpec> = Vec::new();
            let mut ws: Vec<SchemaWarning> = Vec::new();
            ws.push(SchemaWarning::NoQuestionList);
            proof {
                assert(ws@ =~= seq![SchemaWarning::NoQuestionList]);
                assert(qs@.map_values(|q: QuestionSpec| q@) =~= Seq::<QuestionView>::empty());
            }
            return (qs, ws);
        },
    };
    let n = entries.len();
    let mut qs: Vec<QuestionSpec> = Vec::new();
    let mut ws: Vec<SchemaWarning> = Vec::new();
    let mut i: usize = 0;
    proof {
        assert(entries@.take(0) =~= Seq::<DocNode>::empty());
        assert(qs@.map_values(|q: QuestionSpec| q@) =~= questions_of(entries@.take(0)));
        assert(ws@ =~= skipped_of(entries@.take(0)));
    }
    while i < n
        invariant
            n == entries@.len(),
            i <= n,
            qs@.map_values(|q: QuestionSpec| q@) == questions_of(entries@.take(i as int)),
            ws@ == skipped_of(entries@.take(i as int)),
            forall|k: int| 0 <= k < qs@.len() ==> (#[trigger] qs@[k]).wf(),
        decreases n - i,
    {
        proof {
            assert(entries@.take(i + 1).take(i as int) =~= entries@.take(i as int));
            assert(entries@.take(i + 1)[i as int] == entries@[i as int]);
        }
        match question_of_entry(&entries[i]) {
            Some(q) => {
                qs.push(q);
                proof {
                    assert(qs@.map_values(|q2: QuestionSpec| q2@) =~= questions_of(
                        entries@.take(i + 1),
                    ));
                }
            },
            None => {
                ws.push(SchemaWarning::SkippedEntry(i));
                proof {
                    assert(ws@ =~= skipped_of(entries@.take(i + 1)));
                }
            },
        }
        i = i + 1;
    }
    proof {
        assert(entries@.take(n as int) =~= entries@);
    }
    (qs, ws)
}

#[verifier::external_type_specification]
#[verifier::external_body]
#[verifier::reject_recursive_types(K)]
#[verifier::reject_recursive_types(V)]
pub struct ExTomlMap<K, V>(toml::map::Map<K, V>);

#[verifier::external_type_specification]
#[verifier::external_body]
pub struct ExTomlValue(toml::Value);

pub uninterp spec fn parsed_schema(s: Seq<char>) -> Option<DocNode>;

/// Relies on toml's parser (`str::parse::<toml::Table>`): whether the text
/// is well-formed TOML, and which document it describes, are functions of
/// the text alone; the document is named `parsed_schema`.
#[verifier::external_body]
fn parse_toml_text(text: &str) -> (r: Option<DocNode>)
    ensures
        r == parsed_schema(text@),
{
    match text.parse::<toml::Table>() {
        Ok(t) => Some(table_node(t)),
        Err(_) => None,
    }
}

/// Relies on toml::Table (an ordered map of string keys): each binding
/// becomes a document field, in the table's order, moving values only.
#[verifier::external_body]
fn table_node(t: toml::Table) -> DocNode {
    DocNode::Table(t.into_iter().map(|(k, v)| (k, value_node(v))).collect())
}

/// Relies on toml::Value's variants: one arm each, moving fields only; the
/// kinds the schema never reads become opaque scalars.
#[verifier::external_body]
fn value_node(v: toml::Value) -> DocNode {
    match v {
        toml::Value::String(s) => DocNode::Scalar(DocScalar::Text(s)),
        toml::Value::Integer(i) => DocNode::Scalar(DocScalar::Integer(i)),
        toml::Value::Boolean(b) => DocNode::Scalar(DocScalar::Boolean(b)),
        toml::Value::Array(a) => DocNode::List(a.into_iter().map(value_node).collect()),
        toml::Value::Table(t) => table_node(t),
        _ => DocNode::Scalar(DocScalar::Other),
    }
}

/// Loads the schema from the text of the template's embedded schema file:
/// text that is not well-formed TOML is a fatal parse error, and a parsed
/// document is interpreted into prompts and warnings as `interpret_spec`
/// and `warnings_of` describe.
pub fn load_schema(text: &str) -> (r: Result<
    (Vec<QuestionSpec>, Vec<SchemaWarning>),
    CPRConfigError,
>)
    ensures
        parsed_schema(text@) is None ==> r == Err::<
            (Vec<QuestionSpec>, Vec<SchemaWarning>),
            CPRConfigError,
        >(CPRConfigError::TomlParseFail),
        parsed_schema(text@) matches Some(doc) ==> (r matches Ok(p) && p.0@.map_values(
            |q: QuestionSpec| q@,
        ) == interpret_spec(doc) && p.1@ == warnings_of(doc) && (forall|i: int|
            0 <= i < p.0@.len() ==> (#[trigger] p.0@[i]).wf())),
{
    match parse_toml_text(text) {
        Some(doc) => Ok(interpret(&doc)),
        None => Err(CPRConfigError::TomlParseFail),
    }
}

} // verus!

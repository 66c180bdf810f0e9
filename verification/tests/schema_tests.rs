use cpr::errors::CPRConfigError;
use cpr::schema::{
    interpret, load_schema, DocNode, DocScalar, QuestionKind, QuestionSpec, SchemaWarning,
};

fn table(fields: Vec<(&str, DocNode)>) -> DocNode {
    DocNode::Table(fields.into_iter().map(|(k, v)| (k.to_string(), v)).collect())
}

fn text(s: &str) -> DocNode {
    DocNode::Scalar(DocScalar::Text(s.to_string()))
}

#[test]
fn select_entry_without_choices_is_skipped_with_warning() {
    // the non-fatal contract: a malformed selection entry is skipped, never a panic
    let schema = "[[questions]]\nkey = \"lang\"\nmessage = \"Language?\"\ntype = \"select\"\n";
    let (questions, warnings) = load_schema(schema).unwrap();
    assert!(questions.is_empty());
    assert_eq!(warnings, vec![SchemaWarning::SkippedEntry(0)]);
}

#[test]
fn well_formed_schema_yields_questions_in_order() {
    let schema = "[[questions]]\n\
        key = \"use_ci\"\n\
        message = \"Add CI config?\"\n\
        type = \"confirm\"\n\
        [[questions]]\n\
        key = \"lang\"\n\
        message = \"Language?\"\n\
        type = \"select\"\n\
        choices = [\"c\", \"cpp\", \"---\", \"rust\"]\n\
        [[questions]]\n\
        key = \"threads\"\n\
        message = \"Worker threads?\"\n\
        type = \"int\"\n";
    let (questions, warnings) = load_schema(schema).unwrap();
    assert!(warnings.is_empty());
    assert_eq!(questions.len(), 3);
    assert_eq!(questions[0].key, "use_ci");
    assert_eq!(questions[0].kind, QuestionKind::Confirm);
    assert_eq!(questions[1].key, "lang");
    assert_eq!(questions[1].message, "Language?");
    assert_eq!(questions[1].kind, QuestionKind::Select);
    assert_eq!(questions[1].choices, vec!["c", "cpp", "---", "rust"]);
    assert_eq!(questions[2].key, "threads");
    assert_eq!(questions[2].kind, QuestionKind::Int);
}

#[test]
fn separator_choices_are_kept_for_display_but_not_typed() {
    let q = QuestionSpec {
        key: "lang".to_string(),
        message: "Language?".to_string(),
        kind: QuestionKind::OrderSelect,
        choices: vec![
            "c".to_string(),
            "---".to_string(),
            "cpp".to_string(),
            "---".to_string(),
        ],
    };
    assert_eq!(q.choices.len(), 4);
    assert_eq!(q.typed_choices(), vec!["c".to_string(), "cpp".to_string()]);
}

#[test]
fn unknown_question_type_is_skipped_with_warning() {
    let schema = "[[questions]]\n\
        key = \"a\"\n\
        message = \"m\"\n\
        type = \"riddle\"\n\
        [[questions]]\n\
        key = \"b\"\n\
        message = \"m\"\n\
        type = \"input\"\n";
    let (questions, warnings) = load_schema(schema).unwrap();
    assert_eq!(questions.len(), 1);
    assert_eq!(questions[0].key, "b");
    assert_eq!(questions[0].kind, QuestionKind::Input);
    assert_eq!(warnings, vec![SchemaWarning::SkippedEntry(0)]);
}

#[test]
fn missing_required_field_skips_the_entry() {
    let schema = "[[questions]]\nmessage = \"no key here\"\ntype = \"input\"\n";
    let (questions, warnings) = load_schema(schema).unwrap();
    assert!(questions.is_empty());
    assert_eq!(warnings, vec![SchemaWarning::SkippedEntry(0)]);
}

#[test]
fn document_without_questions_list_warns_once() {
    let (questions, warnings) = load_schema("name = \"just a config\"\n").unwrap();
    assert!(questions.is_empty());
    assert_eq!(warnings, vec![SchemaWarning::NoQuestionList]);
}

#[test]
fn questions_of_wrong_shape_warns_once() {
    let (questions, warnings) = load_schema("questions = \"not an array\"\n").unwrap();
    assert!(questions.is_empty());
    assert_eq!(warnings, vec![SchemaWarning::NoQuestionList]);
}

#[test]
fn malformed_toml_is_a_fatal_parse_error() {
    assert_eq!(
        load_schema("questions = [ not toml").unwrap_err(),
        CPRConfigError::TomlParseFail
    );
}

#[test]
fn interpret_skips_non_table_entries() {
    let doc = table(vec![(
        "questions",
        DocNode::List(vec![
            text("not a table"),
            table(vec![
                ("key", text("k")),
                ("message", text("m")),
                ("type", text("confirm")),
            ]),
        ]),
    )]);
    let (questions, warnings) = interpret(&doc);
    assert_eq!(questions.len(), 1);
    assert_eq!(questions[0].key, "k");
    assert_eq!(warnings, vec![SchemaWarning::SkippedEntry(0)]);
}

#[test]
fn interpret_rejects_non_string_choices() {
    let doc = table(vec![(
        "questions",
        DocNode::List(vec![table(vec![
            ("key", text("k")),
            ("message", text("m")),
            ("type", text("select")),
            (
                "choices",
                DocNode::List(vec![text("ok"), DocNode::Scalar(DocScalar::Integer(3))]),
            ),
        ])]),
    )]);
    let (questions, warnings) = interpret(&doc);
    assert!(questions.is_empty());
    assert_eq!(warnings, vec![SchemaWarning::SkippedEntry(0)]);
}

#[test]
fn interpret_rejects_empty_or_separator_only_choices() {
    let empty_choices = table(vec![(
        "questions",
        DocNode::List(vec![table(vec![
            ("key", text("k")),
            ("message", text("m")),
            ("type", text("multi_select")),
            ("choices", DocNode::List(vec![])),
        ])]),
    )]);
    let (questions, warnings) = interpret(&empty_choices);
    assert!(questions.is_empty());
    assert_eq!(warnings, vec![SchemaWarning::SkippedEntry(0)]);

    let separators_only = table(vec![(
        "questions",
        DocNode::List(vec![table(vec![
            ("key", text("k")),
            ("message", text("m")),
            ("type", text("order_select")),
            ("choices", DocNode::List(vec![text("---"), text("---")])),
        ])]),
    )]);
    let (questions, warnings) = interpret(&separators_only);
    assert!(questions.is_empty());
    assert_eq!(warnings, vec![SchemaWarning::SkippedEntry(0)]);
}

#[test]
fn all_question_kinds_parse() {
    let kinds = [
        ("confirm", QuestionKind::Confirm),
        ("input", QuestionKind::Input),
        ("int", QuestionKind::Int),
        ("float", QuestionKind::Float),
    ];
    for (name, kind) in kinds {
        let doc = table(vec![(
            "questions",
            DocNode::List(vec![table(vec![
                ("key", text("k")),
                ("message", text("m")),
                ("type", text(name)),
            ])]),
        )]);
        let (questions, warnings) = interpret(&doc);
        assert_eq!(questions.len(), 1, "kind {}", name);
        assert_eq!(questions[0].kind, kind);
        assert!(warnings.is_empty());
    }
    let selections = [
        ("select", QuestionKind::Select),
        ("multi_select", QuestionKind::MultiSelect),
        ("order_select", QuestionKind::OrderSelect),
    ];
    for (name, kind) in selections {
        let doc = table(vec![(
            "questions",
            DocNode::List(vec![table(vec![
                ("key", text("k")),
                ("message", text("m")),
                ("type", text(name)),
                ("choices", DocNode::List(vec![text("a"), text("b")])),
            ])]),
        )]);
        let (questions, warnings) = interpret(&doc);
        assert_eq!(questions.len(), 1, "kind {}", name);
        assert_eq!(questions[0].kind, kind);
        assert_eq!(questions[0].choices, vec!["a", "b"]);
        assert!(warnings.is_empty());
    }
}

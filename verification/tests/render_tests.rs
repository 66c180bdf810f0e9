use convert_case::{Case, Casing};
use cpr::errors::RenderError;
use cpr::format::{camel, kebab, lower, pascal, snake, title, upper, EnvValue};
use cpr::render::{base_env, bind_answer, render, ValueEnv};

fn env_with(key: &str, value: EnvValue) -> ValueEnv {
    let mut env = ValueEnv::new();
    env.bind(key.to_string(), value);
    env
}

#[test]
fn upper_filter_matches_case_transform() {
    let samples = ["hello world", "myVarName", "Mixed Case words", ""];
    for s in samples {
        let env = env_with("v", EnvValue::Text(s.to_string()));
        let out = render("{{ v | upper }}", &env).unwrap();
        assert_eq!(out, s.to_case(Case::Upper));
    }
}

#[test]
fn every_filter_matches_its_case_transform() {
    let s = "My variable NAME";
    let cases = [
        ("lower", Case::Lower),
        ("upper", Case::Upper),
        ("snake", Case::Snake),
        ("kebab", Case::Kebab),
        ("pascal", Case::Pascal),
        ("camel", Case::Camel),
        ("title", Case::Title),
    ];
    for (name, case) in cases {
        let env = env_with("v", EnvValue::Text(s.to_string()));
        let template = format!("{{{{ v | {} }}}}", name);
        let out = render(&template, &env).unwrap();
        assert_eq!(out, s.to_case(case), "filter {}", name);
    }
}

#[test]
fn filter_on_non_string_value_is_format_error() {
    let env = env_with("v", EnvValue::Integer(7));
    assert_eq!(
        render("{{ v | upper }}", &env),
        Err(RenderError::FormatError)
    );
    let env = env_with("v", EnvValue::Boolean(true));
    assert_eq!(
        render("{{ v | snake }}", &env),
        Err(RenderError::FormatError)
    );
}

#[test]
fn filter_on_absent_value_is_format_error() {
    let env = ValueEnv::new();
    assert_eq!(
        render("{{ v | upper }}", &env),
        Err(RenderError::FormatError)
    );
}

#[test]
fn filter_functions_apply_only_to_strings() {
    let text = EnvValue::Text("hello world".to_string());
    assert_eq!(lower(&text).unwrap(), "hello world".to_case(Case::Lower));
    assert_eq!(upper(&text).unwrap(), "hello world".to_case(Case::Upper));
    assert_eq!(snake(&text).unwrap(), "hello world".to_case(Case::Snake));
    assert_eq!(kebab(&text).unwrap(), "hello world".to_case(Case::Kebab));
    assert_eq!(pascal(&text).unwrap(), "hello world".to_case(Case::Pascal));
    assert_eq!(camel(&text).unwrap(), "hello world".to_case(Case::Camel));
    assert_eq!(title(&text).unwrap(), "hello world".to_case(Case::Title));
    let number = EnvValue::Integer(3);
    assert_eq!(lower(&number), Err(RenderError::FormatError));
    assert_eq!(title(&number), Err(RenderError::FormatError));
}

#[test]
fn plain_substitution_uses_textual_forms() {
    let mut env = ValueEnv::new();
    env.bind("name".to_string(), EnvValue::Text("widget".to_string()));
    env.bind("count".to_string(), EnvValue::Integer(-42));
    env.bind("ok".to_string(), EnvValue::Boolean(true));
    env.bind("ratio".to_string(), EnvValue::Number("2.5".to_string()));
    env.bind(
        "steps".to_string(),
        EnvValue::Listing(vec!["one".to_string(), "two".to_string(), "three".to_string()]),
    );
    assert_eq!(
        render("{{ name }}: {{ count }} {{ ok }} {{ ratio }} [{{ steps }}]", &env).unwrap(),
        "widget: -42 true 2.5 [one, two, three]"
    );
}

#[test]
fn text_without_placeholders_passes_through() {
    let env = ValueEnv::new();
    assert_eq!(render("plain text { } }} only", &env).unwrap(), "plain text { } }} only");
    assert_eq!(render("", &env).unwrap(), "");
}

#[test]
fn missing_value_without_filter_is_its_own_error() {
    let env = ValueEnv::new();
    assert_eq!(render("{{ nowhere }}", &env), Err(RenderError::MissingValue));
}

#[test]
fn unknown_filter_is_reported() {
    let env = env_with("v", EnvValue::Text("x".to_string()));
    assert_eq!(
        render("{{ v | shout }}", &env),
        Err(RenderError::UnknownFilter)
    );
}

#[test]
fn unclosed_placeholder_is_reported() {
    let env = env_with("v", EnvValue::Text("x".to_string()));
    assert_eq!(render("start {{ v ", &env), Err(RenderError::Unclosed));
}

#[test]
fn rendering_is_idempotent_for_same_inputs() {
    let mut env = base_env("demo", "Sam Doe", 2026);
    bind_answer(&mut env, "color", EnvValue::Text("deep blue".to_string()));
    let template =
        "# {{ project.name | pascal }}\nby {{ author }} ({{ year }})\ncolor: {{ answers.color | kebab }}\n";
    let first = render(template, &env).unwrap();
    let second = render(template, &env).unwrap();
    assert_eq!(first, second);
    assert_eq!(
        first,
        "# Demo\nby Sam Doe (2026)\ncolor: deep-blue\n"
    );
}

#[test]
fn built_ins_are_always_available() {
    let env = base_env("proj", "Ann", 1999);
    assert_eq!(
        render("{{ project.name }}/{{ author }}/{{ year }}", &env).unwrap(),
        "proj/Ann/1999"
    );
}

#[test]
fn answers_live_under_their_own_namespace() {
    let mut env = base_env("proj", "Ann", 2000);
    // an answer keyed `author` must not shadow the built-in `author`
    bind_answer(&mut env, "author", EnvValue::Text("other".to_string()));
    assert_eq!(render("{{ author }}", &env).unwrap(), "Ann");
    assert_eq!(render("{{ answers.author }}", &env).unwrap(), "other");
}

#[test]
fn rebinding_a_key_overwrites_it() {
    let mut env = ValueEnv::new();
    env.bind("v".to_string(), EnvValue::Text("first".to_string()));
    env.bind("v".to_string(), EnvValue::Text("second".to_string()));
    assert_eq!(render("{{ v }}", &env).unwrap(), "second");
}

#[test]
fn multiple_placeholders_render_left_to_right() {
    let mut env = ValueEnv::new();
    env.bind("a".to_string(), EnvValue::Text("A".to_string()));
    env.bind("b".to_string(), EnvValue::Text("B".to_string()));
    assert_eq!(render("{{ a }}-{{ b }}-{{ a }}", &env).unwrap(), "A-B-A");
}

#[test]
fn first_failing_placeholder_decides_the_error() {
    let mut env = ValueEnv::new();
    env.bind("n".to_string(), EnvValue::Integer(1));
    // the first placeholder's missing value is reported, not the later filter error
    assert_eq!(
        render("{{ gone }} then {{ n | upper }}", &env),
        Err(RenderError::MissingValue)
    );
}

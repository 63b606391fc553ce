use pg_datanymizer::{
    JsonField, JsonTransformer, OnInvalid, ReplaceInvalid, ScalarRule, Selector, Step,
    TransformContext, TransformErrorKind, Transformers,
};

fn field(steps: Vec<Step>, rule: ScalarRule, quote: bool) -> JsonField {
    JsonField {
        name: "f".to_string(),
        selector: Selector { steps },
        rule,
        quote,
    }
}

fn user_name(rule: ScalarRule, quote: bool) -> JsonField {
    field(
        vec![Step::Descend("user".to_string()), Step::Child("name".to_string())],
        rule,
        quote,
    )
}

fn template(s: &str) -> ScalarRule {
    ScalarRule::Template {
        format: s.to_string(),
    }
}

#[test]
fn transform() {
    let t = Transformers::Json(JsonTransformer::new(
        vec![
            JsonField {
                name: "user_name".to_string(),
                selector: Selector::parse("$..user.name").unwrap(),
                rule: template("UserName"),
                quote: true,
            },
            JsonField {
                name: "user_age".to_string(),
                selector: Selector::parse("$..user.age").unwrap(),
                rule: ScalarRule::RandomNum { min: 25, max: 55 },
                quote: false,
            },
        ],
        OnInvalid::default(),
    ));
    let json: serde_json::Value = serde_json::from_str(
        r#"[
            { "user": { "name": "Andrew", "age": 40, "comment": "Abc" } },
            { "user": { "name": "Briana", "age": 30, "comment": "Def" } },
            { "user": { "name": "Charlie", "age": 20, "comment": "Ghi" } }
        ]"#,
    )
    .unwrap();

    let new_json: serde_json::Value = serde_json::from_str(
        t.transform("field", json.to_string().as_str(), &None)
            .unwrap()
            .unwrap()
            .as_str(),
    )
    .unwrap();
    for i in 0..=2 {
        let new_user = &new_json[i]["user"];
        assert_eq!(new_user["name"], "UserName");
        let age = new_user["age"].as_u64().unwrap();
        assert!(age >= 25 && age <= 55);
        assert_eq!(new_user["comment"], json[i]["user"]["comment"]);
    }
}

#[test]
fn nested_user_names_are_replaced() {
    let t = JsonTransformer::new(vec![user_name(template("X"), true)], OnInvalid::default());
    let out = t
        .transform("f", r#"[{"user":{"name":"A"}},{"user":{"name":"B"}}]"#, &None)
        .unwrap()
        .unwrap();
    assert_eq!(out, r#"[{"user":{"name":"X"}},{"user":{"name":"X"}}]"#);
}

#[test]
fn invalid_json_is_replaced_by_empty_object() {
    let t = JsonTransformer::new(vec![user_name(template("X"), true)], OnInvalid::default());
    assert_eq!(
        t.transform("f", "not json", &None).unwrap().unwrap(),
        "{}".to_string()
    );
}

#[test]
fn invalid_json_kept_as_is() {
    let t = JsonTransformer::new(vec![], OnInvalid::AsIs);
    assert_eq!(
        t.transform("f", "not json", &None).unwrap().unwrap(),
        "not json".to_string()
    );
}

#[test]
fn invalid_json_replaced_by_rule() {
    let t = JsonTransformer::new(
        vec![],
        OnInvalid::ReplaceWith(ReplaceInvalid::Rule(template("<{{_0}}>"))),
    );
    assert_eq!(
        t.transform("f", "oops", &None).unwrap().unwrap(),
        "<oops>".to_string()
    );
}

#[test]
fn invalid_json_error_policy() {
    let t = JsonTransformer::new(vec![], OnInvalid::Error);
    let e = t.transform("f", "{broken", &None).unwrap_err();
    assert_eq!(e.kind, TransformErrorKind::InvalidJson);
    assert_eq!(e.field_name, "f".to_string());
    assert_eq!(e.field_value, "{broken".to_string());
    let message = serde_json::from_str::<serde_json::Value>("{broken")
        .unwrap_err()
        .to_string();
    assert!(!e.reason.is_empty());
    assert_eq!(e.reason, message);
}

#[test]
fn unquoted_replacement_must_be_json() {
    let t = JsonTransformer::new(
        vec![user_name(template("not json"), false)],
        OnInvalid::default(),
    );
    let e = t
        .transform("f", r#"{"user":{"name":"A"}}"#, &None)
        .unwrap_err();
    assert_eq!(e.kind, TransformErrorKind::InvalidReplacement);
    assert_eq!(e.field_name, "f".to_string());
    assert_eq!(e.field_value, r#"{"user":{"name":"A"}}"#.to_string());
}

#[test]
fn unquoted_replacement_is_read_as_json() {
    let t = JsonTransformer::new(
        vec![user_name(template("[1, 2]"), false)],
        OnInvalid::default(),
    );
    let out = t
        .transform("f", r#"{"user":{"name":"A"}}"#, &None)
        .unwrap()
        .unwrap();
    assert_eq!(out, r#"{"user":{"name":[1,2]}}"#);
}

#[test]
fn rule_sees_node_as_json_text() {
    let t = JsonTransformer::new(
        vec![user_name(template("{{_0}}!"), true)],
        OnInvalid::default(),
    );
    let out = t
        .transform("f", r#"{"user":{"name":"A"}}"#, &None)
        .unwrap()
        .unwrap();
    assert_eq!(out, r#"{"user":{"name":"\"A\"!"}}"#);
}

#[test]
fn no_fields_rewrites_value_compactly() {
    let t = JsonTransformer::new(vec![], OnInvalid::default());
    let out = t
        .transform("f", "{ \"a\" : [1, 2,  true] }", &None)
        .unwrap()
        .unwrap();
    assert_eq!(out, r#"{"a":[1,2,true]}"#);
}

#[test]
fn index_and_wildcard_steps() {
    let t = JsonTransformer::new(
        vec![field(
            vec![Step::Index(1), Step::Wildcard],
            template("0"),
            false,
        )],
        OnInvalid::default(),
    );
    let out = t
        .transform("f", r#"[{"a":1,"b":2},{"a":3,"b":4}]"#, &None)
        .unwrap()
        .unwrap();
    assert_eq!(out, r#"[{"a":1,"b":2},{"a":0,"b":0}]"#);
}

#[test]
fn random_number_stays_in_range() {
    let r = ScalarRule::RandomNum { min: 10, max: 12 };
    for v in ["a", "b", "c", "d", "e"] {
        let n: u64 = r
            .transform("f", v, &Some(TransformContext { seed: 7 }))
            .unwrap()
            .unwrap()
            .parse()
            .unwrap();
        assert!(n >= 10 && n <= 12);
    }
}

#[test]
fn random_number_single_value_range() {
    let r = ScalarRule::RandomNum { min: 42, max: 42 };
    assert_eq!(r.transform("f", "x", &None).unwrap().unwrap(), "42");
}

#[test]
fn random_number_empty_range_fails() {
    let r = ScalarRule::RandomNum { min: 5, max: 4 };
    assert_eq!(
        r.transform("f", "x", &None).unwrap_err().kind,
        TransformErrorKind::EmptyRange
    );
}

#[test]
fn choice_picks_a_listed_value() {
    let values = vec!["a".to_string(), "b".to_string()];
    let r = ScalarRule::Choice {
        values: values.clone(),
    };
    let out = r.transform("f", "anything", &None).unwrap().unwrap();
    assert!(values.contains(&out));
}

#[test]
fn draw_is_fnv1a_of_value() {
    // FNV-1a of the empty string is the offset basis itself.
    let r = ScalarRule::RandomNum {
        min: 0,
        max: u64::MAX,
    };
    assert_eq!(
        r.transform("f", "", &None).unwrap().unwrap(),
        "14695981039346656037"
    );
    let r = ScalarRule::RandomNum { min: 0, max: 9 };
    assert_eq!(
        r.transform("f", "", &None).unwrap().unwrap(),
        (14695981039346656037u64 % 10).to_string()
    );
}

#[test]
fn template_repeats_value() {
    let r = template("{{_0}}-{{_0}}");
    assert_eq!(r.transform("f", "ab", &None).unwrap().unwrap(), "ab-ab");
}

#[test]
fn selector_text_is_parsed() {
    let s = Selector::parse("$..user.name").unwrap();
    assert_eq!(s.steps.len(), 2);
    assert!(matches!(&s.steps[0], Step::Descend(k) if k == "user"));
    assert!(matches!(&s.steps[1], Step::Child(k) if k == "name"));
    let s = Selector::parse("$[12].*[*]").unwrap();
    assert_eq!(s.steps.len(), 3);
    assert!(matches!(&s.steps[0], Step::Index(12)));
    assert!(matches!(&s.steps[1], Step::Wildcard));
    assert!(matches!(&s.steps[2], Step::Wildcard));
}

#[test]
fn malformed_selectors_are_refused() {
    assert!(Selector::parse("user.name").is_none());
    assert!(Selector::parse("$.").is_none());
    assert!(Selector::parse("$[x]").is_none());
    assert!(Selector::parse("$[1234567890]").is_none());
}

#[test]
fn template_names_the_field() {
    let r = template("{{_name}}={{_0}}");
    assert_eq!(
        r.transform("first_name", "Alice", &None).unwrap().unwrap(),
        "first_name=Alice"
    );
}

use splinter::template::{
    find_argument, get_argument_value, is_arg_value, strip_arg_marker, CreateCircuitBuilder,
    JsonMetadata, Metadata, RuleArgument, Rules, SetMetadata, Value,
};

fn arg(name: &str, required: bool, default: Option<&str>) -> RuleArgument {
    RuleArgument::new(name, required, default.map(|d| d.to_string()), None)
}

#[test]
fn argument_markers() {
    assert!(is_arg_value("$(ADMIN_KEYS)"));
    assert!(is_arg_value("$("));
    assert!(!is_arg_value("ADMIN_KEYS"));
    assert!(!is_arg_value("$"));
    assert!(!is_arg_value(""));
    assert_eq!(strip_arg_marker("$(ADMIN_KEYS)"), "admin_keys");
    assert_eq!(strip_arg_marker("$($(Nested)"), "nested");
    assert_eq!(strip_arg_marker("Plain_Key"), "plain_key");
    assert_eq!(strip_arg_marker("$(NoClose"), "$(noclose");
    assert_eq!(strip_arg_marker("$()"), "");
}

#[test]
fn rule_argument_accessors() {
    let mut a = RuleArgument::new("Admin_Keys", true, Some("x".to_string()), Some("the keys".to_string()));
    assert_eq!(a.name(), "admin_keys");
    assert!(a.required());
    assert_eq!(a.default_value(), Some(&"x".to_string()));
    assert_eq!(a.description(), Some(&"the keys".to_string()));
    assert_eq!(a.user_value(), None);
    a.set_user_value("k1");
    assert_eq!(a.user_value(), Some(&"k1".to_string()));
    let copy = a.clone();
    assert_eq!(copy.user_value(), Some(&"k1".to_string()));
    assert_eq!(copy.name(), "admin_keys");
}

#[test]
fn find_argument_takes_first_match() {
    let args = vec![arg("a", false, None), arg("b", false, Some("1")), arg("b", false, Some("2"))];
    assert_eq!(find_argument(&"b".to_string(), &args), Some(1));
    assert_eq!(find_argument(&"c".to_string(), &args), None);
}

#[test]
fn user_value_wins() {
    let mut a = arg("KEY", true, Some("default"));
    a.set_user_value("given");
    assert_eq!(get_argument_value("$(KEY)", &[a]).unwrap(), "given");
}

#[test]
fn default_value_and_chain() {
    let mut base = arg("base", true, None);
    base.set_user_value("root");
    let args = vec![arg("alias", false, Some("$(BASE)")), base, arg("plain", false, Some("literal"))];
    assert_eq!(get_argument_value("$(plain)", &args).unwrap(), "literal");
    assert_eq!(get_argument_value("$(ALIAS)", &args).unwrap(), "root");
}

#[test]
fn argument_errors() {
    let args = vec![arg("needed", true, None), arg("optional", false, None)];
    assert_eq!(
        get_argument_value("$(NEEDED)", &args).unwrap_err().context(),
        "Argument \"needed\" is required but was not provided"
    );
    assert_eq!(
        get_argument_value("$(optional)", &args).unwrap_err().context(),
        "Argument \"optional\" was not provided and no default value is set"
    );
    assert_eq!(
        get_argument_value("$(other)", &args).unwrap_err().to_string(),
        "Invalid template. Argument \"other\" was expected but not provided"
    );
}

#[test]
fn cyclic_defaults_are_reported() {
    let args = vec![arg("a", false, Some("$(b)")), arg("b", false, Some("$(a)"))];
    assert_eq!(
        get_argument_value("$(a)", &args).unwrap_err().context(),
        "Argument \"a\" has a default value that refers back to itself"
    );
}

fn metadata_rule() -> SetMetadata {
    SetMetadata::new(Metadata::Json {
        metadata: vec![
            JsonMetadata { key: "scope".to_string(), value: Value::Single("global".to_string()) },
            JsonMetadata { key: "admin".to_string(), value: Value::Single("$(ADMIN)".to_string()) },
            JsonMetadata {
                key: "members".to_string(),
                value: Value::List(vec!["$(ADMIN)".to_string(), "guest".to_string()]),
            },
        ],
    })
}

#[test]
fn metadata_is_rendered_as_json() {
    let mut admin = arg("admin", true, None);
    admin.set_user_value("alice");
    let bytes = metadata_rule().apply_rule(&[admin]).unwrap();
    assert_eq!(
        String::from_utf8(bytes).unwrap(),
        "{\"scope\":\"global\",\"admin\":\"alice\",\"members\":[\"alice\",\"guest\"]}"
    );
}

#[test]
fn empty_metadata() {
    let rule = SetMetadata::new(Metadata::Json { metadata: vec![] });
    assert_eq!(rule.apply_rule(&[]).unwrap(), b"{}".to_vec());
    let list = SetMetadata::new(Metadata::Json {
        metadata: vec![JsonMetadata { key: "k".to_string(), value: Value::List(vec![]) }],
    });
    assert_eq!(list.apply_rule(&[]).unwrap(), b"{\"k\":[]}".to_vec());
}

#[test]
fn metadata_error_is_passed_on() {
    let err = metadata_rule().apply_rule(&[arg("admin", true, None)]).unwrap_err();
    assert_eq!(err.context(), "Argument \"admin\" is required but was not provided");
}

#[test]
fn rules_fill_the_builder() {
    let mut admin = arg("admin", true, None);
    admin.set_user_value("alice");
    let rules = Rules::new(Some("gameroom".to_string()), Some(metadata_rule()));
    let builder = rules.apply_rules(CreateCircuitBuilder::new(), &[admin]).unwrap();
    assert_eq!(builder.circuit_management_type(), Some(&"gameroom".to_string()));
    assert_eq!(
        builder.application_metadata().unwrap(),
        &b"{\"scope\":\"global\",\"admin\":\"alice\",\"members\":[\"alice\",\"guest\"]}".to_vec()
    );
    let none = Rules::new(None, None);
    let untouched = none.apply_rules(CreateCircuitBuilder::new(), &[]).unwrap();
    assert_eq!(untouched.circuit_management_type(), None);
    assert_eq!(untouched.application_metadata(), None);
    assert!(rules.apply_rules(CreateCircuitBuilder::new(), &[]).is_err());
}

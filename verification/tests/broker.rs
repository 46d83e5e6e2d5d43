use aios::executor::{ExecutionStatus, ToolCall, ToolExecutor};
use aios::json::JsonValue;
use aios::registry::{
    AuditConfig, ConsentLevel, RiskClass, RollbackInfo, ToolDefinition, ToolRegistry,
};
use aios::validation::{InputValidator, ValidationError};

fn s(text: &str) -> JsonValue {
    JsonValue::Str(text.to_string())
}

fn obj(members: Vec<(&str, JsonValue)>) -> JsonValue {
    JsonValue::Object(members.into_iter().map(|(k, v)| (k.to_string(), v)).collect())
}

fn tool(id: &str, name: &str) -> ToolDefinition {
    ToolDefinition {
        id: id.to_string(),
        name: name.to_string(),
        description: "A test tool".to_string(),
        version: "0.1.0".to_string(),
        category: "test".to_string(),
        input: obj(vec![("type", s("object"))]),
        output: obj(vec![("type", s("object"))]),
        capabilities: vec!["test.read".to_string()],
        risk_class: RiskClass::Low,
        side_effects: vec![],
        rollback: RollbackInfo { supported: false, method: "n/a".to_string() },
        audit: AuditConfig { log_input: true, log_output: false, retention_days: 30 },
        consent_level: ConsentLevel::NoConsent,
    }
}

#[test]
fn test_register_and_retrieve_tool() {
    let mut registry = ToolRegistry::new();
    let tool = ToolDefinition {
        id: "system.test.example".to_string(),
        name: "Test Tool".to_string(),
        description: "A test tool".to_string(),
        version: "0.1.0".to_string(),
        category: "test".to_string(),
        input: obj(vec![("type", s("object"))]),
        output: obj(vec![("type", s("object"))]),
        capabilities: vec!["test.read".to_string()],
        risk_class: RiskClass::Low,
        side_effects: vec![],
        rollback: RollbackInfo {
            supported: false,
            method: "n/a".to_string(),
        },
        audit: AuditConfig {
            log_input: true,
            log_output: false,
            retention_days: 30,
        },
        consent_level: ConsentLevel::NoConsent,
    };

    registry.register(tool);
    assert_eq!(registry.tool_count(), 1);
    assert!(registry.get("system.test.example").is_some());
    assert!(registry.get("nonexistent").is_none());
}

#[test]
fn registering_same_id_replaces() {
    let mut registry = ToolRegistry::new();
    registry.register(tool("a", "first"));
    registry.register(tool("b", "second"));
    registry.register(tool("a", "third"));
    assert_eq!(registry.tool_count(), 2);
    assert_eq!(registry.get("a").unwrap().name, "third");
    assert_eq!(registry.get("b").unwrap().name, "second");
    let mut names: Vec<String> = registry.list_tools().iter().map(|t| t.name.clone()).collect();
    names.sort();
    assert_eq!(names, vec!["second".to_string(), "third".to_string()]);
}

#[test]
fn empty_registry_lists_nothing() {
    let registry = ToolRegistry::new();
    assert_eq!(registry.tool_count(), 0);
    assert!(registry.list_tools().is_empty());
    assert!(registry.get("").is_none());
}

#[test]
fn test_valid_input() {
    let validator = InputValidator::new();
    let schema = obj(vec![
        ("type", s("object")),
        ("required", JsonValue::Array(vec![s("path"), s("scope")])),
    ]);
    let input = obj(vec![
        ("path", s("Documents/note.txt")),
        ("scope", s("documents")),
    ]);

    assert!(validator.validate("system.files.read", &input, &schema).is_ok());
}

#[test]
fn test_missing_required_field() {
    let validator = InputValidator::new();
    let schema = obj(vec![
        ("type", s("object")),
        ("required", JsonValue::Array(vec![s("path"), s("scope")])),
    ]);
    let input = obj(vec![("path", s("Documents/note.txt"))]);

    assert!(validator.validate("system.files.read", &input, &schema).is_err());
}

#[test]
fn test_non_object_input() {
    let validator = InputValidator::new();
    let schema = obj(vec![("type", s("object"))]);
    let input = s("not an object");

    assert!(validator.validate("test", &input, &schema).is_err());
}

#[test]
fn missing_field_names_first_missing() {
    let schema = obj(vec![(
        "required",
        JsonValue::Array(vec![s("path"), JsonValue::Number("3".to_string()), s("scope"), s("mode")]),
    )]);
    let input = obj(vec![("path", s("x")), ("other", JsonValue::Null)]);
    match InputValidator::new().validate("system.files.read", &input, &schema) {
        Err(ValidationError::MissingField { tool_id, field }) => {
            assert_eq!(tool_id, "system.files.read");
            assert_eq!(field, "scope");
        }
        other => panic!("unexpected result {:?}", other),
    }
}

#[test]
fn non_object_error_and_message() {
    let err = InputValidator::new()
        .validate("test", &JsonValue::Array(vec![]), &obj(vec![]))
        .unwrap_err();
    match &err {
        ValidationError::InvalidInput { tool_id, message } => {
            assert_eq!(tool_id, "test");
            assert_eq!(message, "Input must be a JSON object");
        }
        other => panic!("unexpected error {:?}", other),
    }
    assert_eq!(err.describe(), "Invalid input for tool 'test': Input must be a JSON object");
}

#[test]
fn schema_without_required_array_accepts_objects() {
    let v = InputValidator::new();
    assert!(v.validate("t", &obj(vec![]), &obj(vec![("required", s("path"))])).is_ok());
    assert!(v.validate("t", &obj(vec![]), &JsonValue::Null).is_ok());
    assert!(v.validate("t", &obj(vec![]), &obj(vec![("required", JsonValue::Array(vec![]))])).is_ok());
}

#[test]
fn validation_error_descriptions() {
    assert_eq!(
        ValidationError::ToolNotFound("x.y".to_string()).describe(),
        "Tool 'x.y' not found in registry"
    );
    assert_eq!(
        ValidationError::MissingField { tool_id: "t".to_string(), field: "f".to_string() }.describe(),
        "Missing required field 'f' for tool 't'"
    );
}

#[test]
fn json_lookup_finds_members() {
    let v = obj(vec![("a", JsonValue::Bool(true)), ("b", JsonValue::Null)]);
    assert_eq!(v.get("a"), Some(&JsonValue::Bool(true)));
    assert_eq!(v.get("b"), Some(&JsonValue::Null));
    assert_eq!(v.get("c"), None);
    assert!(v.is_object());
    assert_eq!(s("a").get("a"), None);
    assert!(!s("a").is_object());
}

#[test]
fn tool_call_gets_uuid_and_clock_reading() {
    let call = ToolCall::new("system.test".to_string(), obj(vec![]));
    assert_eq!(call.tool_id, "system.test");
    assert_eq!(call.input, obj(vec![]));
    assert_eq!(call.call_id.len(), 36);
    assert_eq!(call.call_id.as_bytes()[14], b'4');
    assert!(call.call_id.chars().all(|c| c == '-' || c.is_ascii_hexdigit() && !c.is_ascii_uppercase()));
    assert!(call.timestamp.secs > 1_600_000_000);
    let other = ToolCall::new("system.test".to_string(), obj(vec![]));
    assert_ne!(call.call_id, other.call_id);
}

#[test]
fn executor_reports_not_implemented() {
    let call = ToolCall::new("system.files.read".to_string(), obj(vec![]));
    let result = ToolExecutor::new().execute(&call);
    assert_eq!(result.call_id, call.call_id);
    assert_eq!(result.tool_id, "system.files.read");
    assert_eq!(result.status, ExecutionStatus::Success);
    assert_eq!(
        result.output,
        obj(vec![
            ("message", s("Tool system.files.read is not yet implemented")),
            ("status", s("not_implemented")),
        ])
    );
}

#[test]
fn finish_keeps_duration_and_time() {
    let call = ToolCall::new("t".to_string(), JsonValue::Null);
    let at = aios::clock::Timestamp { secs: 42, nanos: 7 };
    let result = ToolExecutor::new().finish(&call, 1234, at);
    assert_eq!(result.duration_ms, 1234);
    assert_eq!(result.timestamp, at);
    assert_eq!(result.status, ExecutionStatus::Success);
}

#[test]
fn json_clone_is_deep_copy() {
    let v = obj(vec![
        ("list", JsonValue::Array(vec![JsonValue::Number("1.5".to_string()), JsonValue::Bool(false)])),
        ("nested", obj(vec![("k", s("v"))])),
    ]);
    let w = v.clone();
    assert_eq!(v, w);
    let t = tool("x", "y");
    let u = t.clone();
    assert_eq!(u.input, t.input);
    assert_eq!(u.id, "x");
}

#[test]
fn listed_tools_have_distinct_ids() {
    let mut registry = ToolRegistry::new();
    registry.register(tool("a", "1"));
    registry.register(tool("b", "2"));
    registry.register(tool("a", "3"));
    registry.register(tool("c", "4"));
    let mut ids: Vec<String> = registry.list_tools().iter().map(|t| t.id.clone()).collect();
    ids.sort();
    assert_eq!(ids, vec!["a".to_string(), "b".to_string(), "c".to_string()]);
    assert_eq!(registry.get("c").unwrap().id, "c");
}

fn typed_schema() -> JsonValue {
    obj(vec![
        ("type", s("object")),
        (
            "properties",
            obj(vec![
                ("path", obj(vec![("type", s("string"))])),
                ("count", obj(vec![("type", s("integer"))])),
                ("ratio", obj(vec![("type", s("number"))])),
                ("flags", obj(vec![("type", s("array"))])),
                ("extra", obj(vec![("description", s("anything"))])),
            ]),
        ),
        ("required", JsonValue::Array(vec![s("path")])),
    ])
}

#[test]
fn property_of_wrong_type_is_refused() {
    let schema = obj(vec![
        ("type", s("object")),
        ("properties", obj(vec![("path", obj(vec![("type", s("string"))]))])),
        ("required", JsonValue::Array(vec![s("path")])),
    ]);
    let input = obj(vec![("path", JsonValue::Number("5".to_string()))]);
    match InputValidator::new().validate("system.files.read", &input, &schema) {
        Err(ValidationError::InvalidInput { tool_id, message }) => {
            assert_eq!(tool_id, "system.files.read");
            assert_eq!(message, "Field 'path' must be of type string");
        }
        other => panic!("unexpected result {:?}", other),
    }
}

#[test]
fn properties_of_declared_types_pass() {
    let input = obj(vec![
        ("count", JsonValue::Number("-12".to_string())),
        ("extra", JsonValue::Bool(true)),
        ("flags", JsonValue::Array(vec![])),
        ("path", s("a.txt")),
        ("ratio", JsonValue::Number("0.5".to_string())),
        ("undeclared", JsonValue::Null),
    ]);
    assert!(InputValidator::new().validate("t", &input, &typed_schema()).is_ok());
}

#[test]
fn integer_type_refuses_fractions() {
    let input = obj(vec![
        ("count", JsonValue::Number("1.5".to_string())),
        ("path", s("a.txt")),
    ]);
    match InputValidator::new().validate("t", &input, &typed_schema()) {
        Err(ValidationError::InvalidInput { message, .. }) => {
            assert_eq!(message, "Field 'count' must be of type integer");
        }
        other => panic!("unexpected result {:?}", other),
    }
}

#[test]
fn missing_field_is_reported_before_wrong_type() {
    let input = obj(vec![("count", s("three"))]);
    match InputValidator::new().validate("t", &input, &typed_schema()) {
        Err(ValidationError::MissingField { field, .. }) => assert_eq!(field, "path"),
        other => panic!("unexpected result {:?}", other),
    }
}

#[test]
fn first_member_of_wrong_type_is_named() {
    let input = obj(vec![
        ("count", s("three")),
        ("path", JsonValue::Bool(false)),
    ]);
    match InputValidator::new().validate("t", &input, &typed_schema()) {
        Err(ValidationError::InvalidInput { message, .. }) => {
            assert_eq!(message, "Field 'count' must be of type integer");
        }
        other => panic!("unexpected result {:?}", other),
    }
}

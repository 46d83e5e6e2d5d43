use aios::clock::Timestamp;
use aios::json::JsonValue;
use aios::memory::{MemoryEntry, MemoryLayer, MemoryScope};
use aios::model_runtime::{
    HardwareTarget, ModelConfig, ModelRuntimeManager, ModelType, ResourceBudget,
};

fn entry(id: &str, scope: MemoryScope, key: &str, value: &str) -> MemoryEntry {
    MemoryEntry {
        id: id.to_string(),
        scope,
        key: key.to_string(),
        value: JsonValue::Str(value.to_string()),
        source: "test".to_string(),
        created_at: Timestamp { secs: 1, nanos: 0 },
        expires_at: None,
    }
}

fn app(id: &str) -> MemoryScope {
    MemoryScope::AppWorkspace { app_id: id.to_string() }
}

#[test]
fn recall_gives_latest_store() {
    let mut m = MemoryLayer::new();
    m.store(entry("1", MemoryScope::Personal, "name", "Ada"));
    m.store(entry("2", MemoryScope::Personal, "name", "Grace"));
    m.store(entry("3", MemoryScope::Session, "name", "Alan"));
    assert_eq!(m.recall(&MemoryScope::Personal, "name").unwrap().id, "2");
    assert_eq!(m.recall(&MemoryScope::Session, "name").unwrap().id, "3");
    assert!(m.recall(&MemoryScope::SecureVault, "name").is_none());
    assert!(m.recall(&MemoryScope::Personal, "age").is_none());
}

#[test]
fn app_workspaces_are_separate() {
    let mut m = MemoryLayer::default();
    m.store(entry("1", app("mail"), "k", "a"));
    m.store(entry("2", app("maps"), "k", "b"));
    assert_eq!(m.recall(&app("mail"), "k").unwrap().id, "1");
    assert_eq!(m.recall(&app("maps"), "k").unwrap().id, "2");
    assert!(m.recall(&app("notes"), "k").is_none());
}

#[test]
fn forget_removes_by_id() {
    let mut m = MemoryLayer::new();
    m.store(entry("1", MemoryScope::Personal, "a", "x"));
    m.store(entry("2", MemoryScope::Personal, "a", "y"));
    m.store(entry("2", MemoryScope::Session, "b", "z"));
    assert!(m.forget("2"));
    assert_eq!(m.recall(&MemoryScope::Personal, "a").unwrap().id, "1");
    assert!(m.recall(&MemoryScope::Session, "b").is_none());
    assert!(!m.forget("2"));
    assert!(!m.forget("missing"));
}

#[test]
fn clear_scope_keeps_other_scopes() {
    let mut m = MemoryLayer::new();
    m.store(entry("1", app("mail"), "k", "a"));
    m.store(entry("2", app("maps"), "k", "b"));
    m.store(entry("3", MemoryScope::Session, "k", "c"));
    m.clear_scope(&app("mail"));
    assert!(m.recall(&app("mail"), "k").is_none());
    assert_eq!(m.recall(&app("maps"), "k").unwrap().id, "2");
    assert_eq!(m.recall(&MemoryScope::Session, "k").unwrap().id, "3");
    m.clear_scope(&MemoryScope::Session);
    assert!(m.recall(&MemoryScope::Session, "k").is_none());
}

fn model(model_type: ModelType, path: &str, is_local: bool) -> ModelConfig {
    ModelConfig {
        model_type,
        model_path: Some(path.to_string()),
        quantization: None,
        hardware_target: HardwareTarget::Cpu,
        max_tokens: 512,
        is_local,
    }
}

fn budget() -> ResourceBudget {
    ResourceBudget {
        max_ram_mb: 2048,
        max_inference_time_ms: 5000,
        max_battery_percent_per_hour_bits: 5.0f32.to_bits(),
    }
}

#[test]
fn selection_prefers_local_models() {
    let mut r = ModelRuntimeManager::new(budget());
    r.register_model(model(ModelType::Planner, "remote-planner", false));
    r.register_model(model(ModelType::Planner, "local-planner", true));
    r.register_model(model(ModelType::Planner, "local-planner-2", true));
    r.register_model(model(ModelType::Vision, "remote-vision", false));
    let p = r.select_model(&ModelType::Planner).unwrap();
    assert_eq!(p.model_path.as_deref(), Some("local-planner"));
    let v = r.select_model(&ModelType::Vision).unwrap();
    assert_eq!(v.model_path.as_deref(), Some("remote-vision"));
    assert!(r.select_model(&ModelType::Asr).is_none());
    assert_eq!(r.available_models().len(), 4);
    assert_eq!(r.available_models()[0].model_path.as_deref(), Some("remote-planner"));
}

#[test]
fn empty_manager_selects_nothing() {
    let r = ModelRuntimeManager::new(budget());
    assert!(r.select_model(&ModelType::IntentParser).is_none());
    assert!(r.available_models().is_empty());
}

#[test]
fn scope_matching_compares_kind_and_app() {
    assert!(MemoryLayer::scope_matches(&MemoryScope::Session, &MemoryScope::Session));
    assert!(!MemoryLayer::scope_matches(&MemoryScope::Session, &MemoryScope::Personal));
    assert!(MemoryLayer::scope_matches(&app("mail"), &app("mail")));
    assert!(!MemoryLayer::scope_matches(&app("mail"), &app("maps")));
    assert!(!MemoryLayer::scope_matches(&app("mail"), &MemoryScope::SecureVault));
}

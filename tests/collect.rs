use session_ui::collect::{Collection, CollectionError, ComponentInfo, KindDefinition};

fn def(deps: &[&str]) -> KindDefinition<u32> {
    KindDefinition { comment: None, kind: 0, dependencies: deps.iter().map(|d| d.to_string()).collect() }
}

#[test]
fn all_names_lists_kinds_then_errors() {
    let mut c = Collection::<u32>::new();
    c.insert_kind("A".to_string(), def(&[]));
    c.insert_kind("B".to_string(), def(&[]));
    c.insert_erroring_kind("E".to_string(), "bad".to_string());
    c.insert_kind("A".to_string(), def(&["B"]));
    assert_eq!(c.get_all_names(), vec!["A".to_string(), "B".to_string(), "E".to_string()]);
    assert_eq!(c.get_kinds()[0].1.dependencies, vec!["B".to_string()]);
}

#[test]
fn prune_removes_from_both_tables() {
    let mut c = Collection::<u32>::new();
    c.insert_kind("A".to_string(), def(&[]));
    c.insert_kind("B".to_string(), def(&[]));
    c.insert_erroring_kind("E".to_string(), "bad".to_string());
    c.prune_names(&vec!["A".to_string(), "E".to_string(), "Z".to_string()]);
    assert_eq!(c.get_all_names(), vec!["B".to_string()]);
}

#[test]
fn missing_dependencies_become_errors() {
    let mut c = Collection::<u32>::new();
    c.insert_kind("A".to_string(), def(&["X", "B", "Y"]));
    c.insert_kind("B".to_string(), def(&["X", "E"]));
    c.insert_erroring_kind("E".to_string(), "bad".to_string());
    c.meet_all_dependencies();
    assert_eq!(
        c.get_all_names(),
        vec!["A".to_string(), "B".to_string(), "E".to_string(), "X".to_string(), "Y".to_string()]
    );
    let errors = c.get_errors();
    assert_eq!(errors.len(), 3);
    match errors[1] {
        CollectionError::MissingType { name, dependents } => {
            assert_eq!(name, "X");
            assert_eq!(dependents, &vec!["A".to_string(), "B".to_string()]);
        }
        _ => panic!("expected a missing type"),
    }
    match errors[2] {
        CollectionError::MissingType { name, dependents } => {
            assert_eq!(name, "Y");
            assert_eq!(dependents, &vec!["A".to_string()]);
        }
        _ => panic!("expected a missing type"),
    }
}

#[test]
fn components_are_listed() {
    let mut c = Collection::<u32>::new();
    c.insert_component(
        "Button".to_string(),
        ComponentInfo { render_name: "ButtonRender".to_string(), actions: vec![], events: vec![] },
    );
    c.insert_function("ButtonRender".to_string());
    let info = c.get_component_info();
    assert_eq!(info.len(), 1);
    assert_eq!(info[0].0, "Button");
    assert_eq!(info[0].1.render_name, "ButtonRender");
}

#[test]
fn unrelated_names_follow_references_transitively() {
    let mut c = Collection::<u32>::new();
    c.insert_kind("Button".to_string(), def(&["Style"]));
    c.insert_kind("Style".to_string(), def(&["Color"]));
    c.insert_kind("Color".to_string(), def(&[]));
    c.insert_kind("Unused".to_string(), def(&["Color"]));
    c.insert_erroring_kind("Broken".to_string(), "bad".to_string());
    let unrelated = c.get_unrelated_names(&vec!["Button".to_string()]);
    assert_eq!(unrelated, vec!["Unused".to_string(), "Broken".to_string()]);
    let none = c.get_unrelated_names(&vec!["Unused".to_string(), "Broken".to_string(), "Button".to_string()]);
    assert!(none.is_empty());
}

#[test]
fn unrelated_names_with_cycle() {
    let mut c = Collection::<u32>::new();
    c.insert_kind("A".to_string(), def(&["B"]));
    c.insert_kind("B".to_string(), def(&["A"]));
    c.insert_kind("C".to_string(), def(&[]));
    assert_eq!(c.get_unrelated_names(&vec!["B".to_string()]), vec!["C".to_string()]);
}

#[test]
fn check_components_prunes_and_reports() {
    let mut c = Collection::<u32>::new();
    c.insert_kind("Button".to_string(), def(&["Style", "Missing"]));
    c.insert_kind("Style".to_string(), def(&[]));
    c.insert_kind("Unused".to_string(), def(&[]));
    c.insert_component(
        "Button".to_string(),
        ComponentInfo { render_name: "ButtonRender".to_string(), actions: vec![], events: vec![] },
    );
    c.insert_component(
        "Label".to_string(),
        ComponentInfo { render_name: "LabelRender".to_string(), actions: vec![], events: vec![] },
    );
    c.insert_function("LabelRender".to_string());
    c.check_components();
    assert_eq!(
        c.get_all_names(),
        vec!["Button".to_string(), "Style".to_string(), "Missing".to_string()]
    );
    let errors = c.get_errors();
    assert_eq!(errors.len(), 3);
    match errors[1] {
        CollectionError::MissingFunction { name, component } => {
            assert_eq!(name, "start");
            assert!(component.is_none());
        }
        _ => panic!("expected the missing start function"),
    }
    match errors[2] {
        CollectionError::MissingFunction { name, component } => {
            assert_eq!(name, "ButtonRender");
            assert_eq!(component, &Some("Button".to_string()));
        }
        _ => panic!("expected a missing render function"),
    }
}

#[test]
fn check_components_with_everything_exported() {
    let mut c = Collection::<u32>::new();
    c.insert_kind("Button".to_string(), def(&[]));
    c.insert_component(
        "Button".to_string(),
        ComponentInfo { render_name: "ButtonRender".to_string(), actions: vec![], events: vec![] },
    );
    c.insert_function("start".to_string());
    c.insert_function("ButtonRender".to_string());
    c.check_components();
    assert!(c.get_errors().is_empty());
    assert_eq!(c.get_all_names(), vec!["Button".to_string()]);
}

fn tags(values: &[&str]) -> Vec<String> {
    values.iter().map(|v| v.to_string()).collect()
}

#[test]
fn component_tag_with_default_render_name() {
    let mut c = Collection::<u32>::new();
    c.consider_js_doc_tags("Button", &tags(&["@component"]));
    let info = c.get_component_info();
    assert_eq!(info.len(), 1);
    assert_eq!(info[0].0, "Button");
    assert_eq!(info[0].1.render_name, "ButtonRender");
}

#[test]
fn component_tag_with_named_render_function() {
    let mut c = Collection::<u32>::new();
    c.consider_js_doc_tags("Button", &tags(&["  @component\tdrawButton extra"]));
    assert_eq!(c.get_component_info()[0].1.render_name, "drawButton");
    c.consider_js_doc_tags("Button", &tags(&["@component other"]));
    assert_eq!(c.get_component_info().len(), 1);
    assert_eq!(c.get_component_info()[0].1.render_name, "other");
}

#[test]
fn feature_key_tags() {
    let mut c = Collection::<u32>::new();
    c.consider_js_doc_tags("EventKey", &tags(&["@feature_event_key"]));
    c.consider_js_doc_tags("ActionKey", &tags(&["@see x", "@feature_action_key"]));
    assert_eq!(c.event_key_type_name(), &Some("EventKey".to_string()));
    assert_eq!(c.action_key_type_name(), &Some("ActionKey".to_string()));
}

#[test]
fn other_tags_change_nothing() {
    let mut c = Collection::<u32>::new();
    c.consider_js_doc_tags("Node", &tags(&["", "   ", "@feature_event_key extra", "@deprecated"]));
    assert!(c.get_component_info().is_empty());
    assert_eq!(c.event_key_type_name(), &None);
    assert_eq!(c.action_key_type_name(), &None);
}

#[test]
fn unrelated_names_are_listed_once() {
    let mut c = Collection::<u32>::new();
    c.insert_kind("Twice".to_string(), def(&[]));
    c.insert_erroring_kind("Twice".to_string(), "bad".to_string());
    c.insert_kind("Root".to_string(), def(&[]));
    assert_eq!(c.get_unrelated_names(&vec!["Root".to_string()]), vec!["Twice".to_string()]);
}

#[test]
fn meet_all_dependencies_twice_adds_nothing() {
    let mut c = Collection::<u32>::new();
    c.insert_kind("A".to_string(), def(&["X"]));
    c.meet_all_dependencies();
    assert_eq!(c.get_errors().len(), 1);
    c.meet_all_dependencies();
    assert_eq!(c.get_errors().len(), 1);
    assert_eq!(c.get_all_names(), vec!["A".to_string(), "X".to_string()]);
}

#[test]
fn prune_keeps_other_entries() {
    let mut c = Collection::<u32>::new();
    c.insert_kind("A".to_string(), KindDefinition { comment: Some("doc".to_string()), kind: 7, dependencies: vec![] });
    c.insert_kind("B".to_string(), def(&[]));
    c.insert_erroring_kind("E".to_string(), "bad".to_string());
    c.prune_names(&vec!["B".to_string()]);
    let kinds = c.get_kinds();
    assert_eq!(kinds.len(), 1);
    assert_eq!(kinds[0].0, "A");
    assert_eq!(kinds[0].1.kind, 7);
    assert_eq!(kinds[0].1.comment, Some("doc".to_string()));
    match c.get_errors()[0] {
        CollectionError::Conversion { message } => assert_eq!(message, "bad"),
        _ => panic!("expected the conversion error"),
    }
}

#[test]
fn unicode_whitespace_separates_words() {
    let mut c = Collection::<u32>::new();
    c.consider_js_doc_tags("Card", &tags(&["@component\u{3000}drawCard"]));
    assert_eq!(c.get_component_info()[0].1.render_name, "drawCard");
}

use cftool::config::{
    resolve_instance, get_configurations, get_deployment, ConfigFile, Configuration,
    ConfigurationDefinition, ConfigurationInstance,
};
use cftool::params::ParamMap;

fn pm(pairs: &[(&str, &str)]) -> ParamMap {
    let mut m = ParamMap::new();
    for (k, v) in pairs {
        m.insert(k.to_string(), v.to_string());
    }
    m
}

fn stack_def(name: &str, path: &str, region: &str) -> ConfigurationDefinition {
    ConfigurationDefinition {
        name: name.to_string(),
        path: path.to_string(),
        region: region.to_string(),
        capabilities: None,
        parameters: None,
        instances: None,
    }
}

fn empty_instance() -> ConfigurationInstance {
    ConfigurationInstance {
        name: None,
        path: None,
        region: None,
        aws_account_id: None,
        capabilities: None,
        parameters: None,
    }
}

fn get_param(c: &Configuration, key: &str) -> Option<String> {
    c.parameters.get(&key.to_string()).cloned()
}

#[test]
fn instance_parameter_overrides_stack_parameter() {
    // StackDefinition web { region: us-east-1, parameters: { Env: prod } }
    // with instance blue { parameters: { Env: staging } }.
    let mut stack = stack_def("web", "templates/web.yaml", "us-east-1");
    stack.parameters = Some(pm(&[("Env", "prod")]));
    let mut blue = empty_instance();
    blue.parameters = Some(pm(&[("Env", "staging")]));
    let c = resolve_instance(
        &"web".to_string(),
        &stack,
        &"blue".to_string(),
        &blue,
    );
    assert_eq!(c.deployment_name, "web:blue");
    assert_eq!(c.region, "us-east-1");
    assert_eq!(get_param(&c, "Env"), Some("staging".to_string()));
    assert_eq!(c.parameters.len(), 1);
}

#[test]
fn scalar_fields_use_instance_value_when_present() {
    let mut stack = stack_def("web", "templates/web.yaml", "us-east-1");
    stack.capabilities = Some("CAPABILITY_IAM".to_string());
    let inst = ConfigurationInstance {
        name: Some("web-blue".to_string()),
        path: Some("templates/blue.yaml".to_string()),
        region: Some("eu-west-1".to_string()),
        aws_account_id: Some("111122223333".to_string()),
        capabilities: Some("CAPABILITY_NAMED_IAM".to_string()),
        parameters: None,
    };
    let c = resolve_instance(&"web".to_string(), &stack, &"blue".to_string(), &inst);
    assert_eq!(c.name, "web-blue");
    assert_eq!(c.path, "templates/blue.yaml");
    assert_eq!(c.region, "eu-west-1");
    assert_eq!(c.aws_account_id, "111122223333");
    assert_eq!(c.capabilities, Some("CAPABILITY_NAMED_IAM".to_string()));
}

#[test]
fn scalar_fields_fall_back_to_stack_value() {
    let mut stack = stack_def("web", "templates/web.yaml", "us-east-1");
    stack.capabilities = Some("CAPABILITY_IAM".to_string());
    let c = resolve_instance(
        &"web".to_string(),
        &stack,
        &"blue".to_string(),
        &empty_instance(),
    );
    assert_eq!(c.name, "web");
    assert_eq!(c.path, "templates/web.yaml");
    assert_eq!(c.region, "us-east-1");
    // The account id has no stack-level default: absent means empty.
    assert_eq!(c.aws_account_id, "");
    assert_eq!(c.capabilities, Some("CAPABILITY_IAM".to_string()));
}

#[test]
fn parameter_merge_keeps_stack_only_keys() {
    let mut stack = stack_def("web", "t.yaml", "us-east-1");
    stack.parameters = Some(pm(&[("A", "1"), ("B", "2")]));
    let mut inst = empty_instance();
    inst.parameters = Some(pm(&[("B", "3"), ("C", "4")]));
    let c = resolve_instance(&"web".to_string(), &stack, &"i".to_string(), &inst);
    assert_eq!(get_param(&c, "A"), Some("1".to_string()));
    assert_eq!(get_param(&c, "B"), Some("3".to_string()));
    assert_eq!(get_param(&c, "C"), Some("4".to_string()));
    assert_eq!(get_param(&c, "D"), None);
    assert_eq!(c.parameters.len(), 3);
}

#[test]
fn stacks_without_instances_are_inert() {
    let mut with_instances = stack_def("web", "t.yaml", "us-east-1");
    with_instances.instances = Some(vec![
        ("blue".to_string(), empty_instance()),
        ("green".to_string(), empty_instance()),
    ]);
    let bare = stack_def("db", "db.yaml", "eu-west-1");
    let file = ConfigFile {
        configurations: vec![
            ("web".to_string(), with_instances),
            ("db".to_string(), bare),
        ],
    };
    let configs = get_configurations(&file);
    assert_eq!(configs.len(), 2);
    let keys: Vec<String> = configs.iter().map(|c| c.deployment_name.clone()).collect();
    assert!(keys.contains(&"web:blue".to_string()));
    assert!(keys.contains(&"web:green".to_string()));
}

#[test]
fn deployment_lookup_finds_key_or_nothing() {
    let mut stack = stack_def("web", "t.yaml", "us-east-1");
    stack.instances = Some(vec![("blue".to_string(), empty_instance())]);
    let file = ConfigFile {
        configurations: vec![("web".to_string(), stack)],
    };
    let configs = get_configurations(&file);
    let hit = get_deployment(&configs, &"web:blue".to_string());
    assert!(hit.is_some());
    assert_eq!(hit.unwrap().deployment_name, "web:blue");
    let miss = get_deployment(&configs, &"web:red".to_string());
    assert!(miss.is_none());
}

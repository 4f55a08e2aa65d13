use cftool::aws::{Stack, StackParameter};
use cftool::config::Configuration;
use cftool::helpers::DeploymentDiff;
use cftool::params::ParamMap;

fn config_with(params: &[(&str, &str)]) -> Configuration {
    let mut m = ParamMap::new();
    for (k, v) in params {
        m.insert(k.to_string(), v.to_string());
    }
    Configuration {
        deployment_name: "web:blue".to_string(),
        name: "web".to_string(),
        path: "templates/web.yaml".to_string(),
        region: "us-east-1".to_string(),
        aws_account_id: "111122223333".to_string(),
        capabilities: None,
        parameters: m,
    }
}

fn stack_with(stack_id: &str, params: Option<Vec<(&str, &str)>>) -> Stack {
    Stack {
        stack_id: stack_id.to_string(),
        stack_name: "web".to_string(),
        description: None,
        parameters: params.map(|ps| {
            ps.iter()
                .map(|(k, v)| StackParameter {
                    parameter_key: k.to_string(),
                    parameter_value: v.to_string(),
                })
                .collect()
        }),
        creation_time: "2024-01-01T00:00:00Z".to_string(),
        capabilities: Some(vec!["CAPABILITY_IAM".to_string()]),
        disable_rollback: false,
        notification_arns: vec![],
        tags: vec![],
    }
}

#[test]
fn configuration_canonical_text_sorts_parameters() {
    let c = config_with(&[("Tier", "gold"), ("Env", "prod")]);
    assert_eq!(
        c.to_string(),
        "Name: web\nRegion: us-east-1\nAwsAccountId: 111122223333\nCapabilities: None\nParameters: \n    Env: prod\n    Tier: gold"
    );
}

#[test]
fn configuration_text_is_insertion_order_independent() {
    let one_way = config_with(&[("A", "1"), ("B", "2"), ("C", "3")]);
    let other_way = config_with(&[("C", "3"), ("A", "1"), ("B", "2")]);
    assert_eq!(one_way.to_string(), other_way.to_string());
}

#[test]
fn empty_parameters_render_as_none() {
    let c = config_with(&[]);
    assert_eq!(
        c.to_string(),
        "Name: web\nRegion: us-east-1\nAwsAccountId: 111122223333\nCapabilities: None\nParameters: None"
    );
}

#[test]
fn stack_text_reads_region_and_account_from_the_arn() {
    let s = stack_with(
        "arn:aws:cloudformation:us-east-1:111122223333:stack/web/abcd",
        Some(vec![("Tier", "gold"), ("Env", "prod")]),
    );
    assert_eq!(
        s.to_string(),
        "Name: web\nRegion: us-east-1\nAwsAccountId: 111122223333\nCapabilities: CAPABILITY_IAM\nParameters: \n    Env: prod\n    Tier: gold"
    );
}

#[test]
fn stack_text_with_short_id_leaves_fragments_empty() {
    let s = stack_with("not-an-arn", None);
    assert_eq!(
        s.to_string(),
        "Name: web\nRegion: \nAwsAccountId: \nCapabilities: CAPABILITY_IAM\nParameters: None"
    );
}

#[test]
fn capability_list_is_space_joined() {
    let mut s = stack_with("arn:aws:cloudformation:us-east-1:1:stack/web/x", None);
    s.capabilities = Some(vec![
        "CAPABILITY_IAM".to_string(),
        "CAPABILITY_NAMED_IAM".to_string(),
    ]);
    assert_eq!(
        s.to_string(),
        "Name: web\nRegion: us-east-1\nAwsAccountId: 1\nCapabilities: CAPABILITY_IAM CAPABILITY_NAMED_IAM\nParameters: None"
    );
}

#[test]
fn absent_capabilities_render_as_none_on_stacks() {
    let mut s = stack_with("arn:aws:cloudformation:us-east-1:1:stack/web/x", None);
    s.capabilities = None;
    assert_eq!(
        s.to_string(),
        "Name: web\nRegion: us-east-1\nAwsAccountId: 1\nCapabilities: None\nParameters: None"
    );
}

#[test]
fn reinserting_a_key_replaces_its_value() {
    let mut m = ParamMap::new();
    m.insert("Env".to_string(), "prod".to_string());
    m.insert("Env".to_string(), "staging".to_string());
    assert_eq!(m.len(), 1);
    assert_eq!(m.get(&"Env".to_string()), Some(&"staging".to_string()));
}

#[test]
fn configuration_with_capability_renders_the_token() {
    let mut c = config_with(&[]);
    c.capabilities = Some("CAPABILITY_IAM".to_string());
    assert_eq!(
        c.to_string(),
        "Name: web\nRegion: us-east-1\nAwsAccountId: 111122223333\nCapabilities: CAPABILITY_IAM\nParameters: None"
    );
}

#[test]
fn matching_texts_render_identical_and_differing_texts_drifted() {
    let same = DeploymentDiff {
        deployment_name: "web:blue".to_string(),
        local_config: "A".to_string(),
        remote_config: "A".to_string(),
        local_template: "T".to_string(),
        remote_template: "U".to_string(),
    };
    assert_eq!(same.config_state(), "\u{1b}[32mIDENTICAL\u{1b}[39m");
    assert_eq!(same.template_state(), "\u{1b}[31mDRIFTED\u{1b}[39m");
}

#[test]
fn single_differing_parameter_value_drifts_the_config() {
    let local = config_with(&[("Env", "prod"), ("Tier", "gold")]);
    let remote = config_with(&[("Env", "staging"), ("Tier", "gold")]);
    let local_text = local.to_string();
    let remote_text = remote.to_string();
    assert_ne!(local_text, remote_text);
    let diff = DeploymentDiff {
        deployment_name: "web:blue".to_string(),
        local_config: local_text,
        remote_config: remote_text,
        local_template: "T".to_string(),
        remote_template: "T".to_string(),
    };
    assert_eq!(diff.config_state(), "\u{1b}[31mDRIFTED\u{1b}[39m");
    assert_eq!(diff.template_state(), "\u{1b}[32mIDENTICAL\u{1b}[39m");
}

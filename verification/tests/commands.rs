use cftool::aws::CloudFormation;
use cftool::config::Configuration;
use cftool::params::ParamMap;

fn config(capabilities: Option<&str>, params: &[(&str, &str)]) -> Configuration {
    let mut m = ParamMap::new();
    for (k, v) in params {
        m.insert(k.to_string(), v.to_string());
    }
    Configuration {
        deployment_name: "web:blue".to_string(),
        name: "web".to_string(),
        path: "templates/web.yaml".to_string(),
        region: "us-east-1".to_string(),
        aws_account_id: "111122223333".to_string(),
        capabilities: capabilities.map(|c| c.to_string()),
        parameters: m,
    }
}

#[test]
fn create_command_with_capabilities_and_parameters() {
    let c = config(Some("CAPABILITY_IAM"), &[("Env", "prod"), ("Tier", "gold")]);
    let cmd = c.to_cmd(CloudFormation::Create);
    let expected = vec![
        "cloudformation",
        "create-stack",
        "--region",
        "us-east-1",
        "--stack-name",
        "web",
        "--template-body",
        "file://templates/web.yaml",
        "--capabilities",
        "CAPABILITY_IAM",
        "--parameters",
        "[{\"ParameterKey\": \"Env\", \"ParameterValue\": \"prod\"},{\"ParameterKey\": \"Tier\", \"ParameterValue\": \"gold\"}]",
    ];
    assert_eq!(cmd, expected.iter().map(|s| s.to_string()).collect::<Vec<_>>());
}

#[test]
fn create_command_without_optional_arguments() {
    let c = config(None, &[]);
    let cmd = c.to_cmd(CloudFormation::Create);
    let expected = vec![
        "cloudformation",
        "create-stack",
        "--region",
        "us-east-1",
        "--stack-name",
        "web",
        "--template-body",
        "file://templates/web.yaml",
    ];
    assert_eq!(cmd, expected.iter().map(|s| s.to_string()).collect::<Vec<_>>());
}

#[test]
fn update_command_mirrors_create() {
    let c = config(Some("CAPABILITY_IAM"), &[("Env", "prod")]);
    let cmd = c.to_cmd(CloudFormation::Update);
    assert_eq!(cmd[1], "update-stack");
    assert_eq!(cmd.len(), 12);
    assert_eq!(
        cmd[11],
        "[{\"ParameterKey\": \"Env\", \"ParameterValue\": \"prod\"}]"
    );
}

#[test]
fn delete_and_describe_never_carry_parameters_or_capabilities() {
    let with_everything = config(Some("CAPABILITY_IAM"), &[("Env", "prod")]);
    let bare = config(None, &[]);
    let expected_delete = vec![
        "cloudformation",
        "delete-stack",
        "--region",
        "us-east-1",
        "--stack-name",
        "web",
    ]
    .iter()
    .map(|s| s.to_string())
    .collect::<Vec<_>>();
    assert_eq!(with_everything.to_cmd(CloudFormation::Delete), expected_delete);
    assert_eq!(bare.to_cmd(CloudFormation::Delete), expected_delete);
    let expected_describe = vec![
        "cloudformation",
        "describe-stacks",
        "--region",
        "us-east-1",
        "--stack-name",
        "web",
    ]
    .iter()
    .map(|s| s.to_string())
    .collect::<Vec<_>>();
    assert_eq!(with_everything.to_cmd(CloudFormation::Describe), expected_describe);
    assert_eq!(bare.to_cmd(CloudFormation::Describe), expected_describe);
}

#[test]
fn get_template_command_asks_for_original_body_as_text() {
    let c = config(Some("CAPABILITY_IAM"), &[("Env", "prod")]);
    let cmd = c.to_cmd(CloudFormation::GetTemplate);
    let expected = vec![
        "cloudformation",
        "get-template",
        "--region",
        "us-east-1",
        "--stack-name",
        "web",
        "--template-stage",
        "Original",
        "--query",
        "TemplateBody",
        "--output",
        "text",
    ];
    assert_eq!(cmd, expected.iter().map(|s| s.to_string()).collect::<Vec<_>>());
}

#[test]
fn command_construction_is_deterministic() {
    let c = config(Some("CAPABILITY_IAM"), &[("B", "2"), ("A", "1")]);
    let first = c.to_cmd(CloudFormation::Create);
    let second = c.to_cmd(CloudFormation::Create);
    assert_eq!(first, second);
}

#[test]
fn parameter_json_is_order_independent() {
    let one_way = config(None, &[("A", "1"), ("B", "2")]);
    let other_way = config(None, &[("B", "2"), ("A", "1")]);
    assert_eq!(
        one_way.to_cmd(CloudFormation::Create),
        other_way.to_cmd(CloudFormation::Create)
    );
}

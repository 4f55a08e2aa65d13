use cftool::aws::{
    account_id_command, create_stack, delete_stack, describe_stack, get_aws_account_id,
    get_stack_template, profile_valid, template_from_output, update_stack, CloudFormation,
};
use cftool::config::Configuration;
use cftool::helpers::{get_single, GetSingleError};
use cftool::params::ParamMap;
use cftool::text::split_str;

fn config(account: &str) -> Configuration {
    Configuration {
        deployment_name: "web:blue".to_string(),
        name: "web".to_string(),
        path: "templates/web.yaml".to_string(),
        region: "us-east-1".to_string(),
        aws_account_id: account.to_string(),
        capabilities: None,
        parameters: ParamMap::new(),
    }
}

const MISMATCH: &str = "AWS_PROFILE does not match requested deployment";

#[test]
fn template_output_loses_exactly_the_trailing_newline() {
    assert_eq!(template_from_output(&"BODY\n".to_string()), "BODY");
    assert_eq!(template_from_output(&"\n".to_string()), "");
    assert_eq!(template_from_output(&"".to_string()), "");
}

#[test]
fn get_single_accepts_exactly_one_element() {
    assert_eq!(get_single(vec![41u32]), Ok(41u32));
    match get_single(Vec::<u32>::new()) {
        Err(e @ GetSingleError::EmptyVec) => assert_eq!(e.message(), "The Vec is empty"),
        other => panic!("expected the empty error, got {:?}", other.is_ok()),
    }
    match get_single(vec![1u32, 2u32]) {
        Err(e @ GetSingleError::TooMany(_)) => {
            assert_eq!(e.message(), "Too many elements in the Vec")
        }
        other => panic!("expected the ambiguity error, got {:?}", other.is_ok()),
    }
}

#[test]
fn identity_mismatch_refuses_every_operation() {
    // Session account 111..., configuration expects 222...: no command is
    // handed out, so nothing can be run against the wrong account.
    let session = "111111111111".to_string();
    assert_eq!(profile_valid(&config("222222222222"), &session), Err(MISMATCH.to_string()));
    assert_eq!(create_stack(config("222222222222"), &session), Err(MISMATCH.to_string()));
    assert_eq!(update_stack(config("222222222222"), &session), Err(MISMATCH.to_string()));
    assert_eq!(delete_stack(config("222222222222"), &session), Err(MISMATCH.to_string()));
    assert_eq!(
        describe_stack(&config("222222222222"), &session),
        Err(MISMATCH.to_string())
    );
    assert_eq!(
        get_stack_template(&config("222222222222"), &session),
        Err(MISMATCH.to_string())
    );
}

#[test]
fn matching_identity_hands_out_the_command() {
    let session = "111111111111".to_string();
    let c = config("111111111111");
    assert_eq!(profile_valid(&c, &session), Ok(()));
    let described = describe_stack(&c, &session).expect("identity matches");
    assert_eq!(described, c.to_cmd(CloudFormation::Describe));
    let fetched = get_stack_template(&c, &session).expect("identity matches");
    assert_eq!(fetched, c.to_cmd(CloudFormation::GetTemplate));
    let created = create_stack(config("111111111111"), &session).expect("identity matches");
    assert_eq!(created, c.to_cmd(CloudFormation::Create));
}

#[test]
fn account_id_query_and_answer() {
    let expected = vec!["sts", "get-caller-identity", "--query", "Account", "--output", "text"];
    assert_eq!(
        account_id_command(),
        expected.iter().map(|s| s.to_string()).collect::<Vec<_>>()
    );
    assert_eq!(get_aws_account_id(&"  123456789012\n".to_string()), "123456789012");
    assert_eq!(get_aws_account_id(&"".to_string()), "");
}

#[test]
fn splitting_keeps_empty_fragments() {
    let frags = split_str("a:b::c", ':');
    assert_eq!(frags, vec!["a".to_string(), "b".to_string(), "".to_string(), "c".to_string()]);
    assert_eq!(split_str("", ':'), vec!["".to_string()]);
}

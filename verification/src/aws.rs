//! The remote side: the stack entity observed through the external cloud
//! tool, the lifecycle operations, and the gateway functions that guard and
//! prepare each external call. Running the external process, and decoding
//! its JSON output, happen outside this library; the functions here build
//! the exact command to run and state what is done with what comes back.

use vstd::prelude::*;
use crate::config::{Configuration, config_text, cmd_spec};
use crate::helpers::DeploymentDiff;
use crate::params::{pair_views, params_block, render_params_block, sort_pairs, sort_pairs_vec};
use crate::text::{join_with, join_strings, split_on, split_str, trim_spec, trim_str};

verus! {

/// The stack lifecycle operations the external tool is driven through.
pub enum CloudFormation {
    Create,
    Update,
    Delete,
    Describe,
    GetTemplate,
}

/// A remote stack status the tool may report.
#[derive(Debug)]
pub enum StackStatus {
    CreateComplete,
    UpdateComplete,
}

/// A remote drift-detection status the tool may report.
#[derive(Debug)]
pub enum StackDriftStatus {
    NotChecked,
}

/// The drift block of a described stack.
#[derive(Debug)]
pub struct StackDriftInformation {
    pub stack_drift_status: StackDriftStatus,
}

/// The rollback block of a described stack; it carries nothing this library
/// reads.
#[derive(Debug)]
pub struct StackRollbackConfiguration {}

/// One key/value parameter of a remote stack.
#[derive(Debug)]
pub struct StackParameter {
    pub parameter_key: String,
    pub parameter_value: String,
}

/// One key/value tag of a remote stack.
#[derive(Debug)]
pub struct StackTag {
    pub tag_key: String,
    pub tag_value: String,
}

/// A remote stack as the external tool describes it.
#[derive(Debug)]
pub struct Stack {
    pub stack_id: String,
    pub stack_name: String,
    pub description: Option<String>,
    pub parameters: Option<Vec<StackParameter>>,
    pub creation_time: String,
    pub capabilities: Option<Vec<String>>,
    pub disable_rollback: bool,
    pub notification_arns: Vec<String>,
    pub tags: Vec<StackTag>,
}

/// The list a describe query returns.
#[derive(Debug)]
pub struct Stacks {
    pub stacks: Vec<Stack>,
}

/// Fragment `i` of a colon-delimited identifier; empty when there is no such
/// fragment. A stack id encodes the region at fragment 3 and the account id
/// at fragment 4.
pub open spec fn arn_fragment(stack_id: Seq<char>, i: int) -> Seq<char> {
    let frags = split_on(stack_id, ':');
    if 0 <= i < frags.len() {
        frags[i]
    } else {
        Seq::empty()
    }
}

/// A remote stack's parameters as key/value string pairs.
pub open spec fn stack_pairs(ps: Seq<StackParameter>) -> Seq<(String, String)> {
    ps.map_values(|p: StackParameter| (p.parameter_key, p.parameter_value))
}

/// The rendered parameter block of a remote stack: absent or empty renders
/// as `None`, otherwise one line per parameter, sorted by key.
pub open spec fn stack_params_text(parameters: Option<Vec<StackParameter>>) -> Seq<char> {
    match parameters {
        None => "None"@,
        Some(v) => params_block(pair_views(sort_pairs(stack_pairs(v@)))),
    }
}

/// The rendered capability list: absent renders as `None`, present ones are
/// joined with single spaces.
pub open spec fn caps_text(capabilities: Option<Vec<String>>) -> Seq<char> {
    match capabilities {
        None => "None"@,
        Some(v) => join_with(v@.map_values(|s: String| s@), " "@),
    }
}

/// The canonical text of a remote stack, field for field the same block as a
/// configuration's canonical text, so the two are line-diffable.
pub open spec fn stack_text(s: Stack) -> Seq<char> {
    "Name: "@ + s.stack_name@ + "\nRegion: "@ + arn_fragment(s.stack_id@, 3)
        + "\nAwsAccountId: "@ + arn_fragment(s.stack_id@, 4) + "\nCapabilities: "@ + caps_text(
        s.capabilities,
    ) + "\nParameters: "@ + stack_params_text(s.parameters)
}

impl Stack {
    /// Renders this stack's parameters for the canonical text.
    pub fn format_parameters(&self) -> (r: String)
        ensures
            r@ == stack_params_text(self.parameters),
    {
        match &self.parameters {
            None => String::from_str("None"),
            Some(ps) => {
                let n = ps.len();
                let mut pairs: Vec<(String, String)> = Vec::new();
                let mut i: usize = 0;
                while i < n
                    invariant
                        i <= n,
                        n == ps@.len(),
                        pairs@.len() == i,
                        forall|j: int|
                            0 <= j < i ==> #[trigger] pairs@[j] == (
                                ps@[j].parameter_key,
                                ps@[j].parameter_value,
                            ),
                    decreases n - i,
                {
                    pairs.push((ps[i].parameter_key.clone(), ps[i].parameter_value.clone()));
                    i = i + 1;
                }
                proof {
                    assert(pairs@ =~= stack_pairs(ps@));
                }
                let sorted = sort_pairs_vec(pairs);
                render_params_block(&sorted)
            },
        }
    }

    /// The canonical text of this stack.
    pub fn to_string(&self) -> (r: String)
        ensures
            r@ == stack_text(*self),
    {
        let frags = split_str(self.stack_id.as_str(), ':');
        let region = if frags.len() > 3 {
            frags[3].clone()
        } else {
            String::new()
        };
        let aws_account_id = if frags.len() > 4 {
            frags[4].clone()
        } else {
            String::new()
        };
        proof {
            let sf = split_on(self.stack_id@, ':');
            assert(frags@.map_values(|t: String| t@).len() == sf.len());
            if frags@.len() > 3 {
                assert(frags@.map_values(|t: String| t@)[3] == frags@[3]@);
            }
            if frags@.len() > 4 {
                assert(frags@.map_values(|t: String| t@)[4] == frags@[4]@);
            }
            assert(region@ == arn_fragment(self.stack_id@, 3));
            assert(aws_account_id@ == arn_fragment(self.stack_id@, 4));
        }
        let mut out = String::from_str("Name: ");
        out.append(self.stack_name.as_str());
        out.append("\nRegion: ");
        out.append(region.as_str());
        out.append("\nAwsAccountId: ");
        out.append(aws_account_id.as_str());
        out.append("\nCapabilities: ");
        match &self.capabilities {
            Some(caps) => {
                let joined = join_strings(caps, " ");
                out.append(joined.as_str());
            },
            None => {
                out.append("None");
            },
        }
        out.append("\nParameters: ");
        let block = self.format_parameters();
        out.append(block.as_str());
        proof {
            assert(out@ =~= stack_text(*self));
        }
        out
    }
}

/// The identity guard: succeeds exactly when the active session's account id
/// equals the configuration's expected account id. Every gateway function
/// applies it before handing out a command, so a mismatch stops an operation
/// before anything is run.
pub fn profile_valid(config: &Configuration, current_account_id: &String) -> (r: Result<
    (),
    String,
>)
    ensures
        r is Ok <==> config.aws_account_id@ == current_account_id@,
        r matches Err(e) ==> e@ == "AWS_PROFILE does not match requested deployment"@,
{
    if *current_account_id == config.aws_account_id {
        Ok(())
    } else {
        Err(String::from_str("AWS_PROFILE does not match requested deployment"))
    }
}

/// The create-stack command for this deployment, or the identity refusal;
/// the caller runs the returned arguments through the external tool.
pub fn create_stack(config: Configuration, current_account_id: &String) -> (r: Result<
    Vec<String>,
    String,
>)
    ensures
        match r {
            Ok(cmd) => config.aws_account_id@ == current_account_id@ && cmd@.map_values(
                |s: String| s@,
            ) == cmd_spec(config, CloudFormation::Create),
            Err(e) => config.aws_account_id@ != current_account_id@ && e@
                == "AWS_PROFILE does not match requested deployment"@,
        },
{
    match profile_valid(&config, current_account_id) {
        Ok(()) => Ok(config.to_cmd(CloudFormation::Create)),
        Err(e) => Err(e),
    }
}

/// The update-stack command for this deployment, or the identity refusal.
pub fn update_stack(config: Configuration, current_account_id: &String) -> (r: Result<
    Vec<String>,
    String,
>)
    ensures
        match r {
            Ok(cmd) => config.aws_account_id@ == current_account_id@ && cmd@.map_values(
                |s: String| s@,
            ) == cmd_spec(config, CloudFormation::Update),
            Err(e) => config.aws_account_id@ != current_account_id@ && e@
                == "AWS_PROFILE does not match requested deployment"@,
        },
{
    match profile_valid(&config, current_account_id) {
        Ok(()) => Ok(config.to_cmd(CloudFormation::Update)),
        Err(e) => Err(e),
    }
}

/// The delete-stack command for this deployment, or the identity refusal.
pub fn delete_stack(config: Configuration, current_account_id: &String) -> (r: Result<
    Vec<String>,
    String,
>)
    ensures
        match r {
            Ok(cmd) => config.aws_account_id@ == current_account_id@ && cmd@.map_values(
                |s: String| s@,
            ) == cmd_spec(config, CloudFormation::Delete),
            Err(e) => config.aws_account_id@ != current_account_id@ && e@
                == "AWS_PROFILE does not match requested deployment"@,
        },
{
    match profile_valid(&config, current_account_id) {
        Ok(()) => Ok(config.to_cmd(CloudFormation::Delete)),
        Err(e) => Err(e),
    }
}

/// The describe-stacks command for this deployment, or the identity refusal.
/// The tool's JSON answer, decoded into stacks, must then pass
/// `helpers::get_single`: zero matches and more than one match are each an
/// error, never a silently picked element.
pub fn describe_stack(config: &Configuration, current_account_id: &String) -> (r: Result<
    Vec<String>,
    String,
>)
    ensures
        match r {
            Ok(cmd) => config.aws_account_id@ == current_account_id@ && cmd@.map_values(
                |s: String| s@,
            ) == cmd_spec(*config, CloudFormation::Describe),
            Err(e) => config.aws_account_id@ != current_account_id@ && e@
                == "AWS_PROFILE does not match requested deployment"@,
        },
{
    match profile_valid(config, current_account_id) {
        Ok(()) => Ok(config.to_cmd(CloudFormation::Describe)),
        Err(e) => Err(e),
    }
}

/// The get-template command for this deployment, or the identity refusal.
/// The tool's raw text answer is finished by `template_from_output`.
pub fn get_stack_template(config: &Configuration, current_account_id: &String) -> (r: Result<
    Vec<String>,
    String,
>)
    ensures
        match r {
            Ok(cmd) => config.aws_account_id@ == current_account_id@ && cmd@.map_values(
                |s: String| s@,
            ) == cmd_spec(*config, CloudFormation::GetTemplate),
            Err(e) => config.aws_account_id@ != current_account_id@ && e@
                == "AWS_PROFILE does not match requested deployment"@,
        },
{
    match profile_valid(config, current_account_id) {
        Ok(()) => Ok(config.to_cmd(CloudFormation::GetTemplate)),
        Err(e) => Err(e),
    }
}

/// Strips the one trailing newline the tool's text output mode appends to
/// the template body; the empty output stays empty.
pub fn template_from_output(raw: &String) -> (r: String)
    ensures
        raw@.len() > 0 ==> r@ == raw@.drop_last(),
        raw@.len() == 0 ==> r@ == raw@,
{
    let s = raw.as_str();
    let n = s.unicode_len();
    if n == 0 {
        let r = String::new();
        proof {
            assert(r@ =~= raw@);
        }
        r
    } else {
        let sub = s.substring_char(0, n - 1);
        proof {
            assert(s@.subrange(0, n - 1) =~= raw@.drop_last());
        }
        String::from_str(sub)
    }
}

/// The query for the active session's account id; the caller runs it through
/// the external tool and hands the captured output to `get_aws_account_id`.
pub fn account_id_command() -> (r: Vec<String>)
    ensures
        r@.map_values(|s: String| s@) == seq![
            "sts"@,
            "get-caller-identity"@,
            "--query"@,
            "Account"@,
            "--output"@,
            "text"@,
        ],
{
    let mut cmd: Vec<String> = Vec::new();
    cmd.push(String::from_str("sts"));
    cmd.push(String::from_str("get-caller-identity"));
    cmd.push(String::from_str("--query"));
    cmd.push(String::from_str("Account"));
    cmd.push(String::from_str("--output"));
    cmd.push(String::from_str("text"));
    proof {
        assert(cmd@.map_values(|s: String| s@) =~= seq![
            "sts"@,
            "get-caller-identity"@,
            "--query"@,
            "Account"@,
            "--output"@,
            "text"@,
        ]);
    }
    cmd
}

/// The account id read from the identity query's captured output: the output
/// with its surrounding whitespace removed.
pub fn get_aws_account_id(raw_output: &String) -> (r: String)
    ensures
        r@ == trim_spec(raw_output@),
{
    trim_str(raw_output.as_str())
}

/// Assembles one deployment's comparison record from its resolved
/// configuration, its observed remote stack, and the two template texts.
pub fn create_deployment_diff(
    config: &Configuration,
    remote_stack: &Stack,
    local_template: String,
    remote_template: String,
) -> (r: DeploymentDiff)
    ensures
        r.deployment_name@ == config.deployment_name@,
        r.local_config@ == config_text(*config),
        r.remote_config@ == stack_text(*remote_stack),
        r.local_template@ == local_template@,
        r.remote_template@ == remote_template@,
{
    DeploymentDiff {
        deployment_name: config.deployment_name.clone(),
        local_config: config.to_string(),
        remote_config: remote_stack.to_string(),
        local_template,
        remote_template,
    }
}

} // verus!

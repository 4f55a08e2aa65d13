//! The layered configuration model: named stack definitions carrying named
//! instance overrides, flattened into resolved deployment configurations, and
//! the construction of the external tool's argument vectors.

use vstd::prelude::*;
use crate::aws::CloudFormation;
use crate::params::{
    ParamMap, pair_views, params_block, render_params_block, line_of, lemma_map_of_contains,
    lemma_map_of_index, lemma_sorted_implies_unique, lemma_sorted_same_keys,
};
use crate::text::{
    join_with, lemma_join_with_push, lemma_prefix_cancel, lemma_concat_char_free,
    lemma_join_lines_injective,
};

verus! {

/// One stack definition from the configuration file.
pub struct ConfigurationDefinition {
    pub name: String,
    pub path: String,
    pub region: String,
    pub capabilities: Option<String>,
    pub parameters: Option<ParamMap>,
    pub instances: Option<Vec<(String, ConfigurationInstance)>>,
}

/// A partial override layered over its parent stack definition.
pub struct ConfigurationInstance {
    pub name: Option<String>,
    pub path: Option<String>,
    pub region: Option<String>,
    pub aws_account_id: Option<String>,
    pub capabilities: Option<String>,
    pub parameters: Option<ParamMap>,
}

/// The parsed configuration file: stack definitions by stack key.
pub struct ConfigFile {
    pub configurations: Vec<(String, ConfigurationDefinition)>,
}

/// One fully resolved deployment.
pub struct Configuration {
    pub deployment_name: String,
    pub name: String,
    pub path: String,
    pub region: String,
    pub aws_account_id: String,
    pub capabilities: Option<String>,
    pub parameters: ParamMap,
}

/// The mathematical content of a `ConfigurationInstance`.
pub struct InstanceView {
    pub name: Option<Seq<char>>,
    pub path: Option<Seq<char>>,
    pub region: Option<Seq<char>>,
    pub aws_account_id: Option<Seq<char>>,
    pub capabilities: Option<Seq<char>>,
    pub parameters: Option<Map<Seq<char>, Seq<char>>>,
}

/// The mathematical content of a `ConfigurationDefinition`.
pub struct DefinitionView {
    pub name: Seq<char>,
    pub path: Seq<char>,
    pub region: Seq<char>,
    pub capabilities: Option<Seq<char>>,
    pub parameters: Option<Map<Seq<char>, Seq<char>>>,
    pub instances: Option<Seq<(Seq<char>, InstanceView)>>,
}

/// The mathematical content of a resolved `Configuration`.
pub struct ConfigurationView {
    pub deployment_name: Seq<char>,
    pub name: Seq<char>,
    pub path: Seq<char>,
    pub region: Seq<char>,
    pub aws_account_id: Seq<char>,
    pub capabilities: Option<Seq<char>>,
    pub parameters: Map<Seq<char>, Seq<char>>,
}

pub open spec fn opt_view(o: Option<String>) -> Option<Seq<char>> {
    match o {
        Some(s) => Some(s@),
        None => None,
    }
}

pub open spec fn opt_params_view(o: Option<ParamMap>) -> Option<Map<Seq<char>, Seq<char>>> {
    match o {
        Some(p) => Some(p@),
        None => None,
    }
}

impl View for ConfigurationInstance {
    type V = InstanceView;

    open spec fn view(&self) -> InstanceView {
        InstanceView {
            name: opt_view(self.name),
            path: opt_view(self.path),
            region: opt_view(self.region),
            aws_account_id: opt_view(self.aws_account_id),
            capabilities: opt_view(self.capabilities),
            parameters: opt_params_view(self.parameters),
        }
    }
}

impl View for ConfigurationDefinition {
    type V = DefinitionView;

    open spec fn view(&self) -> DefinitionView {
        DefinitionView {
            name: self.name@,
            path: self.path@,
            region: self.region@,
            capabilities: opt_view(self.capabilities),
            parameters: opt_params_view(self.parameters),
            instances: match self.instances {
                Some(v) => Some(
                    v@.map_values(|p: (String, ConfigurationInstance)| (p.0@, p.1@)),
                ),
                None => None,
            },
        }
    }
}

impl View for ConfigFile {
    type V = Seq<(Seq<char>, DefinitionView)>;

    open spec fn view(&self) -> Seq<(Seq<char>, DefinitionView)> {
        self.configurations@.map_values(|p: (String, ConfigurationDefinition)| (p.0@, p.1@))
    }
}

impl View for Configuration {
    type V = ConfigurationView;

    open spec fn view(&self) -> ConfigurationView {
        ConfigurationView {
            deployment_name: self.deployment_name@,
            name: self.name@,
            path: self.path@,
            region: self.region@,
            aws_account_id: self.aws_account_id@,
            capabilities: opt_view(self.capabilities),
            parameters: self.parameters@,
        }
    }
}

impl ConfigurationInstance {
    pub open spec fn wf(self) -> bool {
        match self.parameters {
            Some(p) => p.wf(),
            None => true,
        }
    }
}

impl ConfigurationDefinition {
    pub open spec fn wf(self) -> bool {
        &&& match self.parameters {
            Some(p) => p.wf(),
            None => true,
        }
        &&& match self.instances {
            Some(insts) => forall|i: int|
                0 <= i < insts@.len() ==> (#[trigger] insts@[i]).1.wf(),
            None => true,
        }
    }
}

impl ConfigFile {
    pub open spec fn wf(self) -> bool {
        forall|i: int|
            0 <= i < self.configurations@.len() ==> (#[trigger] self.configurations@[i]).1.wf()
    }
}

impl Configuration {
    pub open spec fn wf(self) -> bool {
        self.parameters.wf()
    }
}

/// A possibly absent parameter map, read as a map.
pub open spec fn given_params(o: Option<Map<Seq<char>, Seq<char>>>) -> Map<Seq<char>, Seq<char>> {
    match o {
        Some(m) => m,
        None => Map::empty(),
    }
}

/// The resolution of one `(stack, instance)` pair: instance values override
/// stack values field by field, parameter maps are merged with the instance
/// winning per key, and the account id comes from the instance alone.
pub open spec fn resolve_spec(
    stack_key: Seq<char>,
    stack: DefinitionView,
    instance_key: Seq<char>,
    inst: InstanceView,
) -> ConfigurationView {
    ConfigurationView {
        deployment_name: stack_key + ":"@ + instance_key,
        name: match inst.name {
            Some(n) => n,
            None => stack.name,
        },
        path: match inst.path {
            Some(p) => p,
            None => stack.path,
        },
        region: match inst.region {
            Some(r) => r,
            None => stack.region,
        },
        aws_account_id: match inst.aws_account_id {
            Some(a) => a,
            None => Seq::empty(),
        },
        capabilities: match inst.capabilities {
            Some(c) => Some(c),
            None => stack.capabilities,
        },
        parameters: given_params(stack.parameters).union_prefer_right(
            given_params(inst.parameters),
        ),
    }
}

/// Flattens one `(stackKey, instanceKey)` pair into its deployment.
pub fn resolve_instance(
    stack_key: &String,
    stack: &ConfigurationDefinition,
    instance_key: &String,
    instance: &ConfigurationInstance,
) -> (r: Configuration)
    requires
        stack.wf(),
        instance.wf(),
    ensures
        r.wf(),
        r@ == resolve_spec(stack_key@, stack@, instance_key@, instance@),
{
    let mut deployment_name = stack_key.clone();
    deployment_name.append(":");
    deployment_name.append(instance_key.as_str());
    let name = match &instance.name {
        Some(n) => n.clone(),
        None => stack.name.clone(),
    };
    let path = match &instance.path {
        Some(p) => p.clone(),
        None => stack.path.clone(),
    };
    let region = match &instance.region {
        Some(rg) => rg.clone(),
        None => stack.region.clone(),
    };
    let aws_account_id = match &instance.aws_account_id {
        Some(a) => a.clone(),
        None => String::new(),
    };
    let capabilities = match &instance.capabilities {
        Some(c) => Some(c.clone()),
        None => match &stack.capabilities {
            Some(c) => Some(c.clone()),
            None => None,
        },
    };
    let no_params = ParamMap::new();
    let stack_params = match &stack.parameters {
        Some(p) => p,
        None => &no_params,
    };
    let instance_params = match &instance.parameters {
        Some(p) => p,
        None => &no_params,
    };
    let parameters = stack_params.merged_with(instance_params);
    let r = Configuration {
        deployment_name,
        name,
        path,
        region,
        aws_account_id,
        capabilities,
        parameters,
    };
    proof {
        assert(r.deployment_name@ =~= stack_key@ + ":"@ + instance_key@);
        assert(stack_params@ == given_params(stack@.parameters));
        assert(instance_params@ == given_params(instance@.parameters));
    }
    r
}

/// The resolutions that one stack definition yields: one per instance, in the
/// stored instance order; a definition without instances yields none.
pub open spec fn instance_resolutions(
    stack_key: Seq<char>,
    stack: DefinitionView,
) -> Seq<ConfigurationView> {
    match stack.instances {
        Some(insts) => insts.map_values(
            |p: (Seq<char>, InstanceView)| resolve_spec(stack_key, stack, p.0, p.1),
        ),
        None => Seq::empty(),
    }
}

/// Every deployment the configuration file yields, in file order.
pub open spec fn resolved_configurations(
    file: Seq<(Seq<char>, DefinitionView)>,
) -> Seq<ConfigurationView> {
    file.flat_map(|p: (Seq<char>, DefinitionView)| instance_resolutions(p.0, p.1))
}

/// Flattens the configuration file into its resolved deployments.
pub fn get_configurations(config: &ConfigFile) -> (r: Vec<Configuration>)
    requires
        config.wf(),
    ensures
        r@.map_values(|c: Configuration| c@) == resolved_configurations(config@),
        forall|i: int| 0 <= i < r@.len() ==> (#[trigger] r@[i]).wf(),
{
    let ghost f = |p: (Seq<char>, DefinitionView)| instance_resolutions(p.0, p.1);
    let ghost cview = |c: Configuration| c@;
    let mut r: Vec<Configuration> = Vec::new();
    let n = config.configurations.len();
    let mut i: usize = 0;
    proof {
        assert(config@.take(0) =~= Seq::<(Seq<char>, DefinitionView)>::empty());
        assert(r@.map_values(cview) =~= resolved_configurations(config@.take(0)));
    }
    while i < n
        invariant
            i <= n,
            n == config.configurations@.len(),
            config.wf(),
            f == (|p: (Seq<char>, DefinitionView)| instance_resolutions(p.0, p.1)),
            cview == (|c: Configuration| c@),
            r@.map_values(cview) == config@.take(i as int).flat_map(f),
            forall|k: int| 0 <= k < r@.len() ==> (#[trigger] r@[k]).wf(),
        decreases n - i,
    {
        let ghost pre = r@.map_values(cview);
        let stack_key = &config.configurations[i].0;
        let stack = &config.configurations[i].1;
        let ghost entry = config@[i as int];
        proof {
            assert(entry == (config.configurations@[i as int].0@,
                config.configurations@[i as int].1@));
            assert(stack.wf());
        }
        match &stack.instances {
            Some(insts) => {
                let m = insts.len();
                let mut j: usize = 0;
                proof {
                    let ghost ivs = insts@.map_values(
                        |p: (String, ConfigurationInstance)| (p.0@, p.1@),
                    );
                    assert(f(entry).take(0) =~= Seq::<ConfigurationView>::empty());
                    assert(pre + f(entry).take(0) =~= pre);
                }
                while j < m
                    invariant
                        j <= m,
                        m == insts@.len(),
                        stack.wf(),
                        entry.1 == stack@,
                        entry.0 == stack_key@,
                        f == (|p: (Seq<char>, DefinitionView)| instance_resolutions(p.0, p.1)),
                        cview == (|c: Configuration| c@),
                        stack.instances == Some(*insts),
                        stack@.instances == Some(insts@.map_values(
                            |p: (String, ConfigurationInstance)| (p.0@, p.1@),
                        )),
                        r@.map_values(cview) == pre + f(entry).take(j as int),
                        forall|k: int| 0 <= k < r@.len() ==> (#[trigger] r@[k]).wf(),
                    decreases m - j,
                {
                    let instance_key = &insts[j].0;
                    let instance = &insts[j].1;
                    proof {
                        assert(insts@[j as int].1.wf());
                    }
                    let c = resolve_instance(stack_key, stack, instance_key, instance);
                    proof {
                        let ivs = insts@.map_values(
                            |p: (String, ConfigurationInstance)| (p.0@, p.1@),
                        );
                        assert(ivs[j as int] == (insts@[j as int].0@, insts@[j as int].1@));
                        assert(f(entry)[j as int] == resolve_spec(
                            entry.0,
                            entry.1,
                            ivs[j as int].0,
                            ivs[j as int].1,
                        ));
                        assert(c@ == f(entry)[j as int]);
                        crate::text::lemma_map_values_push(r@, cview, c);
                        assert(f(entry).take(j + 1) =~= f(entry).take(j as int).push(
                            f(entry)[j as int],
                        ));
                        assert(pre + f(entry).take(j + 1) =~= (pre + f(entry).take(j as int)).push(
                            c@,
                        ));
                    }
                    r.push(c);
                    j = j + 1;
                }
                proof {
                    assert(f(entry).take(m as int) =~= f(entry));
                }
            },
            None => {
                proof {
                    assert(f(entry) =~= Seq::<ConfigurationView>::empty());
                    assert(pre + f(entry) =~= pre);
                }
            },
        }
        proof {
            assert(config@.take(i + 1) =~= config@.take(i as int).push(entry));
            config@.take(i as int).lemma_flat_map_push(f, entry);
        }
        i = i + 1;
    }
    proof {
        assert(config@.take(n as int) =~= config@);
    }
    r
}

impl Clone for Configuration {
    /// A field-for-field copy with the same view.
    fn clone(&self) -> (r: Self)
        ensures
            r@ == self@,
            r.wf() == self.wf(),
    {
        Configuration {
            deployment_name: self.deployment_name.clone(),
            name: self.name.clone(),
            path: self.path.clone(),
            region: self.region.clone(),
            aws_account_id: self.aws_account_id.clone(),
            capabilities: match &self.capabilities {
                Some(c) => Some(c.clone()),
                None => None,
            },
            parameters: self.parameters.clone(),
        }
    }
}

/// The rendered parameter block of a configuration.
pub open spec fn config_params_text(c: Configuration) -> Seq<char> {
    params_block(c.parameters.entry_views())
}

/// The canonical text of a configuration: a fixed-order block of its fields,
/// parameters sorted by key, absent values rendered as `None`.
pub open spec fn config_text(c: Configuration) -> Seq<char> {
    "Name: "@ + c.name@ + "\nRegion: "@ + c.region@ + "\nAwsAccountId: "@ + c.aws_account_id@
        + "\nCapabilities: "@ + (match c.capabilities {
        Some(cap) => cap@,
        None => "None"@,
    }) + "\nParameters: "@ + config_params_text(c)
}

/// One merged parameter rendered inside the `--parameters` JSON array.
pub open spec fn json_pair(p: (Seq<char>, Seq<char>)) -> Seq<char> {
    "{\"ParameterKey\": \""@ + p.0 + "\", \"ParameterValue\": \""@ + p.1 + "\"}"@
}

/// The `--parameters` argument: a JSON array with one object per parameter.
pub open spec fn params_json(entries: Seq<(Seq<char>, Seq<char>)>) -> Seq<char> {
    "["@ + join_with(entries.map_values(|p: (Seq<char>, Seq<char>)| json_pair(p)), ","@) + "]"@
}

/// The fixed first six arguments shared by every operation.
pub open spec fn base_cmd(sub: Seq<char>, c: Configuration) -> Seq<Seq<char>> {
    seq!["cloudformation"@, sub, "--region"@, c.region@, "--stack-name"@, c.name@]
}

/// The arguments of the operations that send the template body: the base,
/// the template path, then `--capabilities` and `--parameters` only when
/// there is something to send.
pub open spec fn body_cmd(sub: Seq<char>, c: Configuration) -> Seq<Seq<char>> {
    base_cmd(sub, c) + seq!["--template-body"@, "file://"@ + c.path@] + (match c.capabilities {
        Some(cap) => seq!["--capabilities"@, cap@],
        None => Seq::empty(),
    }) + (if c.parameters.entry_views().len() == 0 {
        Seq::<Seq<char>>::empty()
    } else {
        seq!["--parameters"@, params_json(c.parameters.entry_views())]
    })
}

/// The exact argument vector for one operation on one configuration.
pub open spec fn cmd_spec(c: Configuration, cmd_type: CloudFormation) -> Seq<Seq<char>> {
    match cmd_type {
        CloudFormation::Create => body_cmd("create-stack"@, c),
        CloudFormation::Update => body_cmd("update-stack"@, c),
        CloudFormation::Delete => base_cmd("delete-stack"@, c),
        CloudFormation::Describe => base_cmd("describe-stacks"@, c),
        CloudFormation::GetTemplate => base_cmd("get-template"@, c) + seq![
            "--template-stage"@,
            "Original"@,
            "--query"@,
            "TemplateBody"@,
            "--output"@,
            "text"@,
        ],
    }
}

impl Configuration {
    /// Renders the merged parameters for the canonical text.
    pub fn format_parameters(&self) -> (r: String)
        ensures
            r@ == config_params_text(*self),
    {
        render_params_block(self.parameters.pairs())
    }

    /// The canonical text of this configuration.
    pub fn to_string(&self) -> (r: String)
        ensures
            r@ == config_text(*self),
    {
        let mut out = String::from_str("Name: ");
        out.append(self.name.as_str());
        out.append("\nRegion: ");
        out.append(self.region.as_str());
        out.append("\nAwsAccountId: ");
        out.append(self.aws_account_id.as_str());
        out.append("\nCapabilities: ");
        match &self.capabilities {
            Some(cap) => out.append(cap.as_str()),
            None => out.append("None"),
        }
        out.append("\nParameters: ");
        let block = self.format_parameters();
        out.append(block.as_str());
        proof {
            assert(out@ =~= config_text(*self));
        }
        out
    }

    /// Renders the merged parameters as the JSON array the tool expects.
    fn params_json_arg(&self) -> (r: String)
        ensures
            r@ == params_json(self.parameters.entry_views()),
    {
        let pairs = self.parameters.pairs();
        let n = pairs.len();
        let ghost entries = self.parameters.entry_views();
        let ghost items = entries.map_values(|p: (Seq<char>, Seq<char>)| json_pair(p));
        let mut out = String::from_str("[");
        let mut i: usize = 0;
        proof {
            assert(items.take(0) =~= Seq::<Seq<char>>::empty());
        }
        while i < n
            invariant
                i <= n,
                n == pairs@.len(),
                entries == pair_views(pairs@),
                entries == self.parameters.entry_views(),
                items == entries.map_values(|p: (Seq<char>, Seq<char>)| json_pair(p)),
                out@ == "["@ + join_with(items.take(i as int), ","@),
            decreases n - i,
        {
            if i > 0 {
                out.append(",");
            }
            out.append("{\"ParameterKey\": \"");
            out.append(pairs[i].0.as_str());
            out.append("\", \"ParameterValue\": \"");
            out.append(pairs[i].1.as_str());
            out.append("\"}");
            proof {
                lemma_join_with_push(items.take(i as int), ","@, items[i as int]);
                assert(items.take(i + 1) =~= items.take(i as int).push(items[i as int]));
                assert(items[i as int] == json_pair(entries[i as int]));
                assert(entries[i as int].0 == pairs@[i as int].0@);
                assert(entries[i as int].1 == pairs@[i as int].1@);
                assert(out@ =~= "["@ + join_with(items.take(i + 1), ","@));
            }
            i = i + 1;
        }
        out.append("]");
        proof {
            assert(items.take(n as int) =~= items);
        }
        out
    }

    /// The base plus template body, capabilities and parameters as present.
    fn body_args(&self, sub: &str) -> (r: Vec<String>)
        ensures
            r@.map_values(|s: String| s@) == body_cmd(sub@, *self),
    {
        let mut cmd: Vec<String> = Vec::new();
        cmd.push(String::from_str("cloudformation"));
        cmd.push(String::from_str(sub));
        cmd.push(String::from_str("--region"));
        cmd.push(self.region.clone());
        cmd.push(String::from_str("--stack-name"));
        cmd.push(self.name.clone());
        cmd.push(String::from_str("--template-body"));
        let mut tb = String::from_str("file://");
        tb.append(self.path.as_str());
        cmd.push(tb);
        match &self.capabilities {
            Some(cap) => {
                cmd.push(String::from_str("--capabilities"));
                cmd.push(cap.clone());
            },
            None => {},
        }
        if !self.parameters.is_empty() {
            cmd.push(String::from_str("--parameters"));
            cmd.push(self.params_json_arg());
        }
        proof {
            assert(cmd@.map_values(|s: String| s@) =~= body_cmd(sub@, *self));
        }
        cmd
    }

    /// The base arguments of an operation that sends nothing but the name.
    fn base_args(&self, sub: &str) -> (r: Vec<String>)
        ensures
            r@.map_values(|s: String| s@) == base_cmd(sub@, *self),
    {
        let mut cmd: Vec<String> = Vec::new();
        cmd.push(String::from_str("cloudformation"));
        cmd.push(String::from_str(sub));
        cmd.push(String::from_str("--region"));
        cmd.push(self.region.clone());
        cmd.push(String::from_str("--stack-name"));
        cmd.push(self.name.clone());
        proof {
            assert(cmd@.map_values(|s: String| s@) =~= base_cmd(sub@, *self));
        }
        cmd
    }

    /// Builds the external tool's argument vector for one operation. Pure:
    /// the result is a function of the configuration and the operation.
    pub fn to_cmd(&self, cmd_type: CloudFormation) -> (r: Vec<String>)
        ensures
            r@.map_values(|s: String| s@) == cmd_spec(*self, cmd_type),
    {
        match cmd_type {
            CloudFormation::Create => self.body_args("create-stack"),
            CloudFormation::Update => self.body_args("update-stack"),
            CloudFormation::Delete => self.base_args("delete-stack"),
            CloudFormation::Describe => self.base_args("describe-stacks"),
            CloudFormation::GetTemplate => {
                let mut cmd = self.base_args("get-template");
                cmd.push(String::from_str("--template-stage"));
                cmd.push(String::from_str("Original"));
                cmd.push(String::from_str("--query"));
                cmd.push(String::from_str("TemplateBody"));
                cmd.push(String::from_str("--output"));
                cmd.push(String::from_str("text"));
                proof {
                    assert(cmd@.map_values(|s: String| s@) =~= cmd_spec(
                        *self,
                        CloudFormation::GetTemplate,
                    ));
                }
                cmd
            },
        }
    }
}

/// Deployment keys identify their origin: as long as stack keys are free of
/// the separator, two resolutions carry the same deployment key only when
/// they come from the same stack key and the same instance key — so one
/// configuration exists per deployment key.
pub proof fn lemma_deployment_key_injective(
    stack_key1: Seq<char>,
    stack1: DefinitionView,
    instance_key1: Seq<char>,
    inst1: InstanceView,
    stack_key2: Seq<char>,
    stack2: DefinitionView,
    instance_key2: Seq<char>,
    inst2: InstanceView,
)
    requires
        !stack_key1.contains(':'),
        !stack_key2.contains(':'),
        resolve_spec(stack_key1, stack1, instance_key1, inst1).deployment_name == resolve_spec(
            stack_key2,
            stack2,
            instance_key2,
            inst2,
        ).deployment_name,
    ensures
        stack_key1 == stack_key2,
        instance_key1 == instance_key2,
{
    reveal_strlit(":");
    assert(":"@.len() == 1);
    assert(":"@[0] == ':');
    let t1 = stack_key1 + ":"@ + instance_key1;
    let t2 = stack_key2 + ":"@ + instance_key2;
    assert(t1 == t2);
    assert(t1[stack_key1.len() as int] == ':');
    assert(t2[stack_key2.len() as int] == ':');
    if stack_key1.len() < stack_key2.len() {
        assert(t2[stack_key1.len() as int] == stack_key2[stack_key1.len() as int]);
        assert(stack_key2.contains(':'));
        assert(false);
    }
    if stack_key2.len() < stack_key1.len() {
        assert(t1[stack_key2.len() as int] == stack_key1[stack_key2.len() as int]);
        assert(stack_key1.contains(':'));
        assert(false);
    }
    assert forall|i: int| 0 <= i < stack_key1.len()
        implies stack_key1[i] == stack_key2[i] by {
        assert(t1[i] == stack_key1[i]);
        assert(t2[i] == stack_key2[i]);
    }
    assert(stack_key1 =~= stack_key2);
    lemma_prefix_cancel(stack_key1 + ":"@, instance_key1, instance_key2);
}

/// Override precedence: every scalar field of a resolved deployment is the
/// instance's value when the instance gives one, else the stack's; the
/// account id comes from the instance alone, defaulting to empty.
pub proof fn lemma_override_precedence(
    stack_key: Seq<char>,
    stack: DefinitionView,
    instance_key: Seq<char>,
    inst: InstanceView,
)
    ensures
        resolve_spec(stack_key, stack, instance_key, inst).name == (match inst.name {
            Some(n) => n,
            None => stack.name,
        }),
        resolve_spec(stack_key, stack, instance_key, inst).path == (match inst.path {
            Some(p) => p,
            None => stack.path,
        }),
        resolve_spec(stack_key, stack, instance_key, inst).region == (match inst.region {
            Some(r) => r,
            None => stack.region,
        }),
        resolve_spec(stack_key, stack, instance_key, inst).aws_account_id == (match inst
            .aws_account_id {
            Some(a) => a,
            None => Seq::<char>::empty(),
        }),
        resolve_spec(stack_key, stack, instance_key, inst).capabilities == (match inst
            .capabilities {
            Some(c) => Some(c),
            None => stack.capabilities,
        }),
{
}

/// Parameter merge: the resolved map binds every instance key to the
/// instance's value, keeps every stack-only key with the stack's value, and
/// binds nothing else.
pub proof fn lemma_parameter_merge(
    stack_key: Seq<char>,
    stack: DefinitionView,
    instance_key: Seq<char>,
    inst: InstanceView,
    k: Seq<char>,
)
    ensures
        given_params(inst.parameters).contains_key(k) ==> resolve_spec(
            stack_key,
            stack,
            instance_key,
            inst,
        ).parameters.contains_key(k) && resolve_spec(stack_key, stack, instance_key, inst)
            .parameters[k] == given_params(inst.parameters)[k],
        given_params(stack.parameters).contains_key(k) && !given_params(
            inst.parameters,
        ).contains_key(k) ==> resolve_spec(stack_key, stack, instance_key, inst)
            .parameters.contains_key(k) && resolve_spec(stack_key, stack, instance_key, inst)
            .parameters[k] == given_params(stack.parameters)[k],
        resolve_spec(stack_key, stack, instance_key, inst).parameters.contains_key(k)
            ==> given_params(stack.parameters).contains_key(k) || given_params(
            inst.parameters,
        ).contains_key(k),
{
}

/// The Delete and Describe argument vectors depend on the configuration's
/// name and region alone: capabilities and parameters never reach them.
pub proof fn lemma_delete_describe_minimal(c1: Configuration, c2: Configuration)
    requires
        c1.name@ == c2.name@,
        c1.region@ == c2.region@,
    ensures
        cmd_spec(c1, CloudFormation::Delete) == cmd_spec(c2, CloudFormation::Delete),
        cmd_spec(c1, CloudFormation::Describe) == cmd_spec(c2, CloudFormation::Describe),
{
    assert(cmd_spec(c1, CloudFormation::Delete) =~= cmd_spec(c2, CloudFormation::Delete));
    assert(cmd_spec(c1, CloudFormation::Describe) =~= cmd_spec(c2, CloudFormation::Describe));
}

/// The argument vector is a function of the configuration's view and the
/// operation alone: two well-formed configurations with the same view build
/// the same command, however their parameter maps were assembled.
pub proof fn lemma_cmd_view_determined(
    c1: Configuration,
    c2: Configuration,
    cmd_type: CloudFormation,
)
    requires
        c1.wf(),
        c2.wf(),
        c1@ == c2@,
    ensures
        cmd_spec(c1, cmd_type) == cmd_spec(c2, cmd_type),
{
    crate::params::lemma_param_map_canonical(c1.parameters, c2.parameters);
    assert(opt_view(c1.capabilities) == opt_view(c2.capabilities));
    match c1.capabilities {
        Some(cap1) => {
            assert(c2.capabilities matches Some(cap2) && cap1@ == cap2@);
        },
        None => {
            assert(c2.capabilities is None);
        },
    }
    assert(cmd_spec(c1, cmd_type) =~= cmd_spec(c2, cmd_type));
}

/// The canonical text is a function of the configuration's view alone: in
/// particular two parameter maps holding the same pairs, in whatever order
/// they were inserted, render identical text.
pub proof fn lemma_config_text_view_determined(c1: Configuration, c2: Configuration)
    requires
        c1.wf(),
        c2.wf(),
        c1@ == c2@,
    ensures
        config_text(c1) == config_text(c2),
{
    crate::params::lemma_param_map_canonical(c1.parameters, c2.parameters);
    assert(opt_view(c1.capabilities) == opt_view(c2.capabilities));
    match c1.capabilities {
        Some(cap1) => {
            assert(c2.capabilities matches Some(cap2) && cap1@ == cap2@);
        },
        None => {
            assert(c2.capabilities is None);
        },
    }
}

/// A single drifted parameter value shows in the canonical text: two
/// well-formed configurations that agree on every scalar field and on the
/// parameter key set, with newline-free keys and values, render different
/// canonical texts as soon as one shared key's values differ. Together with
/// `helpers::state_text` this makes the verdict for such a pair `DRIFTED`.
pub proof fn lemma_param_drift_shows(c1: Configuration, c2: Configuration, k: Seq<char>)
    requires
        c1.wf(),
        c2.wf(),
        c1.name@ == c2.name@,
        c1.region@ == c2.region@,
        c1.aws_account_id@ == c2.aws_account_id@,
        opt_view(c1.capabilities) == opt_view(c2.capabilities),
        forall|k2: Seq<char>|
            c1.parameters@.contains_key(k2) <==> c2.parameters@.contains_key(k2),
        forall|k2: Seq<char>| #[trigger] c1.parameters@.contains_key(k2) ==> !k2.contains('\n')
            && !c1.parameters@[k2].contains('\n'),
        forall|k2: Seq<char>| #[trigger] c2.parameters@.contains_key(k2)
            ==> !c2.parameters@[k2].contains('\n'),
        c1.parameters@.contains_key(k),
        c1.parameters@[k] != c2.parameters@[k],
    ensures
        config_text(c1) != config_text(c2),
{
    let e1 = c1.parameters.entry_views();
    let e2 = c2.parameters.entry_views();
    let sep = "\n    "@;
    lemma_sorted_implies_unique(e1);
    lemma_sorted_implies_unique(e2);
    lemma_sorted_same_keys(e1, e2);
    lemma_map_of_contains(e1, k);
    let i: int = choose|i: int| 0 <= i < e1.len() && e1[i].0 == k;
    assert(e2[i].0 == k);
    lemma_map_of_index(e1, i);
    lemma_map_of_index(e2, i);
    let v1 = e1[i].1;
    let v2 = e2[i].1;
    assert(v1 != v2);
    if config_text(c1) == config_text(c2) {
        match c1.capabilities {
            Some(cap1) => {
                assert(c2.capabilities matches Some(cap2) && cap1@ == cap2@);
            },
            None => {
                assert(c2.capabilities is None);
            },
        }
        let x = "Name: "@ + c1.name@ + "\nRegion: "@ + c1.region@ + "\nAwsAccountId: "@
            + c1.aws_account_id@ + "\nCapabilities: "@ + (match c1.capabilities {
            Some(cap) => cap@,
            None => "None"@,
        }) + "\nParameters: "@;
        assert(config_text(c1) == x + config_params_text(c1));
        assert(config_text(c2) == x + config_params_text(c2));
        lemma_prefix_cancel(x, config_params_text(c1), config_params_text(c2));
        assert(e1.len() > 0);
        assert(e2.len() > 0);
        let l1 = e1.map_values(|p: (Seq<char>, Seq<char>)| line_of(p));
        let l2 = e2.map_values(|p: (Seq<char>, Seq<char>)| line_of(p));
        assert(params_block(e1) == sep + join_with(l1, sep));
        assert(params_block(e2) == sep + join_with(l2, sep));
        lemma_prefix_cancel(sep, join_with(l1, sep), join_with(l2, sep));
        reveal_strlit(": ");
        assert(!": "@.contains('\n')) by {
            assert(": "@.len() == 2);
            assert(": "@[0] == ':');
            assert(": "@[1] == ' ');
        }
        assert forall|j: int| 0 <= j < l1.len() implies !(#[trigger] l1[j]).contains('\n') by {
            lemma_map_of_index(e1, j);
            assert(c1.parameters@.contains_key(e1[j].0));
            lemma_concat_char_free(e1[j].0, ": "@, '\n');
            lemma_concat_char_free(e1[j].0 + ": "@, e1[j].1, '\n');
            assert(l1[j] == line_of(e1[j]));
        }
        assert forall|j: int| 0 <= j < l2.len() implies !(#[trigger] l2[j]).contains('\n') by {
            lemma_map_of_index(e1, j);
            lemma_map_of_index(e2, j);
            assert(e2[j].0 == e1[j].0);
            assert(c1.parameters@.contains_key(e1[j].0));
            assert(c2.parameters@.contains_key(e2[j].0));
            lemma_concat_char_free(e2[j].0, ": "@, '\n');
            lemma_concat_char_free(e2[j].0 + ": "@, e2[j].1, '\n');
            assert(l2[j] == line_of(e2[j]));
        }
        lemma_join_lines_injective(l1, l2);
        assert(l1[i] == l2[i]);
        assert(line_of(e1[i]) == line_of(e2[i]));
        assert((k + ": "@) + v1 == (k + ": "@) + v2);
        lemma_prefix_cancel(k + ": "@, v1, v2);
        assert(false);
    }
}

/// Looks a deployment up by its key; `None` when no deployment carries it.
/// The caller decides how a miss is reported.
pub fn get_deployment(configs: &Vec<Configuration>, deployment: &String) -> (r: Option<
    Configuration,
>)
    requires
        forall|i: int| 0 <= i < configs@.len() ==> (#[trigger] configs@[i]).wf(),
    ensures
        match r {
            Some(c) => c.wf() && exists|i: int|
                0 <= i < configs@.len() && (#[trigger] configs@[i]).deployment_name@
                    == deployment@ && c@ == configs@[i]@ && forall|j: int|
                    0 <= j < i ==> configs@[j].deployment_name@ != deployment@,
            None => forall|i: int|
                0 <= i < configs@.len() ==> (#[trigger] configs@[i]).deployment_name@
                    != deployment@,
        },
{
    let n = configs.len();
    let mut i: usize = 0;
    while i < n
        invariant
            i <= n,
            n == configs@.len(),
            forall|k: int| 0 <= k < configs@.len() ==> (#[trigger] configs@[k]).wf(),
            forall|j: int| 0 <= j < i ==> (#[trigger] configs@[j]).deployment_name@ != deployment@,
        decreases n - i,
    {
        if configs[i].deployment_name == *deployment {
            return Some(configs[i].clone());
        }
        i = i + 1;
    }
    None
}

} // verus!

use ccs_sidecar::command::{
    begin_call, finish_call, missing_state_message, plan_command, CallStart, CommandPlan, GenericArg, Lookup,
    ParamShape, ParamSource, Returned, Segment, TypeShape,
};
use ccs_sidecar::commands::{auth_start_login, find_thing, get_provider, is_ready, AppError};
use ccs_sidecar::rpc::arg_position;
use serde_json::Value;

fn path(idents: &[&str]) -> TypeShape {
    TypeShape::Path(idents.iter().map(|i| Segment { ident: i.to_string(), args: None }).collect())
}

fn state_of(inner: &str) -> TypeShape {
    TypeShape::Path(vec![Segment {
        ident: "State".to_string(),
        args: Some(vec![GenericArg::Other, GenericArg::Type(inner.to_string())]),
    }])
}

fn param(raw: &str, ty: TypeShape) -> ParamShape {
    ParamShape { is_receiver: false, ty, raw: Some(raw.to_string()) }
}

fn plan_of(name: &str, params: Vec<ParamShape>, ret: Option<&str>) -> CommandPlan {
    let ret = ret.map(|r| path(&[r]));
    plan_command(name, true, &vec![], &params, ret.as_ref()).ok().unwrap()
}

/// A resolved parameter of the sample commands.
#[derive(Debug, PartialEq)]
enum Arg {
    Text(String),
    MaybeText(Option<String>),
    State(String),
}

fn raw(args: &Value, key: &str) -> Value {
    let obj = args.as_object().unwrap();
    let keys: Vec<String> = obj.keys().cloned().collect();
    match arg_position(&keys, key) {
        Some(i) => obj[&keys[i]].clone(),
        None => Value::Null,
    }
}

/// Resolves the parameters of a plan the way the sidecar does: JSON
/// parameters are read and decoded, states come from `states`.
fn lookups(plan: &CommandPlan, args: &Value, optional: &[&str], states: &[(&str, &str)]) -> Vec<Lookup<Arg>> {
    plan.params
        .iter()
        .map(|p| match p {
            ParamSource::Json { key, .. } => {
                let v = raw(args, key);
                if optional.contains(&key.as_str()) {
                    match serde_json::from_value::<Option<String>>(v) {
                        Ok(x) => Lookup::Value(Arg::MaybeText(x)),
                        Err(e) => Lookup::BadArgument { key: key.clone(), error: e.to_string() },
                    }
                } else {
                    match serde_json::from_value::<String>(v) {
                        Ok(x) => Lookup::Value(Arg::Text(x)),
                        Err(e) => Lookup::BadArgument { key: key.clone(), error: e.to_string() },
                    }
                }
            }
            ParamSource::State(inner) => match states.iter().find(|(t, _)| t == inner) {
                Some((_, label)) => Lookup::Value(Arg::State(label.to_string())),
                None => Lookup::MissingState(inner.clone()),
            },
            _ => panic!("not used by these commands"),
        })
        .collect()
}

fn auth_plan() -> CommandPlan {
    plan_of(
        "auth_start_login",
        vec![
            param("auth_provider", path(&["String"])),
            param("github_domain", path(&["Option"])),
            param("copilot_state", state_of("CopilotAuthState")),
            param("xai_state", state_of("XaiOAuthState")),
        ],
        Some("Result"),
    )
}

fn run_auth(args: Value) -> Result<String, String> {
    let plan = auth_plan();
    let states = [("CopilotAuthState", "cop"), ("XaiOAuthState", "xai")];
    match begin_call(&plan, lookups(&plan, &args, &["githubDomain"], &states)) {
        CallStart::Refuse(m) => Err(m),
        CallStart::Run(v) => {
            let mut it = v.into_iter();
            let (Some(Arg::Text(p)), Some(Arg::MaybeText(d)), Some(Arg::State(c)), Some(Arg::State(x))) =
                (it.next(), it.next(), it.next(), it.next())
            else {
                panic!("arguments out of order")
            };
            finish_call(&plan, Returned::Result(auth_start_login(p, d, &c, &x)))
        }
    }
}

fn obj(pairs: &[(&str, &str)]) -> Value {
    let mut m = serde_json::Map::new();
    for (k, v) in pairs {
        m.insert(k.to_string(), Value::String(v.to_string()));
    }
    Value::Object(m)
}

#[test]
fn snake_case_parameters_are_read_from_camel_case_keys() {
    let args = obj(&[("authProvider", "github-copilot"), ("githubDomain", "example.com")]);
    assert_eq!(run_auth(args), Ok("github-copilot|example.com|cop|xai".to_string()));
}

#[test]
fn a_missing_key_gives_none_to_an_option_parameter() {
    assert_eq!(run_auth(obj(&[("authProvider", "x")])), Ok("x|none|cop|xai".to_string()));
}

#[test]
fn an_undecodable_argument_stops_the_call() {
    let reply = run_auth(obj(&[("githubDomain", "d")]));
    let err = reply.unwrap_err();
    assert!(err.starts_with("参数 authProvider 解析失败: "), "{err}");
}

#[test]
fn camel_case_parameters_are_read_by_their_own_name() {
    let plan = plan_of("get_provider", vec![param("providerId", path(&["String"]))], Some("Result"));
    let args = obj(&[("providerId", "p1")]);
    let reply = match begin_call(&plan, lookups(&plan, &args, &[], &[])) {
        CallStart::Refuse(m) => Err(m),
        CallStart::Run(v) => match v.into_iter().next() {
            Some(Arg::Text(id)) => finish_call(&plan, Returned::Result(get_provider(id))),
            _ => panic!("expected the id"),
        },
    };
    let p = reply.ok().unwrap();
    assert_eq!(p.id, "p1");
    assert!(p.enabled);
}

#[test]
fn command_errors_become_their_text() {
    let plan = plan_of("find_thing", vec![param("key", path(&["String"]))], Some("Result"));
    let call = |key: &str| match begin_call(&plan, lookups(&plan, &obj(&[("key", key)]), &[], &[])) {
        CallStart::Refuse(m) => Err(m),
        CallStart::Run(v) => match v.into_iter().next() {
            Some(Arg::Text(k)) => {
                let out = find_thing(k).map_err(|e: AppError| e.message());
                finish_call(&plan, Returned::Result(out))
            }
            _ => panic!("expected the key"),
        },
    };
    assert_eq!(call("ok"), Ok("found".to_string()));
    assert_eq!(call("zzz"), Err("未找到: zzz".to_string()));
}

#[test]
fn other_results_are_returned_as_ok() {
    let plan = plan_of("is_ready", vec![], Some("bool"));
    assert!(!plan.returns_result);
    match begin_call::<Arg>(&plan, vec![]) {
        CallStart::Run(v) => {
            assert!(v.is_empty());
            assert_eq!(finish_call(&plan, Returned::Value(is_ready())), Ok(true));
        }
        CallStart::Refuse(_) => panic!("nothing to resolve"),
    }
    let ping = plan_of("ping", vec![], None);
    assert_eq!(finish_call(&ping, Returned::Value(())), Ok(()));
}

#[test]
fn an_unregistered_state_stops_the_call() {
    let plan = plan_of("read_state_label", vec![param("state", state_of("AppState"))], Some("Result"));
    match begin_call(&plan, lookups(&plan, &obj(&[]), &[], &[])) {
        CallStart::Refuse(m) => {
            assert!(m.contains("未注册"));
            assert_eq!(m, "状态 AppState 未注册");
        }
        CallStart::Run(_) => panic!("the command must not run"),
    }
    assert_eq!(missing_state_message("a::B"), "状态 a::B 未注册");
}

#[test]
fn the_first_failure_wins() {
    let plan = auth_plan();
    let l = vec![
        Lookup::Value(Arg::Text("p".into())),
        Lookup::BadArgument { key: "githubDomain".into(), error: "bad".into() },
        Lookup::MissingState("CopilotAuthState".into()),
        Lookup::Value(Arg::State("xai".into())),
    ];
    match begin_call(&plan, l) {
        CallStart::Refuse(m) => assert_eq!(m, "参数 githubDomain 解析失败: bad"),
        CallStart::Run(_) => panic!("the command must not run"),
    }
}

use ccs_sidecar::command::{
    classify_param, classify_params, handler_entries, last_segment_ident, plan_command,
    rename_all_supported, returns_result, rpc_fn_name, state_inner_type, GenericArg, GenericParamKind, ParamShape,
    ParamSource, Segment, TypeShape,
};
use ccs_sidecar::naming::{to_camel, to_snake};

#[test]
fn snake_case_becomes_lower_camel() {
    assert_eq!(to_camel("app_type"), "appType");
    assert_eq!(to_camel("provider_id"), "providerId");
    assert_eq!(to_camel("access_key_id"), "accessKeyId");
    assert_eq!(to_camel("wsl_shell_by_tool"), "wslShellByTool");
    assert_eq!(to_camel("team_organization_id"), "teamOrganizationId");
    assert_eq!(to_camel("cache_creation_cost"), "cacheCreationCost");
}

#[test]
fn single_word_stays_lowercase() {
    assert_eq!(to_camel("enabled"), "enabled");
    assert_eq!(to_camel("id"), "id");
}

#[test]
fn already_camel_is_idempotent() {
    for s in ["providerId", "appType", "modelId"] {
        assert_eq!(to_camel(s), s);
        assert_eq!(to_camel(&to_camel(s)), s);
    }
}

#[test]
fn leading_underscore_is_dropped() {
    assert_eq!(to_camel("_app"), "app");
    assert_eq!(to_camel("_state"), "state");
}

#[test]
fn empty_words_are_skipped() {
    assert_eq!(to_camel("a__b"), "aB");
    assert_eq!(to_camel("__"), "");
    assert_eq!(to_camel(""), "");
}

#[test]
fn camel_lowercases_the_first_letter() {
    assert_eq!(to_camel("App_type"), "appType");
    assert_eq!(to_camel("trailing_"), "trailing");
}

#[test]
fn camel_uppercases_digits_unchanged() {
    assert_eq!(to_camel("s3_bucket"), "s3Bucket");
    assert_eq!(to_camel("a_1"), "a1");
}

#[test]
fn snake_inserts_underscores_before_capitals() {
    assert_eq!(to_snake("appType"), "app_type");
    assert_eq!(to_snake("providerId"), "provider_id");
    assert_eq!(to_snake("plain"), "plain");
    assert_eq!(to_snake("ABC"), "_a_b_c");
    assert_eq!(to_snake(""), "");
}

#[test]
fn snake_of_camel_round_trips() {
    for s in ["app_type", "access_key_id", "id", "wsl_shell_by_tool"] {
        assert_eq!(to_snake(&to_camel(s)), s);
    }
}

#[test]
fn camel_is_idempotent_on_ascii() {
    for s in ["_a__b_c", "Hello_World", "x", "a_1_b"] {
        let once = to_camel(s);
        assert_eq!(to_camel(&once), once);
    }
}

#[test]
fn non_ascii_first_letters_map_by_unicode() {
    assert_eq!(to_camel("a_é"), "aÉ");
    assert_eq!(to_camel("Ä_b"), "äB");
}

fn seg(ident: &str, args: Option<Vec<GenericArg>>) -> Segment {
    Segment { ident: ident.to_string(), args }
}

fn simple(path: &[&str]) -> TypeShape {
    TypeShape::Path(path.iter().map(|p| seg(p, None)).collect())
}

fn state_of(inner: &str) -> TypeShape {
    TypeShape::Path(vec![
        seg("tauri", None),
        seg("State", Some(vec![GenericArg::Other, GenericArg::Type(inner.to_string())])),
    ])
}

#[test]
fn type_paths_are_read_by_their_last_segment() {
    assert_eq!(last_segment_ident(&simple(&["tauri", "AppHandle"])), Some("AppHandle".to_string()));
    assert_eq!(
        last_segment_ident(&TypeShape::Reference(Box::new(simple(&["std", "path", "Path"])))),
        Some("Path".to_string())
    );
    assert_eq!(last_segment_ident(&TypeShape::Other), None);
    assert_eq!(last_segment_ident(&TypeShape::Path(vec![])), None);
    assert_eq!(state_inner_type(&state_of("AppState")), Some("AppState".to_string()));
    assert_eq!(state_inner_type(&simple(&["State"])), None);
    assert_eq!(state_inner_type(&TypeShape::Reference(Box::new(state_of("AppState")))), None);
    let only_lifetime = TypeShape::Path(vec![seg("State", Some(vec![GenericArg::Other]))]);
    assert_eq!(state_inner_type(&only_lifetime), None);
}

#[test]
fn parameters_are_classified_by_type() {
    match classify_param(&state_of("AppState"), Some("state")) {
        Ok(ParamSource::State(inner)) => assert_eq!(inner, "AppState"),
        _ => panic!("expected a state parameter"),
    }
    assert_eq!(
        classify_param(&simple(&["State"]), Some("state")).err().unwrap(),
        "无法解析 State 的内部类型"
    );
    assert!(matches!(classify_param(&simple(&["tauri", "AppHandle"]), Some("app")), Ok(ParamSource::AppHandle)));
    assert!(matches!(classify_param(&simple(&["Window"]), Some("w")), Ok(ParamSource::Window)));
    match classify_param(&simple(&["String"]), Some("provider_id")) {
        Ok(ParamSource::Json { key, raw }) => {
            assert_eq!(key, "providerId");
            assert_eq!(raw, "provider_id");
        }
        _ => panic!("expected a JSON parameter"),
    }
    assert_eq!(
        classify_param(&TypeShape::Other, None).err().unwrap(),
        "命令参数必须是简单标识符"
    );
}

#[test]
fn result_returns_are_detected() {
    assert!(returns_result(Some(&simple(&["Result"]))));
    assert!(returns_result(Some(&simple(&["std", "result", "Result"]))));
    assert!(!returns_result(Some(&simple(&["Vec"]))));
    assert!(!returns_result(None));
}

#[test]
fn only_camel_case_renaming_is_accepted() {
    assert!(rename_all_supported(""));
    assert!(rename_all_supported("rename_all = \"camelCase\""));
    assert!(!rename_all_supported("rename_all = \"snake_case\""));
}

#[test]
fn dispatch_functions_are_prefixed() {
    assert_eq!(rpc_fn_name("get_provider"), "__rpc_get_provider");
}

fn typed(ty: TypeShape, raw: &str) -> ParamShape {
    ParamShape { is_receiver: false, ty, raw: Some(raw.to_string()) }
}

#[test]
fn commands_are_planned_parameter_by_parameter() {
    let params = vec![
        typed(state_of("AppState"), "state"),
        typed(simple(&["String"]), "provider_id"),
        typed(simple(&["AppHandle"]), "app"),
    ];
    let ret = simple(&["Result"]);
    let plan = plan_command("switch_provider", true, &vec![GenericParamKind::Lifetime], &params, Some(&ret)).ok().unwrap();
    assert_eq!(plan.rpc_name, "__rpc_switch_provider");
    assert!(plan.is_async);
    assert!(!plan.instantiate_wry);
    assert!(plan.returns_result);
    assert_eq!(plan.params.len(), 3);
    assert!(matches!(&plan.params[0], ParamSource::State(inner) if inner == "AppState"));
    match &plan.params[1] {
        ParamSource::Json { key, raw } => {
            assert_eq!(key, "providerId");
            assert_eq!(raw, "provider_id");
        }
        _ => panic!("expected a JSON parameter"),
    }
    assert!(matches!(plan.params[2], ParamSource::AppHandle));

    let opt = simple(&["Option"]);
    let generic = plan_command("save_file_dialog", false, &vec![GenericParamKind::Type], &vec![typed(simple(&["String"]), "default_name")], Some(&opt))
        .ok()
        .unwrap();
    assert!(generic.instantiate_wry);
    assert!(!generic.returns_result);
}

#[test]
fn the_first_unwirable_parameter_refuses_the_command() {
    let receiver = ParamShape { is_receiver: true, ty: TypeShape::Other, raw: None };
    let bad_state = ParamShape { is_receiver: false, ty: simple(&["State"]), raw: Some("s".to_string()) };
    let pattern = ParamShape { is_receiver: false, ty: simple(&["String"]), raw: None };
    assert_eq!(classify_params(&vec![receiver]).err().unwrap(), "命令不支持 self 参数");
    assert_eq!(
        plan_command("f", false, &vec![], &vec![typed(simple(&["String"]), "a"), bad_state, pattern], None).err().unwrap(),
        "无法解析 State 的内部类型"
    );
    assert!(classify_params(&vec![]).ok().unwrap().is_empty());
}

#[test]
fn handler_entries_point_at_dispatch_functions() {
    let paths = vec![
        vec!["crate".to_string(), "commands".to_string(), "get_app_version".to_string()],
        vec![],
        vec!["ping".to_string()],
    ];
    let entries = handler_entries(&paths);
    assert_eq!(entries.len(), 2);
    assert_eq!(entries[0].name, "get_app_version");
    assert_eq!(entries[0].rpc_path, vec!["crate", "commands", "__rpc_get_app_version"]);
    assert_eq!(entries[1].name, "ping");
    assert_eq!(entries[1].rpc_path, vec!["__rpc_ping"]);
}

#[test]
fn later_words_are_capitalized_after_a_non_ascii_first_word() {
    assert_eq!(to_camel("é_b"), "éB");
    assert_eq!(to_camel("__"), "");
}

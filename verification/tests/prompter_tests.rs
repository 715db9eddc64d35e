use aether::generate::GenerationKind;
use aether::job::GenerationOptions;
use aether::prompt::PromptMakerContext;
use aether::prompter::{
    after_guide_load, build_user_message, check_guide, finalize_call, guide_path, merge_params_with_guide, prompter_step,
    route_for_model, system_message, truncate, turns_exhausted, ExplicitOptions, GuideDecision, ModelPromptGuide,
    ParameterSpec, PrompterAnswer, PrompterRoute, PrompterStep, PrompterToolCall,
};
use aether::refs::AetherError;

fn call(name: &str, prompt: Option<&str>) -> PrompterToolCall {
    PrompterToolCall { id: "c".to_string(), name: name.to_string(), professional_prompt: prompt.map(|p| p.to_string()) }
}

fn guide(version: u32, text: &str) -> ModelPromptGuide {
    ModelPromptGuide {
        schema_version: version,
        model_id: "google/nano".to_string(),
        provider: "google".to_string(),
        api_model: "nano-1".to_string(),
        display_name: "Nano".to_string(),
        kinds: vec!["ImageEdit".to_string()],
        model_guide: text.to_string(),
    }
}

#[test]
fn truncation_cuts_at_byte_count() {
    assert_eq!(truncate("abc", 200), "abc");
    let long = "a".repeat(300);
    assert_eq!(truncate(&long, 200), format!("{}…", "a".repeat(200)));
    assert_eq!(truncate("ééé", 4), "éé…");
}

#[test]
fn text_answer_fails_with_extract() {
    match prompter_step(&PrompterAnswer::Text("bonjour".to_string())) {
        PrompterStep::Fail(e) => assert_eq!(
            e,
            AetherError::OperationFailed(
                "Prompter LLM a répondu en texte sans outil — relancez ou précisez la demande. Extrait: bonjour".to_string()
            )
        ),
        other => panic!("unexpected {:?}", other),
    }
}

#[test]
fn tool_call_turns() {
    let answer = PrompterAnswer::ToolCalls(vec![call("display_cli_message", None), call("finalize_prompt", Some("p"))]);
    assert!(matches!(prompter_step(&answer), PrompterStep::Finalize(v) if v == vec![0]));
    let answer = PrompterAnswer::ToolCalls(vec![call("x", None), call("display_cli_message", None)]);
    assert!(matches!(prompter_step(&answer), PrompterStep::Display(v) if v == vec![1]));
    let answer = PrompterAnswer::ToolCalls(vec![call("x", None)]);
    assert!(matches!(prompter_step(&answer),
        PrompterStep::Fail(AetherError::OperationFailed(m)) if m == "Prompter LLM: outil inconnu ou finalize manquant"));
    assert_eq!(turns_exhausted(), AetherError::OperationFailed("Prompter LLM: nombre max de tours CLI atteint".to_string()));
}

#[test]
fn finalizing_tool_calls() {
    let calls = vec![call("finalize_prompt", Some("first")), call("ask_clarification", None), call("finalize_prompt", Some("second"))];
    assert_eq!(finalize_call(&calls), Ok((2, "second".to_string())));
    let calls = vec![call("finalize_prompt", Some("first")), call("weird", None)];
    assert_eq!(finalize_call(&calls), Err(AetherError::OperationFailed("Prompter Agent: outil inconnu 'weird'".to_string())));
    let calls = vec![call("finalize_prompt", None)];
    assert_eq!(
        finalize_call(&calls),
        Err(AetherError::OperationFailed("finalize_prompt: professional_prompt manquant".to_string()))
    );
    let calls = vec![call("display_cli_message", None)];
    assert_eq!(
        finalize_call(&calls),
        Err(AetherError::OperationFailed("Prompter Agent: aucun finalize_prompt après tour d'outils".to_string()))
    );
}

#[test]
fn guide_files_and_checks() {
    assert_eq!(guide_path("google/gemini-3.1-flash-image-preview", "/g"), Ok("/g/google/gemini-3.1-flash-image-preview.json".to_string()));
    assert_eq!(
        guide_path("nogroup", "/g"),
        Err(AetherError::OperationFailed("Invalid model_id for guide load: nogroup".to_string()))
    );
    assert!(check_guide(guide(2, "guide"), "/g/x.json").is_ok());
    assert_eq!(
        check_guide(guide(1, "guide"), "/g/x.json").unwrap_err(),
        AetherError::OperationFailed("Unsupported guide schema_version 1 in /g/x.json (expected 2)".to_string())
    );
    assert_eq!(
        check_guide(guide(2, " \n "), "/g/x.json").unwrap_err(),
        AetherError::OperationFailed("model_guide must be non-empty inline text in /g/x.json".to_string())
    );
    assert!(guide(2, "g").supports_kind(GenerationKind::ImageEdit));
    assert!(!guide(2, "g").supports_kind(GenerationKind::Music));
}

#[test]
fn system_md_substitutes_model_placeholder() {
    let block = guide(2, "Nano Banana tips").format_model_block("{\"aspect_ratio\": {}}");
    assert!(block.starts_with("**Nano** (`google/nano` → API `nano-1`)"));
    let sys = system_message("You are the AETHER prompter.\n{model}\nEnd {model}", &block).unwrap();
    assert!(sys.contains("You are the AETHER"));
    assert!(!sys.contains("{model}"));
    assert!(sys.contains("Nano Banana"));
    assert!(sys.contains("aspect_ratio"));
    assert_eq!(
        system_message("no placeholder", &block),
        Err(AetherError::OperationFailed("system.md must contain the {model} placeholder".to_string()))
    );
    assert_eq!(system_message("a{model}b{model}", "X"), Ok("aXbX".to_string()));
}

#[test]
fn user_message_parts() {
    let ctx = PromptMakerContext {
        project_summary: Some("teaser".to_string()),
        locale: Some("fr".to_string()),
        style_hint: None,
        vault_context: None,
        target_model_id: None,
        explicit_options: GenerationOptions::default(),
    };
    assert_eq!(
        build_user_message("un portrait", &ctx, "{}"),
        "Demande client:\nun portrait\n\nLocale projet: fr\n\nRésumé projet: teaser"
    );
    assert_eq!(
        build_user_message("x", &ctx, "{\"seed\":1}"),
        "Demande client:\nx\n\nLocale projet: fr\n\nRésumé projet: teaser\n\nOptions explicites (prioritaires): {\"seed\":1}"
    );
}

#[test]
fn prompt_routes() {
    assert!(matches!(route_for_model(&Some("mock/image-edit".to_string())), PrompterRoute::Fallback));
    assert!(matches!(route_for_model(&Some("google/nano".to_string())), PrompterRoute::Guide(g) if g == "google/nano"));
    assert!(matches!(route_for_model(&None), PrompterRoute::Fail(_)));
    assert!(matches!(after_guide_load(GenerationKind::ImageEdit, &Ok(guide(2, "g")), true), GuideDecision::UseGuide));
    assert!(matches!(after_guide_load(GenerationKind::Music, &Ok(guide(2, "g")), true), GuideDecision::Fallback));
    assert!(matches!(after_guide_load(GenerationKind::ImageEdit, &Ok(guide(2, "g")), false), GuideDecision::Fail(_)));
    let missing = AetherError::OperationFailed("No prompt guide at /g/x.json".to_string());
    assert!(matches!(after_guide_load(GenerationKind::Music, &Err(missing.clone()), true), GuideDecision::Fallback));
    assert!(matches!(after_guide_load(GenerationKind::Image, &Err(missing.clone()), true), GuideDecision::Fail(e) if e == missing));
}

fn spec(default: Option<&str>, allowed: &[&str]) -> ParameterSpec {
    ParameterSpec {
        param_type: "string".to_string(),
        default: default.map(|d| d.to_string()),
        allowed: allowed.iter().map(|a| a.to_string()).collect(),
        required: false,
        description: None,
    }
}

fn pairs(v: &[(&str, &str)]) -> Vec<(String, String)> {
    v.iter().map(|(k, x)| (k.to_string(), x.to_string())).collect()
}

fn lookup<'a>(v: &'a [(String, String)], k: &str) -> Option<&'a str> {
    v.iter().find(|(x, _)| x == k).map(|(_, y)| y.as_str())
}

#[test]
fn merged_parameters_take_defaults_and_explicit_options() {
    let mut g = guide(2, "text");
    g.provider = "google".to_string();
    let params = vec![
        ("aspect_ratio".to_string(), spec(Some("\"1:1\""), &["\"1:1\"", "\"16:9\""])),
        ("resolution".to_string(), spec(Some("\"1K\""), &[])),
        ("style".to_string(), spec(None, &[])),
    ];
    let explicit = ExplicitOptions {
        entries: Some(pairs(&[("resolution", "\"2K\""), ("other", "1"), ("google", "{\"seed\":42}")])),
        objects: vec![("google".to_string(), pairs(&[("seed", "42")]))],
    };
    let out = merge_params_with_guide(&g, &params, pairs(&[("aspect_ratio", "\"16:9\"")]), &explicit).unwrap();
    assert_eq!(lookup(&out, "api_model"), Some("\"nano-1\""));
    assert_eq!(lookup(&out, "aspect_ratio"), Some("\"16:9\""));
    assert_eq!(lookup(&out, "resolution"), Some("\"2K\""));
    assert_eq!(lookup(&out, "seed"), Some("42"));
    assert_eq!(lookup(&out, "style"), None);
    assert_eq!(lookup(&out, "other"), None);
    assert_eq!(out.len(), 4);

    let none = ExplicitOptions { entries: None, objects: vec![] };
    let out = merge_params_with_guide(&g, &params, pairs(&[("api_model", "\"custom\"")]), &none).unwrap();
    assert_eq!(lookup(&out, "api_model"), Some("\"custom\""));
    assert_eq!(lookup(&out, "aspect_ratio"), Some("\"1:1\""));
    assert_eq!(lookup(&out, "resolution"), Some("\"1K\""));
}

#[test]
fn merged_parameters_refuse_values_not_allowed() {
    let g = guide(2, "text");
    let params = vec![("aspect_ratio".to_string(), spec(None, &["\"1:1\"", "\"16:9\""]))];
    let none = ExplicitOptions { entries: None, objects: vec![] };
    assert_eq!(
        merge_params_with_guide(&g, &params, pairs(&[("aspect_ratio", "\"4:3\"")]), &none).unwrap_err(),
        AetherError::OperationFailed(
            "Paramètre 'aspect_ratio' = \"4:3\" hors allowed [String(\"1:1\"), String(\"16:9\")]".to_string()
        )
    );
    assert!(merge_params_with_guide(&g, &params, pairs(&[("aspect_ratio", "\"16:9\"")]), &none).is_ok());
}

#[test]
fn api_model_is_written_as_an_escaped_json_string() {
    let mut g = guide(2, "text");
    g.api_model = "a\"b\\c\nd\u{1}".to_string();
    let none = ExplicitOptions { entries: None, objects: vec![] };
    let out = merge_params_with_guide(&g, &Vec::new(), Vec::new(), &none).unwrap();
    assert_eq!(lookup(&out, "api_model"), Some("\"a\\\"b\\\\c\\nd\\u0001\""));
}

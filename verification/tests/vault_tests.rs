use aether::agents::{load_agent_config, planner_llm_enabled, prompter_llm_enabled, AgentModelConfig, AgentsConfigFile, PlannerCall};
use aether::planner::plan_vault_notes;
use aether::project::{DirProbe, ProjectCreateSpec, ProjectManager, ProjectRegistry, ProjectStatus};
use aether::refs::{AetherError, Ref, RefKind};
use aether::job::GenerationOptions;
use aether::registry::{Asset, AssetKind, RefRegistry};
use aether::session::{request_options, LoadedVaults};
use aether::runtime::check_vault_restrictions;
use aether::vault::{AssetMetadata, Vault, VaultAsset, VaultAssetKind, VaultKind, VaultLink, VaultLinks, VaultManager};

fn manager() -> VaultManager {
    VaultManager::with_paths("/cfg/vaults.json".to_string(), "/data/vaults".to_string())
}

fn meta(text: Option<&str>) -> AssetMetadata {
    AssetMetadata {
        text: text.map(|t| t.to_string()),
        restricted: false,
        allowed_providers: None,
        disallowed_providers: None,
        object: true,
        document: "{}".to_string(),
    }
}

fn asset(name: &str, kind: VaultAssetKind, text: Option<&str>) -> VaultAsset {
    VaultAsset {
        vault_asset_id: format!("id-{}", name),
        vault_id: "maison_lux_time".to_string(),
        kind,
        name: name.to_string(),
        path: format!("/data/vaults/maison_lux_time/assets/{}", name),
        hash: "h".to_string(),
        tags: Vec::new(),
        usage: Vec::new(),
        metadata: meta(text),
        created_at_ms: 0,
        updated_at_ms: 0,
    }
}

fn brand_vault() -> Vault {
    let vm = manager();
    vm.create_vault(&Vec::new(), "Maison Lux Time", VaultKind::Brand, Some("Luxurious Brand Kit".to_string()), 5).unwrap()
}

#[test]
fn vault_ids_are_lower_snake_case() {
    let v = brand_vault();
    assert_eq!(v.vault_id, "maison_lux_time");
    assert_eq!(v.root, "/data/vaults/maison_lux_time");
    assert_eq!(v.default_language, Some("en".to_string()));
    let again = manager().create_vault(&vec![v], "maison lux time", VaultKind::Brand, None, 6);
    assert_eq!(again.err(), Some(AetherError::VaultError("Vault with ID 'maison_lux_time' already exists".to_string())));
}

#[test]
fn attach_and_detach() {
    let vm = manager();
    let vaults = vec![brand_vault()];
    let links = VaultLinks { schema_version: 1, attached_vaults: Vec::new() };
    assert_eq!(
        vm.attach_vault(&vaults, links.clone(), "nope", "x").err(),
        Some(AetherError::VaultError("Vault 'nope' not found".to_string()))
    );
    let links = vm.attach_vault(&vaults, links, "maison_lux_time", "brand").unwrap();
    assert_eq!(links.attached_vaults.len(), 1);
    assert_eq!(links.attached_vaults[0].scope, "default");
    let links = vm.attach_vault(&vaults, links, "maison_lux_time", "other").unwrap();
    assert_eq!(links.attached_vaults.len(), 1);
    assert_eq!(links.attached_vaults[0].alias, "brand");
    let links = vm.detach_vault(links, "maison_lux_time").unwrap();
    assert!(links.attached_vaults.is_empty());
    assert_eq!(
        vm.detach_vault(links, "maison_lux_time").err(),
        Some(AetherError::VaultError("Vault 'maison_lux_time' was not attached to this project".to_string()))
    );
}

#[test]
fn prompt_context_sorts_assets() {
    let vm = manager();
    let vaults = vec![brand_vault()];
    let links = VaultLinks {
        schema_version: 1,
        attached_vaults: vec![
            VaultLink { vault_id: "maison_lux_time".to_string(), alias: "brand".to_string(), scope: "default".to_string(), locked_version: None },
            VaultLink { vault_id: "ghost".to_string(), alias: "g".to_string(), scope: "default".to_string(), locked_version: None },
        ],
    };
    let assets = vec![vec![
        asset("rules", VaultAssetKind::DesignRulebook, Some("Gold on black only")),
        asset("legal", VaultAssetKind::LegalGuideline, None),
        asset("snippet", VaultAssetKind::PromptSnippet, Some("soft light")),
        asset("neg", VaultAssetKind::NegativePrompt, Some("no neon")),
        asset("logo", VaultAssetKind::Logo, None),
    ]];
    let ctx = vm.compile_prompt_context(&links, &vaults, &assets);
    assert_eq!(ctx.vault_context.len(), 1);
    let vc = &ctx.vault_context[0];
    assert_eq!(vc.rules, vec!["Gold on black only".to_string(), "legal".to_string()]);
    assert_eq!(vc.prompt_snippets, vec!["soft light".to_string()]);
    assert_eq!(vc.negative_prompts, vec!["no neon".to_string()]);
    assert_eq!(vc.reference_assets.len(), 1);
    assert_eq!(vc.reference_assets[0].name, "logo");
}

#[test]
fn restricted_asset_is_refused_for_provider() {
    let vm = manager();
    let vaults = vec![brand_vault()];
    let links = VaultLinks {
        schema_version: 1,
        attached_vaults: vec![VaultLink {
            vault_id: "maison_lux_time".to_string(),
            alias: "brand".to_string(),
            scope: "default".to_string(),
            locked_version: None,
        }],
    };
    let mut logo = asset("logo", VaultAssetKind::Logo, None);
    logo.metadata.restricted = true;
    logo.metadata.allowed_providers = Some(vec!["mock".to_string()]);
    let ctx = vm.compile_prompt_context(&links, &vaults, &vec![vec![logo]]);
    assert_eq!(check_vault_restrictions(&ctx, "mock"), None);
    assert_eq!(
        check_vault_restrictions(&ctx, "openai"),
        Some("Security violation: Vault asset 'logo' is restricted and not allowed on provider 'openai'".to_string())
    );
}

#[test]
fn text_asset_replaces_same_name() {
    let vm = manager();
    let vaults = vec![brand_vault()];
    let existing = vec![asset("rules", VaultAssetKind::DesignRulebook, Some("old")), asset("logo", VaultAssetKind::Logo, None)];
    let (a, all) = vm
        .add_text_asset(&vaults, existing, "maison_lux_time", "rules", VaultAssetKind::DesignRulebook, "new rule",
            Vec::new(), Vec::new(), meta(None), 9)
        .unwrap();
    assert_eq!(a.hash.len(), 64);
    assert_eq!(a.path, format!("/data/vaults/maison_lux_time/assets/{}.txt", a.hash));
    assert_eq!(a.metadata.text, Some("new rule".to_string()));
    assert_eq!(a.vault_asset_id.len(), 36);
    assert_eq!(all.len(), 2);
    assert_eq!(all[0].name, "logo");
    assert_eq!(all[1].name, "rules");
    let (b, _) = vm
        .add_text_asset(&vaults, Vec::new(), "maison_lux_time", "r2", VaultAssetKind::PromptSnippet, "new rule",
            Vec::new(), Vec::new(), meta(None), 9)
        .unwrap();
    assert_eq!(a.hash, b.hash);
    let (c, _) = vm
        .add_text_asset(&vaults, Vec::new(), "maison_lux_time", "r3", VaultAssetKind::PromptSnippet, "other rule",
            Vec::new(), Vec::new(), meta(None), 9)
        .unwrap();
    assert_ne!(a.hash, c.hash);
    assert_ne!(a.hash, "new rule");
}

#[test]
fn plan_notes_from_vaults() {
    let links = vec![VaultLink {
        vault_id: "maison_lux_time".to_string(),
        alias: "brand".to_string(),
        scope: "default".to_string(),
        locked_version: None,
    }];
    let assets = vec![Some(vec![
        asset("rules", VaultAssetKind::DesignRulebook, Some("Gold on black only")),
        asset("norules", VaultAssetKind::DesignRulebook, None),
    ])];
    let notes = plan_vault_notes(&links, &assets);
    assert_eq!(
        notes,
        vec![
            "Attached Vault constraint: 'maison_lux_time' linked as 'brand'".to_string(),
            "Design rule from vault (brand): Gold on black only".to_string(),
        ]
    );
}

fn agent(model: &str) -> AgentModelConfig {
    AgentModelConfig {
        provider: "openai".to_string(),
        model_id: model.to_string(),
        api_model: "gpt".to_string(),
        bridge_handler: "openai-chat".to_string(),
    }
}

#[test]
fn agents_config_lookup() {
    let cfg = AgentsConfigFile { schema_version: 1, agents: vec![("planner".to_string(), agent("openai/gpt-p"))] };
    let loaded = AgentsConfigFile::load("g/agents.v1.json", Ok(cfg.clone()));
    assert_eq!(load_agent_config(loaded.clone(), "planner").unwrap().model_id, "openai/gpt-p");
    assert_eq!(
        load_agent_config(loaded.clone(), "prompter").err(),
        Some(AetherError::OperationFailed("Unknown agent 'prompter' in agents.v1.json".to_string()))
    );
    let call = PlannerCall::new(loaded, Ok("bridge.js".to_string())).unwrap();
    assert_eq!(call.config().model_id, "openai/gpt-p");
    assert!(planner_llm_enabled(Some("on")));
    assert!(!planner_llm_enabled(None));
    assert!(prompter_llm_enabled(None));
    assert!(!prompter_llm_enabled(Some("off")));
}

#[test]
fn project_registry_operations() {
    let pm = ProjectManager::with_registry_path("/cfg/projects.json".to_string());
    let empty = ProjectRegistry { schema_version: 1, active_project_id: None, projects: Vec::new() };
    let spec = ProjectCreateSpec { name: "demo".to_string(), dir: None, adopt: false, force: false };
    let probe = DirProbe { has_aether: false, has_db: false, has_meta: false, is_empty: false };
    assert_eq!(
        pm.create(&spec, "/w/demo", probe, None, empty.clone(), 1).err(),
        Some(AetherError::OperationFailed("Directory is not empty. Use --adopt or --force to create project here.".to_string()))
    );
    let probe = DirProbe { is_empty: true, ..probe };
    let (meta, reg) = pm.create(&spec, "/w/demo", probe, None, empty, 1).unwrap();
    assert_eq!(reg.active_project_id, Some(meta.project_id.clone()));
    assert_eq!(pm.current(&reg).unwrap().name, "demo");
    let reg = pm.close(reg, None, None).unwrap();
    assert_eq!(reg.active_project_id, None);
    assert_eq!(reg.projects[0].status, ProjectStatus::Closed);
    let listed = pm.list(reg.clone(), &vec![false]);
    assert_eq!(listed[0].status, ProjectStatus::Missing);
    let reg = pm.open(reg, &meta, "/w/demo", 2);
    assert_eq!(reg.projects.len(), 1);
    assert_eq!(reg.projects[0].status, ProjectStatus::Open);
    let (reg, removed) = pm.delete(reg, "demo", None).unwrap();
    assert_eq!(removed.project_id, meta.project_id);
    assert!(reg.projects.is_empty());
    assert_eq!(reg.active_project_id, None);
}

#[test]
fn add_file_asset_stores_by_hash_and_extension() {
    let vm = manager();
    let vaults = vec![brand_vault()];
    let existing = vec![asset("logo", VaultAssetKind::Logo, None), asset("font", VaultAssetKind::ReferenceImage, None)];
    let bytes = Some(b"PNGDATA".to_vec());
    let (a, all) = vm
        .add_file_asset(&vaults, existing, "maison_lux_time", "logo", VaultAssetKind::Logo, "/in/logo.png", &bytes,
            Vec::new(), vec!["gold".to_string()], meta(None), 5)
        .unwrap();
    assert_eq!(a.hash, blake3::hash(b"PNGDATA").to_hex().to_string());
    assert_eq!(a.path, format!("/data/vaults/maison_lux_time/assets/{}.png", a.hash));
    assert_eq!(a.tags, vec!["gold".to_string()]);
    assert_eq!(a.metadata.text, None);
    assert_eq!(a.created_at_ms, 5);
    assert_eq!(all.len(), 2);
    assert_eq!(all[0].name, "font");
    assert_eq!(all[1].name, "logo");
    assert_eq!(all[1].hash, a.hash);
    let (b, _) = vm
        .add_file_asset(&vaults, Vec::new(), "maison_lux_time", "x", VaultAssetKind::ReferenceImage, "/in/README", &bytes,
            Vec::new(), Vec::new(), meta(None), 5)
        .unwrap();
    assert_eq!(b.path, format!("/data/vaults/maison_lux_time/assets/{}.bin", a.hash));
    assert_eq!(
        vm.add_file_asset(&vaults, Vec::new(), "maison_lux_time", "x", VaultAssetKind::ReferenceImage, "/in/none.ttf", &None,
            Vec::new(), Vec::new(), meta(None), 5)
            .unwrap_err(),
        AetherError::IoError("/in/none.ttf".to_string(), "Source file does not exist".to_string())
    );
    assert!(matches!(
        vm.add_file_asset(&vaults, Vec::new(), "nope", "x", VaultAssetKind::ReferenceImage, "/in/a.ttf", &bytes,
            Vec::new(), Vec::new(), meta(None), 5),
        Err(AetherError::VaultError(_))
    ));
}

#[test]
fn text_asset_records_text_in_metadata_document() {
    let vm = manager();
    let vaults = vec![brand_vault()];
    let mut m = meta(None);
    m.document = "{\"source\":\"brief\"}".to_string();
    let (a, _) = vm
        .add_text_asset(&vaults, Vec::new(), "maison_lux_time", "rules", VaultAssetKind::DesignRulebook, "Gold only",
            Vec::new(), Vec::new(), m, 1)
        .unwrap();
    let doc: serde_json::Value = serde_json::from_str(&a.metadata.document).unwrap();
    assert_eq!(doc["text"], "Gold only");
    assert_eq!(doc["source"], "brief");
    let mut n = meta(None);
    n.object = false;
    n.document = "[1]".to_string();
    let (b, _) = vm
        .add_text_asset(&vaults, Vec::new(), "maison_lux_time", "r", VaultAssetKind::DesignRulebook, "x",
            Vec::new(), Vec::new(), n, 1)
        .unwrap();
    assert_eq!(b.metadata.document, "[1]");
    assert_eq!(b.metadata.text, None);
}

#[test]
fn vault_storage_beside_registry() {
    let vm = VaultManager::with_registry_path("/h/.config/aether/vaults.json".to_string(), None);
    assert_eq!(vm.vault_storage_root(), "/h/.config/local/share/aether/vaults");
    assert_eq!(vm.registry_path(), "/h/.config/aether/vaults.json");
    let vm = VaultManager::with_registry_path("vaults.json".to_string(), Some("/home/ana"));
    assert_eq!(vm.vault_storage_root(), "/home/ana/.local/share/aether/vaults");
    let vm = VaultManager::with_registry_path("/vaults.json".to_string(), None);
    assert_eq!(vm.vault_storage_root(), "/home/omni/.local/share/aether/vaults");
}

#[test]
fn request_options_carry_vault_context_and_input_paths() {
    let vm = manager();
    let mut registry = RefRegistry::new();
    let img = registry.allocate(RefKind::Image);
    let cat = Asset {
        r: img,
        kind: AssetKind::Image,
        path: "/p/cat.png".to_string(),
        hash: "h".to_string(),
        metadata: "{}".to_string(),
    };
    registry.register(img, cat).unwrap();
    let links = VaultLinks {
        schema_version: 1,
        attached_vaults: vec![VaultLink {
            vault_id: "maison_lux_time".to_string(),
            alias: "brand".to_string(),
            scope: "default".to_string(),
            locked_version: None,
        }],
    };
    let loaded = Some(LoadedVaults {
        links,
        vaults: vec![brand_vault()],
        assets: vec![vec![asset("neg", VaultAssetKind::NegativePrompt, Some("no neon"))]],
    });
    let mut base = GenerationOptions::default();
    base.locale = Some("fr".to_string());
    let out = request_options(base.clone(), &registry, &vec![img], &vm, &loaded).unwrap();
    assert_eq!(out.input_asset_paths, vec!["/p/cat.png".to_string()]);
    assert_eq!(out.locale, Some("fr".to_string()));
    let ctx = out.vault_context.unwrap();
    assert_eq!(ctx.vault_context.len(), 1);
    assert_eq!(ctx.vault_context[0].negative_prompts, vec!["no neon".to_string()]);

    let out = request_options(base.clone(), &registry, &Vec::new(), &vm, &None).unwrap();
    assert!(out.input_asset_paths.is_empty());
    assert!(out.vault_context.is_none());

    let missing = Ref { kind: RefKind::Image, id: 9 };
    assert_eq!(
        request_options(base, &registry, &vec![img, missing], &vm, &None).err(),
        Some(AetherError::RefNotFound(missing))
    );
}

use herd::services::{
    append_capped, detect_package_manager, node_modules_installed, service_command,
    service_output_event, shell_quote, suggest_herd_config, HerdConfig, ServiceManager, BUFFER_MAX,
};

#[test]
fn shell_quote_leaves_plain_words() {
    assert_eq!(shell_quote("dev:app"), "dev:app");
    assert_eq!(shell_quote("./bin/run-it_2"), "./bin/run-it_2");
}

#[test]
fn shell_quote_quotes_everything_else() {
    assert_eq!(shell_quote(""), "''");
    assert_eq!(shell_quote("a b"), "'a b'");
    assert_eq!(shell_quote("it's"), "'it'\\''s'");
    assert_eq!(shell_quote("$HOME"), "'$HOME'");
}

#[test]
fn service_commands() {
    assert_eq!(service_command(false, "npm", "dev", false), "exec npm run dev");
    assert_eq!(service_command(false, "pnpm", "ignored", true), "exec pnpm install");
    assert_eq!(
        service_command(true, "yarn", "dev app", false),
        "command -v nvm >/dev/null 2>&1 && nvm use >/dev/null 2>&1; exec yarn run 'dev app'"
    );
}

#[test]
fn package_manager_by_lock_file() {
    assert_eq!(detect_package_manager(true, true), "pnpm");
    assert_eq!(detect_package_manager(false, true), "yarn");
    assert_eq!(detect_package_manager(false, false), "npm");
}

#[test]
fn output_buffer_is_capped() {
    let mut buf = vec![1u8; BUFFER_MAX];
    append_capped(&mut buf, &[2u8; 10]);
    assert_eq!(buf.len(), BUFFER_MAX);
    assert_eq!(&buf[BUFFER_MAX - 10..], &[2u8; 10]);
    assert_eq!(buf[0], 1);
    let mut small = vec![7u8];
    append_capped(&mut small, b"ab");
    assert_eq!(small, vec![7u8, b'a', b'b']);
}

#[test]
fn service_table_lifecycle() {
    let mut m = ServiceManager::new("service_output");
    assert_eq!(m.event_prefix(), "service_output");
    assert!(!m.is_running("dev"));
    assert_eq!(m.register_service("dev", Some("main")), "dev");
    assert!(m.is_running("dev"));
    m.register_service("api", None);
    assert!(m.record_output("dev", b"ready"));
    assert_eq!(m.get_scrollback("dev"), Ok(b"ready".to_vec()));
    assert_eq!(m.get_scrollback("web"), Err("Service web not found".to_string()));
    let listed = m.list_running();
    assert_eq!(listed.len(), 2);
    assert!(listed.iter().any(|s| s.id == "dev" && s.script_name == "dev" && s.current_branch.as_deref() == Some("main")));
    assert!(listed.iter().any(|s| s.id == "api" && s.current_branch.is_none()));
    m.update_current_branch("feature-x");
    assert!(m.list_running().iter().all(|s| s.current_branch.as_deref() == Some("feature-x")));
    assert_eq!(m.get_scrollback("dev"), Ok(b"ready".to_vec()));
    assert!(m.stop_service("dev"));
    assert!(!m.stop_service("dev"));
    assert!(!m.is_running("dev"));
    let stopped = m.stop_all();
    assert_eq!(stopped, vec!["api".to_string()]);
    assert!(m.list_running().is_empty());
}

#[test]
fn node_modules_detection() {
    assert!(!node_modules_installed(false, &vec!["react".to_string()]));
    assert!(!node_modules_installed(true, &vec![".pnpm".to_string(), ".bin".to_string()]));
    assert!(node_modules_installed(true, &vec![".pnpm".to_string(), "react".to_string()]));
    assert!(!node_modules_installed(true, &vec![]));
}

#[test]
fn herd_config_suggestion() {
    let names: Vec<String> = ["build", "dev", "dev:api", "start", "worker:email", "lint", "serve"]
        .iter().map(|s| s.to_string()).collect();
    let c = suggest_herd_config(&names);
    assert_eq!(c.frontend.as_deref(), Some("dev"));
    assert_eq!(c.shared, vec!["dev:api".to_string(), "worker:email".to_string(), "serve".to_string()]);
    let names2: Vec<String> = ["start", "dev:web", "dev:app"].iter().map(|s| s.to_string()).collect();
    let c2 = suggest_herd_config(&names2);
    assert_eq!(c2.frontend.as_deref(), Some("dev:app"));
    assert_eq!(c2.shared, vec!["dev:web".to_string()]);
    let none = suggest_herd_config(&vec!["lint".to_string()]);
    assert!(none.frontend.is_none() && none.shared.is_empty());
    let e = HerdConfig::empty();
    assert!(e.frontend.is_none() && e.shared.is_empty());
    assert_eq!(service_output_event("shared_service_output", "api"), "shared_service_output_api");
}

#[test]
fn dev_web_is_not_a_front_end_candidate() {
    let names: Vec<String> = ["dev:web", "start"].iter().map(|s| s.to_string()).collect();
    let c = suggest_herd_config(&names);
    assert_eq!(c.frontend.as_deref(), Some("start"));
    assert_eq!(c.shared, vec!["dev:web".to_string()]);
}

#[test]
fn starting_a_running_service_is_a_no_op() {
    let mut m = ServiceManager::new("service_output");
    assert!(m.start_service("dev", Some("main")));
    m.record_output("dev", b"hi");
    assert!(!m.start_service("dev", Some("feature")));
    let l = m.list_running();
    assert_eq!(l.len(), 1);
    assert_eq!(l[0].current_branch.as_deref(), Some("main"));
    assert_eq!(m.get_scrollback("dev"), Ok(b"hi".to_vec()));
    assert!(m.start_service("api", None));
    assert_eq!(m.list_running().len(), 2);
}

#[test]
fn manifest_scripts_in_name_order() {
    let defs = herd::services::manifest_scripts(r#"{"name":"w","scripts":{"dev":"vite","build":1,"api":"node api.js"}}"#)
        .unwrap();
    let got: Vec<(String, String)> = defs.into_iter().map(|d| (d.name, d.command)).collect();
    assert_eq!(
        got,
        vec![
            ("api".to_string(), "node api.js".to_string()),
            ("build".to_string(), "".to_string()),
            ("dev".to_string(), "vite".to_string()),
        ]
    );
    assert!(herd::services::manifest_scripts(r#"{"name":"w"}"#).unwrap().is_empty());
    assert!(herd::services::manifest_scripts(r#"{"scripts":[1,2]}"#).unwrap().is_empty());
    let err = herd::services::manifest_scripts("{not json").err().unwrap();
    assert!(err.starts_with("Failed to parse package.json: "));
    assert!(err.len() > "Failed to parse package.json: ".len());
}

#[test]
fn manifest_without_a_scripts_object() {
    assert!(herd::services::manifest_scripts(r#"{"scripts":"dev"}"#).unwrap().is_empty());
    assert!(herd::services::manifest_scripts("[1,2,3]").unwrap().is_empty());
    assert!(herd::services::manifest_scripts("\"text\"").unwrap().is_empty());
    let defs = herd::services::manifest_scripts(r#"{"scripts":{"x":null,"y":{"a":1}}}"#).unwrap();
    let got: Vec<(String, String)> = defs.into_iter().map(|d| (d.name, d.command)).collect();
    assert_eq!(got, vec![("x".to_string(), "".to_string()), ("y".to_string(), "".to_string())]);
}

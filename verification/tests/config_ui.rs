use minimal_agent::config::{
    config_path, default_base_url, ensure_minimal_dir, minimal_dir, normalize_schema_type,
    skills_dir, system_md_path, SchemaType,
};
use minimal_agent::anthropic::normalize_anthropic_base_url;
use minimal_agent::ui;

#[test]
fn settings_paths() {
    let dir = minimal_dir("/home/u");
    assert_eq!(dir, "/home/u/.minimal");
    assert_eq!(config_path(&dir), "/home/u/.minimal/config.json");
    assert_eq!(system_md_path(&dir), "/home/u/.minimal/system.md");
    assert_eq!(skills_dir(&dir), "/home/u/.minimal/skills");
}

#[test]
fn missing_settings_dir_is_reported() {
    assert!(ensure_minimal_dir(true).is_ok());
    assert_eq!(
        ensure_minimal_dir(false).unwrap_err(),
        "~/.minimal directory not found."
    );
}

#[test]
fn schema_type_names() {
    assert_eq!(normalize_schema_type("openai"), Some(SchemaType::OpenAI));
    assert_eq!(normalize_schema_type("anthropic"), Some(SchemaType::Anthropic));
    assert_eq!(normalize_schema_type("other"), None);
    assert_eq!(normalize_schema_type(""), None);
}

#[test]
fn builtin_base_urls() {
    assert_eq!(
        default_base_url("groq", &SchemaType::OpenAI).as_deref(),
        Some("https://api.groq.com/openai/v1")
    );
    assert_eq!(
        default_base_url("anthropic", &SchemaType::Anthropic).as_deref(),
        Some("https://api.anthropic.com")
    );
    assert_eq!(default_base_url("anthropic", &SchemaType::OpenAI), None);
    assert_eq!(default_base_url("unknown", &SchemaType::Anthropic), None);
}

#[test]
fn base_url_normalization() {
    assert_eq!(normalize_anthropic_base_url("https://api.anthropic.com"), "https://api.anthropic.com");
    assert_eq!(normalize_anthropic_base_url("https://api.anthropic.com/"), "https://api.anthropic.com");
    assert_eq!(normalize_anthropic_base_url("https://api.anthropic.com/v1"), "https://api.anthropic.com");
    assert_eq!(normalize_anthropic_base_url("https://api.anthropic.com/v1//"), "https://api.anthropic.com");
    assert_eq!(normalize_anthropic_base_url("https://x.io/anthropic"), "https://x.io/anthropic");
}

#[test]
fn ansi_colors_wrap_text() {
    assert_eq!(ui::red("x"), "\u{001b}[31mx\u{001b}[0m");
    assert_eq!(ui::green("x"), "\u{001b}[32mx\u{001b}[0m");
    assert_eq!(ui::yellow("x"), "\u{001b}[33mx\u{001b}[0m");
    assert_eq!(ui::magenta("x"), "\u{001b}[35mx\u{001b}[0m");
    assert_eq!(ui::cyan("x"), "\u{001b}[36mx\u{001b}[0m");
    assert_eq!(ui::gray("x"), "\u{001b}[90mx\u{001b}[0m");
    assert_eq!(ui::bold("x"), "\u{001b}[1mx\u{001b}[0m");
}

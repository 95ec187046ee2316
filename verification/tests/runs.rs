use flagseed::config::{run_mode, Args, ConfigError, RunMode};
use flagseed::generate::generate;
use flagseed::idgen::NameSource;
use flagseed::present::render_dataset;

fn args() -> Args {
    Args {
        count: 1000,
        strategies_per_feature: 10,
        environment: "development".to_string(),
        print_to_shell: false,
        unleash_url: "http://localhost:4242".to_string(),
        project_name: "default".to_string(),
        api_key: None,
        markdown: false,
    }
}

#[test]
fn markdown_wins_over_everything() {
    let mut a = args();
    a.markdown = true;
    a.print_to_shell = true;
    a.api_key = Some("key".to_string());
    assert_eq!(run_mode(&a), Ok(RunMode::Markdown));
}

#[test]
fn print_wins_over_upload() {
    let mut a = args();
    a.print_to_shell = true;
    a.api_key = Some("key".to_string());
    assert_eq!(run_mode(&a), Ok(RunMode::Print));
}

#[test]
fn upload_requires_a_token() {
    let mut a = args();
    a.api_key = Some("key".to_string());
    assert_eq!(run_mode(&a), Ok(RunMode::Upload));
    a.api_key = None;
    assert_eq!(run_mode(&a), Err(ConfigError::MissingApiKey));
}

#[test]
fn printed_output_names_every_feature_and_strategy_title() {
    // count=3, strategiesPerFeature=2, print-to-shell
    let mut names = NameSource::new();
    let d = generate(3, 2, &mut names).unwrap();
    let text = render_dataset(&d);
    let mut seen: Vec<&str> = Vec::new();
    for f in &d.features {
        assert!(text.contains(f.name.as_str()));
        assert!(!seen.contains(&f.name.as_str()));
        seen.push(f.name.as_str());
        assert!(text.contains(&format!("strategy_{}_0", f.name)));
        assert!(text.contains(&format!("strategy_{}_1", f.name)));
        assert!(!text.contains(&format!("strategy_{}_2", f.name)));
    }
    assert_eq!(seen.len(), 3);
}

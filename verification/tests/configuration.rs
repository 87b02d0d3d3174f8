use notegraph::config::Config;

#[test]
fn config_holds_input_dir() {
    let c = Config::new("notes".to_string());
    assert_eq!(c.input_dir, "notes");
}

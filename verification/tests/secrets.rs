use pcotool::secrets::{Secrets, SecretsError, Setting};

fn some(text: &str) -> Option<String> {
    Some(text.to_owned())
}

fn read(values: [Option<&str>; 5]) -> Result<Secrets, SecretsError> {
    let [a, b, c, d, e] = values.map(|v| v.map(|t| t.to_owned()));
    Secrets::new(a, b, c, d, e)
}

fn message(values: [Option<&str>; 5]) -> String {
    match read(values) {
        Ok(_) => panic!("the settings are in order"),
        Err(error) => error.message(),
    }
}

#[test]
fn settings_are_taken_over() {
    let secrets = Secrets::new(some("pat"), some("12"), some("+034"), some("app"), some("key"));
    let secrets = match secrets {
        Ok(secrets) => secrets,
        Err(_) => panic!("the settings are in order"),
    };
    assert_eq!(secrets.asana_pat, "pat");
    assert_eq!(secrets.asana_workspace_gid, 12);
    assert_eq!(secrets.asana_project_gid, 34);
    assert_eq!(secrets.pco_app_id, "app");
    assert_eq!(secrets.pco_secret, "key");
}

#[test]
fn empty_texts_are_settings() {
    assert!(read([Some(""), Some("0"), Some("0"), Some(""), Some("")]).is_ok());
}

#[test]
fn missing_settings_are_named() {
    let full = [Some("a"), Some("1"), Some("2"), Some("b"), Some("c")];
    let names =
        ["ASANA_PAT", "ASANA_WORKSPACE_GID", "ASANA_PROJECT_GID", "PCO_APP_ID", "PCO_SECRET"];
    for i in 0..5 {
        let mut values = full;
        values[i] = None;
        assert_eq!(message(values), format!("{} is not set", names[i]));
    }
}

#[test]
fn settings_that_are_no_numbers_are_named() {
    assert_eq!(
        message([Some("a"), Some("x"), Some("2"), Some("b"), Some("c")]),
        "ASANA_WORKSPACE_GID cannot be parsed as a number"
    );
    assert_eq!(
        message([Some("a"), Some("1"), Some("-2"), Some("b"), Some("c")]),
        "ASANA_PROJECT_GID cannot be parsed as a number"
    );
    assert_eq!(
        message([Some("a"), Some("18446744073709551616"), Some("2"), Some("b"), Some("c")]),
        "ASANA_WORKSPACE_GID cannot be parsed as a number"
    );
}

#[test]
fn first_fault_is_reported() {
    assert_eq!(message([None, None, Some("x"), None, None]), "ASANA_PAT is not set");
    assert_eq!(
        message([Some("a"), Some(""), None, None, None]),
        "ASANA_WORKSPACE_GID cannot be parsed as a number"
    );
    assert_eq!(
        message([Some("a"), Some("1"), Some("x"), None, None]),
        "ASANA_PROJECT_GID cannot be parsed as a number"
    );
    assert!(matches!(
        read([Some("a"), Some("1"), Some("2"), None, None]),
        Err(SecretsError::NotSet(Setting::PcoAppId))
    ));
}

#[test]
fn settings_have_variables() {
    assert_eq!(Setting::AsanaPat.variable(), "ASANA_PAT");
    assert_eq!(Setting::AsanaWorkspaceGid.variable(), "ASANA_WORKSPACE_GID");
    assert_eq!(Setting::AsanaProjectGid.variable(), "ASANA_PROJECT_GID");
    assert_eq!(Setting::PcoAppId.variable(), "PCO_APP_ID");
    assert_eq!(Setting::PcoSecret.variable(), "PCO_SECRET");
}

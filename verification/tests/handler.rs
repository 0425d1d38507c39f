use nexo_poller_gmail::config::GoogleAccountCreds;
use nexo_poller_gmail::errors::PollerError;
use nexo_poller_gmail::handler::{ClientStep, GmailHandler};

fn creds(account: &str) -> GoogleAccountCreds {
    GoogleAccountCreds {
        account_id: account.to_string(),
        client_id_path: "/s/id".to_string(),
        client_secret_path: "/s/secret".to_string(),
        token_path: "/t/token.json".to_string(),
        scopes: vec!["mail".to_string(), "labels".to_string()],
    }
}

#[test]
fn an_unknown_account_starts_with_its_client_id() {
    for handler in [GmailHandler::new(), GmailHandler::default()] {
        match handler.begin_client(&creds("a")) {
            ClientStep::ReadClientId(path) => assert_eq!(path, "/s/id"),
            other => panic!("{other:?}"),
        }
    }
}

#[test]
fn the_client_secret_follows_the_client_id() {
    match GmailHandler::client_id_read(&creds("a"), true) {
        ClientStep::ReadClientSecret(path) => assert_eq!(path, "/s/secret"),
        other => panic!("{other:?}"),
    }
    match GmailHandler::client_id_read(&creds("a"), false) {
        ClientStep::Fail(PollerError::Transient(line)) => assert_eq!(line, "read client_id_path"),
        other => panic!("{other:?}"),
    }
}

#[test]
fn a_client_is_made_with_trimmed_secrets() {
    let secret = Some(" secret\r\n".to_string());
    match GmailHandler::client_secret_read(&creds("a"), "id\n", &secret) {
        ClientStep::Open(setup) => {
            assert_eq!(setup.client_id, "id");
            assert_eq!(setup.client_secret, "secret");
            assert_eq!(setup.scopes, vec!["mail".to_string(), "labels".to_string()]);
            assert_eq!(setup.token_file, "/t/token.json");
            assert_eq!(setup.redirect_port, 0);
            assert_eq!(setup.workspace, "/t");
            assert_eq!(setup.client_id_path, "/s/id");
            assert_eq!(setup.client_secret_path, "/s/secret");
        }
        other => panic!("{other:?}"),
    }
}

#[test]
fn the_workspace_is_the_directory_of_the_token_file() {
    let secret = Some("s".to_string());
    let mut cred = creds("a");
    cred.token_path = String::new();
    match GmailHandler::client_secret_read(&cred, "id", &secret) {
        ClientStep::Open(setup) => assert_eq!(setup.workspace, "."),
        other => panic!("{other:?}"),
    }
    cred.token_path = "token.json".to_string();
    match GmailHandler::client_secret_read(&cred, "id", &secret) {
        ClientStep::Open(setup) => assert_eq!(setup.workspace, ""),
        other => panic!("{other:?}"),
    }
    cred.token_path = "/etc/x/token.json".to_string();
    match GmailHandler::client_secret_read(&cred, "id", &secret) {
        ClientStep::Open(setup) => assert_eq!(setup.workspace, "/etc/x"),
        other => panic!("{other:?}"),
    }
    match GmailHandler::client_secret_read_in(&creds("a"), "id", &secret, None) {
        ClientStep::Open(setup) => assert_eq!(setup.workspace, "."),
        other => panic!("{other:?}"),
    }
    match GmailHandler::client_secret_read_in(&creds("a"), "id", &secret, Some("d".to_string())) {
        ClientStep::Open(setup) => assert_eq!(setup.workspace, "d"),
        other => panic!("{other:?}"),
    }
}

#[test]
fn a_client_secret_that_cannot_be_read_is_reported() {
    match GmailHandler::client_secret_read(&creds("a"), "id", &None) {
        ClientStep::Fail(PollerError::Transient(line)) => {
            assert_eq!(line, "read client_secret_path")
        }
        other => panic!("{other:?}"),
    }
}

#[test]
fn an_opened_client_is_used_from_then_on() {
    let mut handler = GmailHandler::new();
    assert!(matches!(handler.client_opened(&creds("a"), Some(3)), ClientStep::Use(3)));
    assert!(matches!(handler.begin_client(&creds("a")), ClientStep::Use(3)));
    assert!(matches!(handler.begin_client(&creds("b")), ClientStep::ReadClientId(_)));
    assert!(matches!(handler.client_opened(&creds("b"), Some(4)), ClientStep::Use(4)));
    assert!(matches!(handler.client_opened(&creds("a"), Some(5)), ClientStep::Use(5)));
    assert!(matches!(handler.begin_client(&creds("a")), ClientStep::Use(5)));
    assert!(matches!(handler.begin_client(&creds("b")), ClientStep::Use(4)));
}

#[test]
fn a_client_that_cannot_be_opened_leaves_nothing_behind() {
    let mut handler = GmailHandler::new();
    match handler.client_opened(&creds("a"), None) {
        ClientStep::Fail(PollerError::Permanent(line)) => {
            assert_eq!(line, "gmail: load_from_disk")
        }
        other => panic!("{other:?}"),
    }
    assert!(matches!(handler.begin_client(&creds("a")), ClientStep::ReadClientId(_)));
}

use secrets_cli::config::EnvFile;
use secrets_cli::crypto::Encryption;
use secrets_cli::error::CliError;
use secrets_cli::secret::AWSSecret;
use secrets_cli::sync::{
    bump, load_remote, next_step, reconcile, remote_document, remote_text, required_ids, reset,
    select_field, select_secret, sync, Step, SyncAction, SyncOutcome,
};
use std::path::PathBuf;

const PASSWORD: &str = "secret";

fn cipher() -> Encryption {
    Encryption::new(PASSWORD.to_string())
}

fn local(content: &str) -> EnvFile {
    EnvFile::new_local(PathBuf::from("local.env"), Some(content.to_string())).unwrap()
}

fn bare(content: &str, version: Option<u32>) -> EnvFile {
    EnvFile {
        filepath: None,
        content: content.to_string(),
        version,
        secret_id: None,
        field_id: None,
    }
}

fn secret_holding(field: &str, plain: &str) -> AWSSecret {
    let mut secret = AWSSecret::empty();
    let sealed = cipher().encrypt(plain.to_string()).unwrap();
    secret.put_field(field.to_string(), sealed).unwrap();
    secret.put_field("untouched".to_string(), "other-ciphertext".to_string()).unwrap();
    secret
}

fn headed(version: u32, body: &str) -> String {
    format!(
        "#do-not-edit--secrets-version {}\n#do-not-edit--secrets-id prod/app\n#do-not-edit--secrets-field-id env\n{}",
        version, body
    )
}

#[test]
fn reconcile_follows_the_table() {
    let versions = [None, Some(0), Some(1), Some(2), Some(5), Some(u32::MAX)];
    for lv in versions {
        for rv in versions {
            for same in [true, false] {
                let l = bare("text", lv);
                let r = bare(if same { "text" } else { "other" }, rv);
                let (a, b) = (lv.unwrap_or(0), rv.unwrap_or(0));
                let expected = if a < b {
                    SyncAction::Pull
                } else if a > b {
                    SyncAction::Push
                } else if !same {
                    SyncAction::Conflict
                } else {
                    SyncAction::UpToDate
                };
                assert_eq!(reconcile(&l, &r), expected, "{:?} {:?} {}", lv, rv, same);
            }
        }
    }
}

#[test]
fn reconcile_counts_a_missing_version_as_zero() {
    assert_eq!(reconcile(&bare("a", None), &bare("a", Some(0))), SyncAction::UpToDate);
    assert_eq!(reconcile(&bare("a", None), &bare("b", None)), SyncAction::Conflict);
    assert_eq!(reconcile(&bare("a", None), &bare("a", Some(1))), SyncAction::Pull);
    assert_eq!(reconcile(&bare("a", Some(1)), &bare("a", None)), SyncAction::Push);
}

#[test]
fn local_two_remote_five_is_a_pull() {
    let doc = local(&headed(2, "KEY=old"));
    let remote_text = headed(5, "KEY=new\nMORE=1");
    let mut secret = secret_holding("env", &remote_text);
    let before = secret.to_string().unwrap();
    let path = PathBuf::from("target.env");
    match sync(&doc, &mut secret, &cipher(), path.clone()).unwrap() {
        SyncOutcome::Pulled(pulled) => {
            assert_eq!(pulled.version, Some(5));
            assert_eq!(pulled.content, remote_text);
            assert_eq!(pulled.filepath, Some(path));
            assert_eq!(pulled.secret_id.as_deref(), Some("prod/app"));
            assert_eq!(pulled.field_id.as_deref(), Some("env"));
            let on_disk = EnvFile::new_remote(pulled.content.clone()).unwrap();
            assert_eq!(on_disk.version, Some(5));
        }
        other => panic!("expected a pull, got {:?}", other),
    }
    assert_eq!(AWSSecret::new(before).unwrap().load_field("env".to_string()).unwrap(), secret.load_field("env".to_string()).unwrap());
}

#[test]
fn a_pull_leaves_nothing_of_the_local_text() {
    let doc = local(&headed(2, "LOCAL_ONLY=1\nSHARED=old"));
    let mut secret = secret_holding("env", &headed(5, "SHARED=new\nREMOTE_ONLY=1"));
    match sync(&doc, &mut secret, &cipher(), PathBuf::from("t.env")).unwrap() {
        SyncOutcome::Pulled(pulled) => {
            let lines: Vec<&str> = pulled.content.lines().collect();
            assert_eq!(lines[3..], ["SHARED=new", "REMOTE_ONLY=1"]);
            assert!(!pulled.content.contains("LOCAL_ONLY"));
            assert_eq!(pulled.version, Some(5));
        }
        other => panic!("expected a pull, got {:?}", other),
    }
}

#[test]
fn a_pull_gives_the_remote_text_the_local_references() {
    let doc = local(&headed(1, "KEY=old"));
    let mut secret = secret_holding("env", "#do-not-edit--secrets-version 3\nKEY=new");
    match sync(&doc, &mut secret, &cipher(), PathBuf::from("t.env")).unwrap() {
        SyncOutcome::Pulled(pulled) => {
            assert_eq!(
                pulled.content,
                "#do-not-edit--secrets-id prod/app\n#do-not-edit--secrets-field-id env\n#do-not-edit--secrets-version 3\nKEY=new"
            );
            assert_eq!(pulled.version, Some(3));
        }
        other => panic!("expected a pull, got {:?}", other),
    }
}

#[test]
fn local_five_remote_two_is_a_push() {
    let local_text = headed(5, "KEY=new");
    let doc = local(&local_text);
    let mut secret = secret_holding("env", &headed(2, "KEY=old"));
    match sync(&doc, &mut secret, &cipher(), PathBuf::from("t.env")).unwrap() {
        SyncOutcome::Pushed { secret_id, payload } => {
            assert_eq!(secret_id, "prod/app");
            let sealed = cipher().encrypt(local_text.clone()).unwrap();
            assert_eq!(secret.load_field("env".to_string()).unwrap(), sealed);
            assert_eq!(secret.load_field("untouched".to_string()).unwrap(), "other-ciphertext");
            let stored = AWSSecret::new(payload).unwrap();
            assert_eq!(stored.load_field("env".to_string()).unwrap(), sealed);
            assert_eq!(stored.load_field("untouched".to_string()).unwrap(), "other-ciphertext");
            assert_eq!(cipher().decrypt(stored.load_field("env".to_string()).unwrap()).unwrap(), local_text);
        }
        other => panic!("expected a push, got {:?}", other),
    }
}

#[test]
fn equal_versions_and_texts_are_up_to_date() {
    let text = headed(3, "KEY=same");
    let doc = local(&text);
    let mut secret = secret_holding("env", &text);
    let before = secret.to_string().unwrap();
    match sync(&doc, &mut secret, &cipher(), PathBuf::from("t.env")).unwrap() {
        SyncOutcome::UpToDate => {}
        other => panic!("expected up to date, got {:?}", other),
    }
    assert_eq!(secret.load_field("env".to_string()).unwrap(), AWSSecret::new(before).unwrap().load_field("env".to_string()).unwrap());
}

#[test]
fn equal_versions_and_different_texts_are_a_conflict() {
    let doc = local(&headed(3, "KEY=mine"));
    let mut secret = secret_holding("env", &headed(3, "KEY=theirs"));
    let sealed_before = secret.load_field("env".to_string()).unwrap();
    match sync(&doc, &mut secret, &cipher(), PathBuf::from("t.env")).unwrap() {
        SyncOutcome::Conflict => {}
        other => panic!("expected a conflict, got {:?}", other),
    }
    assert_eq!(secret.load_field("env".to_string()).unwrap(), sealed_before);
    assert_eq!(doc.content, headed(3, "KEY=mine"));
}

#[test]
fn an_empty_remote_field_counts_as_version_zero() {
    let doc = local(&headed(1, "KEY=v"));
    let mut secret = AWSSecret::empty();
    secret.put_field("env".to_string(), String::new()).unwrap();
    match sync(&doc, &mut secret, &cipher(), PathBuf::from("t.env")).unwrap() {
        SyncOutcome::Pushed { .. } => {}
        other => panic!("expected a push, got {:?}", other),
    }
    assert_eq!(cipher().decrypt(secret.load_field("env".to_string()).unwrap()).unwrap(), headed(1, "KEY=v"));
}

#[test]
fn sync_needs_both_references() {
    let mut secret = secret_holding("env", "K=v");
    let no_secret = local("#do-not-edit--secrets-field-id env\nK=v");
    match sync(&no_secret, &mut secret, &cipher(), PathBuf::from("t.env")) {
        Err(CliError::InvalidEnvFileError(m)) => assert_eq!(m, "The secret file does not contain a secret ID."),
        other => panic!("unexpected {:?}", other),
    }
    let no_field = local("#do-not-edit--secrets-id prod/app\nK=v");
    match sync(&no_field, &mut secret, &cipher(), PathBuf::from("t.env")) {
        Err(CliError::InvalidEnvFileError(m)) => assert_eq!(m, "The secret file does not contain a field ID."),
        other => panic!("unexpected {:?}", other),
    }
}

#[test]
fn sync_stops_on_a_missing_field_a_bad_ciphertext_or_a_bad_header() {
    let doc = local(&headed(1, "K=v"));
    let mut secret = secret_holding("elsewhere", "K=v");
    match sync(&doc, &mut secret, &cipher(), PathBuf::from("t.env")) {
        Err(CliError::AwsSecretsFormatError(m)) => assert_eq!(m, "Field 'env' not found"),
        other => panic!("unexpected {:?}", other),
    }
    let mut garbled = AWSSecret::empty();
    garbled.put_field("env".to_string(), "not a ciphertext".to_string()).unwrap();
    match sync(&doc, &mut garbled, &cipher(), PathBuf::from("t.env")) {
        Err(CliError::DecryptionError(_)) => {}
        other => panic!("unexpected {:?}", other),
    }
    assert_eq!(garbled.load_field("env".to_string()).unwrap(), "not a ciphertext");
    let mut malformed = secret_holding("env", "#do-not-edit--secrets-version x\nK=v");
    match sync(&doc, &mut malformed, &cipher(), PathBuf::from("t.env")) {
        Err(CliError::InvalidEnvFileError(m)) => assert_eq!(m, "Invalid version in header"),
        other => panic!("unexpected {:?}", other),
    }
}

#[test]
fn required_ids_reports_the_secret_id_first() {
    let both = local(&headed(1, "K=v"));
    assert_eq!(required_ids(&both).unwrap(), ("prod/app".to_string(), "env".to_string()));
    match required_ids(&bare("K=v", Some(1))) {
        Err(CliError::InvalidEnvFileError(m)) => assert_eq!(m, "The secret file does not contain a secret ID."),
        other => panic!("unexpected {:?}", other),
    }
    let mut only_secret = bare("K=v", None);
    only_secret.secret_id = Some("s".to_string());
    match required_ids(&only_secret) {
        Err(CliError::InvalidEnvFileError(m)) => assert_eq!(m, "The secret file does not contain a field ID."),
        other => panic!("unexpected {:?}", other),
    }
}

#[test]
fn remote_text_decrypts_the_field() {
    let secret = secret_holding("env", "KEY=value");
    assert_eq!(remote_text(&secret, &cipher(), "env".to_string()).unwrap(), "KEY=value");
    match remote_text(&secret, &cipher(), "none".to_string()) {
        Err(CliError::AwsSecretsFormatError(m)) => assert_eq!(m, "Field 'none' not found"),
        other => panic!("unexpected {:?}", other),
    }
    match remote_text(&secret, &cipher(), "untouched".to_string()) {
        Err(CliError::DecryptionError(_)) => {}
        other => panic!("unexpected {:?}", other),
    }
}

#[test]
fn remote_document_keeps_its_own_references() {
    let doc = remote_document("#do-not-edit--secrets-id own\nK=v".to_string(), "given".to_string(), "field".to_string()).unwrap();
    assert_eq!(doc.secret_id.as_deref(), Some("own"));
    assert_eq!(doc.field_id.as_deref(), Some("field"));
    assert_eq!(doc.version, None);
    assert_eq!(doc.filepath, None);
    assert_eq!(doc.content, "#do-not-edit--secrets-id own\nK=v");
    match remote_document("#do-not-edit--secrets-field-id".to_string(), "s".to_string(), "f".to_string()) {
        Err(CliError::InvalidEnvFileError(m)) => assert_eq!(m, "Invalid field_id in header"),
        other => panic!("unexpected {:?}", other),
    }
}

#[test]
fn load_remote_puts_the_steps_together() {
    let doc = local(&headed(1, "K=v"));
    let secret = secret_holding("env", "#do-not-edit--secrets-version 4\nK=w");
    let remote = load_remote(&doc, &secret, &cipher()).unwrap();
    assert_eq!(remote.version, Some(4));
    assert_eq!(remote.secret_id.as_deref(), Some("prod/app"));
    assert_eq!(remote.field_id.as_deref(), Some("env"));
    assert_eq!(remote.content, "#do-not-edit--secrets-version 4\nK=w");
}

#[test]
fn reset_takes_the_remote_text_whatever_the_versions() {
    let doc = local(&headed(9, "KEY=mine"));
    let secret = secret_holding("env", &headed(2, "KEY=theirs"));
    let path = PathBuf::from("local.env");
    let out = reset(&doc, &secret, &cipher(), path.clone()).unwrap();
    assert_eq!(out.content, headed(2, "KEY=theirs"));
    assert_eq!(out.version, Some(2));
    assert_eq!(out.filepath, Some(path));
}

#[test]
fn reset_gives_an_unversioned_remote_text_version_one() {
    let doc = local("#do-not-edit--secrets-id prod/app\n#do-not-edit--secrets-field-id env");
    let secret = secret_holding("env", "KEY=theirs");
    let out = reset(&doc, &secret, &cipher(), PathBuf::from("local.env")).unwrap();
    assert_eq!(out.version, Some(1));
    assert_eq!(
        out.content,
        "#do-not-edit--secrets-version 1\n#do-not-edit--secrets-id prod/app\n#do-not-edit--secrets-field-id env\nKEY=theirs"
    );
}

#[test]
fn reset_stops_where_the_field_cannot_be_read() {
    let doc = local(&headed(1, "K=v"));
    match reset(&doc, &AWSSecret::empty(), &cipher(), PathBuf::from("local.env")) {
        Err(CliError::AwsSecretsFormatError(m)) => assert_eq!(m, "Field 'env' not found"),
        other => panic!("unexpected {:?}", other),
    }
}

#[test]
fn bump_raises_the_version_and_writes_it() {
    let mut doc = local(&headed(3, "KEY=v"));
    assert_eq!(bump(&mut doc).unwrap(), 4);
    assert_eq!(doc.version, Some(4));
    assert_eq!(doc.content, headed(4, "KEY=v"));
}

#[test]
fn bump_starts_from_zero_without_a_version() {
    let mut doc = local("#do-not-edit--secrets-id s\nKEY=v");
    assert_eq!(bump(&mut doc).unwrap(), 1);
    assert_eq!(doc.version, Some(1));
    assert_eq!(doc.content, "#do-not-edit--secrets-version 1\n#do-not-edit--secrets-id s\nKEY=v");
}

#[test]
fn bump_without_a_secret_id_fails_after_raising() {
    let mut doc = local("#do-not-edit--secrets-version 7\nKEY=v");
    match bump(&mut doc) {
        Err(CliError::InvalidEnvFileError(m)) => assert_eq!(m, "Secret ID is not set"),
        other => panic!("unexpected {:?}", other),
    }
    assert_eq!(doc.version, Some(8));
    assert_eq!(doc.content, "#do-not-edit--secrets-version 7\nKEY=v");
}

#[test]
fn bump_then_sync_pushes() {
    let text = headed(3, "KEY=same");
    let mut doc = local(&text);
    let mut secret = secret_holding("env", &text);
    bump(&mut doc).unwrap();
    match sync(&doc, &mut secret, &cipher(), PathBuf::from("local.env")).unwrap() {
        SyncOutcome::Pushed { .. } => {}
        other => panic!("expected a push, got {:?}", other),
    }
    assert_eq!(cipher().decrypt(secret.load_field("env".to_string()).unwrap()).unwrap(), headed(4, "KEY=same"));
}

#[test]
fn next_step_asks_for_what_is_missing_in_order() {
    let secret = secret_holding("env", "K=v");
    let mut doc = bare("K=v", None);
    assert!(matches!(next_step(&doc, None), Step::ChooseSecret));
    assert!(matches!(next_step(&doc, Some(&secret)), Step::ChooseSecret));
    doc.secret_id = Some("prod/app".to_string());
    match next_step(&doc, None) {
        Step::FetchSecret(id) => assert_eq!(id, "prod/app"),
        other => panic!("unexpected {:?}", other),
    }
    match next_step(&doc, Some(&secret)) {
        Step::ChooseField(mut names) => {
            names.sort();
            assert_eq!(names, vec!["env", "untouched"]);
        }
        other => panic!("unexpected {:?}", other),
    }
    doc.field_id = Some("env".to_string());
    assert!(matches!(next_step(&doc, Some(&secret)), Step::Ready));
    match next_step(&doc, None) {
        Step::FetchSecret(id) => assert_eq!(id, "prod/app"),
        other => panic!("unexpected {:?}", other),
    }
}

#[test]
fn select_sets_the_chosen_name() {
    let names = vec!["a".to_string(), "b".to_string(), "c".to_string()];
    let mut doc = bare("K=v", Some(2));
    select_secret(&mut doc, &names, 1);
    assert_eq!(doc.secret_id.as_deref(), Some("b"));
    assert_eq!(doc.field_id, None);
    select_field(&mut doc, &names, 2);
    assert_eq!(doc.field_id.as_deref(), Some("c"));
    assert_eq!(doc.secret_id.as_deref(), Some("b"));
    assert_eq!(doc.version, Some(2));
    assert_eq!(doc.content, "K=v");
}

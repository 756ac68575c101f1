use quotamiser::error::LedgerError;
use quotamiser::schema::{
    reject_network_path, verify_separation, verify_settings, StorageSettings,
};

#[test]
fn network_paths_are_refused() {
    assert!(reject_network_path(r"\\server\share\ledger.db").is_err());
    assert!(reject_network_path(r"\\?\UNC\server\share\ledger.db").is_err());
    assert!(reject_network_path(r"\\?\C:\data\ledger.db").is_ok());
    assert!(reject_network_path(r"C:\data\ledger.db").is_ok());
}

#[test]
fn an_external_record_on_the_ledger_volume_is_refused() {
    assert!(matches!(
        verify_separation(false, Some("C:"), Some("C:")),
        Err(LedgerError::StorageContract(_))
    ));
    assert_eq!(verify_separation(false, Some("C:"), Some("D:")), Ok(()));
    assert_eq!(verify_separation(true, Some("C:"), Some("C:")), Ok(()));
    assert!(matches!(
        verify_separation(false, None, Some("D:")),
        Err(LedgerError::StorageContract(_))
    ));
}

fn settings() -> StorageSettings {
    StorageSettings {
        version_number: 3_046_001,
        version: "3.46.1".into(),
        journal_mode: "WAL".into(),
        synchronous: 2,
        foreign_keys: 1,
    }
}

fn fault(settings: StorageSettings) -> String {
    match verify_settings(&settings) {
        Err(LedgerError::StorageContract(text)) => text,
        other => panic!("expected a fault, got {other:?}"),
    }
}

#[test]
fn settings_that_did_not_take_effect_are_fatal() {
    assert_eq!(verify_settings(&settings()), Ok(()));
    assert_eq!(
        fault(StorageSettings {
            version_number: 3_036_000,
            version: "3.36.0".into(),
            ..settings()
        }),
        "SQLite 3.36.0 is older than 3.37.0, which STRICT tables require"
    );
    assert_eq!(
        fault(StorageSettings {
            journal_mode: "delete".into(),
            ..settings()
        }),
        "journal_mode is delete, not wal"
    );
    assert_eq!(
        fault(StorageSettings {
            synchronous: 1,
            ..settings()
        }),
        "synchronous is 1, not FULL"
    );
    assert_eq!(
        fault(StorageSettings {
            foreign_keys: 0,
            ..settings()
        }),
        "foreign_keys could not be enabled"
    );
}

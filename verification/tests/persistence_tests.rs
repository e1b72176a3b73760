use ferrite::persistence::{APP_NAME, CONFIG_BACKUP_NAME, CONFIG_FILE_NAME, PORTABLE_DIR_NAME};

#[test]
fn test_app_name_constant() {
    assert_eq!(APP_NAME, "ferrite");
}

#[test]
fn test_config_file_name_constant() {
    assert_eq!(CONFIG_FILE_NAME, "config.json");
}

#[test]
fn test_backup_and_portable_names() {
    assert_eq!(CONFIG_BACKUP_NAME, "config.json.bak");
    assert!(CONFIG_BACKUP_NAME.starts_with(CONFIG_FILE_NAME));
    assert_eq!(PORTABLE_DIR_NAME, "portable");
}

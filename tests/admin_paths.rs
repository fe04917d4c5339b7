use publar::admin::{
    entry_path, storage_endpoint, user_endpoint, user_path, AdminError, StorageCommand,
    UserCommand,
};

#[test]
fn user_paths() {
    let d = UserCommand::Disable { pubky: "x".to_string() };
    let e = UserCommand::Enable { pubky: "x".to_string() };
    assert_eq!(user_path("K", &d), "users/K/disable");
    assert_eq!(user_path("K", &e), "users/K/enable");
}

#[test]
fn entry_paths_must_lie_under_pub() {
    assert_eq!(entry_path("K", "/pub/app/a.txt"), Ok("webdav/K/pub/app/a.txt".to_string()));
    assert_eq!(entry_path("K", "pub/app/a.txt"), Ok("webdav/K/pub/app/a.txt".to_string()));
    assert_eq!(entry_path("K", "/private/a"), Err(AdminError::PathOutsidePub));
    assert_eq!(entry_path("K", "/pub"), Err(AdminError::PathOutsidePub));
}

#[test]
fn commands_with_bad_keys_are_refused() {
    let d = UserCommand::Disable { pubky: "not a key".to_string() };
    assert_eq!(user_endpoint(&d), Err(AdminError::InvalidPublicKey));
    let s = StorageCommand::Delete { pubky: "bad".to_string(), path: "/pub/x".to_string() };
    assert_eq!(storage_endpoint(&s), Err(AdminError::InvalidPublicKey));
}

#[test]
fn commands_with_good_keys_render_the_key() {
    let key = pubky::Keypair::random().public_key();
    let z32 = key.z32();
    let shown = key.to_string();
    assert_ne!(shown, z32);
    let d = UserCommand::Disable { pubky: z32.clone() };
    assert_eq!(user_endpoint(&d), Ok(format!("users/{}/disable", shown)));
    let s = StorageCommand::Delete { pubky: z32.clone(), path: "pub/f".to_string() };
    assert_eq!(storage_endpoint(&s), Ok(format!("webdav/{}/pub/f", shown)));
    let s = StorageCommand::Delete { pubky: z32, path: "/etc".to_string() };
    assert_eq!(storage_endpoint(&s), Err(AdminError::PathOutsidePub));
}

use russtly::mtp::{
    device_error_message, device_label, find_folder, first_writable, folder_components,
    pick_storage, storage_display, storage_label, summarize_device_sync, BrowserState,
    MtpItemInfo, StorageKind,
};

fn it(handle: u32, name: &str, is_folder: bool) -> MtpItemInfo {
    MtpItemInfo { handle, name: name.to_string(), is_folder }
}

#[test]
fn storage_labels() {
    assert_eq!(storage_label(StorageKind::RemovableRam), "SD card");
    assert_eq!(storage_label(StorageKind::RemovableRom), "SD card");
    assert_eq!(storage_label(StorageKind::FixedRam), "Internal");
    assert_eq!(storage_label(StorageKind::FixedRom), "ROM (read-only)");
    assert_eq!(storage_label(StorageKind::Other), "Other");
    let d = storage_display(1, "Card", 10, 20, StorageKind::RemovableRam);
    assert_eq!((d.index, d.description.as_str(), d.free_space, d.total_capacity, d.label.as_str()), (1, "Card", 10, 20, "SD card"));
}

#[test]
fn storage_choice() {
    assert_eq!(first_writable(&[0, 0, 5, 7]), Some(2));
    assert_eq!(first_writable(&[0, 0]), None);
    assert_eq!(pick_storage(&[0, 3]), Ok(1));
    assert_eq!(pick_storage(&[0, 0]), Ok(0));
    assert_eq!(pick_storage(&[]), Err("No storages found on device".to_string()));
}

#[test]
fn folder_components_examples() {
    assert_eq!(folder_components("Music/Podcasts"), vec!["Music", "Podcasts"]);
    assert_eq!(folder_components("/a//b?/"), vec!["a", "b_"]);
    assert!(folder_components("").is_empty());
    assert!(folder_components("///").is_empty());
}

#[test]
fn find_folder_examples() {
    let items = vec![it(1, "Music", false), it(2, "Music", true), it(3, "Music", true)];
    assert_eq!(find_folder(&items, "Music"), Some(2));
    assert_eq!(find_folder(&items, "Other"), None);
}

#[test]
fn device_labels_and_errors() {
    assert_eq!(device_label(&Some("Pixel".to_string()), &Some("Google".to_string())), "Pixel");
    assert_eq!(device_label(&None, &Some("Google".to_string())), "Google");
    assert_eq!(device_label(&None, &None), "MTP device");
    assert!(device_error_message(true, true, "x").starts_with("Device is in use by another app"));
    assert!(device_error_message(false, true, "x").starts_with("Permission denied."));
    assert_eq!(device_error_message(false, false, "timeout"), "timeout");
}

#[test]
fn device_sync_summary() {
    let labels = vec!["A".to_string(), "B".to_string()];
    assert_eq!(summarize_device_sync(&[], &[]), Err("No MTP devices found".to_string()));
    assert_eq!(
        summarize_device_sync(&labels, &[Ok("f".to_string()), Err("e".to_string())]),
        Ok(1)
    );
    assert_eq!(
        summarize_device_sync(&labels, &[Err("busy".to_string()), Err("gone".to_string())]),
        Err("A: busy; B: gone".to_string())
    );
}

#[test]
fn browser_navigation() {
    let mut b = BrowserState::new(2, 0, vec![it(7, "Music", true), it(8, "song.mp3", false)]);
    assert_eq!(b.current_handle(), None);
    assert_eq!(b.current_path(), "");
    assert_eq!(b.begin_enter("song.mp3"), None);
    assert_eq!(b.error, "folder 'song.mp3' not found");
    let h = b.begin_enter("Music").unwrap();
    assert_eq!(h, 7);
    assert_eq!(b.error, "");
    b.enter_done("Music", h, Ok(vec![it(9, "Podcasts", true)]));
    assert_eq!(b.current_path(), "Music");
    let h2 = b.begin_enter("Podcasts").unwrap();
    b.enter_done("Podcasts", h2, Ok(vec![]));
    assert_eq!(b.current_path(), "Music/Podcasts");
    assert_eq!(b.current_handle(), Some(9));
    assert_eq!(b.begin_up(), Some(Some(7)));
    b.listing_done(Err("io".to_string()));
    assert_eq!(b.error, "io");
    assert_eq!(b.current_path(), "Music");
    assert!(!b.select_storage(0));
    assert!(!b.select_storage(5));
    assert!(b.select_storage(1));
    assert_eq!(b.current_path(), "");
    assert_eq!(b.begin_up(), None);
    assert_eq!(b.begin_refresh(), None);
    b.go_root();
    assert_eq!(b.current_handle(), None);
}

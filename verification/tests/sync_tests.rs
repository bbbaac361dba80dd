use russtly::paths::path_join;
use russtly::sync::{episode_file_name, episode_file_name_for, sanitize_filename, sync_destination};
use std::path::{Path, PathBuf};

#[test]
fn sanitize_filename_examples() {
    assert_eq!(sanitize_filename("a/b\\c:d"), "a_b_c_d");
    assert_eq!(sanitize_filename(" -ok_name.mp3 "), "-ok_name.mp3");
    assert_eq!(sanitize_filename("tab\there"), "tab_here");
}

#[test]
fn path_join_matches_std() {
    for (b, p) in [("a", "b"), ("a/", "b"), ("", "b"), ("a", "/abs"), ("/x/y", "z/w"), ("a", ""), ("", "")] {
        let expect = PathBuf::from(b).join(p).to_string_lossy().to_string();
        assert_eq!(path_join(b, p), expect, "{:?} {:?}", b, p);
    }
}

#[test]
fn episode_file_names() {
    assert_eq!(episode_file_name("Ep: 1", &Some("ogg".to_string())), "Ep_ 1.ogg");
    assert_eq!(episode_file_name("Ep: 1", &None), "Ep_ 1.mp3");
    assert_eq!(episode_file_name_for("/dl/show/file.m4a", "Ep 2"), "Ep 2.m4a");
    assert_eq!(episode_file_name_for("/dl/show/noext", "Ep 2"), "Ep 2.mp3");
    assert_eq!(episode_file_name_for("/dl/show/.hidden", "Ep 2"), "Ep 2.mp3");
    assert_eq!(
        episode_file_name_for("/dl/a.b/c.tar.gz", "x"),
        format!("x.{}", Path::new("/dl/a.b/c.tar.gz").extension().unwrap().to_str().unwrap())
    );
}

#[test]
fn sync_destination_example() {
    let (dir, dest) = sync_destination("/media/usb", "My/Show", "/dl/My_Show/ep.mp3", "Ep? 3");
    assert_eq!(dir, "/media/usb/My_Show");
    assert_eq!(dest, "/media/usb/My_Show/Ep_ 3.mp3");
}

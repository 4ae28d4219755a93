use copify::models::{CopifySettings, MoverSettings};
use copify::paths::{
    absolute_path_from_base, backup_path_for, find_relative_path, imported_destination,
    plan_moves, relocate_decision, remove_all_sub,
};
use copify::progress_events::{make_progress, on_error, on_skip, on_success, progress_percent};
use copify::text::{
    contains_sub, decode_xml_value, get_last_segment, is_backup_folder, sanitize_for_xml,
    should_run,
};
use copify::Error;

#[test]
fn last_segment_of_nested_path() {
    assert_eq!(get_last_segment("a/b/c.wav"), "c.wav");
}

#[test]
fn last_segment_of_bare_name() {
    assert_eq!(get_last_segment("kick.wav"), "kick.wav");
}

#[test]
fn last_segment_of_trailing_slash_is_empty() {
    assert_eq!(get_last_segment("a/b/"), "");
}

#[test]
fn backup_folder_detected() {
    assert!(is_backup_folder("proj/Backup/song.als"));
    assert!(is_backup_folder("Backup/song.als"));
}

#[test]
fn non_backup_folder_rejected() {
    assert!(!is_backup_folder("proj/Live/song.als"));
    assert!(!is_backup_folder("song.als"));
    assert!(!is_backup_folder("/song.als"));
}

#[test]
fn sanitize_expands_ampersands() {
    assert_eq!(sanitize_for_xml("Drum & Bass"), "Drum &amp; Bass");
    assert_eq!(sanitize_for_xml("a&&b"), "a&amp;&amp;b");
    assert_eq!(sanitize_for_xml("plain"), "plain");
    assert_eq!(sanitize_for_xml(""), "");
}

#[test]
fn decode_collapses_entities() {
    assert_eq!(decode_xml_value("Drum &amp; Bass"), "Drum & Bass");
    assert_eq!(decode_xml_value("&amp;&amp;"), "&&");
    assert_eq!(decode_xml_value("plain"), "plain");
}

#[test]
fn decode_of_sanitize_is_identity() {
    let original = "C:/Samples/Drum & Bass/kick.wav";
    assert_eq!(decode_xml_value(&sanitize_for_xml(original)), original);
}

#[test]
fn contains_sub_finds_substrings() {
    assert!(contains_sub("abcdef", "cde"));
    assert!(contains_sub("abc", ""));
    assert!(!contains_sub("abc", "abcd"));
    assert!(!contains_sub("abcdef", "xyz"));
}

#[test]
fn should_run_skips_excluded_paths() {
    let exclude = vec!["Old Projects".to_string(), "demo".to_string()];
    assert!(!should_run("music/Old Projects/a.als", &exclude));
    assert!(!should_run("music/demo.als", &exclude));
    assert!(should_run("music/New/a.als", &exclude));
    assert!(should_run("anything", &Vec::new()));
}

#[test]
fn imported_destination_is_canonical() {
    let dest = imported_destination("C:/Audio/kick.wav", "/proj").unwrap();
    assert_eq!(dest, "/proj/Samples/Imported/kick.wav");
}

#[test]
fn imported_destination_needs_a_basename() {
    assert!(matches!(
        imported_destination("C:/Audio/", "/proj"),
        Err(Error::CopifyFailed(_))
    ));
    assert!(matches!(imported_destination("", "/proj"), Err(Error::CopifyFailed(_))));
}

#[test]
fn imported_destination_refuses_dot_segments() {
    // A trailing dot form would let the destination escape the canonical
    // imported-samples folder.
    assert!(matches!(imported_destination("..", "/proj"), Err(Error::CopifyFailed(_))));
    assert!(matches!(imported_destination(".", "/proj"), Err(Error::CopifyFailed(_))));
    assert!(matches!(
        imported_destination("C:/Audio/..", "/proj"),
        Err(Error::CopifyFailed(_))
    ));
    assert!(matches!(
        imported_destination("C:/Audio/.", "/proj"),
        Err(Error::CopifyFailed(_))
    ));
    // A name that merely starts with dots is a filename.
    assert!(imported_destination("C:/Audio/..hidden.wav", "/proj").is_ok());
}

#[test]
fn relocation_refuses_dot_segments() {
    assert!(matches!(
        relocate_decision(true, "C:/Audio/..", "/proj"),
        Err(Error::CopifyFailed(_))
    ));
}

#[test]
fn same_basename_collides_in_destination() {
    // Two distinct sources with one basename land on one destination, so
    // the second relocation overwrites the first copy.
    let first = imported_destination("a/kick.wav", "/proj").unwrap();
    let second = imported_destination("b/kick.wav", "/proj").unwrap();
    assert_eq!(first, second);
}

#[test]
fn relocation_of_missing_source_is_an_error() {
    let r = relocate_decision(false, "a/kick.wav", "/proj");
    assert!(matches!(r, Err(Error::FileNotFound(_))));
}

#[test]
fn missing_source_marks_progress_as_error() {
    let r = relocate_decision(false, "a/kick.wav", "/proj");
    let msg = match r {
        Err(e) => e.message().clone(),
        Ok(_) => panic!("relocation of a missing source must fail"),
    };
    let progress = on_error("proj.als".to_string(), 50, msg);
    assert!(progress.is_error);
    assert!(!progress.is_skipped);
    assert_eq!(progress.error_msg, "Sample file does not exist");
}

#[test]
fn relocation_of_present_source_yields_destination() {
    let r = relocate_decision(true, "a/kick.wav", "/proj").unwrap();
    assert_eq!(r, "/proj/Samples/Imported/kick.wav");
}

#[test]
fn backup_path_appends_backup_extension() {
    assert_eq!(backup_path_for("proj/song.als").unwrap(), "proj/song.als.bak");
    assert_eq!(backup_path_for("song.als").unwrap(), "song.als.bak");
}

#[test]
fn backup_of_a_backup_is_refused() {
    let r = backup_path_for("proj/song.als.bak");
    match r {
        Err(Error::CopifyFailed(msg)) => {
            assert_eq!(msg, "Input file is not valid to backup");
        },
        _ => panic!("a path that carries the backup extension must be refused"),
    }
}

#[test]
fn remove_all_strips_every_occurrence() {
    assert_eq!(remove_all_sub("song.als", ".als"), "song");
    assert_eq!(remove_all_sub("a.als.als", ".als"), "a");
    assert_eq!(remove_all_sub("plain", ".als"), "plain");
}

#[test]
fn absolute_path_joins_with_slash() {
    assert_eq!(absolute_path_from_base("/base", "rel/file.wav"), "/base/rel/file.wav");
}

#[test]
fn relative_path_of_nested_file() {
    assert_eq!(find_relative_path("/foo/bar", "/foo/bar/baz"), "baz");
}

#[test]
fn relative_path_climbs_out() {
    assert_eq!(find_relative_path("/foo/bar/baz", "/foo/bar/quux"), "../quux");
}

#[test]
fn plan_moves_plans_folder_and_file() {
    let files = vec!["src/proj1/song.als".to_string()];
    let plan = plan_moves(&files, "/target");
    assert_eq!(plan.len(), 1);
    assert_eq!(plan[0].source_folder, "src/proj1");
    assert_eq!(plan[0].target_subfolder, "/target/proj1");
    assert_eq!(plan[0].new_file_path, "/target/proj1/song.als");
}

#[test]
fn plan_moves_skips_files_without_parent() {
    let files = vec!["song.als".to_string(), "p/q/song.als".to_string()];
    let plan = plan_moves(&files, "/t");
    assert_eq!(plan.len(), 1);
    assert_eq!(plan[0].new_file_path, "/t/q/song.als");
}

#[test]
fn progress_events_carry_their_fields() {
    let ok = on_success("a.als".to_string(), 10);
    assert!(!ok.is_error && !ok.is_skipped && ok.error_msg.is_empty());
    assert_eq!(ok.progress, 10);
    assert_eq!(ok.file_name, "a.als");

    let err = on_error("b.als".to_string(), 20, "boom".to_string());
    assert!(err.is_error && !err.is_skipped);
    assert_eq!(err.error_msg, "boom");

    let skip = on_skip("c.als".to_string(), 30);
    assert!(!skip.is_error && skip.is_skipped);
    assert_eq!(skip.error_msg, "Project was skipped.");

    let p = make_progress("d.als".to_string(), 40, true, true, "m".to_string());
    assert!(p.is_error && p.is_skipped);
    assert_eq!(p.progress, 40);
}

#[test]
fn progress_percent_counts_completed_files() {
    assert_eq!(progress_percent(0, 4), 25);
    assert_eq!(progress_percent(3, 4), 100);
    assert_eq!(progress_percent(0, 3), 33);
}

#[test]
fn mover_settings_convert_to_rewrite_settings() {
    let m = MoverSettings {
        move_project_files: true,
        serum_noises: true,
        move_samples: false,
        create_backup: true,
        folder: "/scan".to_string(),
        target: "/target".to_string(),
        exclude_files: vec!["x".to_string()],
    };
    let c: CopifySettings = m.to_copify_settings();
    assert!(c.serum_noises && !c.move_samples && c.create_backup);
    assert_eq!(c.folder, "/target");
    assert_eq!(c.exclude_files, vec!["x".to_string()]);
}

#[test]
fn error_messages_are_readable() {
    let e = Error::Xml("bad".to_string());
    assert_eq!(e.message().as_str(), "bad");
    let e = Error::TranscodeFailed("corrupt".to_string());
    assert_eq!(e.message().as_str(), "corrupt");
}

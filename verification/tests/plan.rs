use ghrls::archive::{EntryAction, EntryMatcher};
use ghrls::error::AppError;
use ghrls::plan::plan_zip_entry;
use std::io::Write;
use zip::write::SimpleFileOptions;

/// An in-memory zip with the given (name, content) pairs; `None` content makes
/// a symlink.
fn make_zip(entries: &[(&str, Option<&str>)]) -> Vec<u8> {
    let mut writer = zip::ZipWriter::new(std::io::Cursor::new(Vec::new()));
    for (path, content) in entries {
        match content {
            Some(data) => {
                writer.start_file(*path, SimpleFileOptions::default()).unwrap();
                writer.write_all(data.as_bytes()).unwrap();
            }
            None => {
                let options = SimpleFileOptions::default().unix_permissions(0o777);
                writer.add_symlink(*path, "symlink-target", options).unwrap();
            }
        }
    }
    writer.finish().unwrap().into_inner()
}

fn describe(actions: &[(usize, EntryAction)]) -> Vec<(usize, &'static str, String)> {
    actions
        .iter()
        .map(|(i, a)| match a {
            EntryAction::Skip => (*i, "skip", String::new()),
            EntryAction::SkipSymlink(p) => (*i, "symlink", p.clone()),
            EntryAction::Write(p) => (*i, "write", p.clone()),
            EntryAction::WriteAndStop(p) => (*i, "stop", p.clone()),
        })
        .collect()
}

#[test]
fn zip_plan_file_entry() {
    let data = make_zip(&[("README.md", Some("r")), ("bin/tool", Some("x")), ("bin/more", Some("y"))]);
    let plan = plan_zip_entry(&data, "bin/tool", "/out/tool").unwrap();
    assert_eq!(describe(&plan.actions), vec![(1, "stop", "/out/tool".to_string())]);
    assert!(plan.outcome.is_ok());
}

#[test]
fn zip_plan_directory_entry_with_symlink_child() {
    let data = make_zip(&[
        ("pkg/real.txt", Some("real")),
        ("pkg/link.txt", None),
        ("other/x", Some("o")),
        ("pkg/sub/b.txt", Some("b")),
    ]);
    let plan = plan_zip_entry(&data, "./pkg/", "/out/pkg").unwrap();
    assert_eq!(
        describe(&plan.actions),
        vec![
            (0, "write", "/out/pkg/real.txt".to_string()),
            (1, "symlink", "pkg/link.txt".to_string()),
            (3, "write", "/out/pkg/sub/b.txt".to_string()),
        ]
    );
    assert!(plan.outcome.is_ok());
}

#[test]
fn zip_plan_not_found_lists_sorted_top_level() {
    let data = make_zip(&[("share/man/tool.1", Some("y")), ("bin/tool", Some("x"))]);
    let plan = plan_zip_entry(&data, "no/such/path", "/out/path").unwrap();
    assert!(plan.actions.is_empty());
    match plan.outcome {
        Err(AppError::EntryNotFound(e, top)) => {
            assert_eq!(e, "no/such/path");
            assert_eq!(top, "bin\n  share");
        }
        other => panic!("unexpected {:?}", other),
    }
}

#[test]
fn zip_plan_direct_symlink_is_an_error() {
    let data = make_zip(&[("bin/tool", None)]);
    let plan = plan_zip_entry(&data, "bin/tool", "/out/tool").unwrap();
    assert!(matches!(plan.outcome, Err(AppError::SymlinkEntry(e)) if e == "bin/tool"));
}

#[test]
fn zip_plan_backslash_names() {
    let data = make_zip(&[("bin\\tool", Some("backslash content"))]);
    let plan = plan_zip_entry(&data, "bin/tool", "/out/tool").unwrap();
    assert_eq!(describe(&plan.actions), vec![(0, "stop", "/out/tool".to_string())]);
}

#[test]
fn zip_plan_unreadable_archive() {
    assert!(matches!(
        plan_zip_entry(b"not a zip archive", "x", "/out/x"),
        Err(AppError::ArchiveRead(_))
    ));
}

#[test]
fn zip_and_tar_select_alike() {
    let names = ["share/config/a.conf", "other/file.txt", "share/config/sub/b.conf", "share/config"];
    let data = make_zip(&[
        (names[0], Some("a")),
        (names[1], Some("o")),
        (names[2], Some("b")),
        (names[3], Some("c")),
    ]);
    let plan = plan_zip_entry(&data, "share/config", "/dest").unwrap();
    let mut m = EntryMatcher::new("share/config", "/dest");
    let mut tar_actions = Vec::new();
    for (i, n) in names.iter().enumerate() {
        match m.step_tar(n, false, false).unwrap() {
            EntryAction::Skip => {}
            a => {
                let stop = matches!(a, EntryAction::WriteAndStop(_));
                tar_actions.push((i, a));
                if stop {
                    break;
                }
            }
        }
    }
    assert_eq!(describe(&plan.actions), describe(&tar_actions));
    assert_eq!(plan.outcome.is_ok(), m.finish().is_ok());
}

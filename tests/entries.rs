use pepys::config::parse_config;
use pepys::date::CalendarDate;
use pepys::entry::{first_step, next_step, Materialized, Reply, Step};
use pepys::locate::{locate_entry, LocateError};
use std::collections::{HashMap, HashSet};

/// An in-memory filesystem that carries out the materializer's actions.
#[derive(Default, Clone, PartialEq, Debug)]
struct FakeFs {
    dirs: HashSet<String>,
    files: HashMap<String, Vec<u8>>,
    fail_dirs: bool,
}

impl FakeFs {
    fn materialize(&mut self, dir: &str, path: &str) -> Step {
        let mut step = first_step();
        loop {
            let reply = match step {
                Step::CheckExists => Reply::Exists(self.files.contains_key(path)),
                Step::CreateDirectories => {
                    if self.fail_dirs {
                        Reply::Error("permission denied".to_string())
                    } else {
                        let mut prefix = String::new();
                        for part in dir.split('/') {
                            prefix.push_str(part);
                            if !prefix.is_empty() {
                                self.dirs.insert(prefix.clone());
                            }
                            prefix.push('/');
                        }
                        Reply::Succeeded
                    }
                }
                Step::CreateFile => {
                    if self.files.contains_key(path) {
                        Reply::AlreadyPresent
                    } else {
                        self.files.insert(path.to_string(), Vec::new());
                        Reply::Succeeded
                    }
                }
                Step::Done(_) | Step::Failed(_) => return step,
            };
            step = next_step(step, reply);
        }
    }
}

#[test]
fn creates_entry_then_finds_it() {
    let config = parse_config("diary_path = /tmp/diary");
    let today = CalendarDate::from_ymd(2000, 1, 1).unwrap();
    let loc = locate_entry(&config, Some("/home/u"), Some("2024-03-01"), today).unwrap();
    assert_eq!(loc.directory, "/tmp/diary/2024/03");
    assert_eq!(loc.path, "/tmp/diary/2024/03/01.txt");

    let mut fs = FakeFs::default();
    let first = fs.materialize(&loc.directory, &loc.path);
    assert!(matches!(first, Step::Done(Materialized::Created)));
    assert!(fs.dirs.contains("/tmp/diary/2024/03"));
    assert!(fs.dirs.contains("/tmp/diary/2024"));
    assert_eq!(fs.files.get("/tmp/diary/2024/03/01.txt"), Some(&Vec::new()));

    fs.files.insert(loc.path.clone(), b"Up betimes.".to_vec());
    let after_first = fs.clone();
    let second = fs.materialize(&loc.directory, &loc.path);
    assert!(matches!(second, Step::Done(Materialized::AlreadyExisted)));
    assert_eq!(fs, after_first);
    assert_eq!(fs.files.get(&loc.path).unwrap(), b"Up betimes.");
}

#[test]
fn materializing_twice_leaves_the_same_state() {
    let mut fs = FakeFs::default();
    fs.materialize("/r/2023/01", "/r/2023/01/05.txt");
    let once = fs.clone();
    let again = fs.materialize("/r/2023/01", "/r/2023/01/05.txt");
    assert!(matches!(again, Step::Done(Materialized::AlreadyExisted)));
    assert_eq!(fs, once);
}

#[test]
fn directory_failure_is_reported() {
    let mut fs = FakeFs { fail_dirs: true, ..FakeFs::default() };
    match fs.materialize("/r/2023/01", "/r/2023/01/05.txt") {
        Step::Failed(cause) => assert_eq!(cause, "permission denied"),
        other => panic!("unexpected {:?}", other),
    }
    assert!(fs.files.is_empty());
}

#[test]
fn step_transitions() {
    assert!(matches!(first_step(), Step::CheckExists));
    assert!(matches!(next_step(Step::CheckExists, Reply::Exists(true)), Step::Done(Materialized::AlreadyExisted)));
    assert!(matches!(next_step(Step::CheckExists, Reply::Exists(false)), Step::CreateDirectories));
    assert!(matches!(next_step(Step::CreateDirectories, Reply::AlreadyPresent), Step::CreateFile));
    assert!(matches!(next_step(Step::CreateDirectories, Reply::Succeeded), Step::CreateFile));
    assert!(matches!(next_step(Step::CreateFile, Reply::Succeeded), Step::Done(Materialized::Created)));
    assert!(matches!(next_step(Step::CreateFile, Reply::AlreadyPresent), Step::Done(Materialized::AlreadyExisted)));
    match next_step(Step::CreateFile, Reply::Error("disk full".to_string())) {
        Step::Failed(c) => assert_eq!(c, "disk full"),
        other => panic!("unexpected {:?}", other),
    }
    assert!(matches!(next_step(Step::CreateFile, Reply::Exists(true)), Step::CreateFile));
    assert!(matches!(next_step(Step::Done(Materialized::Created), Reply::Succeeded), Step::Done(Materialized::Created)));
}

#[test]
fn locate_with_default_root_and_today() {
    let config = parse_config("");
    let today = CalendarDate::from_ymd(2024, 2, 29).unwrap();
    let loc = locate_entry(&config, Some("/home/u"), None, today).unwrap();
    assert_eq!(loc.date, today);
    assert_eq!(loc.path, "/home/u/pepys/2024/02/29.txt");
    let loc = locate_entry(&config, Some("/home/u"), Some("2023-01-05"), today).unwrap();
    assert_eq!(loc.path, "/home/u/pepys/2023/01/05.txt");
}

#[test]
fn locate_errors() {
    let config = parse_config("");
    let today = CalendarDate::from_ymd(2024, 2, 29).unwrap();
    assert!(matches!(
        locate_entry(&config, None, Some("2023-02-30"), today),
        Err(LocateError::Configuration(_))
    ));
    match locate_entry(&config, Some("/h"), Some("2023-02-30"), today) {
        Err(LocateError::InvalidDate(e)) => assert_eq!(e.input, "2023-02-30"),
        other => panic!("unexpected {:?}", other),
    }
}

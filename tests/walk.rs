use shrem::config::{Config, PathFacts};
use shrem::error::ShremError;
use shrem::session::Session;
use shrem::walker::{Action, Event, Walker};
use std::collections::BTreeMap;

/// A filesystem held in memory: each path maps to `true` for a directory.
struct Fs {
    nodes: BTreeMap<String, bool>,
    renames: Vec<(String, String)>,
    removed_dirs: Vec<String>,
    overwritten: Vec<Vec<String>>,
    questions: Vec<String>,
    notes: Vec<String>,
    answer: bool,
}

fn parent(p: &str) -> &str {
    match p.rfind('/') {
        Some(0) => "/",
        Some(i) => &p[..i],
        None => "",
    }
}

fn name(p: &str) -> &str {
    match p.rfind('/') {
        Some(i) => &p[i + 1..],
        None => p,
    }
}

fn join(dir: &str, n: &str) -> String {
    if dir.is_empty() {
        n.to_string()
    } else if dir.ends_with('/') {
        format!("{}{}", dir, n)
    } else {
        format!("{}/{}", dir, n)
    }
}

impl Fs {
    fn new(dirs: &[&str], files: &[&str]) -> Fs {
        let mut nodes = BTreeMap::new();
        for d in dirs {
            nodes.insert(d.to_string(), true);
        }
        for f in files {
            nodes.insert(f.to_string(), false);
        }
        Fs {
            nodes,
            renames: Vec::new(),
            removed_dirs: Vec::new(),
            overwritten: Vec::new(),
            questions: Vec::new(),
            notes: Vec::new(),
            answer: true,
        }
    }

    fn children(&self, p: &str) -> Vec<String> {
        self.nodes.keys().filter(|k| k.as_str() != p && parent(k) == p).cloned().collect()
    }

    fn run(&mut self, config: Config, path: &str) -> Result<(), ShremError> {
        let (mut walker, mut action) = Walker::new(config, path.to_string());
        loop {
            let event = match action {
                Action::Finished(r) => return r,
                Action::Inspect(p) => {
                    let kind = self.nodes.get(&p).cloned();
                    Event::Inspected(PathFacts {
                        exists: kind.is_some(),
                        is_dir: kind == Some(true),
                        is_root: p == "/",
                        name_len: name(&p).len(),
                    })
                }
                Action::Ask(q) => {
                    self.questions.push(q);
                    Event::Answered(self.answer)
                }
                Action::List(p) => Event::Listed(self.children(&p)),
                Action::Probe { path, name } => {
                    let sibling = join(parent(&path), &name);
                    let taken = self.nodes.contains_key(&sibling);
                    Event::Probed { sibling, taken }
                }
                Action::Rename { from, to } => {
                    let kind = self.nodes.remove(&from).unwrap();
                    assert!(!self.nodes.contains_key(&to));
                    self.nodes.insert(to.clone(), kind);
                    self.renames.push((from, to));
                    Event::Done
                }
                Action::RemoveDir(p) => {
                    assert!(self.children(&p).is_empty());
                    assert_eq!(self.nodes.remove(&p), Some(true));
                    self.removed_dirs.push(p);
                    Event::Done
                }
                Action::Overwrite(args) => {
                    let target = args.last().unwrap().clone();
                    if args.iter().any(|a| a == "-u") {
                        self.nodes.remove(&target);
                    }
                    self.overwritten.push(args);
                    Event::Exited(Some(0))
                }
            };
            assert!(walker.accepts(&event));
            let step = walker.step(event);
            self.notes.extend(step.notes);
            action = step.action;
        }
    }
}

fn recursive() -> Config {
    let mut c = Config::new();
    c.recursive = true;
    c
}

#[test]
fn directory_tree_is_destroyed() {
    let mut fs = Fs::new(&["/tmp", "/tmp/x", "/tmp/x/sub"], &["/tmp/x/a.txt"]);
    let r = fs.run(recursive(), "/tmp/x");
    assert!(r.is_ok());
    assert_eq!(fs.overwritten, vec![vec!["-z".to_string(), "-u".to_string(), "/tmp/x/a.txt".to_string()]]);
    assert_eq!(fs.nodes.keys().cloned().collect::<Vec<_>>(), vec!["/tmp".to_string()]);
    assert_eq!(
        fs.renames,
        vec![
            ("/tmp/x/sub".to_string(), "/tmp/x/000".to_string()),
            ("/tmp/x/000".to_string(), "/tmp/x/00".to_string()),
            ("/tmp/x/00".to_string(), "/tmp/x/0".to_string()),
            ("/tmp/x".to_string(), "/tmp/0".to_string()),
        ]
    );
    assert_eq!(fs.removed_dirs, vec!["/tmp/x/0".to_string(), "/tmp/0".to_string()]);
}

#[test]
fn rename_chain_skips_taken_names() {
    let mut fs = Fs::new(&["/d", "/d/ab", "/d/0", "/d/00"], &[]);
    let r = fs.run(recursive(), "/d/ab");
    assert!(r.is_ok());
    assert_eq!(
        fs.renames,
        vec![
            ("/d/ab".to_string(), "/d/01".to_string()),
            ("/d/01".to_string(), "/d/1".to_string()),
        ]
    );
    assert_eq!(fs.removed_dirs, vec!["/d/1".to_string()]);
    assert!(fs.nodes.contains_key("/d/0") && fs.nodes.contains_key("/d/00"));
}

#[test]
fn exhausted_names_stop_renaming() {
    let symbols = "0123456789abcdefghijklmnopqrstuvwxyzABCDEFGHIJKLMNOPQRSTUVWXYZ_";
    let mut dirs: Vec<String> = vec!["/d".to_string(), "/d/xy".to_string()];
    for c in symbols.chars() {
        dirs.push(format!("/d/{}", c));
    }
    let refs: Vec<&str> = dirs.iter().map(|s| s.as_str()).collect();
    let mut fs = Fs::new(&refs, &[]);
    let r = fs.run(recursive(), "/d/xy");
    assert!(r.is_ok());
    assert_eq!(fs.renames, vec![("/d/xy".to_string(), "/d/00".to_string())]);
    assert_eq!(fs.removed_dirs, vec!["/d/00".to_string()]);
}

#[test]
fn force_on_missing_path_succeeds_untouched() {
    for rec in [false, true] {
        let mut c = Config::new();
        c.force = true;
        c.recursive = rec;
        let mut fs = Fs::new(&["/a"], &["/a/f"]);
        let r = fs.run(c, "/a/missing");
        assert!(r.is_ok());
        assert_eq!(fs.nodes.len(), 2);
        assert!(fs.renames.is_empty() && fs.overwritten.is_empty() && fs.notes.is_empty());
    }
}

#[test]
fn root_is_preserved_by_default() {
    let mut fs = Fs::new(&["/", "/e"], &["/e/f"]);
    let r = fs.run(recursive(), "/");
    assert!(matches!(r, Err(ShremError::PreservedRootError)));
    assert_eq!(fs.nodes.len(), 3);
    assert!(fs.overwritten.is_empty() && fs.renames.is_empty());
}

#[test]
fn root_override_proceeds() {
    let mut c = recursive();
    c.preserve_root = false;
    let mut fs = Fs::new(&["/", "/e"], &["/e/f"]);
    let r = fs.run(c, "/");
    assert!(r.is_ok());
    assert_eq!(fs.overwritten.len(), 1);
    assert_eq!(fs.removed_dirs.len(), 2);
    assert_eq!(fs.removed_dirs[1], "/");
}

#[test]
fn directory_given_to_eraser_is_refused() {
    let mut fs = Fs::new(&["/a"], &[]);
    let r = fs.run(Config::new(), "/a");
    assert!(matches!(r, Err(ShremError::IsADirectory(p)) if p == "/a"));
    assert!(fs.nodes.contains_key("/a"));
}

#[test]
fn first_missing_path_stops_the_run() {
    let mut fs = Fs::new(&[], &["/b"]);
    let config = Config::new();
    let mut session = Session::new(&config);
    let mut reached = Vec::new();
    for p in ["/missing", "/b"] {
        reached.push(p);
        let r = fs.run(config, p);
        assert!(matches!(&r, Err(ShremError::NotFound(q)) if q == "/missing"));
        if !session.record(r.is_ok()) {
            break;
        }
    }
    assert_eq!(reached, vec!["/missing"]);
    assert_eq!(session.exit_code(), 1);
    assert!(fs.nodes.contains_key("/b"));
}

#[test]
fn force_carries_on_past_failures() {
    let mut fs = Fs::new(&[], &["/b"]);
    let mut config = Config::new();
    config.force = true;
    let mut session = Session::new(&config);
    let mut outcomes = Vec::new();
    for p in ["/dir_as_file", "/b"] {
        if p == "/dir_as_file" {
            fs.nodes.insert(p.to_string(), true);
        }
        let r = fs.run(config, p);
        outcomes.push(r.is_ok());
        if !session.record(r.is_ok()) {
            break;
        }
    }
    assert_eq!(outcomes, vec![false, true]);
    assert_eq!(session.exit_code(), 1);
    assert!(!fs.nodes.contains_key("/b"));
}

#[test]
fn refused_question_leaves_file_alone() {
    let mut c = Config::new();
    c.interactive = true;
    let mut fs = Fs::new(&[], &["/f"]);
    fs.answer = false;
    let r = fs.run(c, "/f");
    assert!(r.is_ok());
    assert!(fs.nodes.contains_key("/f"));
    assert!(fs.overwritten.is_empty());
    assert_eq!(fs.questions, vec!["remove file '/f'?".to_string()]);
}

#[test]
fn refused_question_leaves_directory_alone() {
    let mut c = recursive();
    c.interactive = true;
    let mut fs = Fs::new(&["/d"], &["/d/f"]);
    fs.answer = false;
    let r = fs.run(c, "/d");
    assert!(r.is_ok());
    assert_eq!(fs.nodes.len(), 2);
    assert!(fs.overwritten.is_empty() && fs.renames.is_empty());
    assert_eq!(fs.questions, vec!["descend into directory '/d'?".to_string()]);
}

#[test]
fn interactive_yes_asks_at_every_step() {
    let mut c = recursive();
    c.interactive = true;
    let mut fs = Fs::new(&["/d"], &["/d/f"]);
    let r = fs.run(c, "/d");
    assert!(r.is_ok());
    assert!(fs.nodes.is_empty());
    assert_eq!(
        fs.questions,
        vec![
            "descend into directory '/d'?".to_string(),
            "remove file '/d/f'?".to_string(),
            "remove directory '/d'?".to_string(),
        ]
    );
}

#[test]
fn overwrite_only_keeps_directories() {
    let mut c = recursive();
    c.no_remove = true;
    let mut fs = Fs::new(&["/d", "/d/s"], &["/d/s/f"]);
    let r = fs.run(c, "/d");
    assert!(r.is_ok());
    assert_eq!(fs.nodes.len(), 3);
    assert_eq!(fs.overwritten, vec![vec!["-z".to_string(), "/d/s/f".to_string()]]);
    assert!(fs.renames.is_empty() && fs.removed_dirs.is_empty());
}

#[test]
fn verbose_reports_renames_and_removal() {
    let mut c = recursive();
    c.verbose = true;
    let mut fs = Fs::new(&["/d", "/d/ab"], &[]);
    let r = fs.run(c, "/d/ab");
    assert!(r.is_ok());
    assert_eq!(
        fs.notes,
        vec![
            "shrem: /d/ab: removing".to_string(),
            "shrem: /d/ab: renamed to /d/00".to_string(),
            "shrem: /d/00: renamed to /d/0".to_string(),
            "shrem: /d/0: removed".to_string(),
        ]
    );
}

#[test]
fn failed_child_aborts_the_directory() {
    let mut fs = Fs::new(&["/d"], &["/d/a", "/d/b"]);
    let (mut walker, mut action) = Walker::new(recursive(), "/d".to_string());
    let mut overwrites = 0;
    let result = loop {
        let event = match action {
            Action::Finished(r) => break r,
            Action::Inspect(p) => Event::Inspected(PathFacts {
                exists: true,
                is_dir: p == "/d",
                is_root: false,
                name_len: name(&p).len(),
            }),
            Action::List(p) => Event::Listed(fs.children(&p)),
            Action::Overwrite(_) => {
                overwrites += 1;
                Event::Exited(Some(2))
            }
            other => panic!("unexpected {:?}", other),
        };
        action = walker.step(event).action;
    };
    assert!(matches!(result, Err(ShremError::ExternalProcessError(Some(2)))));
    assert_eq!(overwrites, 1);
    assert!(walker.is_finished());
    fs.nodes.clear();
}

#[test]
fn io_failure_ends_the_walk() {
    let (mut walker, action) = Walker::new(recursive(), "/d".to_string());
    assert!(matches!(action, Action::Inspect(ref p) if p == "/d"));
    let step = walker.step(Event::Inspected(PathFacts {
        exists: true,
        is_dir: true,
        is_root: false,
        name_len: 1,
    }));
    assert!(matches!(step.action, Action::List(ref p) if p == "/d"));
    assert!(!walker.accepts(&Event::Done));
    let step = walker.step(Event::Failed("Permission denied".to_string()));
    assert!(matches!(step.action, Action::Finished(Err(ShremError::IoError(ref m))) if m == "Permission denied"));
}

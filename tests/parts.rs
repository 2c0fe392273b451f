use shrem::config::{Config, PathFacts};
use shrem::eraser::{exit_outcome, get_shred_cmd, is_affirmative, shred_file, FilePlan};
use shrem::error::ShremError;
use shrem::names::{generate_new_path, NameSearch};
use shrem::obliterate::{Obliteration, ObliterationStep};
use shrem::session::diagnostic;
use shrem::text::decimal;
use shrem::walker::{classify, Entry};

fn facts(exists: bool, is_dir: bool, is_root: bool) -> PathFacts {
    PathFacts { exists, is_dir, is_root, name_len: 1 }
}

#[test]
fn names_start_at_all_zeros() {
    let s = NameSearch::new(3);
    assert_eq!(generate_new_path(&s), Some("000".to_string()));
}

#[test]
fn names_count_up_in_symbol_order() {
    let mut s = NameSearch::new(2);
    let mut seen = Vec::new();
    for _ in 0..66 {
        seen.push(generate_new_path(&s).unwrap());
        s.skip();
    }
    assert_eq!(seen[1], "01");
    assert_eq!(seen[10], "0a");
    assert_eq!(seen[36], "0A");
    assert_eq!(seen[62], "0_");
    assert_eq!(seen[63], "10");
    assert_eq!(seen[65], "12");
    assert_eq!(generate_new_path(&s), Some("13".to_string()));
}

#[test]
fn single_symbol_names_run_out() {
    let mut s = NameSearch::new(1);
    for _ in 0..63 {
        assert!(generate_new_path(&s).is_some());
        s.skip();
    }
    assert!(s.is_exhausted());
    assert_eq!(generate_new_path(&s), None);
}

#[test]
fn obliteration_without_name_removes_at_once() {
    let (o, step) = Obliteration::begin("/".to_string(), 0);
    assert!(o.removing());
    assert!(matches!(step, ObliterationStep::Remove(ref p) if p == "/"));
}

#[test]
fn obliteration_probes_then_renames() {
    let (mut o, step) = Obliteration::begin("/d/ab".to_string(), 2);
    assert!(matches!(step, ObliterationStep::Probe { ref path, ref name } if path == "/d/ab" && name == "00"));
    let step = o.on_probe("/d/00".to_string(), true);
    assert!(matches!(step, ObliterationStep::Probe { ref name, .. } if name == "01"));
    let step = o.on_probe("/d/01".to_string(), false);
    assert!(matches!(step, ObliterationStep::Rename { ref from, ref to } if from == "/d/ab" && to == "/d/01"));
    let step = o.on_renamed();
    assert_eq!(o.current_path(), "/d/01");
    assert!(matches!(step, ObliterationStep::Probe { ref path, ref name } if path == "/d/01" && name == "0"));
    o.on_probe("/d/0".to_string(), false);
    let step = o.on_renamed();
    assert!(matches!(step, ObliterationStep::Remove(ref p) if p == "/d/0"));
}

#[test]
fn shred_arguments_default() {
    let args = get_shred_cmd(&Config::new(), &"f.txt".to_string());
    assert_eq!(args, vec!["-z", "-u", "f.txt"]);
}

#[test]
fn shred_arguments_all_options() {
    let mut c = Config::new();
    c.verbose = true;
    c.no_remove = true;
    c.iterations = Some(125);
    let args = get_shred_cmd(&c, &"/x/y".to_string());
    assert_eq!(args, vec!["-z", "-v", "-n", "125", "/x/y"]);
}

#[test]
fn decimal_writes_digits() {
    assert_eq!(decimal(0), "0");
    assert_eq!(decimal(7), "7");
    assert_eq!(decimal(10), "10");
    assert_eq!(decimal(4096), "4096");
}

#[test]
fn eraser_checks_before_acting() {
    let c = Config::new();
    let p = "/p".to_string();
    assert!(matches!(shred_file(&p, &c, &facts(false, false, false)), Err(ShremError::NotFound(ref q)) if q == "/p"));
    assert!(matches!(shred_file(&p, &c, &facts(true, true, false)), Err(ShremError::IsADirectory(ref q)) if q == "/p"));
    assert!(matches!(shred_file(&p, &c, &facts(true, false, false)), Ok(FilePlan::Overwrite(ref a)) if a.len() == 3));
    let mut ci = Config::new();
    ci.interactive = true;
    assert!(matches!(shred_file(&p, &ci, &facts(true, false, false)), Ok(FilePlan::Confirm(ref q)) if q == "remove file '/p'?"));
}

#[test]
fn exit_codes() {
    assert!(exit_outcome(Some(0)).is_ok());
    assert!(matches!(exit_outcome(Some(1)), Err(ShremError::ExternalProcessError(Some(1)))));
    assert!(matches!(exit_outcome(None), Err(ShremError::ExternalProcessError(None))));
}

#[test]
fn answers() {
    assert!(is_affirmative("y\n"));
    assert!(is_affirmative("Yes"));
    assert!(!is_affirmative("n"));
    assert!(!is_affirmative(""));
    assert!(!is_affirmative(" y"));
}

#[test]
fn classification_order() {
    let mut c = Config::new();
    assert_eq!(classify(&c, &facts(true, true, true)), Entry::Erase);
    c.recursive = true;
    assert_eq!(classify(&c, &facts(true, true, true)), Entry::RefuseRoot);
    assert_eq!(classify(&c, &facts(true, true, false)), Entry::Descend);
    assert_eq!(classify(&c, &facts(false, false, false)), Entry::Erase);
    c.force = true;
    assert_eq!(classify(&c, &facts(false, false, false)), Entry::Skip);
    c.preserve_root = false;
    assert_eq!(classify(&c, &facts(true, true, true)), Entry::Descend);
}

#[test]
fn descriptions_and_diagnostics() {
    assert_eq!(ShremError::NotFound("a".to_string()).description(), "No such file or directory");
    assert_eq!(ShremError::IsADirectory("a".to_string()).description(), "Is a directory");
    assert_eq!(ShremError::IoError("Permission denied".to_string()).description(), "Permission denied");
    assert_eq!(ShremError::IoError("x".to_string()).cause(), Some("x"));
    assert_eq!(ShremError::PreservedRootError.cause(), None);
    assert_eq!(
        ShremError::PreservedRootError.description(),
        "It is dangerous to operate on '/' recursively. Use --no-preserve-root to override this failsafe."
    );
    assert_eq!(
        diagnostic("/a", &ShremError::NotFound("/a".to_string())),
        Some("shrem: cannot remove '/a': No such file or directory".to_string())
    );
    assert_eq!(diagnostic("/a", &ShremError::ExternalProcessError(Some(1))), None);
}

#[test]
fn default_configuration() {
    let c = Config::new();
    assert!(c.preserve_root);
    assert!(!c.recursive && !c.force && !c.verbose && !c.interactive && !c.no_remove);
    assert_eq!(c.iterations, None);
}

use humsh::direnv::parse_env;
use humsh::resolver::{BackgroundResolver, Resolution};

#[test]
fn first_outcome_is_kept() {
    let mut r: BackgroundResolver<Vec<(String, String)>> = BackgroundResolver::new();
    assert!(!r.is_done());
    assert_eq!(r.get(), None);
    assert!(r.complete(Ok(vec![("A".to_string(), "1".to_string())])));
    assert!(r.is_done());
    assert!(!r.complete(Err("late".to_string())));
    assert!(!r.complete(Ok(vec![])));
    assert_eq!(r.get(), Some(Ok(&vec![("A".to_string(), "1".to_string())])));
    assert_eq!(r.get(), r.get());
}

#[test]
fn failure_is_kept() {
    let mut r: BackgroundResolver<u32> = BackgroundResolver::new();
    assert!(r.complete(Err("direnv failed".to_string())));
    assert!(!r.complete(Ok(5)));
    assert_eq!(r.get(), Some(Err("direnv failed")));
    let _ = Resolution::<u32>::Pending;
}

#[test]
fn env_records() {
    let out = "A=1\0PATH=/bin:/usr/bin\0EMPTY=\0NOEQ\0X=a=b\0";
    let vars = parse_env(out);
    let expect: Vec<(String, String)> = vec![
        ("A".into(), "1".into()),
        ("PATH".into(), "/bin:/usr/bin".into()),
        ("EMPTY".into(), "".into()),
        ("X".into(), "a=b".into()),
    ];
    assert_eq!(vars, expect);
    assert_eq!(parse_env(""), vec![]);
    assert_eq!(parse_env("K=v"), vec![("K".to_string(), "v".to_string())]);
}

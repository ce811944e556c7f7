use qreview::trace::since;

#[test]
fn a_quiet_run_never_builds_the_message() {
    let mut built = false;

    since(None, || {
        built = true;
        String::new()
    });
    assert!(!built);
}

#[test]
fn a_traced_run_builds_the_message() {
    let started = Some(std::time::Instant::now());
    let out = since(started, || "read".to_owned());

    assert!(out.is_some_and(|m| m.contains("read")));
}

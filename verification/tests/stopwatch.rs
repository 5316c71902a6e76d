use vidcast::stopwatch::StopWatch;

#[test]
fn reading_before_start_is_an_error() {
    let watch = StopWatch::new();
    assert!(watch.get_current_instant().is_err());
}

#[test]
fn reading_after_start_succeeds() {
    let mut watch = StopWatch::new();
    watch.start();
    assert!(watch.get_current_instant().is_ok());
}

#[test]
fn reset_forgets_the_start() {
    let mut watch = StopWatch::new();
    watch.start();
    watch.reset();
    assert!(watch.get_current_instant().is_err());
}

#[test]
fn stop_keeps_the_start_reading() {
    let mut watch = StopWatch::new();
    watch.start();
    watch.stop();
    assert!(watch.get_current_instant().is_ok());
}

#[test]
fn stop_without_start_changes_nothing() {
    let mut watch = StopWatch::new();
    watch.stop();
    assert!(watch.get_current_instant().is_err());
}

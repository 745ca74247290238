use mine_rs::stopwatch::Stopwatch;

const SLEEP_MS: i64 = 50;
const TOLERANCE_PERCENTAGE: f64 = 0.3;

#[test]
fn a_stopwatch_that_has_never_been_started_has_zero_as_the_elapsed_time_value() {
    let sw = Stopwatch::default();
    assert_eq!(sw.get_elapsed_time(), 0);
}

#[test]
fn the_stopwatch_correctly_measures_the_elapsed_time() {
    let mut sw = Stopwatch::default();
    sw.start();

    sleep_ms(SLEEP_MS);

    assert_sw_near(&sw, SLEEP_MS);
}

#[test]
fn repeated_toggling_does_not_affect_the_elapsed_time() {
    let mut sw = Stopwatch::default();
    sw.start();

    for _ in 0..1000 {
        sw.stop();
        sw.start();
    }

    assert_sw_near(&sw, 0);
}

#[test]
fn the_time_is_not_running_when_the_stopwatch_is_stopped() {
    let mut sw = Stopwatch::default();
    sw.start();

    sleep_ms(SLEEP_MS);

    sw.stop();
    assert_sw_near(&sw, SLEEP_MS);

    sleep_ms(SLEEP_MS);

    assert_sw_near(&sw, SLEEP_MS);
}

#[test]
fn the_time_keeps_adding_after_a_stopwatch_gets_resumed() {
    let mut sw = Stopwatch::default();
    sw.start();

    sleep_ms(SLEEP_MS);

    sw.stop();
    assert_sw_near(&sw, SLEEP_MS);

    sw.start();

    sleep_ms(SLEEP_MS);

    sw.stop();
    assert_sw_near(&sw, 2 * SLEEP_MS);

    sw.start();

    sleep_ms(SLEEP_MS);

    assert_sw_near(&sw, 3 * SLEEP_MS);
}

// helpers

/// Waits out the given number of milliseconds on the monotonic clock.
fn sleep_ms(ms: i64) {
    let begun = std::time::Instant::now();
    while (begun.elapsed().as_millis() as i64) < ms {}
}

fn assert_sw_near(sw: &Stopwatch, elapsed: i64) {
    fn assert_near(x: i64, y: i64, tolerance: i64) {
        let diff = (x - y).abs();
        if diff > tolerance {
            panic!("Expected {:?}, got {:?}", x, y);
        }
    }

    let tolerance_value = (TOLERANCE_PERCENTAGE * elapsed as f64) as i64;

    assert_near(
        elapsed,
        (sw.get_elapsed_time() / 1_000_000) as i64,
        tolerance_value,
    );
}

use bz2_fastdl::progress::decimal_digits;
use bz2_fastdl::progress::progress_line;
use bz2_fastdl::progress::Run;

#[test]
fn decimal_rendering() {
    assert_eq!(decimal_digits(0), b"0".to_vec());
    assert_eq!(decimal_digits(7), b"7".to_vec());
    assert_eq!(decimal_digits(10), b"10".to_vec());
    assert_eq!(decimal_digits(123), b"123".to_vec());
    assert_eq!(decimal_digits(100000), b"100000".to_vec());
}

#[test]
fn progress_line_format() {
    assert_eq!(
        progress_line(3, 10, &b"b/tex.vtf".to_vec()),
        b"[3/10] b/tex.vtf".to_vec()
    );
    assert_eq!(progress_line(1, 1, &b"a/model.mdl".to_vec()), b"[1/1] a/model.mdl".to_vec());
}

#[test]
fn counter_covers_each_number_once() {
    let total = 5;
    let mut run = Run::new(total);
    assert_eq!(run.total(), total);
    assert_eq!(run.completed(), 0);
    let mut seen = vec![false; total + 1];
    for _ in 0..total {
        let line = run.on_success(&b"p".to_vec());
        // the line reads [k/5] p; pull k out of it
        let text = String::from_utf8(line).unwrap();
        let open = text.find('[').unwrap();
        let slash = text.find('/').unwrap();
        let k: usize = text[open + 1..slash].parse().unwrap();
        assert!(1 <= k && k <= total);
        assert!(!seen[k], "number {} handed out twice", k);
        seen[k] = true;
    }
    assert!(seen[1..=total].iter().all(|&s| s));
    assert_eq!(run.completed(), total);
}

#[test]
fn run_lines_in_order() {
    let mut run = Run::new(3);
    assert_eq!(run.on_success(&b"a/x.mdl".to_vec()), b"[1/3] a/x.mdl".to_vec());
    assert_eq!(run.on_success(&b"a/y.wav".to_vec()), b"[2/3] a/y.wav".to_vec());
    assert_eq!(run.on_success(&b"a/z.bsp".to_vec()), b"[3/3] a/z.bsp".to_vec());
    assert_eq!(run.completed(), 3);
    assert!(!run.is_failed());
}

#[test]
fn fatal_error_stops_the_run() {
    // three eligible items; the second one's source fails between scan and
    // compression
    let mut run = Run::new(3);
    assert!(!run.is_failed());
    let first = run.on_success(&b"a/1.mdl".to_vec());
    assert_eq!(first, b"[1/3] a/1.mdl".to_vec());
    run.on_failure();
    assert!(run.is_failed());
    // the coordinator hands out no further items once failed; an item
    // already in flight may still complete and keeps its number
    let in_flight = run.on_success(&b"a/3.mdl".to_vec());
    assert_eq!(in_flight, b"[2/3] a/3.mdl".to_vec());
    assert!(run.is_failed());
    assert_eq!(run.completed(), 2);
}

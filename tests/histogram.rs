use billard::key::{key_bits, order_key};
use billard::render::{bar_chart, counts_text, push_decimal};
use billard::Histogram;

fn key(x: f32) -> u32 {
    order_key(x.to_bits())
}

fn label(k: u32) -> String {
    format!("{}", f32::from_bits(key_bits(k)))
}

/// Four bounds equally spaced from 0 to 3, as `Histogram::new(0.0, 3.0, 4)`
/// would make them, with samples 0.0 and 99.9.
fn some_histogram() -> Histogram {
    let mut hist = Histogram::new_from_bounds(vec![key(0.0), key(1.0), key(2.0), key(3.0)]);
    hist.insert(key(0.0));
    hist.insert(key(99.9));
    hist
}

fn labels(hist: &Histogram) -> Vec<String> {
    hist.bounds().iter().map(|k| label(*k)).collect()
}

#[test]
fn insert() {
    let hist = some_histogram();
    assert_eq!(*hist.counts(), vec![0, 1, 0, 0, 1]);
}

#[test]
fn display() {
    let hist = some_histogram();
    let text = hist.to_text(&labels(&hist));
    assert_eq!(text, "0 < 0 | 1 < 1 | 0 < 2 | 0 < 3 | 1 < ∞");
}

#[test]
fn reset() {
    let mut hist = some_histogram();
    assert_eq!(*hist.counts(), vec![0, 1, 0, 0, 1]);
    hist.reset();
    assert_eq!(*hist.counts(), vec![0, 0, 0, 0, 0]);
}

#[test]
fn bounds_sorted_and_deduplicated() {
    let hist = Histogram::new_from_bounds(vec![30, 10, 20, 10, 30]);
    assert_eq!(*hist.bounds(), vec![10, 20, 30]);
    assert_eq!(*hist.counts(), vec![0, 0, 0, 0]);
}

#[test]
fn no_bounds_gives_one_unbounded_bin() {
    let mut hist = Histogram::new_from_bounds(Vec::new());
    hist.insert(0);
    hist.insert(u32::MAX);
    assert_eq!(*hist.counts(), vec![2]);
    assert_eq!(hist.to_text(&Vec::new()), "2 < ∞");
}

#[test]
fn sample_equal_to_bound_lands_in_next_bin() {
    let mut hist = Histogram::new_from_bounds(vec![10, 20]);
    hist.insert(10);
    hist.insert(9);
    hist.insert(20);
    hist.insert(19);
    assert_eq!(*hist.counts(), vec![1, 2, 1]);
}

#[test]
fn largest_sample_lands_in_unbounded_bin() {
    let mut hist = Histogram::new_from_bounds(vec![u32::MAX]);
    hist.insert(u32::MAX);
    hist.insert(u32::MAX - 1);
    assert_eq!(*hist.counts(), vec![1, 1]);
}

#[test]
fn total_counts_samples_since_reset() {
    let mut hist = Histogram::new_from_bounds(vec![5, 1, 3]);
    for v in [0, 2, 2, 4, 6, 100, 3] {
        hist.insert(v);
    }
    assert_eq!(hist.total(), 7);
    assert_eq!(*hist.counts(), vec![1, 2, 2, 2]);
    hist.reset();
    assert_eq!(hist.total(), 0);
    hist.insert(1);
    assert_eq!(hist.total(), 1);
}

#[test]
fn refill_replaces_previous_samples() {
    let mut hist = Histogram::new_from_bounds(vec![1, 2]);
    hist.insert(0);
    hist.insert(0);
    hist.refill(&vec![1, 5, 5]);
    assert_eq!(*hist.counts(), vec![0, 1, 2]);
    assert_eq!(hist.total(), 3);
}

#[test]
fn float_speeds_land_by_value() {
    let mut hist = Histogram::new_from_bounds(vec![key(0.5), key(-1.0), key(2.0)]);
    hist.insert(key(-3.0));
    hist.insert(key(-1.0));
    hist.insert(key(0.0));
    hist.insert(key(-0.0));
    hist.insert(key(0.5));
    hist.insert(key(f32::INFINITY));
    assert_eq!(*hist.counts(), vec![1, 3, 1, 1]);
    assert_eq!(labels(&hist), vec!["-1", "0.5", "2"]);
}

#[test]
fn text_writes_multi_digit_counts() {
    let counts = vec![12, 0, 305];
    let labels = vec!["a".to_string(), "b".to_string()];
    assert_eq!(counts_text(&counts, &labels), "12 < a | 0 < b | 305 < ∞");
}

#[test]
fn decimal_of_large_numbers() {
    let mut s = String::from("n=");
    push_decimal(&mut s, u64::MAX);
    assert_eq!(s, "n=18446744073709551615");
    let mut z = String::new();
    push_decimal(&mut z, 0);
    assert_eq!(z, "0");
}

#[test]
fn bar_chart_scales_to_fullest_bin() {
    let rows = bar_chart(&vec![4, 2, 0, 1], 4);
    assert_eq!(rows, vec!["#   ", "##  ", "## #", "####"]);
}

#[test]
fn bar_chart_of_empty_histogram_is_blank() {
    let hist = Histogram::new_from_bounds(vec![1]);
    let rows = hist.plot_rows(3);
    assert_eq!(rows, vec!["  ", "  ", "  "]);
}

#[test]
fn plot_rows_has_requested_height() {
    let hist = some_histogram();
    let rows = hist.plot_rows(50);
    assert_eq!(rows.len(), 50);
    assert_eq!(rows[0], " #  #");
    assert_eq!(rows[49], "#####");
}

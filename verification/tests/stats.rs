use rawbatch::statistics::{Statistics, StatisticsItem, is_job_delta};
use rawbatch::text::{fmt_bytes, fmt_duration, format_u128};

#[test]
fn item_record_counts_and_keeps_the_sample() {
    let mut item = StatisticsItem::default();
    assert_eq!(item.count(), 0);
    assert_eq!(item.time_total(), 0);
    item.record(120);
    item.record(80);
    assert_eq!(item.count(), 2);
    assert_eq!(item.samples(), vec![120, 80]);
    assert_eq!(item.time_total(), 200);
}

#[test]
fn item_inc_counts_without_a_sample() {
    let mut item = StatisticsItem::default();
    item.inc();
    item.inc();
    item.inc();
    assert_eq!(item.count(), 3);
    assert_eq!(item.samples(), Vec::<u64>::new());
    assert_eq!(item.time_total(), 0);
}

#[test]
fn item_average_divides_by_the_sample_count() {
    let mut item = StatisticsItem::default();
    assert_eq!(item.time_avg(), 0);
    item.record(100);
    item.record(50);
    item.record(30);
    assert_eq!(item.time_avg(), 60);
}

#[test]
fn item_extend_adds_counts_and_concatenates_samples() {
    let mut a = StatisticsItem::default();
    a.record(10);
    a.inc();
    let mut b = StatisticsItem::default();
    b.record(20);
    b.record(30);
    a.extend(&b);
    assert_eq!(a.count(), 4);
    assert_eq!(a.samples(), vec![10, 20, 30]);
}

fn delta(copied: &[u64], moved: &[u64], errors: u64) -> Statistics {
    let mut s = Statistics::default();
    for t in copied {
        s.copied.record(*t);
    }
    for t in moved {
        s.moved.record(*t);
    }
    for _ in 0..errors {
        s.errors.inc();
    }
    s
}

fn sorted(mut v: Vec<u64>) -> Vec<u64> {
    v.sort();
    v
}

#[test]
fn merge_order_and_grouping_do_not_change_the_totals() {
    // (A + B) + C
    let mut left = Statistics::default();
    left.extend(&delta(&[1], &[], 0));
    left.extend(&delta(&[2], &[7], 1));
    left.extend(&delta(&[], &[9], 0));
    // A + (C + B)
    let mut inner = Statistics::default();
    inner.extend(&delta(&[], &[9], 0));
    inner.extend(&delta(&[2], &[7], 1));
    let mut right = Statistics::default();
    right.extend(&delta(&[1], &[], 0));
    right.extend(&inner);
    assert_eq!(left.copied.count(), right.copied.count());
    assert_eq!(left.moved.count(), right.moved.count());
    assert_eq!(left.errors.count(), right.errors.count());
    assert_eq!(sorted(left.copied.samples()), sorted(right.copied.samples()));
    assert_eq!(sorted(left.moved.samples()), sorted(right.moved.samples()));
}

#[test]
fn job_delta_shape_is_checkable() {
    let mut one = Statistics::default();
    one.copied.record(5);
    assert!(is_job_delta(&one));
    let mut two = Statistics::default();
    two.copied.record(5);
    two.errors.inc();
    assert!(!is_job_delta(&two));
    let none = Statistics::default();
    assert!(!is_job_delta(&none));
    let mut pair = Statistics::default();
    pair.decoded.record(5);
    pair.encoded.record(6);
    assert!(is_job_delta(&pair));
}

#[test]
fn format_u128_renders_decimal() {
    assert_eq!(format_u128(0), "0".to_string());
    assert_eq!(format_u128(7), "7".to_string());
    assert_eq!(format_u128(10), "10".to_string());
    assert_eq!(format_u128(90210), "90210".to_string());
}

#[test]
fn fmt_duration_drops_leading_zero_parts() {
    assert_eq!(fmt_duration(0), "0ms".to_string());
    assert_eq!(fmt_duration(999), "999ms".to_string());
    assert_eq!(fmt_duration(1000), "1s 0ms".to_string());
    assert_eq!(fmt_duration(61005), "1m 1s 5ms".to_string());
    assert_eq!(fmt_duration(60000), "1m 0ms".to_string());
    assert_eq!(fmt_duration(3600000), "60m 0ms".to_string());
}

#[test]
fn fmt_bytes_scales_to_kib_and_mib() {
    assert_eq!(fmt_bytes(0), "0 B".to_string());
    assert_eq!(fmt_bytes(1023), "1023 B".to_string());
    assert_eq!(fmt_bytes(1024), "1.00 KiB".to_string());
    assert_eq!(fmt_bytes(1536), "1.50 KiB".to_string());
    assert_eq!(fmt_bytes(10240), "10.00 KiB".to_string());
    assert_eq!(fmt_bytes(1048576), "1.00 MiB".to_string());
    assert_eq!(fmt_bytes(2621440), "2.50 MiB".to_string());
}

#[test]
fn item_summary_reports_count_total_and_average() {
    let mut item = StatisticsItem::default();
    item.record(1000);
    item.record(3000);
    assert_eq!(item.summary(), "2 files in 4s 0ms (avg 2s 0ms per file)".to_string());
}

#[test]
fn report_lists_every_category() {
    let mut s = Statistics::default();
    s.total.record(10);
    s.copied.record(10);
    let report = s.report_nthreads(1);
    let lines: Vec<&str> = report.lines().collect();
    assert_eq!(lines.len(), 7);
    assert_eq!(lines[0], "Total 1 files in approx. 10ms (avg 10ms per file)");
    assert_eq!(lines[1], "Decoded 0 files in 0ms (avg 0ms per file)");
    assert_eq!(lines[3], "Copied 1 files in 10ms (avg 10ms per file)");
    assert_eq!(lines[6], "Encountered errors on 0 files in 0ms (avg 0ms per file)");
}

#[test]
fn report_divides_the_total_by_the_worker_count() {
    let mut s = Statistics::default();
    s.total.record(10);
    s.copied.record(30);
    let report = s.report_nthreads(2);
    let lines: Vec<&str> = report.lines().collect();
    // The summed arrival gaps divided by 2 workers approximate the wall
    // clock; the per-category sums stay undivided.
    assert_eq!(lines[0], "Total 1 files in approx. 5ms (avg 10ms per file)");
    assert_eq!(lines[3], "Copied 1 files in 30ms (avg 30ms per file)");
}

use mutate::utils::{split_2_group, my_time, get_output_name};

fn check_partition(group: &[Vec<usize>], n: usize) {
    let mut next = 0usize;
    for (i, r) in group.iter().enumerate() {
        assert_eq!(r.len(), 2);
        assert_eq!(r[0], next, "range {} starts where the previous ended", i);
        assert!(r[0] < r[1] && r[1] <= n);
        next = r[1];
    }
    if !group.is_empty() {
        assert_eq!(group[0][0], 0);
        assert_eq!(group[group.len() - 1][1], n);
    } else {
        assert_eq!(n, 0);
    }
}

#[test]
fn ten_items_three_workers() {
    let group = split_2_group(3, 10);
    assert_eq!(group, vec![vec![0, 4], vec![4, 7], vec![7, 10]]);
    check_partition(&group, 10);
}

#[test]
fn two_items_five_workers() {
    let group = split_2_group(5, 2);
    assert_eq!(group, vec![vec![0, 1], vec![1, 2]]);
    check_partition(&group, 2);
}

#[test]
fn no_items_yield_no_ranges() {
    let group = split_2_group(4, 0);
    assert!(group.is_empty());
}

#[test]
fn even_split_without_remainder() {
    let group = split_2_group(2, 10);
    assert_eq!(group, vec![vec![0, 5], vec![5, 10]]);
    check_partition(&group, 10);
}

#[test]
fn one_worker_takes_everything() {
    let group = split_2_group(1, 7);
    assert_eq!(group, vec![vec![0, 7]]);
    check_partition(&group, 7);
}

#[test]
fn as_many_items_as_workers() {
    let group = split_2_group(4, 4);
    assert_eq!(group, vec![vec![0, 1], vec![1, 2], vec![2, 3], vec![3, 4]]);
    check_partition(&group, 4);
}

#[test]
fn sizes_differ_by_at_most_one_larger_first() {
    let group = split_2_group(5, 23);
    check_partition(&group, 23);
    let sizes: Vec<usize> = group.iter().map(|r| r[1] - r[0]).collect();
    assert_eq!(sizes, vec![5, 5, 5, 4, 4]);
}

#[test]
fn time_in_nanoseconds() {
    assert_eq!(my_time("t", 999), "t: 999 (ns)");
    assert_eq!(my_time("t", 0), "t: 0 (ns)");
}

#[test]
fn time_in_microseconds() {
    assert_eq!(my_time("t", 1500), "t: 1 (us)");
}

#[test]
fn time_in_milliseconds() {
    assert_eq!(my_time("t", 2_000_000), "t: 2 (ms)");
}

#[test]
fn time_in_seconds() {
    assert_eq!(my_time("[Total time]", 5_000_000_000), "[Total time]: 5 (s)");
    assert_eq!(my_time("t", 599_999_999_999), "t: 599 (s)");
}

#[test]
fn time_in_minutes_past_ten() {
    assert_eq!(my_time("t", 600_000_000_000), "t: 10 (min)");
    assert_eq!(my_time("t", 3_600_000_000_000), "t: 60 (min)");
}

#[test]
fn output_name_paired_compressed() {
    assert_eq!(
        get_output_name("test_R1.fastq.gz", "0.1"),
        "test_ratio_0.1_R1.fastq.gz"
    );
}

#[test]
fn output_name_paired_second_read() {
    assert_eq!(get_output_name("x_R2.fq.gz", "1"), "x_ratio_1_R2.fq.gz");
    assert_eq!(get_output_name("x_R2.txt", "0.3"), "x_ratio_0.3_R2.txt");
}

#[test]
fn output_name_bare_extension() {
    assert_eq!(get_output_name("test.fastq", "0.25"), "test_ratio_0.25.fastq");
    assert_eq!(get_output_name("a.txt.gz", "0.5"), "a_ratio_0.5.txt.gz");
    assert_eq!(get_output_name("b.fq", "0.9"), "b_ratio_0.9.fq");
}

#[test]
fn output_name_unrecognized_suffix_unchanged() {
    assert_eq!(get_output_name("abc.bam", "0.1"), "abc.bam");
    assert_eq!(get_output_name("noext", "0.1"), "noext");
}

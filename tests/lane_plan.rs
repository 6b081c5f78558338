use average_float::dispatch::Path;
use average_float::lanes::LanePlan;

#[test]
fn tail_after_whole_groups() {
    let plan = LanePlan::new(4097, 16);
    assert_eq!(plan.buffer_len(), 4097);
    assert_eq!(plan.lane_width(), 16);
    assert_eq!(plan.group_count(), 256);
    assert_eq!(plan.group_range(0), (0, 16));
    assert_eq!(plan.group_range(255), (4080, 4096));
    assert_eq!(plan.tail_range(), (4096, 4097));
}

#[test]
fn every_index_read_once() {
    let plan = LanePlan::new(4097, 16);
    let mut reads = vec![0u32; 4097];
    for g in 0..plan.group_count() {
        let (start, end) = plan.group_range(g);
        for i in start..end {
            reads[i] += 1;
        }
    }
    let (start, end) = plan.tail_range();
    for i in start..end {
        reads[i] += 1;
    }
    assert!(reads.iter().all(|&n| n == 1));
}

#[test]
fn whole_groups_leave_empty_tail() {
    let plan = LanePlan::new(524288, 16);
    assert_eq!(plan.group_count(), 32768);
    assert_eq!(plan.tail_range(), (524288, 524288));
    assert_eq!(plan.divisor(), Some(524288));
}

#[test]
fn buffer_shorter_than_a_group() {
    let plan = LanePlan::new(3, 8);
    assert_eq!(plan.group_count(), 0);
    assert_eq!(plan.tail_range(), (0, 3));
    assert_eq!(plan.divisor(), Some(3));
}

#[test]
fn seventeen_elements_per_path() {
    let wide = LanePlan::for_path(17, Path::Avx512);
    assert_eq!(wide.group_count(), 1);
    assert_eq!(wide.tail_range(), (16, 17));
    let neon = LanePlan::for_path(17, Path::Neon);
    assert_eq!(neon.lane_width(), 4);
    assert_eq!(neon.group_count(), 4);
    assert_eq!(neon.tail_range(), (16, 17));
    let portable = LanePlan::for_path(17, Path::Portable);
    assert_eq!(portable.group_count(), 2);
    assert_eq!(portable.tail_range(), (16, 17));
    let scalar = LanePlan::for_path(17, Path::Scalar);
    assert_eq!(scalar.group_count(), 17);
    assert_eq!(scalar.tail_range(), (17, 17));
}

#[test]
fn single_element() {
    let plan = LanePlan::new(1, 16);
    assert_eq!(plan.group_count(), 0);
    assert_eq!(plan.tail_range(), (0, 1));
    assert_eq!(plan.divisor(), Some(1));
}

#[test]
fn empty_buffer_has_no_divisor() {
    for _ in 0..3 {
        let plan = LanePlan::new(0, 16);
        assert_eq!(plan.group_count(), 0);
        assert_eq!(plan.tail_range(), (0, 0));
        assert_eq!(plan.divisor(), None);
    }
}

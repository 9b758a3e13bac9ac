use std::cmp::Ordering;

use cadmus::hbam2::path::HBAMPath;

#[test]
fn path_cmp() {
    assert!(HBAMPath::new(vec![&[3], &[17]]) > HBAMPath::new(vec![&[2], &[45]]));
    assert!(HBAMPath::new(vec![&[1], &[17], &[19]]) < HBAMPath::new(vec![&[2], &[45]]));
    assert!(HBAMPath::new(vec![&[3], &[17]]) == HBAMPath::new(vec![&[3]]));
    assert!(HBAMPath::new(vec![&[3], &[17]]).partial_cmp(&HBAMPath::new(vec![&[3]])) == Some(Ordering::Equal));
    assert!(HBAMPath::new(vec![&[3], &[17]]).partial_cmp(&HBAMPath::new(vec![&[17]])) == Some(Ordering::Less));
    assert!(HBAMPath::new(vec![&[3], &[17], &[5]]).partial_cmp(&HBAMPath::new(vec![&[3], &[17]])) == Some(Ordering::Equal));
    assert!(HBAMPath::new(vec![&[128, 1], &[3], &[5]]).partial_cmp(&HBAMPath::new(vec![&[128, 1]])) == Some(Ordering::Equal));
    assert!(HBAMPath::new(vec![&[128, 1], &[3], &[5]]) == HBAMPath::new(vec![&[128, 1]]));
    assert!(HBAMPath::new(vec![&[128, 1]]) == HBAMPath::new(vec![&[128, 1], &[3], &[5]]));
    assert!(HBAMPath::new(vec![&[128, 2]]) >= HBAMPath::new(vec![&[128, 1]]));
    assert!(HBAMPath::new(vec![&[128, 1]]) <= HBAMPath::new(vec![&[128, 2]]));
    assert!(HBAMPath::new(vec![&[128, 1]]) < HBAMPath::new(vec![&[128, 2]]));
    assert!(HBAMPath::new(vec![&[128, 1], &[3]]) < HBAMPath::new(vec![&[128, 2]]));
    assert!(HBAMPath::new(vec![&[4], &[5], &[1], &[14]]) > HBAMPath::new(vec![&[4], &[5], &[1], &[13]]));
    assert!(HBAMPath::new(vec![&[4], &[5], &[1], &[14]]) >= HBAMPath::new(vec![&[4], &[5], &[1], &[13]]));
    assert!(HBAMPath::new(vec![]).partial_cmp(&HBAMPath::new(vec![&[3], &[17]])) == Some(Ordering::Less));
}

use std::cmp::Ordering;

use cadmus::hbam::path::HBAMPath;

#[test]
fn path_path_cmp() {
    assert!(HBAMPath::new(vec!["3", "17"]) > HBAMPath::new(vec!["2", "45"]));
    assert!(HBAMPath::new(vec!["1", "17", "19"]) < HBAMPath::new(vec!["2", "45"]));
    assert!(HBAMPath::new(vec!["3", "17"]) != HBAMPath::new(vec!["3"]));
    assert!(HBAMPath::new(vec!["3", "17"]).partial_cmp(&HBAMPath::new(vec!["3"])) == Some(Ordering::Equal));
    assert!(HBAMPath::new(vec!["3", "17"]).partial_cmp(&HBAMPath::new(vec!["17"])) == Some(Ordering::Less));
}

use hostsnap::cpu::{split_list, CpuInfo};

fn strings(xs: &[&str]) -> Vec<String> {
    xs.iter().map(|x| x.to_string()).collect()
}

#[test]
fn test_split_list_blocks() {
    let lines = strings(&["a : 1", "b : 2", "", "c : 3", ""]);
    let blocks = split_list(lines, "");
    assert_eq!(blocks.len(), 2);
    assert_eq!(blocks[0], strings(&["a : 1", "b : 2"]));
    assert_eq!(blocks[1], strings(&["c : 3"]));
}

#[test]
fn test_split_list_drops_trailing_run() {
    let lines = strings(&["a", "", "b"]);
    let blocks = split_list(lines, "");
    assert_eq!(blocks.len(), 1);
    assert_eq!(blocks[0], strings(&["a"]));

    let none: Vec<String> = strings(&["a", "b"]);
    assert_eq!(split_list(none, "").len(), 0);
}

#[test]
fn test_split_list_adjacent_separators() {
    let lines = strings(&["", "", "x", ""]);
    let blocks = split_list(lines, "");
    assert_eq!(blocks.len(), 3);
    assert!(blocks[0].is_empty());
    assert!(blocks[1].is_empty());
    assert_eq!(blocks[2], strings(&["x"]));
}

#[test]
fn test_cpu_field_names() {
    let block = strings(&[
        "processor\t: 0",
        "vendor_id\t: GenuineIntel",
        "model name\t: a cpu",
        "cache size\t: 512 KB",
    ]);
    let info = CpuInfo::from_block(&block);
    assert_eq!(
        info.field_names,
        strings(&["processor", "vendor_id", "model name", "cache size"])
    );
}

#[test]
fn test_cpu_field_names_without_colon() {
    let block = strings(&["power management:", "oddity"]);
    let info = CpuInfo::from_block(&block);
    assert_eq!(info.field_names, strings(&["power management", "oddity"]));
}

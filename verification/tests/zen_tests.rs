use zentop::topology::{Ccd, ZenGeneration, ZenTopology};
use zentop::zen::{classify_family_model, detect_from_cpuinfo, detect_zen_generation};

fn topology_with(ccd_count: usize, total_cores: usize) -> ZenTopology {
    let mut t = ZenTopology::default();
    t.ccds = (0..ccd_count)
        .map(|id| Ccd { id, package_id: 0, cores: Vec::new() })
        .collect();
    t.total_cores = total_cores;
    t
}

#[test]
fn generation_bands() {
    assert_eq!(detect_zen_generation(&topology_with(0, 8)), ZenGeneration::Unknown);
    assert_eq!(detect_zen_generation(&topology_with(1, 0)), ZenGeneration::Unknown);
    assert_eq!(detect_zen_generation(&topology_with(1, 4)), ZenGeneration::Zen);
    assert_eq!(detect_zen_generation(&topology_with(2, 2)), ZenGeneration::Zen);
    assert_eq!(detect_zen_generation(&topology_with(1, 8)), ZenGeneration::Zen3);
    assert_eq!(detect_zen_generation(&topology_with(2, 12)), ZenGeneration::Zen3);
    assert_eq!(detect_zen_generation(&topology_with(1, 16)), ZenGeneration::Zen4);
    assert_eq!(detect_zen_generation(&topology_with(1, 17)), ZenGeneration::Unknown);
    // More dies than cores: the ratio rounds to zero, which is unknown.
    assert_eq!(detect_zen_generation(&topology_with(4, 2)), ZenGeneration::Unknown);
}

#[test]
fn family_model_table() {
    assert_eq!(classify_family_model(23, 1), Some(ZenGeneration::Zen));
    assert_eq!(classify_family_model(23, 31), Some(ZenGeneration::Zen));
    assert_eq!(classify_family_model(23, 0), Some(ZenGeneration::Zen2));
    assert_eq!(classify_family_model(23, 49), Some(ZenGeneration::Zen2));
    assert_eq!(classify_family_model(23, 200), Some(ZenGeneration::Zen2));
    assert_eq!(classify_family_model(25, 0), Some(ZenGeneration::Zen3));
    assert_eq!(classify_family_model(25, 16), Some(ZenGeneration::Zen4));
    assert_eq!(classify_family_model(25, 33), Some(ZenGeneration::Zen3));
    assert_eq!(classify_family_model(25, 97), Some(ZenGeneration::Zen4));
    assert_eq!(classify_family_model(26, 68), Some(ZenGeneration::Zen5));
    assert_eq!(classify_family_model(6, 100), None);
    assert_eq!(classify_family_model(24, 1), None);
}

fn lines(text: &[&str]) -> Vec<Vec<u8>> {
    text.iter().map(|l| l.as_bytes().to_vec()).collect()
}

#[test]
fn cpuinfo_parses_family_and_model() {
    let input = lines(&[
        "processor\t: 0",
        "vendor_id\t: AuthenticAMD",
        "cpu family\t: 25",
        "model\t\t: 33",
        "model name\t: AMD Ryzen 9 5950X 16-Core Processor",
        "stepping\t: 0",
    ]);
    assert_eq!(detect_from_cpuinfo(&input), Some(ZenGeneration::Zen3));
}

#[test]
fn cpuinfo_last_value_wins() {
    let input = lines(&[
        "cpu family\t: 23",
        "model\t\t: 1",
        "cpu family\t: 26",
        "model\t\t: 68",
    ]);
    assert_eq!(detect_from_cpuinfo(&input), Some(ZenGeneration::Zen5));
}

#[test]
fn cpuinfo_missing_model_gives_none() {
    let input = lines(&["cpu family\t: 25"]);
    assert_eq!(detect_from_cpuinfo(&input), None);
}

#[test]
fn cpuinfo_unparsable_value_gives_none() {
    let input = lines(&["cpu family\t: abc", "model\t\t: 33"]);
    assert_eq!(detect_from_cpuinfo(&input), None);
}

#[test]
fn cpuinfo_model_name_is_not_model() {
    let input = lines(&["cpu family\t: 25", "model name\t: 33"]);
    assert_eq!(detect_from_cpuinfo(&input), None);
}

#[test]
fn cpuinfo_unknown_family_gives_none() {
    let input = lines(&["cpu family\t: 6", "model\t\t: 158"]);
    assert_eq!(detect_from_cpuinfo(&input), None);
}

#[test]
fn cpuinfo_empty_gives_none() {
    let input: Vec<Vec<u8>> = Vec::new();
    assert_eq!(detect_from_cpuinfo(&input), None);
}

#[test]
fn cpuinfo_overflowing_value_gives_none() {
    let input = lines(&["cpu family\t: 99999999999999999999", "model\t\t: 1"]);
    assert_eq!(detect_from_cpuinfo(&input), None);
}

#[test]
fn generation_labels() {
    assert_eq!(ZenGeneration::Zen.label(), "Zen");
    assert_eq!(ZenGeneration::Zen3.label(), "Zen 3");
    assert_eq!(ZenGeneration::Unknown.label(), "Unknown");
}

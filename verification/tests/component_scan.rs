use cadenza::component_scan::{add_instantiations, count_component_core_instances};

// Component binaries written out by hand, section by section, in the
// encoding the text format `(component ...)` compiles to.

const COMPONENT_HEADER: [u8; 8] = [0x00, 0x61, 0x73, 0x6d, 0x0d, 0x00, 0x01, 0x00];

/// `(core module (table 1 funcref))`, as a core module section.
fn core_module_with_table() -> Vec<u8> {
    let module: Vec<u8> = vec![
        0x00, 0x61, 0x73, 0x6d, 0x01, 0x00, 0x00, 0x00, // module header
        0x04, 0x04, 0x01, 0x70, 0x00, 0x01, // table section: one funcref table, min 1
    ];
    section(0x01, &module)
}

/// A core instance section with `n` entries `(instantiate 0)`.
fn core_instances(n: u8) -> Vec<u8> {
    let mut body = vec![n];
    for _ in 0..n {
        body.extend_from_slice(&[0x00, 0x00, 0x00]);
    }
    section(0x02, &body)
}

fn section(id: u8, body: &[u8]) -> Vec<u8> {
    let mut out = vec![id, body.len() as u8];
    out.extend_from_slice(body);
    out
}

fn component(sections: &[Vec<u8>]) -> Vec<u8> {
    let mut out = COMPONENT_HEADER.to_vec();
    for s in sections {
        out.extend_from_slice(s);
    }
    out
}

#[test]
fn count_component_core_instances_counts_top_level_entries() {
    let bytes = component(&[core_module_with_table(), core_instances(1), core_instances(1)]);
    assert_eq!(count_component_core_instances(&bytes).unwrap(), 2);
}

#[test]
fn count_component_core_instances_descends_into_nested_components() {
    let inner = component(&[core_module_with_table(), core_instances(1)]);
    let bytes = component(&[core_module_with_table(), core_instances(1), section(0x04, &inner)]);
    assert_eq!(count_component_core_instances(&bytes).unwrap(), 2);
}

#[test]
fn count_component_core_instances_zero_when_no_instantiations() {
    let bytes = component(&[core_module_with_table()]);
    assert_eq!(count_component_core_instances(&bytes).unwrap(), 0);
}

#[test]
fn count_component_core_instances_rejects_malformed_bytes() {
    let mut bytes = b"\0asm\x0d\0\x01\0".to_vec();
    bytes.extend_from_slice(&[0xff, 0xff, 0xff, 0xff]);
    assert!(count_component_core_instances(&bytes).is_err());
}

#[test]
fn export_bag_instances_do_not_count() {
    // One `(instantiate 0)` and one export bag `(instance)` with no exports.
    let body = vec![0x02, 0x00, 0x00, 0x00, 0x01, 0x00];
    let bytes = component(&[core_module_with_table(), section(0x02, &body)]);
    assert_eq!(count_component_core_instances(&bytes).unwrap(), 1);
}

#[test]
fn instantiation_count_saturates() {
    assert_eq!(add_instantiations(u32::MAX - 1, &[true, false, true]), u32::MAX);
    assert_eq!(add_instantiations(3, &[true, false, true]), 5);
    assert_eq!(add_instantiations(3, &[]), 3);
}

use pci::errors::PciError;
use pci::region::{RegionKind, RegionTree};

fn tree() -> (RegionTree, usize, usize, usize, usize) {
    let mut regions = RegionTree::new();
    let container = regions.init_container_region(RegionKind::Memory, 0x1_0000);
    let a = regions.init_container_region(RegionKind::Memory, 0x1000);
    let b = regions.init_container_region(RegionKind::Memory, 0x2000);
    let ports = regions.init_container_region(RegionKind::Io, 0x100);
    (regions, container, a, b, ports)
}

#[test]
fn regions_get_their_handles_in_order() {
    let (regions, container, a, b, ports) = tree();
    assert_eq!((container, a, b, ports), (0, 1, 2, 3));
    assert_eq!(regions.len(), 4);
    assert_eq!(regions.region_size(b), Some(0x2000));
    assert_eq!(regions.region_kind(ports), Some(RegionKind::Io));
    assert_eq!(regions.region_kind(a), Some(RegionKind::Memory));
    assert_eq!(regions.region_size(4), None);
    assert_eq!(regions.region_kind(4), None);
}

#[test]
fn add_subregion_appends_an_entry() {
    let (mut regions, container, a, b, _) = tree();
    regions.add_subregion(container, a, 0x3000).unwrap();
    regions.add_subregion(container, b, 0x1000).unwrap();
    let entries = &regions.regions[container].subregions;
    assert_eq!(entries.len(), 2);
    assert_eq!((entries[0].region, entries[0].offset), (a, 0x3000));
    assert_eq!((entries[1].region, entries[1].offset), (b, 0x1000));
    assert_eq!(regions.find_subregion(container, b), Some(1));
    assert_eq!(regions.find_subregion(container, container), None);
    assert_eq!(regions.find_subregion(9, a), None);
    assert_eq!(regions.subregion_offset(container, a), Some(0x3000));
    assert_eq!(regions.subregion_offset(a, container), None);
}

#[test]
fn add_subregion_refuses_an_overlap() {
    let (mut regions, container, a, b, _) = tree();
    regions.add_subregion(container, a, 0x3000).unwrap();
    // b would cover 0x2800..0x4800
    assert!(matches!(
        regions.add_subregion(container, b, 0x2800),
        Err(PciError::RegionOverlap { container: 0, offset: 0x2800, size: 0x2000 })
    ));
    // b would cover 0x3fff..0x5fff
    assert!(regions.add_subregion(container, b, 0x3fff).is_err());
    assert_eq!(regions.regions[container].subregions.len(), 1);
    // touching ranges do not overlap
    regions.add_subregion(container, b, 0x4000).unwrap();
    assert_eq!(regions.regions[container].subregions.len(), 2);
}

#[test]
fn overlap_is_judged_without_wrapping() {
    let mut regions = RegionTree::new();
    let container = regions.init_container_region(RegionKind::Memory, u64::MAX);
    let whole = regions.init_container_region(RegionKind::Memory, u64::MAX);
    let page = regions.init_container_region(RegionKind::Memory, 0x1000);
    regions.add_subregion(container, page, u64::MAX - 0xfff).unwrap();
    assert!(regions.overlaps(container, u64::MAX - 1, u64::MAX));
    assert!(regions.overlaps(container, 0, u64::MAX));
    assert!(!regions.overlaps(container, 0, u64::MAX - 0xfff));
    assert!(!regions.overlaps(container, u64::MAX, 0));
    assert!(regions.add_subregion(container, whole, 1).is_err());
}

#[test]
fn an_empty_region_overlaps_nothing() {
    let mut regions = RegionTree::new();
    let container = regions.init_container_region(RegionKind::Io, 0x100);
    let empty = regions.init_container_region(RegionKind::Io, 0);
    let full = regions.init_container_region(RegionKind::Io, 0x100);
    regions.add_subregion(container, full, 0).unwrap();
    regions.add_subregion(container, empty, 0x10).unwrap();
    assert_eq!(regions.regions[container].subregions.len(), 2);
}

#[test]
fn add_subregion_refuses_bad_handles_and_kinds() {
    let (mut regions, container, a, _, ports) = tree();
    assert!(matches!(
        regions.add_subregion(7, a, 0),
        Err(PciError::UnknownHandle { handle: 7 })
    ));
    assert!(matches!(
        regions.add_subregion(container, 8, 0),
        Err(PciError::UnknownHandle { handle: 8 })
    ));
    assert!(matches!(
        regions.add_subregion(container, ports, 0),
        Err(PciError::RegionKindMismatch { container: 0, region: 3 })
    ));
    regions.add_subregion(container, a, 0).unwrap();
    assert!(matches!(
        regions.add_subregion(container, a, 0x8000),
        Err(PciError::RegionAlreadyMapped { container: 0, region: 1 })
    ));
    assert_eq!(regions.regions[container].subregions.len(), 1);
}

#[test]
fn delete_subregion_takes_the_entry_out() {
    let (mut regions, container, a, b, _) = tree();
    regions.add_subregion(container, a, 0).unwrap();
    regions.add_subregion(container, b, 0x1000).unwrap();
    regions.delete_subregion(container, a).unwrap();
    let entries = &regions.regions[container].subregions;
    assert_eq!(entries.len(), 1);
    assert_eq!((entries[0].region, entries[0].offset), (b, 0x1000));
    assert!(matches!(
        regions.delete_subregion(container, a),
        Err(PciError::RegionNotMapped { container: 0, region: 1 })
    ));
    assert!(matches!(
        regions.delete_subregion(9, a),
        Err(PciError::UnknownHandle { handle: 9 })
    ));
    // the place is free again
    regions.add_subregion(container, a, 0).unwrap();
}

#[test]
fn remap_subregion_is_idempotent() {
    let (mut regions, container, a, b, _) = tree();
    regions.add_subregion(container, b, 0x4000).unwrap();
    regions.remap_subregion(container, a, 0).unwrap();
    regions.remap_subregion(container, a, 0).unwrap();
    regions.remap_subregion(container, a, 0).unwrap();
    assert_eq!(regions.regions[container].subregions.len(), 2);
    assert_eq!(regions.subregion_offset(container, a), Some(0));
    // moving it is a remap too
    regions.remap_subregion(container, a, 0x2000).unwrap();
    assert_eq!(regions.subregion_offset(container, a), Some(0x2000));
    assert_eq!(regions.regions[container].subregions.len(), 2);
}

#[test]
fn remap_subregion_into_a_taken_place_leaves_the_region_unmapped() {
    let (mut regions, container, a, b, _) = tree();
    regions.add_subregion(container, b, 0x4000).unwrap();
    regions.add_subregion(container, a, 0).unwrap();
    assert!(matches!(
        regions.remap_subregion(container, a, 0x4800),
        Err(PciError::RegionOverlap { container: 0, offset: 0x4800, size: 0x1000 })
    ));
    assert_eq!(regions.subregion_offset(container, a), None);
    assert_eq!(regions.subregion_offset(container, b), Some(0x4000));
    regions.remap_subregion(container, a, 0).unwrap();
    assert_eq!(regions.subregion_offset(container, a), Some(0));
}

#[test]
fn is_wf_tells_a_tree_in_order() {
    let (mut regions, container, a, b, ports) = tree();
    assert!(regions.is_wf());
    regions.add_subregion(container, a, 0).unwrap();
    regions.add_subregion(container, b, 0x1000).unwrap();
    assert!(regions.is_wf());
    // two entries that share an address
    regions.regions[container].subregions[1].offset = 0x800;
    assert!(!regions.is_wf());
    regions.regions[container].subregions[1].offset = 0x1000;
    assert!(regions.is_wf());
    // a region that is mapped twice
    regions.regions[container].subregions[1].region = a;
    assert!(!regions.is_wf());
    // an entry of another address space
    regions.regions[container].subregions[1].region = ports;
    assert!(!regions.is_wf());
    // an entry without region
    regions.regions[container].subregions[1].region = 17;
    assert!(!regions.is_wf());
    regions.regions[container].subregions[1].region = b;
    assert!(regions.is_wf());
}

#[test]
fn can_add_subregion_tells_without_changing() {
    let (mut regions, container, a, b, ports) = tree();
    assert!(regions.can_add_subregion(container, a, 0).is_ok());
    assert!(regions.regions[container].subregions.is_empty());
    regions.add_subregion(container, a, 0).unwrap();
    assert!(matches!(
        regions.can_add_subregion(container, a, 0x4000),
        Err(PciError::RegionAlreadyMapped { container: 0, region: 1 })
    ));
    assert!(matches!(
        regions.can_add_subregion(container, b, 0xfff),
        Err(PciError::RegionOverlap { container: 0, offset: 0xfff, size: 0x2000 })
    ));
    assert!(matches!(
        regions.can_add_subregion(container, ports, 0x4000),
        Err(PciError::RegionKindMismatch { container: 0, region: 3 })
    ));
    assert!(matches!(
        regions.can_add_subregion(container, 9, 0),
        Err(PciError::UnknownHandle { handle: 9 })
    ));
    assert!(regions.can_add_subregion(container, b, 0x1000).is_ok());
    assert_eq!(regions.regions[container].subregions.len(), 1);
}

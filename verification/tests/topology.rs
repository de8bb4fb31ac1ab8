use pci::bus::{pci_devfn, pci_func, pci_slot, PciBus};
use pci::config::PCI_CONFIG_SPACE_SIZE;
use pci::errors::PciError;
use pci::host::{init_multifunction, PciHost};
use pci::mem_layout::{aarch64, x86_64};
use pci::msix::init_msix;
use pci::config::PciConfig;
use pci::region::{RegionKind, RegionTree};

#[test]
fn devfn_is_slot_and_function() {
    assert_eq!(pci_slot(0x2b), 5);
    assert_eq!(pci_func(0x2b), 3);
    assert_eq!(pci_devfn(5, 3), 0x2b);
    assert_eq!(pci_devfn(31, 7), 0xff);
    assert_eq!(pci_devfn(32, 8), 0);
    assert_eq!(pci_slot(8), 1);
    assert_eq!(pci_func(8), 0);
}

#[test]
fn a_new_bus_is_empty() {
    let bus = PciBus::new("pcie.0".to_string(), 3, 4);
    assert_eq!(bus.name, "pcie.0");
    assert!(bus.devices.is_empty());
    assert!(bus.child_buses.is_empty());
    assert_eq!(bus.parent_bridge, None);
    assert_eq!(bus.io_region, 3);
    assert_eq!(bus.mem_region, 4);
    assert_eq!(bus.get_device(0), None);
}

#[test]
fn a_new_host_has_a_root_bus() {
    let host = PciHost::new(0x1000, 0x2000);
    assert_eq!(host.root_bus(), 0);
    assert_eq!(host.buses.len(), 1);
    assert_eq!(host.buses[0].name, "pcie.0");
    assert_eq!(host.devices.len(), 0);
    assert_eq!(host.regions.region_kind(host.buses[0].io_region), Some(RegionKind::Io));
    assert_eq!(host.regions.region_size(host.buses[0].io_region), Some(0x1000));
    assert_eq!(host.regions.region_kind(host.buses[0].mem_region), Some(RegionKind::Memory));
    assert_eq!(host.regions.region_size(host.buses[0].mem_region), Some(0x2000));
    assert_eq!(host.find_device(0, 0), None);
    assert_eq!(host.find_device_by_name(&"pcie.1".to_string()), None);
}

#[test]
fn init_multifunction_writes_the_header_type() {
    let bus = PciBus::new("pcie.0".to_string(), 0, 1);
    let mut config = vec![0u8; 64];
    config[0x0e] = 0x01;
    init_multifunction(true, &mut config, 8, &bus, &Vec::new()).unwrap();
    assert_eq!(config[0x0e], 0x81);
    init_multifunction(false, &mut config, 8, &bus, &Vec::new()).unwrap();
    assert_eq!(config[0x0e], 0x01);
    init_multifunction(false, &mut config, 9, &bus, &Vec::new()).unwrap();
    assert_eq!(config[0x0e], 0x01);
}

#[test]
fn init_msix_sets_up_capability_and_region() {
    let mut regions = RegionTree::new();
    let mut config = PciConfig::new(PCI_CONFIG_SPACE_SIZE, 6);
    init_msix(2, 300, &mut config, &mut regions, 0x18).unwrap();
    assert_eq!(config.last_cap_end, 76);
    assert_eq!(config.config[64], 0x11);
    // 300 vectors, table and pending bits behind register 2
    assert_eq!(&config.config[66..68], &[0x2b, 0x01]);
    assert_eq!(&config.config[68..72], &[0x02, 0x00, 0x00, 0x00]);
    assert_eq!(&config.config[72..76], &[0xc2, 0x12, 0x00, 0x00]);
    assert_eq!(&config.write_mask[66..68], &[0x00, 0xc0]);
    let msix = config.msix.unwrap();
    assert_eq!(msix.cap_offset, 64);
    assert_eq!(msix.table_size, 4800);
    assert_eq!(msix.pba_size, 40);
    assert_eq!(msix.dev_id, 0x18);
    // 4840 bytes need a region of 8 KiB
    assert_eq!(regions.region_size(0), Some(0x2000));
    assert_eq!(regions.region_kind(0), Some(RegionKind::Memory));
    assert_eq!(config.bars[2].size, 0x2000);
    assert_eq!(config.bars[2].region, Some(0));
    assert_eq!(&config.write_mask[0x18..0x1c], &[0x00, 0xe0, 0xff, 0xff]);
}

#[test]
fn init_msix_for_one_vector_takes_a_page() {
    let mut regions = RegionTree::new();
    let mut config = PciConfig::new(PCI_CONFIG_SPACE_SIZE, 1);
    init_msix(0, 1, &mut config, &mut regions, 0).unwrap();
    assert_eq!(regions.region_size(0), Some(0x1000));
    let msix = config.msix.unwrap();
    assert_eq!(msix.table_size, 16);
    assert_eq!(msix.pba_size, 8);
}

#[test]
fn init_msix_for_the_most_vectors() {
    let mut regions = RegionTree::new();
    let mut config = PciConfig::new(PCI_CONFIG_SPACE_SIZE, 1);
    init_msix(0, 2048, &mut config, &mut regions, 0).unwrap();
    // 32768 + 256 bytes need 64 KiB
    assert_eq!(regions.region_size(0), Some(0x1_0000));
    assert_eq!(&config.config[66..68], &[0xff, 0x07]);
}

#[test]
fn init_msix_refuses_what_cannot_be() {
    let mut regions = RegionTree::new();
    let mut config = PciConfig::new(PCI_CONFIG_SPACE_SIZE, 1);
    assert!(matches!(
        init_msix(0, 0, &mut config, &mut regions, 0),
        Err(PciError::InvalidVectorNumber { vector_nr: 0 })
    ));
    assert!(matches!(
        init_msix(0, 2049, &mut config, &mut regions, 0),
        Err(PciError::InvalidVectorNumber { vector_nr: 2049 })
    ));
    assert!(matches!(
        init_msix(1, 1, &mut config, &mut regions, 0),
        Err(PciError::InvalidBar { id: 1 })
    ));
    config.last_cap_end = 248;
    assert!(matches!(
        init_msix(0, 1, &mut config, &mut regions, 0),
        Err(PciError::AddPciCap { id: 0x11, size: 12 })
    ));
    assert_eq!(regions.len(), 0);
    assert_eq!(config.config, vec![0u8; 256]);
    assert!(config.msix.is_none());
}

#[test]
fn aarch64_layout() {
    assert_eq!(aarch64::mem_layout(aarch64::LayoutEntryType::Flash), (0, 0x0800_0000));
    assert_eq!(aarch64::mem_layout(aarch64::LayoutEntryType::GicDist), (0x0800_0000, 0x0001_0000));
    assert_eq!(aarch64::mem_layout(aarch64::LayoutEntryType::GicCpu), (0x0801_0000, 0x0001_0000));
    assert_eq!(aarch64::mem_layout(aarch64::LayoutEntryType::GicIts), (0x0808_0000, 0x0002_0000));
    assert_eq!(aarch64::mem_layout(aarch64::LayoutEntryType::GicRedist), (0x080A_0000, 0x00F6_0000));
    assert_eq!(aarch64::mem_layout(aarch64::LayoutEntryType::Uart), (0x0900_0000, 0x0000_1000));
    assert_eq!(aarch64::mem_layout(aarch64::LayoutEntryType::Rtc), (0x0901_0000, 0x0000_1000));
    assert_eq!(aarch64::mem_layout(aarch64::LayoutEntryType::FwCfg), (0x0902_0000, 0x0000_0018));
    assert_eq!(aarch64::mem_layout(aarch64::LayoutEntryType::Mmio), (0x0A00_0000, 0x0000_0200));
    assert_eq!(aarch64::mem_layout(aarch64::LayoutEntryType::PcieMmio), (0x1000_0000, 0x2EFF_0000));
    assert_eq!(aarch64::mem_layout(aarch64::LayoutEntryType::PciePio), (0x3EFF_0000, 0x0001_0000));
    assert_eq!(aarch64::mem_layout(aarch64::LayoutEntryType::PcieEcam), (0x3F00_0000, 0x0100_0000));
    assert_eq!(aarch64::mem_layout(aarch64::LayoutEntryType::Mem), (0x4000_0000, 0x80_0000_0000));
    assert_eq!(aarch64::mem_layout(aarch64::LayoutEntryType::HighGicRedist), (256 << 30, 0x200_0000));
    assert_eq!(aarch64::mem_layout(aarch64::LayoutEntryType::HighPcieEcam), (257 << 30, 0x1000_0000));
    assert_eq!(aarch64::mem_layout(aarch64::LayoutEntryType::HighPcieMmio), (258 << 30, 512 << 30));
    assert_eq!(aarch64::LayoutEntryType::Flash.index(), 0);
    assert_eq!(aarch64::LayoutEntryType::PcieMmio.index(), 9);
    assert_eq!(aarch64::LayoutEntryType::HighPcieMmio.index(), 15);
    assert_eq!(aarch64::LAYOUT_ENTRIES, 16);
}

#[test]
fn x86_64_layout() {
    assert_eq!(x86_64::mem_layout(x86_64::LayoutEntryType::MemBelow4g), (0, 0xC000_0000));
    assert_eq!(x86_64::mem_layout(x86_64::LayoutEntryType::PcieMmio), (0xC000_0000, 0x2000_0000));
    assert_eq!(x86_64::mem_layout(x86_64::LayoutEntryType::PcieEcam), (0xE000_0000, 0x1000_0000));
    assert_eq!(x86_64::mem_layout(x86_64::LayoutEntryType::AcpiGed), (0xF000_0000, 0x10_0000));
    assert_eq!(x86_64::mem_layout(x86_64::LayoutEntryType::Mmio), (0xF010_0000, 0x200));
    assert_eq!(x86_64::mem_layout(x86_64::LayoutEntryType::IoApic), (0xFEC0_0000, 0x10_0000));
    assert_eq!(x86_64::mem_layout(x86_64::LayoutEntryType::LocalApic), (0xFEE0_0000, 0x10_0000));
    assert_eq!(x86_64::mem_layout(x86_64::LayoutEntryType::MemAbove4g), (0x1_0000_0000, 0x80_0000_0000));
    assert_eq!(x86_64::LayoutEntryType::MemBelow4g.index(), 0);
    assert_eq!(x86_64::LayoutEntryType::MemAbove4g.index(), 7);
    assert_eq!(x86_64::LAYOUT_ENTRIES, 8);
}

#[test]
fn x86_64_layout_is_ordered_and_disjoint() {
    let entries = [
        x86_64::LayoutEntryType::MemBelow4g,
        x86_64::LayoutEntryType::PcieMmio,
        x86_64::LayoutEntryType::PcieEcam,
        x86_64::LayoutEntryType::AcpiGed,
        x86_64::LayoutEntryType::Mmio,
        x86_64::LayoutEntryType::IoApic,
        x86_64::LayoutEntryType::LocalApic,
        x86_64::LayoutEntryType::MemAbove4g,
    ];
    for (i, entry) in entries.iter().enumerate() {
        assert_eq!(entry.index(), i);
        if i > 0 {
            let (base, size) = x86_64::mem_layout(entries[i - 1]);
            assert!(base + size <= x86_64::mem_layout(*entry).0);
        }
    }
}

#[test]
fn is_wf_tells_a_host_in_order() {
    let mut host = PciHost::new(1 << 16, u64::MAX);
    assert!(host.is_wf());
    let port = pci::root_port::RootPort::new("pcie.1".to_string(), 8, 0, 0, false, &mut host);
    port.realize(&mut host).unwrap();
    assert!(host.is_wf());
    host.write_config(0, 4, &[3, 0]).unwrap();
    assert!(host.is_wf());
    // a function that does not know its place
    host.devices[0].devfn = 9;
    assert!(!host.is_wf());
    host.devices[0].devfn = 8;
    assert!(host.is_wf());
    // a slot that names no function
    host.buses[0].devices.insert(16, 5);
    assert!(!host.is_wf());
    host.buses[0].devices.remove(&16);
    assert!(host.is_wf());
    // a bus whose container is of the wrong address space
    host.buses[1].io_region = host.buses[1].mem_region;
    assert!(!host.is_wf());
}

use pci::config::{
    COMMAND, COMMAND_IO_SPACE, COMMAND_MEMORY_SPACE, DEVICE_ID, HEADER_TYPE, PCIE_CONFIG_SPACE_SIZE,
    STATUS, SUB_CLASS_CODE, VENDOR_ID,
};
use pci::errors::PciError;
use pci::host::PciHost;
use pci::region::RegionKind;
use pci::root_port::RootPort;

fn create_pci_host() -> PciHost {
    PciHost::new(1 << 16, u64::MAX)
}

fn host_with_port_at_8() -> (PciHost, usize) {
    let mut pci_host = create_pci_host();
    let root_bus = pci_host.root_bus();
    let root_port = RootPort::new("pcie.1".to_string(), 8, 0, root_bus, false, &mut pci_host);
    root_port.realize(&mut pci_host).unwrap();
    let device = pci_host.find_device(0, 8).unwrap();
    (pci_host, device)
}

#[test]
fn test_read_config() {
    let mut pci_host = create_pci_host();
    let root_bus = pci_host.root_bus();
    let root_port = RootPort::new("pcie.1".to_string(), 8, 0, root_bus, false, &mut pci_host);
    root_port.realize(&mut pci_host).unwrap();

    let root_port = pci_host.find_device(0, 8).unwrap();
    let mut buf = [1_u8; 4];
    pci_host.devices[root_port].read_config(PCIE_CONFIG_SPACE_SIZE - 1, &mut buf);
    assert_eq!(buf, [1_u8; 4]);
}

#[test]
fn test_write_config() {
    let mut pci_host = create_pci_host();
    let root_bus = pci_host.root_bus();
    let root_port = RootPort::new("pcie.1".to_string(), 8, 0, root_bus, false, &mut pci_host);
    root_port.realize(&mut pci_host).unwrap();
    let root_port = pci_host.find_device(0, 8).unwrap();

    // Invalid write.
    let data = [1_u8; 4];
    pci_host.write_config(root_port, PCIE_CONFIG_SPACE_SIZE - 1, &data).unwrap();
    let mut buf = [0_u8];
    pci_host.devices[root_port].read_config(PCIE_CONFIG_SPACE_SIZE - 1, &mut buf);
    assert_eq!(buf, [0_u8]);
}

#[test]
fn new_port_has_its_windows_and_is_on_no_bus() {
    let mut pci_host = create_pci_host();
    let port = RootPort::new("pcie.1".to_string(), 8, 3, 0, true, &mut pci_host);
    assert_eq!(port.name(), "pcie.1");
    assert_eq!(port.devfn, 8);
    assert_eq!(port.port_num, 3);
    assert_eq!(port.parent_bus, 0);
    assert_eq!(port.dev_id, 0);
    assert!(port.multifunction);
    assert_eq!(port.config.config, vec![0u8; 4096]);
    assert_eq!(port.config.write_mask, vec![0u8; 4096]);
    assert_eq!(port.config.bars.len(), 2);
    assert_eq!(port.config.last_cap_end, 64);
    // the two windows and the secondary bus over them
    assert_eq!(port.io_region, 2);
    assert_eq!(port.mem_region, 3);
    assert_eq!(port.sec_bus, 1);
    assert_eq!(pci_host.regions.len(), 4);
    assert_eq!(pci_host.regions.region_size(port.io_region), Some(1 << 16));
    assert_eq!(pci_host.regions.region_kind(port.io_region), Some(RegionKind::Io));
    assert_eq!(pci_host.regions.region_size(port.mem_region), Some(u64::MAX));
    assert_eq!(pci_host.regions.region_kind(port.mem_region), Some(RegionKind::Memory));
    assert_eq!(pci_host.buses.len(), 2);
    let secondary = &pci_host.buses[port.sec_bus];
    assert_eq!(secondary.name, "pcie.1");
    assert_eq!(secondary.io_region, port.io_region);
    assert_eq!(secondary.mem_region, port.mem_region);
    assert_eq!(secondary.parent_bridge, None);
    assert!(secondary.devices.is_empty());
    assert!(secondary.child_buses.is_empty());
    // the parent bus is untouched, and the port is in no device map
    let root = &pci_host.buses[0];
    assert!(root.devices.is_empty());
    assert!(root.child_buses.is_empty());
    assert!(pci_host.regions.regions[root.io_region].subregions.is_empty());
    assert!(pci_host.regions.regions[root.mem_region].subregions.is_empty());
    assert_eq!(pci_host.devices.len(), 0);
    assert_eq!(pci_host.find_device(0, 8), None);
    assert!(pci_host.is_wf());
}

#[test]
fn a_port_takes_writes_before_it_is_on_its_bus() {
    let mut pci_host = create_pci_host();
    let mut port = RootPort::new("pcie.1".to_string(), 8, 0, 0, false, &mut pci_host);
    port.init_write_mask().unwrap();
    let outcome = port.write_config(0x3c, &[0x0b], &pci_host.buses[0], &mut pci_host.regions);
    assert!(outcome.accepted);
    assert_eq!(port.config.config[0x3c], 0x0b);
    let outcome = port.write_config(4095, &[1, 1], &pci_host.buses[0], &mut pci_host.regions);
    assert!(!outcome.accepted);
    assert_eq!(port.config.config[4095], 0);
    port.realize(&mut pci_host).unwrap();
    assert_eq!(pci_host.find_device(0, 8), Some(0));
}

#[test]
fn realize_fills_in_the_header() {
    let (pci_host, device) = host_with_port_at_8();
    let config = &pci_host.devices[device].config.config;
    assert_eq!(&config[VENDOR_ID as usize..VENDOR_ID as usize + 2], &[0x36, 0x1b]);
    assert_eq!(&config[DEVICE_ID as usize..DEVICE_ID as usize + 2], &[0x0c, 0x00]);
    assert_eq!(&config[SUB_CLASS_CODE as usize..SUB_CLASS_CODE as usize + 2], &[0x04, 0x06]);
    assert_eq!(config[HEADER_TYPE as usize], 0x01);
    assert_eq!(config[0x24], 0x01);
    assert_eq!(config[0x26], 0x01);
    // the status register shows a capability list, and the list starts at
    // the MSI-X capability, which points to the PCI Express capability
    assert_eq!(config[STATUS as usize], 0x10);
    assert_eq!(config[0x34], 124);
    assert_eq!(config[124], 0x11);
    assert_eq!(config[125], 64);
    assert_eq!(config[64], 0x10);
    assert_eq!(config[65], 0);
    assert_eq!(pci_host.devices[device].config.last_cap_end, 136);
}

#[test]
fn realize_shows_the_port_type_and_numbers() {
    let mut pci_host = create_pci_host();
    let port = RootPort::new("pcie.2".to_string(), 0x28, 7, 0, false, &mut pci_host);
    port.realize(&mut pci_host).unwrap();
    let device = pci_host.find_device(0, 0x28).unwrap();
    let config = &pci_host.devices[device].config.config;
    // version 2, root port, slot implemented
    assert_eq!(&config[66..68], &[0x42, 0x01]);
    // port number in the top byte of the link capabilities
    assert_eq!(&config[76..80], &[0x11, 0x00, 0x30, 0x07]);
    // slot 5 in the top bits of the slot capabilities
    assert_eq!(&config[84..88], &[0x7b, 0x00, 0x28, 0x00]);
    // one MSI-X vector, table and pending bits behind register 0
    assert_eq!(&config[126..128], &[0x00, 0x00]);
    assert_eq!(&config[128..132], &[0x00, 0x00, 0x00, 0x00]);
    assert_eq!(&config[132..136], &[0x10, 0x00, 0x00, 0x00]);
}

#[test]
fn realize_sets_the_masks() {
    let (pci_host, device) = host_with_port_at_8();
    let config = &pci_host.devices[device].config;
    assert_eq!(config.write_mask[0x0c], 0xff);
    assert_eq!(config.write_mask[0x3c], 0xff);
    assert_eq!(&config.write_mask[4..6], &[0x07, 0x05]);
    assert_eq!(&config.write_mask[0x18..0x1c], &[0xff, 0xff, 0xff, 0xff]);
    assert_eq!(&config.write_mask[0x1c..0x1e], &[0xf0, 0xf0]);
    assert_eq!(&config.write_mask[0x20..0x24], &[0xf0, 0xff, 0xf0, 0xff]);
    assert_eq!(&config.write_mask[0x24..0x28], &[0xf0, 0xff, 0xf0, 0xff]);
    assert_eq!(&config.write_mask[0x28..0x30], &[0xff; 8]);
    assert_eq!(&config.write_mask[0x3e..0x40], &[0xdf, 0x0b]);
    // the base address register of the MSI-X table: 4 KiB, 32-bit memory
    assert_eq!(&config.write_mask[0x10..0x14], &[0x00, 0xf0, 0xff, 0xff]);
    // the capabilities are read-only but for their control registers
    assert_eq!(&config.write_mask[64..72], &[0u8; 8]);
    assert_eq!(&config.write_mask[72..74], &[0x0f, 0x00]);
    assert_eq!(&config.write_mask[126..128], &[0x00, 0xc0]);
    // behind the capabilities everything is writable
    assert_eq!(config.write_mask[136], 0xff);
    assert_eq!(config.write_mask[4095], 0xff);
    assert_eq!(&config.write_clear_mask[6..8], &[0x00, 0xf9]);
    assert_eq!(&config.write_clear_mask[0x3e..0x40], &[0x00, 0x04]);
    assert_eq!(&config.write_clear_mask[74..76], &[0x0f, 0x00]);
    assert_eq!(&config.write_clear_mask[90..92], &[0x1f, 0x00]);
}

#[test]
fn realize_links_the_port_into_the_topology() {
    let (pci_host, device) = host_with_port_at_8();
    assert_eq!(device, 0);
    assert_eq!(pci_host.devices.len(), 1);
    assert_eq!(pci_host.buses.len(), 2);
    let port = &pci_host.devices[device];
    assert_eq!(port.sec_bus, 1);
    assert_eq!(port.io_region, 2);
    assert_eq!(port.mem_region, 3);
    let root = &pci_host.buses[0];
    assert_eq!(root.get_device(8), Some(0));
    assert_eq!(root.child_buses, vec![1]);
    let secondary = &pci_host.buses[1];
    assert_eq!(secondary.name, "pcie.1");
    assert_eq!(secondary.parent_bridge, Some(0));
    assert_eq!(secondary.io_region, 2);
    assert_eq!(secondary.mem_region, 3);
    assert!(secondary.devices.is_empty());
    // the windows lie at the start of the parent's containers
    assert_eq!(pci_host.regions.subregion_offset(0, 2), Some(0));
    assert_eq!(pci_host.regions.subregion_offset(1, 3), Some(0));
    assert_eq!(pci_host.regions.region_size(2), Some(1 << 16));
    assert_eq!(pci_host.regions.region_size(3), Some(u64::MAX));
    // the region of the MSI-X table has one page and is not mapped yet
    assert_eq!(pci_host.regions.region_size(4), Some(0x1000));
    assert_eq!(pci_host.regions.subregion_offset(3, 4), None);
    assert_eq!(port.config.bars[0].size, 0x1000);
    assert_eq!(port.config.bars[0].region, Some(4));
    assert_eq!(port.config.bars[0].address, u64::MAX);
}

#[test]
fn second_realize_at_the_same_devfn_is_a_conflict() {
    let mut pci_host = create_pci_host();
    let root_bus = pci_host.root_bus();
    let first = RootPort::new("pcie.1".to_string(), 8, 0, root_bus, false, &mut pci_host);
    assert!(first.realize(&mut pci_host).is_ok());
    let second = RootPort::new("pcie.2".to_string(), 8, 1, root_bus, false, &mut pci_host);
    match second.realize(&mut pci_host) {
        Err(PciError::DevfnConflict { devfn, name }) => {
            assert_eq!(devfn, 8);
            assert_eq!(name, "pcie.1");
        }
        other => panic!("expected a conflict, got {:?}", other),
    }
    // the first port is where it was; of the second only what its
    // construction made is there, linked to nothing
    assert_eq!(pci_host.devices.len(), 1);
    assert_eq!(pci_host.buses.len(), 3);
    assert_eq!(pci_host.buses[2].parent_bridge, None);
    assert_eq!(pci_host.buses[0].child_buses, vec![1]);
    assert_eq!(pci_host.regions.len(), 7);
    assert_eq!(pci_host.regions.regions[0].subregions.len(), 1);
    assert_eq!(pci_host.regions.regions[1].subregions.len(), 1);
    assert!(pci_host.is_wf());
    assert_eq!(pci_host.find_device(0, 8), Some(0));
    let by_name = pci_host.find_device_by_name(&"pcie.1".to_string()).unwrap();
    assert_eq!(by_name, 0);
    assert_eq!(pci_host.devices[by_name].name(), "pcie.1");
    assert_eq!(pci_host.find_device_by_name(&"pcie.2".to_string()), None);
}

#[test]
fn realize_on_a_missing_bus_is_refused() {
    let mut pci_host = create_pci_host();
    let port = RootPort::new("pcie.1".to_string(), 8, 0, 5, false, &mut pci_host);
    assert!(matches!(
        port.realize(&mut pci_host),
        Err(PciError::UnknownHandle { handle: 5 })
    ));
    assert_eq!(pci_host.devices.len(), 0);
    assert_eq!(pci_host.regions.len(), 4);
    assert!(pci_host.regions.regions[0].subregions.is_empty());
}

#[test]
fn realize_without_room_for_the_windows_is_refused() {
    let mut pci_host = create_pci_host();
    let first = RootPort::new("pcie.1".to_string(), 8, 0, 0, false, &mut pci_host);
    first.realize(&mut pci_host).unwrap();
    let second = RootPort::new("pcie.2".to_string(), 16, 1, 0, false, &mut pci_host);
    assert!(matches!(
        second.realize(&mut pci_host),
        Err(PciError::RegionOverlap { container: 0, offset: 0, size: 0x1_0000 })
    ));
    assert_eq!(pci_host.devices.len(), 1);
    assert_eq!(pci_host.buses[0].child_buses, vec![1]);
    assert_eq!(pci_host.regions.regions[0].subregions.len(), 1);
    assert_eq!(pci_host.regions.regions[1].subregions.len(), 1);
    assert_eq!(pci_host.find_device(0, 16), None);
}

#[test]
fn realize_twice_is_refused() {
    let (mut pci_host, device) = host_with_port_at_8();
    // a port that claims the secondary bus and the windows of the first
    let mut port = RootPort::new("pcie.2".to_string(), 16, 1, 0, false, &mut pci_host);
    port.sec_bus = pci_host.devices[device].sec_bus;
    port.io_region = pci_host.devices[device].io_region;
    port.mem_region = pci_host.devices[device].mem_region;
    assert!(matches!(port.realize(&mut pci_host), Err(PciError::AlreadyRealized)));
    assert_eq!(pci_host.devices.len(), 1);
}

#[test]
fn realize_with_a_foreign_secondary_bus_is_refused() {
    let mut pci_host = create_pci_host();
    let mut port = RootPort::new("pcie.1".to_string(), 8, 0, 0, false, &mut pci_host);
    port.sec_bus = 9;
    assert!(matches!(
        port.realize(&mut pci_host),
        Err(PciError::UnknownHandle { handle: 9 })
    ));
    // the parent bus cannot be the secondary bus
    let mut port = RootPort::new("pcie.1".to_string(), 8, 0, 0, false, &mut pci_host);
    port.sec_bus = 0;
    assert!(matches!(
        port.realize(&mut pci_host),
        Err(PciError::InvalidSecondaryBus { bus: 0 })
    ));
    // the windows must be the containers of the secondary bus
    let mut port = RootPort::new("pcie.1".to_string(), 8, 0, 0, false, &mut pci_host);
    port.io_region = 2;
    let own = port.sec_bus;
    match port.realize(&mut pci_host) {
        Err(PciError::InvalidSecondaryBus { bus }) => assert_eq!(bus, own),
        other => panic!("expected a refusal, got {:?}", other),
    }
    // a port for a parent bus that came after it
    let port = RootPort::new("pcie.1".to_string(), 8, 0, 4, false, &mut pci_host);
    assert_eq!(port.sec_bus, 4);
    assert!(matches!(
        port.realize(&mut pci_host),
        Err(PciError::InvalidSecondaryBus { bus: 4 })
    ));
    assert_eq!(pci_host.devices.len(), 0);
    assert!(pci_host.buses[0].devices.is_empty());
    assert!(pci_host.is_wf());
}

#[test]
fn realize_without_room_for_the_capability_is_refused() {
    let mut pci_host = create_pci_host();
    let mut port = RootPort::new("pcie.1".to_string(), 8, 0, 0, false, &mut pci_host);
    port.config.last_cap_end = 200;
    assert!(matches!(
        port.realize(&mut pci_host),
        Err(PciError::AddPciCap { id: 0x10, size: 0x3c })
    ));
    let mut port = RootPort::new("pcie.1".to_string(), 8, 0, 0, false, &mut pci_host);
    port.config.last_cap_end = 192;
    assert!(matches!(
        port.realize(&mut pci_host),
        Err(PciError::AddPciCap { id: 0x11, size: 12 })
    ));
    assert_eq!(pci_host.devices.len(), 0);
}

#[test]
fn a_second_function_needs_a_multifunction_first_function() {
    let mut pci_host = create_pci_host();
    let first = RootPort::new("pcie.1".to_string(), 8, 0, 0, false, &mut pci_host);
    first.realize(&mut pci_host).unwrap();
    let second = RootPort::new("pcie.2".to_string(), 9, 1, 0, false, &mut pci_host);
    assert!(matches!(
        second.realize(&mut pci_host),
        Err(PciError::MultifunctionConflict { devfn: 9 })
    ));
}

#[test]
fn a_single_function_must_be_alone_in_its_slot() {
    let mut pci_host = PciHost::new(1 << 16, u64::MAX);
    // a function 3 may come first: there is no first function to ask
    let third = RootPort::new("pcie.3".to_string(), 11, 0, 0, false, &mut pci_host);
    third.realize(&mut pci_host).unwrap();
    let first = RootPort::new("pcie.1".to_string(), 8, 1, 0, false, &mut pci_host);
    assert!(matches!(
        first.realize(&mut pci_host),
        Err(PciError::MultifunctionConflict { devfn: 8 })
    ));
}

#[test]
fn multifunction_shows_in_the_header_type() {
    let mut pci_host = create_pci_host();
    let port = RootPort::new("pcie.1".to_string(), 8, 0, 0, true, &mut pci_host);
    port.realize(&mut pci_host).unwrap();
    assert_eq!(pci_host.devices[0].config.config[HEADER_TYPE as usize], 0x81);
}

#[test]
fn read_config_copies_the_registers() {
    let (pci_host, device) = host_with_port_at_8();
    let mut buf = [0u8; 4];
    pci_host.read_config(device, 0, &mut buf);
    assert_eq!(buf, [0x36, 0x1b, 0x0c, 0x00]);
    let mut buf = [0xaau8; 2];
    pci_host.devices[device].read_config(PCIE_CONFIG_SPACE_SIZE - 2, &mut buf);
    assert_eq!(buf, [0, 0]);
    let mut buf: [u8; 0] = [];
    pci_host.read_config(device, PCIE_CONFIG_SPACE_SIZE, &mut buf);
    assert_eq!(buf, []);
}

#[test]
fn read_config_refuses_wide_and_outlying_accesses() {
    let (pci_host, device) = host_with_port_at_8();
    let mut buf = [9u8; 5];
    pci_host.read_config(device, 0, &mut buf);
    assert_eq!(buf, [9u8; 5]);
    let mut buf = [9u8; 1];
    pci_host.read_config(device, PCIE_CONFIG_SPACE_SIZE, &mut buf);
    assert_eq!(buf, [9u8; 1]);
    let mut buf = [9u8; 2];
    pci_host.read_config(device, usize::MAX, &mut buf);
    assert_eq!(buf, [9u8; 2]);
    // a handle without function reads nothing
    let mut buf = [9u8; 2];
    pci_host.read_config(7, 0, &mut buf);
    assert_eq!(buf, [9u8; 2]);
}

#[test]
fn write_config_refuses_wide_and_outlying_accesses() {
    let (mut pci_host, device) = host_with_port_at_8();
    let before = pci_host.devices[device].config.config.clone();
    let outcome = pci_host.write_config(device, 0x40, &[0xff; 5]).unwrap();
    assert!(!outcome.accepted);
    let outcome = pci_host.write_config(device, PCIE_CONFIG_SPACE_SIZE - 3, &[0xff; 4]).unwrap();
    assert!(!outcome.accepted);
    let outcome = pci_host.write_config(device, usize::MAX, &[0xff; 1]).unwrap();
    assert!(!outcome.accepted);
    assert_eq!(pci_host.devices[device].config.config, before);
    assert!(matches!(
        pci_host.write_config(3, 0, &[0]),
        Err(PciError::UnknownHandle { handle: 3 })
    ));
}

#[test]
fn write_config_goes_through_the_write_mask() {
    let (mut pci_host, device) = host_with_port_at_8();
    // only the five writable bits of the command register take the value
    let outcome = pci_host.write_config(device, COMMAND as usize, &[0xf8, 0xff]).unwrap();
    assert!(outcome.accepted);
    let mut buf = [0u8; 2];
    pci_host.read_config(device, COMMAND as usize, &mut buf);
    assert_eq!(buf, [0x00, 0x05]);
    // the vendor identifier is read-only
    pci_host.write_config(device, VENDOR_ID as usize, &[0xff, 0xff]).unwrap();
    let mut buf = [0u8; 2];
    pci_host.read_config(device, VENDOR_ID as usize, &mut buf);
    assert_eq!(buf, [0x36, 0x1b]);
    // behind the capabilities every bit is writable
    pci_host.write_config(device, 0x100, &[0x12, 0x34, 0x56, 0x78]).unwrap();
    let mut buf = [0u8; 4];
    pci_host.read_config(device, 0x100, &mut buf);
    assert_eq!(buf, [0x12, 0x34, 0x56, 0x78]);
}

#[test]
fn enabling_io_maps_the_io_window_into_the_parent() {
    let (mut pci_host, device) = host_with_port_at_8();
    let window = pci_host.devices[device].io_region;
    let parent_io = pci_host.buses[0].io_region;

    let enable = [COMMAND_IO_SPACE as u8, 0];
    let outcome = pci_host.write_config(device, COMMAND as usize, &enable).unwrap();
    assert!(outcome.accepted);
    assert!(outcome.bar_error.is_none());
    assert!(outcome.io_error.is_none());
    assert!(outcome.mem_error.is_none());
    assert_eq!(pci_host.regions.subregion_offset(parent_io, window), Some(0));
    assert_eq!(pci_host.regions.regions[parent_io].subregions.len(), 1);

    // clearing the bit and setting it again maps the window anew
    let outcome = pci_host.write_config(device, COMMAND as usize, &[0, 0]).unwrap();
    assert!(outcome.io_error.is_none());
    let outcome = pci_host.write_config(device, COMMAND as usize, &enable).unwrap();
    assert!(outcome.accepted);
    assert!(outcome.io_error.is_none());
    assert_eq!(pci_host.regions.subregion_offset(parent_io, window), Some(0));
    assert_eq!(pci_host.regions.regions[parent_io].subregions.len(), 1);
}

#[test]
fn enabling_memory_maps_the_table_and_the_memory_window() {
    let (mut pci_host, device) = host_with_port_at_8();
    let window = pci_host.devices[device].mem_region;
    let parent_mem = pci_host.buses[0].mem_region;
    let table = pci_host.devices[device].config.bars[0].region.unwrap();

    // place the table at 0xfebf_0000, then enable memory decoding
    pci_host.write_config(device, 0x10, &[0x00, 0x00, 0xbf, 0xfe]).unwrap();
    assert_eq!(pci_host.regions.subregion_offset(window, table), None);
    let enable = [COMMAND_MEMORY_SPACE as u8, 0];
    let outcome = pci_host.write_config(device, COMMAND as usize, &enable).unwrap();
    assert!(outcome.bar_error.is_none());
    assert!(outcome.mem_error.is_none());
    assert_eq!(pci_host.regions.subregion_offset(window, table), Some(0xfebf_0000));
    assert_eq!(pci_host.devices[device].config.bars[0].address, 0xfebf_0000);
    assert_eq!(pci_host.regions.subregion_offset(parent_mem, window), Some(0));

    // moving the table moves the region
    pci_host.write_config(device, 0x10, &[0x00, 0x10, 0xbf, 0xfe]).unwrap();
    assert_eq!(pci_host.regions.subregion_offset(window, table), Some(0xfebf_1000));
    assert_eq!(pci_host.regions.regions[window].subregions.len(), 1);

    // disabling memory decoding takes the table out of the window
    pci_host.write_config(device, COMMAND as usize, &[0, 0]).unwrap();
    assert_eq!(pci_host.regions.subregion_offset(window, table), None);
    assert_eq!(pci_host.devices[device].config.bars[0].address, u64::MAX);
}

#[test]
fn a_write_elsewhere_leaves_the_windows_alone() {
    let (mut pci_host, device) = host_with_port_at_8();
    let before = pci_host.regions.regions[0].subregions.len();
    let outcome = pci_host.write_config(device, 0x3c, &[0x0b]).unwrap();
    assert!(outcome.accepted);
    assert_eq!(pci_host.regions.regions[0].subregions.len(), before);
    assert_eq!(pci_host.devices[device].config.config[0x3c], 0x0b);
}

/// A host whose port decodes I/O and memory, with both windows and the
/// region of the MSI-X table taken out of their containers by hand and the
/// table placed at 0xfebf_0000, so that any write that looks at the
/// windows or at the base address registers again shows.
fn host_with_everything_unmapped() -> (PciHost, usize) {
    let (mut pci_host, device) = host_with_port_at_8();
    let io = pci_host.devices[device].io_region;
    let mem = pci_host.devices[device].mem_region;
    pci_host.regions.delete_subregion(0, io).unwrap();
    pci_host.regions.delete_subregion(1, mem).unwrap();
    pci_host.devices[device].config.config[4] = 0x03;
    pci_host.devices[device].config.config[0x10..0x14].copy_from_slice(&[0, 0, 0xbf, 0xfe]);
    (pci_host, device)
}

fn nothing_is_mapped(pci_host: &PciHost, device: usize) -> bool {
    let port = &pci_host.devices[device];
    let table = port.config.bars[0].region.unwrap();
    pci_host.regions.subregion_offset(0, port.io_region).is_none()
        && pci_host.regions.subregion_offset(1, port.mem_region).is_none()
        && pci_host.regions.subregion_offset(port.mem_region, table).is_none()
        && port.config.bars[0].address == u64::MAX
}

#[test]
fn a_write_next_to_a_register_does_not_touch_it() {
    let writes: [(usize, &[u8]); 9] = [
        (2, &[0, 0]),
        (0, &[0, 0, 0, 0]),
        (6, &[0, 0]),
        (0x0c, &[0, 0, 0, 0]),
        (0x18, &[0]),
        (0x18, &[0, 0, 0, 0]),
        (0x1e, &[0, 0]),
        (0x34, &[0, 0, 0, 0]),
        (4, &[]),
    ];
    for (offset, data) in writes {
        let (mut pci_host, device) = host_with_everything_unmapped();
        let outcome = pci_host.write_config(device, offset, data).unwrap();
        assert!(outcome.accepted);
        assert!(nothing_is_mapped(&pci_host, device), "write at {:#x}", offset);
    }
}

#[test]
fn a_write_to_a_byte_of_a_register_touches_it() {
    // the command register: windows and base address registers
    for offset in [4usize, 5] {
        let (mut pci_host, device) = host_with_everything_unmapped();
        let port = &pci_host.devices[device];
        let (io, mem) = (port.io_region, port.mem_region);
        let table = port.config.bars[0].region.unwrap();
        let byte = pci_host.devices[device].config.config[offset];
        pci_host.write_config(device, offset, &[byte]).unwrap();
        assert_eq!(pci_host.regions.subregion_offset(0, io), Some(0));
        assert_eq!(pci_host.regions.subregion_offset(1, mem), Some(0));
        assert_eq!(pci_host.regions.subregion_offset(mem, table), Some(0xfebf_0000));
    }
    // the base address registers: no window
    for offset in [0x10usize, 0x17] {
        let (mut pci_host, device) = host_with_everything_unmapped();
        let port = &pci_host.devices[device];
        let (io, mem) = (port.io_region, port.mem_region);
        let table = port.config.bars[0].region.unwrap();
        pci_host.write_config(device, offset, &[0]).unwrap();
        assert_eq!(pci_host.regions.subregion_offset(0, io), None);
        assert_eq!(pci_host.regions.subregion_offset(1, mem), None);
        assert_eq!(pci_host.regions.subregion_offset(mem, table), Some(0xfebf_0000));
    }
    // the window registers: no base address register
    for offset in [0x1cusize, 0x1d, 0x20, 0x33] {
        let (mut pci_host, device) = host_with_everything_unmapped();
        let port = &pci_host.devices[device];
        let (io, mem) = (port.io_region, port.mem_region);
        let table = port.config.bars[0].region.unwrap();
        pci_host.write_config(device, offset, &[0]).unwrap();
        assert_eq!(pci_host.regions.subregion_offset(0, io), Some(0));
        assert_eq!(pci_host.regions.subregion_offset(1, mem), Some(0));
        assert_eq!(pci_host.regions.subregion_offset(mem, table), None);
    }
}

#[test]
fn msix_state_follows_the_message_control_register() {
    let (mut pci_host, device) = host_with_port_at_8();
    let msix = pci_host.devices[device].config.msix.unwrap();
    assert_eq!(msix.cap_offset, 124);
    assert_eq!(msix.table_size, 16);
    assert_eq!(msix.pba_size, 8);
    assert!(!msix.enabled);
    pci_host.write_config(device, 126, &[0x00, 0xc0]).unwrap();
    let msix = pci_host.devices[device].config.msix.unwrap();
    assert!(msix.enabled);
    assert!(msix.func_masked);
    pci_host.write_config(device, 127, &[0x80]).unwrap();
    let msix = pci_host.devices[device].config.msix.unwrap();
    assert!(msix.enabled);
    assert!(!msix.func_masked);
}

#[test]
fn find_device_goes_by_the_bus_number() {
    let (mut pci_host, device) = host_with_port_at_8();
    assert_eq!(pci_host.find_device(0, 8), Some(device));
    assert_eq!(pci_host.find_device(0, 9), None);
    assert_eq!(pci_host.find_device(1, 8), None);
    // a port on the secondary bus is found once the bridge has its number
    let below = RootPort::new("pcie.1.1".to_string(), 0, 0, 1, false, &mut pci_host);
    below.realize(&mut pci_host).unwrap();
    pci_host.write_config(device, 0x19, &[1]).unwrap();
    assert_eq!(pci_host.find_device(1, 0), Some(1));
    assert_eq!(pci_host.find_device(0, 0), None);
}

#[test]
fn is_wf_tells_a_port_in_order() {
    let mut scratch = create_pci_host();
    let mut port = RootPort::new("pcie.1".to_string(), 8, 0, 0, false, &mut scratch);
    assert!(port.is_wf());
    port.config.config = vec![0u8; 256];
    port.config.write_mask = vec![0u8; 256];
    port.config.write_clear_mask = vec![0u8; 256];
    assert!(port.config.is_wf());
    assert!(!port.is_wf());
    let (pci_host, device) = host_with_port_at_8();
    assert!(pci_host.devices[device].is_wf());
}

#[test]
fn enabling_io_reports_an_overlap_and_maps_once_there_is_room() {
    let (mut pci_host, device) = host_with_port_at_8();
    let window = pci_host.devices[device].io_region;
    let other = pci_host.regions.init_container_region(RegionKind::Io, 0x100);
    pci_host.regions.delete_subregion(0, window).unwrap();
    pci_host.regions.add_subregion(0, other, 0x10).unwrap();

    let enable = [COMMAND_IO_SPACE as u8, 0];
    let outcome = pci_host.write_config(device, COMMAND as usize, &enable).unwrap();
    assert!(outcome.accepted);
    assert!(matches!(
        outcome.io_error,
        Some(PciError::RegionOverlap { container: 0, offset: 0, size: 0x1_0000 })
    ));
    // the register is written all the same, and the window is not mapped
    assert_eq!(pci_host.devices[device].config.config[4], 0x01);
    assert_eq!(pci_host.regions.subregion_offset(0, window), None);
    assert!(pci_host.is_wf());

    pci_host.regions.delete_subregion(0, other).unwrap();
    let outcome = pci_host.write_config(device, COMMAND as usize, &enable).unwrap();
    assert!(outcome.io_error.is_none());
    assert_eq!(pci_host.regions.subregion_offset(0, window), Some(0));
    assert_eq!(pci_host.regions.regions[0].subregions.len(), 1);
}

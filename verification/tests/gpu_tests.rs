use lalalm::gpu::{adapter_subkeys, best_smi_gpu, cim_gpu, disk_for, gpu_name_is_virtual, pick_adapter, qp_memory_size, reg_query_value, smi_gpu_info, Adapter, DiskInfo};

#[test]
fn detects_virtual_adapters() {
    assert!(gpu_name_is_virtual("SudoMaker Virtual Display Adapter"));
    assert!(gpu_name_is_virtual("Microsoft Basic Display Adapter"));
    assert!(gpu_name_is_virtual("Microsoft 基本显示适配器"));
    assert!(gpu_name_is_virtual("VMware SVGA 3D"));
    assert!(gpu_name_is_virtual("Indirect Display Driver Sample"));
    assert!(!gpu_name_is_virtual("NVIDIA GeForce RTX 4090"));
    assert!(!gpu_name_is_virtual("AMD Radeon RX 7900 XTX"));
    assert!(!gpu_name_is_virtual("Intel(R) Arc(TM) A770 Graphics"));
}

#[test]
fn nvidia_smi_best() {
    let text = "NVIDIA GeForce RTX 3060, 12288\nVirtual Display, 99999\nNVIDIA A100, 81920\nbroken line\nNVIDIA T4, x";
    let (name, mib) = best_smi_gpu(text).unwrap();
    assert_eq!((name.as_str(), mib), ("NVIDIA A100", 81920));
    let g = smi_gpu_info(name, mib);
    assert_eq!(g.vram_total, Some(81920 * 1024 * 1024));
    assert!(!g.unified);
    assert!(best_smi_gpu("").is_none());
}

#[test]
fn registry_adapters() {
    let out = "\n    DriverDesc    REG_SZ    NVIDIA GeForce RTX 4090\n\n";
    assert_eq!(reg_query_value(out, "DriverDesc"), Some("NVIDIA GeForce RTX 4090".to_string()));
    assert_eq!(reg_query_value("DriverDesc REG_SZ", "DriverDesc"), None);
    assert_eq!(reg_query_value(out, "Other"), None);
    assert_eq!(qp_memory_size(&Some("0x180000000".to_string())), Some(0x1_8000_0000));
    assert_eq!(qp_memory_size(&Some("0x0".to_string())), None);
    assert_eq!(qp_memory_size(&Some("0xzz".to_string())), None);
    assert_eq!(qp_memory_size(&None), None);
}

#[test]
fn subkeys_are_four_digits() {
    let listing = "A 0000\nB 0001\nC Properties\nD 12345\nE 0x12";
    assert_eq!(adapter_subkeys(listing), vec!["0000".to_string(), "0001".to_string()]);
}

#[test]
fn physical_adapter_with_most_memory() {
    let a = |n: Option<&str>, v: Option<u64>| Adapter { name: n.map(|s| s.to_string()), vram: v };
    let list = vec![a(Some("Intel UHD"), Some(1)), a(Some("Virtual Display"), Some(100)), a(Some("RTX"), Some(8)), a(Some("RTX2"), Some(8))];
    let g = pick_adapter(&list).unwrap();
    assert_eq!(g.name.as_deref(), Some("RTX2"));
    let only_virtual = vec![a(Some("Virtual A"), Some(2)), a(None, Some(5))];
    assert_eq!(pick_adapter(&only_virtual).unwrap().vram_total, Some(5));
    assert!(pick_adapter(&vec![]).is_none());
}

#[test]
fn cim_listing() {
    let g = cim_gpu("Microsoft Basic Display Adapter|0\nAMD Radeon | 4293918720\nIntel|1073741824");
    assert_eq!(g.name.as_deref(), Some("AMD Radeon"));
    assert_eq!(g.vram_total, Some(4293918720));
    let z = cim_gpu("Card|x");
    assert_eq!((z.name.as_deref(), z.vram_total), (Some("Card"), None));
    let n = cim_gpu("");
    assert!(n.name.is_none());
}

#[test]
fn disk_choice() {
    let d = |len: usize, holds: bool, root: bool, a: u64| DiskInfo { mount_len: len, holds_dir: holds, is_root: root, available: a, total: a * 2 };
    assert_eq!(disk_for(&vec![d(1, true, true, 5), d(9, true, false, 7), d(9, true, false, 8)]), (7, 14));
    assert_eq!(disk_for(&vec![d(4, false, false, 1), d(1, false, true, 3)]), (3, 6));
    assert_eq!(disk_for(&vec![]), (0, 0));
}

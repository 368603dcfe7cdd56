use laminafs::{DeviceInterface, LaminaFS, MountPermissions, ResultCode};
use laminafs::permissions::{
    PERMISSION_ALL, PERMISSION_CREATE_DIR, PERMISSION_DEFAULT, PERMISSION_READ, PERMISSION_WRITE,
    PERMISSION_WRITE_FILE,
};

#[test]
fn unmounted_path_not_found_for_every_operation() {
    let mut fs = LaminaFS::new();
    let items = [
        fs.read_file("/x", false).unwrap(),
        fs.read_file_segment("/x", 0, 4, false).unwrap(),
        fs.write_file("/x", b"d".to_vec()).unwrap(),
        fs.write_file_segment("/x", 0, b"d".to_vec()).unwrap(),
        fs.append_file("/x", b"d".to_vec()).unwrap(),
        fs.create_dir("/x").unwrap(),
        fs.delete_dir("/x").unwrap(),
        fs.delete_file("/x").unwrap(),
        fs.file_exists("/x").unwrap(),
    ];
    for item in items {
        assert_eq!(item.get_result(&mut fs), ResultCode::NotFound);
        item.release(&mut fs);
    }
}

#[test]
fn non_matching_prefix_is_not_found() {
    let mut fs = LaminaFS::new();
    let _mount = fs.create_mount(0, "/data", "").unwrap();
    let item = fs.read_file("/other/file", false).unwrap();
    assert_eq!(item.get_result(&mut fs), ResultCode::NotFound);
    item.release(&mut fs);
}

#[test]
fn missing_permission_bit_is_rejected_without_device_effect() {
    let mut fs = LaminaFS::new();
    let _mount = fs
        .create_mount_with_permissions(0, "/", "", MountPermissions::from_bits(PERMISSION_READ))
        .unwrap();
    let w = fs.write_file("/f", b"data".to_vec()).unwrap();
    assert_eq!(w.get_result(&mut fs), ResultCode::PermissionsError);
    w.release(&mut fs);
    // The device was never invoked: the file does not exist.
    let e = fs.file_exists("/f").unwrap();
    assert_eq!(e.get_result(&mut fs), ResultCode::Okay);
    assert_eq!(e.get_buffer(&mut fs), vec![0u8]);
    e.release(&mut fs);
}

#[test]
fn default_mask_forbids_deletions_and_directory_changes() {
    let mut fs = LaminaFS::new();
    let _mount = fs.create_mount(0, "/", "").unwrap();
    let w = fs.write_file("/f", b"data".to_vec()).unwrap();
    assert_eq!(w.get_result(&mut fs), ResultCode::Okay);
    w.release(&mut fs);
    let d = fs.delete_file("/f").unwrap();
    assert_eq!(d.get_result(&mut fs), ResultCode::PermissionsError);
    d.release(&mut fs);
    let c = fs.create_dir("/dir").unwrap();
    assert_eq!(c.get_result(&mut fs), ResultCode::PermissionsError);
    c.release(&mut fs);
    let dd = fs.delete_dir("/dir").unwrap();
    assert_eq!(dd.get_result(&mut fs), ResultCode::PermissionsError);
    dd.release(&mut fs);
}

#[test]
fn write_then_read_whole_is_identity() {
    let mut fs = LaminaFS::new();
    let _mount = fs
        .create_mount_with_permissions(0, "/", "", MountPermissions::all())
        .unwrap();
    for data in [b"".to_vec(), b"x".to_vec(), b"round trip payload".to_vec()] {
        let w = fs.write_file("/p", data.clone()).unwrap();
        assert_eq!(w.get_result(&mut fs), ResultCode::Okay);
        w.release(&mut fs);
        let r = fs.read_file("/p", false).unwrap();
        assert_eq!(r.get_result(&mut fs), ResultCode::Okay);
        assert_eq!(r.get_buffer(&mut fs), data);
        r.release(&mut fs);
    }
}

#[test]
fn wait_is_idempotent() {
    let mut fs = LaminaFS::new();
    let _mount = fs.create_mount(0, "/", "").unwrap();
    let w = fs.write_file("/f", b"abc".to_vec()).unwrap();
    w.release(&mut fs);
    let item = fs.read_file("/f", false).unwrap();
    item.wait(&mut fs);
    let first_result = item.get_result(&mut fs);
    let first_bytes = item.get_bytes(&mut fs);
    let first_buffer = item.get_buffer(&mut fs);
    item.wait(&mut fs);
    assert_eq!(item.get_result(&mut fs), first_result);
    assert_eq!(item.get_bytes(&mut fs), first_bytes);
    assert_eq!(item.get_buffer(&mut fs), first_buffer);
    item.release(&mut fs);
}

#[test]
fn items_complete_in_submission_order() {
    let mut fs = LaminaFS::new();
    let _mount = fs.create_mount(0, "/", "").unwrap();
    let first = fs.write_file("/a", b"1".to_vec()).unwrap();
    let second = fs.write_file("/b", b"2".to_vec()).unwrap();
    let third = fs.file_exists("/a").unwrap();
    assert!(!first.poll(&fs));
    assert!(!second.poll(&fs));
    // Waiting on the first item runs exactly one worker turn.
    first.wait(&mut fs);
    assert!(first.poll(&fs));
    assert!(!second.poll(&fs));
    assert!(!third.poll(&fs));
    // Waiting on the last drains everything before it, exactly once each.
    assert_eq!(third.get_result(&mut fs), ResultCode::Okay);
    assert_eq!(third.get_buffer(&mut fs), vec![1u8]);
    assert!(second.poll(&fs));
    assert_eq!(second.get_result(&mut fs), ResultCode::Okay);
    assert_eq!(first.get_result(&mut fs), ResultCode::Okay);
    first.release(&mut fs);
    second.release(&mut fs);
    third.release(&mut fs);
}

#[test]
fn pool_of_one_applies_backpressure() {
    let mut fs = LaminaFS::new_with_capacity(4, 1);
    let _mount = fs.create_mount(0, "/", "").unwrap();
    let first = fs.write_file("/a", b"1".to_vec()).unwrap();
    // The only slot is taken: a second submission reports exhaustion, and a
    // threaded host would block here until the first item is released.
    assert!(fs.write_file("/b", b"2".to_vec()).is_none());
    assert_eq!(first.get_result(&mut fs), ResultCode::Okay);
    assert!(fs.write_file("/b", b"2".to_vec()).is_none());
    first.release(&mut fs);
    let second = fs.write_file("/b", b"2".to_vec()).unwrap();
    assert_eq!(second.get_result(&mut fs), ResultCode::Okay);
    second.release(&mut fs);
}

#[test]
fn full_queue_applies_backpressure() {
    let mut fs = LaminaFS::new_with_capacity(1, 8);
    let _mount = fs.create_mount(0, "/", "").unwrap();
    let first = fs.write_file("/a", b"1".to_vec()).unwrap();
    assert!(fs.write_file("/b", b"2".to_vec()).is_none());
    first.wait(&mut fs);
    let second = fs.write_file("/b", b"2".to_vec()).unwrap();
    assert_eq!(second.get_result(&mut fs), ResultCode::Okay);
    second.release(&mut fs);
    first.release(&mut fs);
}

#[test]
fn read_with_terminator_scenario() {
    let mut fs = LaminaFS::new();
    let _mount = fs.create_mount(0, "/", "").unwrap();
    let w = fs.write_file("/a.txt", b"hello".to_vec()).unwrap();
    assert_eq!(w.get_result(&mut fs), ResultCode::Okay);
    w.release(&mut fs);
    let item = fs.read_file("/a.txt", true).unwrap();
    assert_eq!(item.get_result(&mut fs), ResultCode::Okay);
    assert_eq!(item.get_bytes(&mut fs), 6);
    let buffer = item.get_buffer(&mut fs);
    assert_eq!(item.get_bytes(&mut fs), buffer.len());
    assert_eq!(buffer, b"hello\0".to_vec());
    item.release(&mut fs);
}

#[test]
fn write_exists_delete_exists_scenario() {
    let mut fs = LaminaFS::new();
    let _mount = fs
        .create_mount_with_permissions(0, "/", "", MountPermissions::all())
        .unwrap();
    let w = fs.write_file("/b.txt", b"data".to_vec()).unwrap();
    assert_eq!(w.get_result(&mut fs), ResultCode::Okay);
    w.release(&mut fs);
    let e1 = fs.file_exists("/b.txt").unwrap();
    assert_eq!(e1.get_result(&mut fs), ResultCode::Okay);
    assert_eq!(e1.get_buffer(&mut fs), vec![1u8]);
    e1.release(&mut fs);
    let d = fs.delete_file("/b.txt").unwrap();
    assert_eq!(d.get_result(&mut fs), ResultCode::Okay);
    d.release(&mut fs);
    let e2 = fs.file_exists("/b.txt").unwrap();
    assert_eq!(e2.get_result(&mut fs), ResultCode::Okay);
    assert_eq!(e2.get_buffer(&mut fs), vec![0u8]);
    e2.release(&mut fs);
}

#[test]
fn unregistered_device_type_is_invalid_synchronously() {
    let mut fs = LaminaFS::new();
    match fs.create_mount(7, "/", "") {
        Err(code) => assert_eq!(code, ResultCode::InvalidDevice),
        Ok(_) => panic!("mount with an unregistered device type must fail"),
    }
}

#[test]
fn registered_device_type_mounts() {
    let mut fs = LaminaFS::new();
    fs.register_device_interface(DeviceInterface::with_all_capabilities(3));
    assert!(fs.create_mount(3, "/", "").is_ok());
}

#[test]
fn read_only_device_reports_unsupported() {
    let mut fs = LaminaFS::new();
    fs.register_device_interface(DeviceInterface::read_only(5));
    let _mount = fs
        .create_mount_with_permissions(5, "/", "", MountPermissions::all())
        .unwrap();
    let w = fs.write_file("/f", b"data".to_vec()).unwrap();
    assert_eq!(w.get_result(&mut fs), ResultCode::Unsupported);
    w.release(&mut fs);
    let a = fs.append_file("/f", b"data".to_vec()).unwrap();
    assert_eq!(a.get_result(&mut fs), ResultCode::Unsupported);
    a.release(&mut fs);
    // The required read capability still works.
    let e = fs.file_exists("/f").unwrap();
    assert_eq!(e.get_result(&mut fs), ResultCode::Okay);
    assert_eq!(e.get_buffer(&mut fs), vec![0u8]);
    e.release(&mut fs);
}

#[test]
fn longest_prefix_wins() {
    let mut fs = LaminaFS::new();
    let _root = fs
        .create_mount_with_permissions(0, "/", "", MountPermissions::all())
        .unwrap();
    let _data = fs
        .create_mount_with_permissions(0, "/data", "", MountPermissions::all())
        .unwrap();
    let w = fs.write_file("/data/f", b"inner".to_vec()).unwrap();
    assert_eq!(w.get_result(&mut fs), ResultCode::Okay);
    w.release(&mut fs);
    // The write went to the more specific mount's device: the root device
    // has no file named "data/f".
    let e = fs.file_exists("/f").unwrap();
    assert_eq!(e.get_buffer(&mut fs), vec![0u8]);
    e.release(&mut fs);
    let r = fs.read_file("/data/f", false).unwrap();
    assert_eq!(r.get_buffer(&mut fs), b"inner".to_vec());
    r.release(&mut fs);
}

#[test]
fn equal_prefixes_resolve_to_first_registered() {
    let mut fs = LaminaFS::new();
    let first = fs
        .create_mount_with_permissions(0, "/", "", MountPermissions::all())
        .unwrap();
    let _second = fs
        .create_mount_with_permissions(0, "/", "", MountPermissions::all())
        .unwrap();
    let w = fs.write_file("/f", b"payload".to_vec()).unwrap();
    assert_eq!(w.get_result(&mut fs), ResultCode::Okay);
    w.release(&mut fs);
    // The first-registered mount's device took the write; after releasing
    // it, resolution falls through to the second, empty device.
    fs.release_mount(first);
    let r = fs.read_file("/f", false).unwrap();
    assert_eq!(r.get_result(&mut fs), ResultCode::NotFound);
    r.release(&mut fs);
}

#[test]
fn segment_write_extends_and_zero_fills() {
    let mut fs = LaminaFS::new();
    let _mount = fs.create_mount(0, "/", "").unwrap();
    let w = fs.write_file_segment("/f", 3, b"ab".to_vec()).unwrap();
    assert_eq!(w.get_result(&mut fs), ResultCode::Okay);
    w.release(&mut fs);
    let r = fs.read_file("/f", false).unwrap();
    assert_eq!(r.get_buffer(&mut fs), vec![0u8, 0u8, 0u8, b'a', b'b']);
    r.release(&mut fs);
    // Overwriting inside an existing file keeps the bytes around the range.
    let w2 = fs.write_file_segment("/f", 1, b"XY".to_vec()).unwrap();
    assert_eq!(w2.get_result(&mut fs), ResultCode::Okay);
    w2.release(&mut fs);
    let r2 = fs.read_file("/f", false).unwrap();
    assert_eq!(r2.get_buffer(&mut fs), vec![0u8, b'X', b'Y', b'a', b'b']);
    r2.release(&mut fs);
}

#[test]
fn segment_write_far_past_the_end_is_out_of_space() {
    let mut fs = LaminaFS::new();
    let _mount = fs.create_mount(0, "/", "").unwrap();
    let w = fs.write_file_segment("/f", u64::MAX, b"ab".to_vec()).unwrap();
    assert_eq!(w.get_result(&mut fs), ResultCode::OutOfSpace);
    w.release(&mut fs);
    let e = fs.file_exists("/f").unwrap();
    assert_eq!(e.get_buffer(&mut fs), vec![0u8]);
    e.release(&mut fs);
}

#[test]
fn append_concatenates_and_creates() {
    let mut fs = LaminaFS::new();
    let _mount = fs.create_mount(0, "/", "").unwrap();
    let a1 = fs.append_file("/log", b"one,".to_vec()).unwrap();
    assert_eq!(a1.get_result(&mut fs), ResultCode::Okay);
    a1.release(&mut fs);
    let a2 = fs.append_file("/log", b"two".to_vec()).unwrap();
    assert_eq!(a2.get_result(&mut fs), ResultCode::Okay);
    a2.release(&mut fs);
    let r = fs.read_file("/log", false).unwrap();
    assert_eq!(r.get_buffer(&mut fs), b"one,two".to_vec());
    r.release(&mut fs);
}

#[test]
fn segment_read_clamps_to_the_file() {
    let mut fs = LaminaFS::new();
    let _mount = fs.create_mount(0, "/", "").unwrap();
    let w = fs.write_file("/f", b"abcdef".to_vec()).unwrap();
    w.release(&mut fs);
    let r1 = fs.read_file_segment("/f", 2, 3, false).unwrap();
    assert_eq!(r1.get_buffer(&mut fs), b"cde".to_vec());
    r1.release(&mut fs);
    let r2 = fs.read_file_segment("/f", 4, 100, false).unwrap();
    assert_eq!(r2.get_buffer(&mut fs), b"ef".to_vec());
    r2.release(&mut fs);
    let r3 = fs.read_file_segment("/f", 100, 5, false).unwrap();
    assert_eq!(r3.get_result(&mut fs), ResultCode::Okay);
    assert_eq!(r3.get_bytes(&mut fs), 0);
    r3.release(&mut fs);
    let r4 = fs.read_file_segment("/f", 100, 5, true).unwrap();
    assert_eq!(r4.get_buffer(&mut fs), vec![0u8]);
    r4.release(&mut fs);
}

#[test]
fn directories_create_conflict_and_delete() {
    let mut fs = LaminaFS::new();
    let _mount = fs
        .create_mount_with_permissions(0, "/", "", MountPermissions::all())
        .unwrap();
    let c1 = fs.create_dir("/d").unwrap();
    assert_eq!(c1.get_result(&mut fs), ResultCode::Okay);
    c1.release(&mut fs);
    let c2 = fs.create_dir("/d").unwrap();
    assert_eq!(c2.get_result(&mut fs), ResultCode::AlreadyExists);
    c2.release(&mut fs);
    let d1 = fs.delete_dir("/d").unwrap();
    assert_eq!(d1.get_result(&mut fs), ResultCode::Okay);
    d1.release(&mut fs);
    let d2 = fs.delete_dir("/d").unwrap();
    assert_eq!(d2.get_result(&mut fs), ResultCode::NotFound);
    d2.release(&mut fs);
}

#[test]
fn released_mount_stops_resolving() {
    let mut fs = LaminaFS::new();
    let mount = fs.create_mount(0, "/", "").unwrap();
    let w = fs.write_file("/f", b"x".to_vec()).unwrap();
    assert_eq!(w.get_result(&mut fs), ResultCode::Okay);
    w.release(&mut fs);
    fs.release_mount(mount);
    let r = fs.read_file("/f", false).unwrap();
    assert_eq!(r.get_result(&mut fs), ResultCode::NotFound);
    r.release(&mut fs);
}

#[test]
fn result_codes_round_trip_their_numeric_values() {
    let codes = [
        ResultCode::Okay,
        ResultCode::NotFound,
        ResultCode::InvalidDevice,
        ResultCode::AlreadyExists,
        ResultCode::OutOfSpace,
        ResultCode::PermissionsError,
        ResultCode::Unsupported,
        ResultCode::GenericError,
    ];
    for (value, code) in codes.into_iter().enumerate() {
        assert_eq!(code.to_lamina(), value as u32);
        assert_eq!(ResultCode::from_lamina(value as u32), code);
    }
}

#[test]
fn permission_masks_combine_and_contain() {
    assert_eq!(MountPermissions::default().bits, PERMISSION_DEFAULT);
    assert_eq!(
        PERMISSION_DEFAULT,
        PERMISSION_READ | PERMISSION_WRITE | PERMISSION_WRITE_FILE
    );
    assert_eq!(MountPermissions::all().bits, PERMISSION_ALL);
    let rw = MountPermissions::from_bits(PERMISSION_READ)
        .union(MountPermissions::from_bits(PERMISSION_WRITE));
    assert!(rw.contains(MountPermissions::from_bits(PERMISSION_READ)));
    assert!(!rw.contains(MountPermissions::from_bits(PERMISSION_CREATE_DIR)));
    assert!(MountPermissions::all().contains(MountPermissions::default()));
    assert!(!MountPermissions::none().contains(MountPermissions::from_bits(PERMISSION_READ)));
}

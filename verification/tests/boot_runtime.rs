use nextboot_boot::boot::linux::resolve_linux_initrd_paths;
use nextboot_boot::boot::load_file::{
    find_entry, initrd_load_file, linux_initrd_media_device_path_bytes, load_file_path_from_device_path,
    preloaded_load_file, LoadFileReply, PreloadedFile,
};
use nextboot_boot::boot::source_volume::{check_block_read, BlockReadError, SourceVolumeGeometry};
use nextboot_boot::boot::util::{device_path_byte_len, push_unique_iso_path, runtime_extent_count};
use nextboot_boot::boot::vhdx_backing::vhdx_partial_sector_range;
use nextboot_boot::boot::wimboot_runtime::{
    c_path_bytes_len, callback_read_request, extent_read_plan, find_file, mapped_read_plan, physical_read_pieces,
    wimboot_runtime_file_read, wimboot_runtime_file_size, BlockPiece, CallbackRead, FileReadDecision, ReadPiece,
    RuntimeReadPlan, WimbootMappedSegment, WimbootRuntimeFile,
};
use nextboot_boot::boot::BootError;
use nextboot_boot::firmware::{firmware_vendor_contains_ascii, qemu_linux_serial_console_enabled};
use nextboot_boot::scanner::model::{detect_iso_os_type, IsoCache, IsoExtent, MarkerHits, OsType};
use nextboot_boot::source_disk::{PartitionFormat, SourceDiskIdentity};

fn utf16(s: &str) -> Vec<u16> {
    s.encode_utf16().collect()
}

fn file_path_node(path: &str) -> Vec<u8> {
    let mut units: Vec<u16> = path.encode_utf16().collect();
    units.push(0);
    let len = 4 + units.len() * 2;
    let mut node = vec![0x04, 0x04, (len & 0xff) as u8, (len >> 8) as u8];
    for unit in units {
        node.extend_from_slice(&unit.to_le_bytes());
    }
    node
}

const END_NODE: [u8; 4] = [0x7f, 0xff, 0x04, 0x00];

fn partition_disk(start: u64, size: u64) -> SourceDiskIdentity {
    SourceDiskIdentity {
        disk_guid: [0; 16],
        disk_signature: [0; 4],
        disk_size: 0,
        block_size: 512,
        partition_number: 1,
        partition_start_lba: start,
        partition_size_blocks: size,
        partition_format: PartitionFormat::Gpt,
    }
}

#[test]
fn block_read_checks_buffer_and_bounds() {
    assert_eq!(check_block_read(512, 1024, 10, 100), Ok(2));
    assert_eq!(check_block_read(512, 0, 10, 100), Err(BlockReadError::InvalidBufferSize));
    assert_eq!(check_block_read(512, 700, 10, 100), Err(BlockReadError::InvalidBufferSize));
    assert_eq!(check_block_read(0, 512, 10, 100), Err(BlockReadError::InvalidBufferSize));
    assert_eq!(check_block_read(512, 1024, 99, 100), Err(BlockReadError::OutOfBounds));
    assert_eq!(check_block_read(512, 1024, 98, 100), Ok(2));
    assert_eq!(check_block_read(512, 512, u64::MAX, u64::MAX), Err(BlockReadError::OutOfBounds));
}

#[test]
fn source_volume_reads_are_moved_by_the_partition_offset() {
    let g = SourceVolumeGeometry::new(true, 512, 999, Some(partition_disk(100, 200))).unwrap();
    assert_eq!(g.base_total_blocks, 1000);
    assert_eq!(g.lba_offset, 100);
    assert_eq!(g.total_blocks, 200);
    assert_eq!(g.physical_lba(0, 512), Ok(100));
    assert_eq!(g.physical_lba(199, 512), Ok(299));
    assert_eq!(g.physical_lba(199, 1024), Err(BlockReadError::OutOfBounds));
    assert_eq!(g.physical_lba(5, 100), Err(BlockReadError::InvalidBufferSize));
}

#[test]
fn source_volume_without_partition_is_the_whole_device() {
    let g = SourceVolumeGeometry::new(true, 4096, 63, None).unwrap();
    assert_eq!((g.lba_offset, g.total_blocks, g.base_total_blocks), (0, 64, 64));
    assert_eq!(SourceVolumeGeometry::new(false, 512, 63, None), None);
    assert_eq!(SourceVolumeGeometry::new(true, 0, 63, None), None);
    assert_eq!(SourceVolumeGeometry::new(true, 512, 99, Some(partition_disk(90, 20))), None);
}

#[test]
fn iso_cache_gives_back_what_was_saved() {
    let mut cache: IsoCache<u32> = IsoCache::new();
    assert_eq!(cache.load(), None);
    assert!(!cache.is_valid(60));
    cache.save(vec![3, 1, 2]);
    assert_eq!(cache.load(), Some(&[3u32, 1, 2][..]));
    assert!(cache.is_valid(0));
    cache.save(Vec::new());
    assert_eq!(cache.load(), None);
    cache.save(vec![7]);
    cache.clear();
    assert_eq!(cache.load(), None);
    assert!(!cache.is_valid(60));
    let default_cache: IsoCache<u8> = IsoCache::default();
    assert_eq!(default_cache.load(), None);
}

#[test]
fn device_path_length_includes_the_end_node() {
    let mut path = vec![0x01, 0x01, 0x06, 0x00, 0xaa, 0xbb];
    path.extend_from_slice(&END_NODE);
    path.extend_from_slice(&[0x55, 0x55]);
    assert_eq!(device_path_byte_len(&path), Some(10));
    assert_eq!(device_path_byte_len(&[0x01, 0x01, 0x02, 0x00, 0x7f, 0xff, 0x04, 0x00]), None);
    assert_eq!(device_path_byte_len(&[0x01, 0x01, 0x06, 0x00]), None);
    assert_eq!(device_path_byte_len(&END_NODE), Some(4));
}

#[test]
fn load_file_path_reads_file_path_nodes() {
    let mut path = vec![0x01, 0x01, 0x06, 0x00, 0x00, 0x00];
    path.extend(file_path_node("\\EFI\\Boot"));
    path.extend(file_path_node("\\Grub.CFG"));
    path.extend_from_slice(&END_NODE);
    assert_eq!(load_file_path_from_device_path(&path), Some(String::from("/efi/boot/grub.cfg")));
}

#[test]
fn load_file_path_without_text_or_malformed_is_none() {
    assert_eq!(load_file_path_from_device_path(&END_NODE), None);
    assert_eq!(load_file_path_from_device_path(&[]), None);
    let mut short = file_path_node("a");
    short[2] = 2;
    assert_eq!(load_file_path_from_device_path(&short), None);
    let mut surrogate = vec![0x04, 0x04, 0x08, 0x00, 0x00, 0xd8, 0x41, 0x00];
    surrogate.extend_from_slice(&END_NODE);
    assert_eq!(load_file_path_from_device_path(&surrogate), Some(String::from("/\u{fffd}a")));
}

#[test]
fn initrd_media_device_path_is_vendor_node_and_end() {
    let bytes = linux_initrd_media_device_path_bytes();
    assert_eq!(bytes.len(), 24);
    assert_eq!(&bytes[..4], &[0x04, 0x03, 20, 0]);
    assert_eq!(&bytes[4..8], &[0x27, 0xe4, 0x68, 0x55]);
    assert_eq!(&bytes[20..], &END_NODE);
    assert_eq!(device_path_byte_len(&bytes), Some(24));
}

fn preloaded() -> Vec<PreloadedFile> {
    vec![
        PreloadedFile { path: String::from("/boot/a.efi"), data: vec![1, 2, 3] },
        PreloadedFile { path: String::from("/boot/b.efi"), data: vec![4, 5] },
    ]
}

#[test]
fn preloaded_files_are_served_by_key() {
    let entries = preloaded();
    assert_eq!(find_entry(&entries, &String::from("/boot/b.efi")), Some(1));
    assert_eq!(find_entry(&entries, &String::from("/boot/c.efi")), None);
    let mut request = file_path_node("\\BOOT\\B.EFI");
    request.extend_from_slice(&END_NODE);
    assert_eq!(preloaded_load_file(&entries, &request, false, 0, false), LoadFileReply::BufferTooSmall {
        entry: 1,
        required: 2
    });
    assert_eq!(preloaded_load_file(&entries, &request, false, 1, true), LoadFileReply::BufferTooSmall {
        entry: 1,
        required: 2
    });
    assert_eq!(preloaded_load_file(&entries, &request, false, 8, true), LoadFileReply::Serve { entry: 1, size: 2 });
}

#[test]
fn boot_policy_falls_back_to_the_first_file() {
    let entries = preloaded();
    let mut request = file_path_node("\\missing.efi");
    request.extend_from_slice(&END_NODE);
    assert_eq!(preloaded_load_file(&entries, &request, false, 8, true), LoadFileReply::NotFound);
    assert_eq!(preloaded_load_file(&entries, &request, true, 8, true), LoadFileReply::Serve { entry: 0, size: 3 });
    assert_eq!(preloaded_load_file(&entries, &[], true, 8, true), LoadFileReply::Serve { entry: 0, size: 3 });
    assert_eq!(preloaded_load_file(&[], &[], true, 8, true), LoadFileReply::NotFound);
}

#[test]
fn initrd_load_file_reports_required_size() {
    assert_eq!(initrd_load_file(100, 0, false), LoadFileReply::BufferTooSmall { entry: 0, required: 100 });
    assert_eq!(initrd_load_file(100, 99, true), LoadFileReply::BufferTooSmall { entry: 0, required: 100 });
    assert_eq!(initrd_load_file(100, 100, true), LoadFileReply::Serve { entry: 0, size: 100 });
}

#[test]
fn firmware_vendor_is_searched_for_ascii_text() {
    assert!(firmware_vendor_contains_ascii(&utf16("EDK II"), b"EDK II"));
    assert!(firmware_vendor_contains_ascii(&utf16("Ubuntu distribution of EDK II"), b"EDK II"));
    assert!(!firmware_vendor_contains_ascii(&utf16("EDK I"), b"EDK II"));
    assert!(!firmware_vendor_contains_ascii(&utf16("edk ii"), b"EDK II"));
    assert!(qemu_linux_serial_console_enabled(&utf16("QEMU")));
    assert!(qemu_linux_serial_console_enabled(&utf16("OVMF firmware")));
    assert!(!qemu_linux_serial_console_enabled(&utf16("American Megatrends")));
    assert!(!qemu_linux_serial_console_enabled(&[]));
}

#[test]
fn vhdx_partial_block_sector_range() {
    assert_eq!(vhdx_partial_sector_range(2 * 1024 * 1024, 512, 5, 4, 1000), Some((4096, 2)));
    assert_eq!(vhdx_partial_sector_range(32 * 1024 * 1024, 4096, 8, 4, 4096), Some((0, 1)));
    assert_eq!(vhdx_partial_sector_range(512, 512, 3, 4, u64::MAX), None);
}

#[test]
fn unique_iso_paths_are_kept_once() {
    let mut paths = Vec::new();
    push_unique_iso_path(&mut paths, "boot\\grub\\grub.cfg");
    push_unique_iso_path(&mut paths, "/boot/grub/grub.cfg");
    push_unique_iso_path(&mut paths, " /isolinux/isolinux.cfg ");
    assert_eq!(paths, vec![String::from("/boot/grub/grub.cfg"), String::from("/isolinux/isolinux.cfg")]);
}

#[test]
fn initrd_paths_resolve_against_config_directory() {
    let initrds = vec![String::from("initrd.img"), String::from("/live/extra.img"), String::from(" ucode.img ")];
    assert_eq!(resolve_linux_initrd_paths("/boot/grub", &initrds), vec![
        String::from("/boot/grub/initrd.img"),
        String::from("/live/extra.img"),
        String::from("/boot/grub/ucode.img"),
    ]);
    assert_eq!(resolve_linux_initrd_paths("/", &initrds[..1]), vec![String::from("/initrd.img")]);
}

#[test]
fn mapped_read_follows_segments() {
    let segments = [
        WimbootMappedSegment { virtual_offset: 0, physical_offset: 1000, byte_count: 10 },
        WimbootMappedSegment { virtual_offset: 10, physical_offset: 5000, byte_count: 10 },
    ];
    assert_eq!(mapped_read_plan(&segments, 5, 10), Some(vec![
        ReadPiece { physical_byte: 1005, len: 5 },
        ReadPiece { physical_byte: 5000, len: 5 },
    ]));
    assert_eq!(mapped_read_plan(&segments, 15, 10), None);
    assert_eq!(mapped_read_plan(&segments, 3, 0), Some(Vec::new()));
}

#[test]
fn extent_read_follows_extents() {
    let extents = [
        IsoExtent { virtual_block_start: 0, physical_lba: 100, block_count: 2 },
        IsoExtent { virtual_block_start: 2, physical_lba: 50, block_count: 1 },
    ];
    assert_eq!(extent_read_plan(512, &extents, 1000, 100), Some(vec![
        ReadPiece { physical_byte: 100 * 512 + 1000, len: 24 },
        ReadPiece { physical_byte: 50 * 512, len: 76 },
    ]));
    assert_eq!(extent_read_plan(512, &extents, 1500, 100), None);
}

#[test]
fn physical_reads_are_split_at_block_boundaries() {
    assert_eq!(physical_read_pieces(512, 1000, 600), Some(vec![
        BlockPiece { lba: 1, offset: 488, len: 24 },
        BlockPiece { lba: 2, offset: 0, len: 512 },
        BlockPiece { lba: 3, offset: 0, len: 64 },
    ]));
    assert_eq!(physical_read_pieces(0, 0, 10), None);
    assert_eq!(physical_read_pieces(512, u64::MAX - 1, 10), None);
}

#[test]
fn runtime_files_check_their_storage() {
    assert!(matches!(
        WimbootRuntimeFile::from_extents("\\boot.wim", 10, 512, Vec::new()),
        Err(BootError::Unsupported)
    ));
    assert!(matches!(
        WimbootRuntimeFile::from_mapped_segments("\\bcd", 10, Vec::new()),
        Err(BootError::Unsupported)
    ));
    assert!(WimbootRuntimeFile::from_mapped_segments("\\empty", 0, Vec::new()).is_ok());
    let file = WimbootRuntimeFile::from_memory("\\winpeshl.ini", vec![1, 2, 3, 4]);
    assert_eq!(file.size_i32(), Some(4));
    assert!(matches!(file.read_plan(1, 3), Some(RuntimeReadPlan::Memory { start: 1 })));
    assert!(file.read_plan(2, 3).is_none());
    let disk = WimbootRuntimeFile::from_extents("\\sdi", 1024, 512, vec![IsoExtent {
        virtual_block_start: 0,
        physical_lba: 8,
        block_count: 2,
    }])
    .unwrap();
    match disk.read_plan(512, 512) {
        Some(RuntimeReadPlan::Volume(pieces)) => {
            assert_eq!(pieces, vec![ReadPiece { physical_byte: 9 * 512, len: 512 }])
        },
        _ => panic!("expected a volume read"),
    }
}

#[test]
fn callbacks_find_files_and_sort_requests() {
    let files = vec![
        WimbootRuntimeFile::from_memory("\\bootmgr.efi", vec![0; 3]),
        WimbootRuntimeFile::from_memory("\\BCD", vec![0; 5]),
    ];
    assert_eq!(find_file(&files, b"\\BCD"), Some(1));
    assert_eq!(find_file(&files, b"\\bcd"), None);
    assert_eq!(c_path_bytes_len(b"\\BCD\0junk"), Some(4));
    assert_eq!(c_path_bytes_len(b"no terminator"), None);
    assert_eq!(c_path_bytes_len(&[b'a'; 600]), None);
    assert_eq!(callback_read_request(-1, 4), CallbackRead::Refuse);
    assert_eq!(callback_read_request(0, -4), CallbackRead::Refuse);
    assert_eq!(callback_read_request(7, 0), CallbackRead::Empty);
    assert_eq!(callback_read_request(7, 9), CallbackRead::Read { offset: 7, len: 9 });
}

#[test]
fn size_callback_answers_by_terminated_name() {
    let files = vec![
        WimbootRuntimeFile::from_memory("\\boot.sdi", vec![0; 7]),
        WimbootRuntimeFile::from_mapped_segments("\\huge", 1 << 40, vec![WimbootMappedSegment {
            virtual_offset: 0,
            physical_offset: 0,
            byte_count: 1 << 40,
        }])
        .unwrap(),
    ];
    assert_eq!(wimboot_runtime_file_size(&files, b"\\boot.sdi\0"), 7);
    assert_eq!(wimboot_runtime_file_size(&files, b"\\boot.sdi"), -1);
    assert_eq!(wimboot_runtime_file_size(&files, b"\\other\0"), -1);
    assert_eq!(wimboot_runtime_file_size(&files, b"\\huge\0"), -1);
}

#[test]
fn read_callback_plans_or_answers() {
    let files = vec![WimbootRuntimeFile::from_memory("\\bcd", vec![1, 2, 3, 4, 5])];
    assert!(matches!(wimboot_runtime_file_read(&files, b"\\bcd\0", -1, 2, true), FileReadDecision::Answer(-1)));
    assert!(matches!(wimboot_runtime_file_read(&files, b"\\bcd\0", 0, 0, false), FileReadDecision::Answer(0)));
    assert!(matches!(wimboot_runtime_file_read(&files, b"\\bcd\0", 0, 2, false), FileReadDecision::Answer(-1)));
    assert!(matches!(wimboot_runtime_file_read(&files, b"\\BCD\0", 0, 2, true), FileReadDecision::Answer(-1)));
    assert!(matches!(wimboot_runtime_file_read(&files, b"\\bcd\0", 4, 2, true), FileReadDecision::Answer(-1)));
    match wimboot_runtime_file_read(&files, b"\\bcd\0", 1, 3, true) {
        FileReadDecision::Read { file: 0, plan: RuntimeReadPlan::Memory { start: 1 }, len: 3 } => {},
        _ => panic!("expected a read from memory"),
    }
}

#[test]
fn runtime_extent_count_has_one_record_at_least() {
    assert_eq!(runtime_extent_count(&[]), 1);
    let extents = [
        IsoExtent { virtual_block_start: 0, physical_lba: 1, block_count: 1 },
        IsoExtent { virtual_block_start: 1, physical_lba: 9, block_count: 1 },
    ];
    assert_eq!(runtime_extent_count(&extents), 2);
}

#[test]
fn iso_os_type_prefers_udf_and_windows_markers() {
    let win = MarkerHits { windows: true, linux: true };
    let linux = MarkerHits { windows: false, linux: true };
    let none = MarkerHits { windows: false, linux: false };
    assert_eq!(detect_iso_os_type(Some(linux), Some(win)), Some(OsType::Linux));
    assert_eq!(detect_iso_os_type(Some(none), Some(win)), Some(OsType::Windows));
    assert_eq!(detect_iso_os_type(None, Some(linux)), Some(OsType::Linux));
    assert_eq!(detect_iso_os_type(Some(win), None), Some(OsType::Windows));
    assert_eq!(detect_iso_os_type(None, Some(none)), None);
    assert_eq!(detect_iso_os_type(None, None), None);
}

use fvm_core::memory::{Memory, SyscallErrorKind};

const RAW: u64 = 0x55;
const SHA2_256: u64 = 0x12;
const HASH: &[u8] = b"\x2C\x26\xB4\x6B\x68\xFF\xC6\x8F\xF9\x9B\x45\x3C\x1D\x30\x41\x34\x13\x42\x2D\x70\x64\x83\xBF\xA0\xF9\x8A\x5E\x88\x62\x66\xE7\xAE";

#[test]
fn test_read_cid() {
    let hash = cid::multihash::Multihash::wrap(SHA2_256, HASH).unwrap();
    let k = cid::Cid::new_v1(RAW, hash);
    let k_bytes = k.to_bytes();
    let mem = Memory::new(k_bytes.clone());
    let k2 = mem.read_cid(0).expect("failed to read cid");
    assert_eq!(k_bytes, k2);
}

#[test]
fn test_read_cid_truncated() {
    let hash = cid::multihash::Multihash::wrap(SHA2_256, HASH).unwrap();
    let k = cid::Cid::new_v1(RAW, hash);
    let k_bytes = k.to_bytes();
    let mem = Memory::new(k_bytes[..20].to_vec());
    assert_eq!(mem.read_cid(0).unwrap_err(), SyscallErrorKind::IllegalArgument);
}

#[test]
fn test_read_cid_out_of_bounds() {
    let mem = Memory::new(Vec::new());
    assert_eq!(mem.read_cid(200).unwrap_err(), SyscallErrorKind::IllegalArgument);
}

#[test]
fn test_read_slice_out_of_bounds() {
    let mem = Memory::new(Vec::new());
    assert_eq!(mem.try_slice(10, 0).unwrap_err(), SyscallErrorKind::IllegalArgument);
    assert_eq!(mem.try_slice(u32::MAX, 0).unwrap_err(), SyscallErrorKind::IllegalArgument);
}

#[test]
fn test_read_slice_empty() {
    let mem = Memory::new(Vec::new());
    mem.try_slice(0, 0).expect("slice was in bounds");
}

#[test]
fn check_bounds_matches_slice() {
    let mem = Memory::new(vec![1, 2, 3, 4]);
    assert!(mem.check_bounds(0, 4).is_ok());
    assert!(mem.check_bounds(4, 0).is_ok());
    assert_eq!(mem.check_bounds(3, 2).unwrap_err(), SyscallErrorKind::IllegalArgument);
    assert_eq!(mem.try_slice(1, 2).unwrap(), vec![2, 3]);
}

#[test]
fn write_cid_round_trip() {
    let hash = cid::multihash::Multihash::wrap(SHA2_256, HASH).unwrap();
    let k = cid::Cid::new_v1(RAW, hash);
    let k_bytes = k.to_bytes();
    let mut mem = Memory::new(vec![0u8; 128]);
    let n = mem.write_cid(&k_bytes, 3, 120).expect("write failed");
    assert_eq!(n as usize, k_bytes.len());
    let k2 = mem.read_cid(3).expect("failed to read back cid");
    assert_eq!(k_bytes, k2);
}

#[test]
fn write_cid_buffer_too_small() {
    let hash = cid::multihash::Multihash::wrap(SHA2_256, HASH).unwrap();
    let k = cid::Cid::new_v1(RAW, hash);
    let k_bytes = k.to_bytes();
    let mut mem = Memory::new(vec![0u8; 128]);
    assert_eq!(
        mem.write_cid(&k_bytes, 0, 10).unwrap_err(),
        SyscallErrorKind::BufferTooSmall
    );
    assert_eq!(
        mem.write_cid(&k_bytes, 120, 40).unwrap_err(),
        SyscallErrorKind::IllegalArgument
    );
}

#[test]
fn read_address_parses_id_address() {
    // An ID address: protocol byte zero followed by a varint id.
    let addr = fvm_shared::address::Address::new_id(101);
    let bytes = addr.to_bytes();
    let mut data = vec![0xffu8; 4];
    data.extend_from_slice(&bytes);
    let mem = Memory::new(data);
    let parsed = mem.read_address(4, bytes.len() as u32).expect("address should parse");
    assert_eq!(parsed, bytes);
    assert_eq!(
        mem.read_address(0, 3).unwrap_err(),
        SyscallErrorKind::IllegalArgument
    );
}

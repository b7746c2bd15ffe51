use serial_communicator::codec::{host_endianness, ByteOrder, Endianness, Width};
use serial_communicator::frame::{echo_fixed, read_fixed, write_fixed};
use serial_communicator::loopback::Loopback;
use serial_communicator::port::{echo_ordered, read_ordered, write_ordered, LineError};
use serial_communicator::transport::{IoError, Link};
use serial_communicator::{
    read_dword_flipped_endian, read_dword_raw, read_i32_raw, read_i64_raw,
    read_qword_flipped_endian, read_qword_raw, read_string_until_byte, write_dword_flipped_endian,
    write_dword_raw, write_qword_flipped_endian, write_qword_raw, write_str_ends_with,
    write_str_raw,
};

fn swapped(bytes: &[u8]) -> Vec<u8> {
    let mut out = bytes.to_vec();
    out.reverse();
    out
}

#[test]
fn fixed_round_trip_over_loopback() {
    let values = [0u64, 1, 0xab, 0x1234_5678, 0x0123_4567_89ab_cdef, u64::MAX];
    let masks = [
        (Width::Byte, 0xffu64),
        (Width::Dword, 0xffff_ffff),
        (Width::Qword, u64::MAX),
    ];
    for (width, mask) in masks {
        for layout in [Endianness::Little, Endianness::Big] {
            for value in values {
                let mut link = Link::new(Loopback::new());
                assert_eq!(write_fixed(&mut link, value, width, layout), Ok(()));
                assert_eq!(link.port().written().len(), width.len());
                assert_eq!(read_fixed(&mut link, width, layout), Ok(value & mask));
                assert!(link.port().unread().is_empty());
            }
        }
    }
}

#[test]
fn fixed_read_in_the_other_layout_sees_swapped_bytes() {
    let mut link = Link::new(Loopback::new());
    assert_eq!(
        write_fixed(&mut link, 0x0102_0304, Width::Dword, Endianness::Big),
        Ok(())
    );
    assert_eq!(
        read_fixed(&mut link, Width::Dword, Endianness::Little),
        Ok(0x0403_0201)
    );
}

#[test]
fn fixed_read_fails_on_short_input() {
    let mut link = Link::new(Loopback::scripted(vec![1, 2, 3]));
    assert_eq!(
        read_fixed(&mut link, Width::Dword, Endianness::Little),
        Err(IoError::TimedOut)
    );
    assert_eq!(link.port().unread(), &vec![1, 2, 3]);
}

#[test]
fn fixed_write_fails_on_a_broken_transport() {
    let mut port = Loopback::new();
    port.set_broken(true);
    let mut link = Link::new(port);
    assert_eq!(
        write_fixed(&mut link, 1, Width::Qword, Endianness::Little),
        Err(IoError::Failed)
    );
}

#[test]
fn qword_raw_is_native_order() {
    let value = 0x0102_0304_0506_0708u64;
    let mut link = Link::new(Loopback::new());
    assert_eq!(write_qword_raw(&mut link, value), Ok(()));
    assert_eq!(link.port().written(), &value.to_ne_bytes().to_vec());
    assert_eq!(read_qword_raw(&mut link), Ok(value));
}

#[test]
fn qword_flipped_is_opposite_order() {
    let value = 0x0102_0304_0506_0708u64;
    let mut link = Link::new(Loopback::new());
    assert_eq!(write_qword_flipped_endian(&mut link, value), Ok(()));
    assert_eq!(link.port().written(), &swapped(&value.to_ne_bytes()));
    assert_eq!(read_qword_flipped_endian(&mut link), Ok(value));
}

#[test]
fn qword_raw_write_read_flipped_swaps() {
    let value = 0x0102_0304_0506_0708u64;
    let mut link = Link::new(Loopback::new());
    assert_eq!(write_qword_raw(&mut link, value), Ok(()));
    assert_eq!(read_qword_flipped_endian(&mut link), Ok(value.swap_bytes()));
}

#[test]
fn dword_raw_is_native_order() {
    let value = 0xdead_beefu32;
    let mut link = Link::new(Loopback::new());
    assert_eq!(write_dword_raw(&mut link, value), Ok(()));
    assert_eq!(link.port().written(), &value.to_ne_bytes().to_vec());
    assert_eq!(read_dword_raw(&mut link), Ok(value));
}

#[test]
fn dword_flipped_is_opposite_order() {
    let value = 0xdead_beefu32;
    let mut link = Link::new(Loopback::new());
    assert_eq!(write_dword_flipped_endian(&mut link, value), Ok(()));
    assert_eq!(link.port().written(), &swapped(&value.to_ne_bytes()));
    assert_eq!(read_dword_flipped_endian(&mut link), Ok(value));
    assert_eq!(write_dword_raw(&mut link, value), Ok(()));
    assert_eq!(read_dword_flipped_endian(&mut link), Ok(value.swap_bytes()));
}

#[test]
fn signed_reads_are_twos_complement() {
    let mut link = Link::new(Loopback::new());
    assert_eq!(write_qword_raw(&mut link, (-2i64) as u64), Ok(()));
    assert_eq!(read_i64_raw(&mut link), Ok(-2));
    assert_eq!(write_qword_raw(&mut link, i64::MIN as u64), Ok(()));
    assert_eq!(read_i64_raw(&mut link), Ok(i64::MIN));
    assert_eq!(write_qword_raw(&mut link, 5), Ok(()));
    assert_eq!(read_i64_raw(&mut link), Ok(5));
    assert_eq!(write_dword_raw(&mut link, (-7i32) as u32), Ok(()));
    assert_eq!(read_i32_raw(&mut link), Ok(-7));
    assert_eq!(write_dword_raw(&mut link, i32::MAX as u32), Ok(()));
    assert_eq!(read_i32_raw(&mut link), Ok(i32::MAX));
}

#[test]
fn numeric_reads_fail_without_input() {
    let mut link = Link::new(Loopback::scripted(vec![1, 2, 3]));
    assert_eq!(read_qword_raw(&mut link), Err(IoError::TimedOut));
    assert_eq!(read_qword_flipped_endian(&mut link), Err(IoError::TimedOut));
    assert_eq!(read_i64_raw(&mut link), Err(IoError::TimedOut));
    assert_eq!(read_dword_raw(&mut link), Err(IoError::TimedOut));
    assert_eq!(read_dword_flipped_endian(&mut link), Err(IoError::TimedOut));
    assert_eq!(read_i32_raw(&mut link), Err(IoError::TimedOut));
    assert_eq!(link.port().unread(), &vec![1, 2, 3]);
}

#[test]
fn read_string_includes_endbyte() {
    let mut link = Link::new(Loopback::scripted(b"ARDUINO_1 TO PC\nnext".to_vec()));
    assert_eq!(
        read_string_until_byte(&mut link, b'\n'),
        Ok(String::from("ARDUINO_1 TO PC\n"))
    );
    assert_eq!(link.port().unread(), &b"next".to_vec());
}

#[test]
fn read_string_decodes_utf8() {
    let mut link = Link::new(Loopback::scripted("grüß dich ✓;".as_bytes().to_vec()));
    assert_eq!(
        read_string_until_byte(&mut link, b';'),
        Ok(String::from("grüß dich ✓;"))
    );
}

#[test]
fn read_string_rejects_invalid_utf8() {
    let mut link = Link::new(Loopback::scripted(vec![b'a', 0xff, b'\n']));
    assert_eq!(
        read_string_until_byte(&mut link, b'\n'),
        Err(LineError::Encoding(vec![b'a', 0xff, b'\n']))
    );
}

#[test]
fn read_string_reports_transport_failure() {
    let mut link = Link::new(Loopback::scripted(b"unfinished".to_vec()));
    assert_eq!(
        read_string_until_byte(&mut link, b'\n'),
        Err(LineError::Io(IoError::TimedOut))
    );
}

#[test]
fn write_str_raw_writes_the_bytes_only() {
    let mut link = Link::new(Loopback::scripted(Vec::new()));
    assert_eq!(write_str_raw(&mut link, "héllo"), Ok(()));
    assert_eq!(link.port().written(), &"héllo".as_bytes().to_vec());
}

#[test]
fn write_str_ends_with_appends_endbyte() {
    let mut link = Link::new(Loopback::new());
    assert_eq!(write_str_ends_with(&mut link, "PC TO ARDUINO_1", b'\n'), Ok(()));
    assert_eq!(link.port().written(), &b"PC TO ARDUINO_1\n".to_vec());
    assert_eq!(
        read_string_until_byte(&mut link, b'\n'),
        Ok(String::from("PC TO ARDUINO_1\n"))
    );
}

#[test]
fn string_writes_fail_on_a_broken_transport() {
    let mut port = Loopback::new();
    port.set_broken(true);
    let mut link = Link::new(port);
    assert_eq!(write_str_raw(&mut link, "x"), Err(IoError::Failed));
    assert_eq!(write_str_ends_with(&mut link, "x", 0), Err(IoError::Failed));
    assert_eq!(write_qword_raw(&mut link, 1), Err(IoError::Failed));
    assert_eq!(write_dword_flipped_endian(&mut link, 1), Err(IoError::Failed));
}

#[test]
fn ordered_frames_follow_the_host() {
    let value = 0x0102_0304_0506_0708u64;
    for (width, native) in [
        (Width::Byte, vec![0x08u8]),
        (Width::Dword, 0x0506_0708u32.to_ne_bytes().to_vec()),
        (Width::Qword, value.to_ne_bytes().to_vec()),
    ] {
        let mut link = Link::new(Loopback::new());
        assert_eq!(write_ordered(&mut link, value, width, ByteOrder::Native), Ok(()));
        assert_eq!(link.port().written(), &native);
        let expected = read_fixed(&mut link, width, host_endianness()).unwrap();
        assert_eq!(write_ordered(&mut link, value, width, ByteOrder::Native), Ok(()));
        assert_eq!(read_ordered(&mut link, width, ByteOrder::Native), Ok(expected));

        let mut link = Link::new(Loopback::new());
        assert_eq!(write_ordered(&mut link, value, width, ByteOrder::Swapped), Ok(()));
        assert_eq!(link.port().written(), &swapped(&native));
        assert_eq!(read_ordered(&mut link, width, ByteOrder::Swapped), Ok(expected));
    }
}

#[test]
fn echo_fixed_returns_the_value_cut_to_the_width() {
    for (width, mask) in [
        (Width::Byte, 0xffu64),
        (Width::Dword, 0xffff_ffff),
        (Width::Qword, u64::MAX),
    ] {
        for layout in [Endianness::Little, Endianness::Big] {
            for value in [0u64, 0x80, 0x0123_4567_89ab_cdef, u64::MAX] {
                let mut link = Link::new(Loopback::new());
                assert_eq!(echo_fixed(&mut link, value, width, layout), Ok(value & mask));
                assert!(link.port().unread().is_empty());
                assert_eq!(link.port().written().len(), width.len());
            }
        }
    }
}

#[test]
fn echo_fixed_reads_the_oldest_bytes_first() {
    let mut port = Loopback::new();
    port.feed(&[0xaa, 0xbb]);
    let mut link = Link::new(port);
    assert_eq!(
        echo_fixed(&mut link, 0x0102_0304, Width::Dword, Endianness::Big),
        Ok(0xaabb_0102)
    );
    assert_eq!(link.port().unread(), &vec![3, 4]);
}

#[test]
fn echo_fixed_without_echo_or_on_a_broken_loopback() {
    let mut link = Link::new(Loopback::scripted(vec![1, 2]));
    assert_eq!(
        echo_fixed(&mut link, 7, Width::Dword, Endianness::Little),
        Err(IoError::TimedOut)
    );
    assert_eq!(link.port().unread(), &vec![1, 2]);
    assert_eq!(link.port().written(), &vec![7, 0, 0, 0]);
    assert_eq!(
        echo_fixed(&mut link, 7, Width::Byte, Endianness::Little),
        Ok(1)
    );
    let mut port = Loopback::new();
    port.set_broken(true);
    let mut link = Link::new(port);
    assert_eq!(
        echo_fixed(&mut link, 7, Width::Byte, Endianness::Little),
        Err(IoError::Failed)
    );
    assert!(link.port().written().is_empty());
}

#[test]
fn echo_ordered_returns_the_value_in_both_orders() {
    for order in [ByteOrder::Native, ByteOrder::Swapped] {
        for (width, mask) in [
            (Width::Byte, 0xffu64),
            (Width::Dword, 0xffff_ffff),
            (Width::Qword, u64::MAX),
        ] {
            let value = 0x1122_3344_5566_7788u64;
            let mut link = Link::new(Loopback::new());
            assert_eq!(echo_ordered(&mut link, value, width, order), Ok(value & mask));
            assert!(link.port().unread().is_empty());
        }
    }
}

#[test]
fn link_remembers_the_host_layout() {
    let link = Link::new(Loopback::new());
    assert_eq!(link.host_layout(), host_endianness());
}

#[test]
fn flipped_read_of_reversed_bytes_is_the_raw_read() {
    let bytes = [1u8, 2, 3, 4, 5, 6, 7, 8];
    let mut link = Link::new(Loopback::scripted(bytes.to_vec()));
    let raw = read_qword_raw(&mut link).unwrap();
    let mut link = Link::new(Loopback::scripted(swapped(&bytes)));
    assert_eq!(read_qword_flipped_endian(&mut link), Ok(raw));
    let mut link = Link::new(Loopback::scripted(bytes.to_vec()));
    assert_eq!(
        read_qword_flipped_endian(&mut link).map(u64::swap_bytes),
        Ok(raw)
    );
}

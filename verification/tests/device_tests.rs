//! Tests of the device abstraction over the memory-backed device.

use xila_fs::device::{Device_trait, Device_type};
use xila_fs::error::Error_type;
use xila_fs::fundamentals::Position_type;
use xila_fs::memory_device::Memory_device_type;

#[test]
fn a_fresh_device_is_zeroed() {
    let mut Device = Device_type::New(Memory_device_type::New(16, 4));
    assert_eq!(Device.Get_size().unwrap().0, 16);
    let Dump = Device.Dump_device().unwrap();
    assert_eq!(Dump, vec![0u8; 16]);
}

#[test]
fn write_then_read_round_trips() {
    let mut Device = Device_type::New(Memory_device_type::New(16, 4));
    let Written = Device.Write(&vec![1u8, 2, 3, 4]).unwrap();
    assert_eq!(Written.0, 4);
    Device.Set_position(&Position_type::Start(0)).unwrap();
    let mut Buffer = vec![0u8; 4];
    let Count = Device.Read(&mut Buffer).unwrap();
    assert_eq!(Count.0, 4);
    assert_eq!(Buffer, vec![1u8, 2, 3, 4]);
}

#[test]
fn transfers_cap_at_the_end() {
    let mut Device = Device_type::New(Memory_device_type::New(8, 4));
    Device.Set_position(&Position_type::Start(6)).unwrap();
    let mut Buffer = vec![9u8; 4];
    let Count = Device.Read(&mut Buffer).unwrap();
    assert_eq!(Count.0, 2);
    assert_eq!(Buffer, vec![0u8, 0, 9, 9]);
    Device.Set_position(&Position_type::Start(6)).unwrap();
    let Written = Device.Write(&vec![1u8, 2, 3, 4]).unwrap();
    assert_eq!(Written.0, 2);
}

#[test]
fn seeks_resolve_against_start_current_and_end() {
    let mut Device = Device_type::New(Memory_device_type::New(10, 5));
    assert_eq!(Device.Set_position(&Position_type::Start(4)).unwrap().0, 4);
    assert_eq!(Device.Set_position(&Position_type::Current(3)).unwrap().0, 7);
    assert_eq!(Device.Set_position(&Position_type::Current(-2)).unwrap().0, 5);
    assert_eq!(Device.Set_position(&Position_type::End(-1)).unwrap().0, 9);
    assert_eq!(Device.Set_position(&Position_type::End(0)).unwrap().0, 10);
    assert_eq!(
        Device.Set_position(&Position_type::Start(11)),
        Err(Error_type::Invalid_parameter)
    );
    assert_eq!(
        Device.Set_position(&Position_type::Current(-100)),
        Err(Error_type::Invalid_parameter)
    );
}

#[test]
fn erase_clears_every_byte() {
    let mut Device = Device_type::New(Memory_device_type::New(8, 4));
    Device.Write(&vec![7u8; 8]).unwrap();
    Device.Erase().unwrap();
    Device.Set_position(&Position_type::Start(0)).unwrap();
    let Dump = Device.Dump_device().unwrap();
    assert_eq!(Dump, vec![0u8; 8]);
}

#[test]
fn block_metadata_is_reported() {
    let mut Device = Device_type::New(Memory_device_type::New(8, 4));
    assert_eq!(Device.Get_block_size().unwrap(), 4);
    assert!(Device.Is_a_block_device());
    assert!(!Device.Is_a_terminal());
    Device.Flush().unwrap();
}

#[test]
fn read_line_stops_at_the_newline() {
    let mut Device = Device_type::New(Memory_device_type::New(8, 4));
    Device.Write(&vec![104u8, 105, 10, 33, 0, 0, 0, 0]).unwrap();
    Device.Set_position(&Position_type::Start(0)).unwrap();
    let mut Line = Vec::new();
    let Count = Device.Read_line(&mut Line).unwrap();
    assert_eq!(Count.0, 2);
    assert_eq!(Line, vec![104u8, 105]);
    // the newline was consumed: the next byte is what follows it
    let mut Buffer = vec![0u8; 1];
    Device.Read(&mut Buffer).unwrap();
    assert_eq!(Buffer[0], 33);
}

#[test]
fn read_line_without_newline_stops_at_the_end() {
    let mut Device = Device_type::New(Memory_device_type::New(4, 4));
    Device.Write(&vec![97u8, 98, 99, 100]).unwrap();
    Device.Set_position(&Position_type::Start(0)).unwrap();
    let mut Line = vec![120u8];
    let Count = Device.Read_line(&mut Line).unwrap();
    assert_eq!(Count.0, 4);
    assert_eq!(Line, vec![120u8, 97, 98, 99, 100]);
}

#[test]
fn the_raw_device_answers_like_its_handle() {
    let mut Raw = Memory_device_type::New(8, 2);
    assert_eq!(Raw.Get_size().unwrap().0, 8);
    assert_eq!(Raw.Get_block_size().unwrap(), 2);
    let Written = Raw.Write(&vec![1u8, 2]).unwrap();
    assert_eq!(Written.0, 2);
    Raw.Set_position(&Position_type::Start(1)).unwrap();
    let mut Buffer = vec![0u8; 1];
    Raw.Read(&mut Buffer).unwrap();
    assert_eq!(Buffer[0], 2);
}

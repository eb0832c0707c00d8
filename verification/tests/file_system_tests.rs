//! Scenario tests of the block-structured backend: mount, format, the
//! open-file table, and persistence across a remount.

use xila_fs::device::Device_type;
use xila_fs::error::Error_type;
use xila_fs::file_system::{Configuration_type, File_system_type};
use xila_fs::fundamentals::{
    Flags_type, Local_file_identifier_type, Mode_type, Path_type, Position_type,
    Task_identifier_type,
};
use xila_fs::memory_device::Memory_device_type;
use xila_fs::metadata::Type_type;

fn Small_configuration() -> Configuration_type {
    Configuration_type::New(64, 16, 64, 64)
}

fn Mounted(
) -> File_system_type<Memory_device_type> {
    let mut Device = Device_type::New(Memory_device_type::New(1024, 64));
    File_system_type::Format(&mut Device, Small_configuration()).unwrap();
    File_system_type::New(Device, Small_configuration()).unwrap()
}

fn Path(Text: &str) -> Path_type {
    Path_type::New(Text.as_bytes().to_vec())
}

fn Write_flags() -> Flags_type {
    Flags_type::New(Mode_type::Write_only, true, false)
}

fn Read_flags() -> Flags_type {
    Flags_type::New(Mode_type::Read_only, false, false)
}

#[test]
fn format_then_mount_is_empty() {
    let File_system = Mounted();
    assert_eq!(File_system.Get_open_files_count(), 0);
}

#[test]
fn mount_without_format_is_corrupted() {
    let Device = Device_type::New(Memory_device_type::New(1024, 64));
    let Result = File_system_type::New(Device, Small_configuration());
    assert!(matches!(Result, Err(Error_type::Corrupted)));
}

#[test]
fn mount_with_wrong_capacity_is_invalid() {
    let Device = Device_type::New(Memory_device_type::New(512, 64));
    let Result = File_system_type::New(Device, Small_configuration());
    assert!(matches!(Result, Err(Error_type::Invalid_parameter)));
}

#[test]
fn format_rejects_zero_block_size() {
    let mut Device = Device_type::New(Memory_device_type::New(1024, 64));
    let Configuration = Configuration_type::New(0, 16, 64, 64);
    let Result = File_system_type::Format(&mut Device, Configuration);
    assert_eq!(Result, Err(Error_type::Invalid_parameter));
}

#[test]
fn open_write_close_reopen_reads_back() {
    let mut File_system = Mounted();
    let Task = Task_identifier_type(1);
    let File = File_system.Open(Task, &Path("/x"), Write_flags()).unwrap();
    let Data = vec![1u8, 2, 3, 4, 5];
    let Written = File_system.Write(File, &Data).unwrap();
    assert_eq!(Written.0, 5);
    File_system.Close(File).unwrap();
    let File = File_system.Open(Task, &Path("/x"), Read_flags()).unwrap();
    let mut Buffer = vec![0u8; 5];
    let Count = File_system.Read(File, &mut Buffer).unwrap();
    assert_eq!(Count.0, 5);
    assert_eq!(Buffer, Data);
    File_system.Close(File).unwrap();
}

#[test]
fn round_trip_survives_remount() {
    let mut Device = Device_type::New(Memory_device_type::New(1024, 64));
    File_system_type::Format(&mut Device, Small_configuration()).unwrap();
    let mut File_system = File_system_type::New(Device, Small_configuration()).unwrap();
    let Task = Task_identifier_type(7);
    let File = File_system.Open(Task, &Path("/x"), Write_flags()).unwrap();
    let Data = b"stored across remount".to_vec();
    File_system.Write(File, &Data).unwrap();
    File_system.Close(File).unwrap();
    let Device = File_system.Unmount();
    let mut File_system = File_system_type::New(Device, Small_configuration()).unwrap();
    let File = File_system.Open(Task, &Path("/x"), Read_flags()).unwrap();
    let mut Buffer = vec![0u8; Data.len()];
    let Count = File_system.Read(File, &mut Buffer).unwrap();
    assert_eq!(Count.0, Data.len());
    assert_eq!(Buffer, Data);
}

#[test]
fn large_file_in_small_chunks() {
    // A 64 KiB memory-backed device with 256-byte cache buffers; a
    // 300-byte file spanning blocks, read back in 64-byte chunks.
    let Configuration = Configuration_type::New(256, 256, 256, 256);
    let mut Device = Device_type::New(Memory_device_type::New(65536, 256));
    File_system_type::Format(&mut Device, Configuration).unwrap();
    let mut File_system = File_system_type::New(Device, Configuration).unwrap();
    let Task = Task_identifier_type(3);
    let File = File_system.Open(Task, &Path("/big"), Write_flags()).unwrap();
    let mut Data = Vec::new();
    for Index in 0..300 {
        Data.push((Index % 251) as u8);
    }
    let Written = File_system.Write(File, &Data).unwrap();
    assert_eq!(Written.0, 300);
    File_system.Close(File).unwrap();
    let File = File_system.Open(Task, &Path("/big"), Read_flags()).unwrap();
    let mut Collected = Vec::new();
    let mut Total = 0usize;
    loop {
        let mut Chunk = vec![0u8; 64];
        let Count = File_system.Read(File, &mut Chunk).unwrap();
        if Count.0 == 0 {
            break;
        }
        Total += Count.0;
        Collected.extend_from_slice(&Chunk[..Count.0]);
    }
    assert_eq!(Total, 300);
    assert_eq!(Collected, Data);
}

#[test]
fn exhaustion_returns_too_many_open_files() {
    let mut File_system = Mounted();
    let Task = Task_identifier_type(9);
    let File = File_system.Open(Task, &Path("/x"), Write_flags()).unwrap();
    File_system.Write(File, &vec![9u8]).unwrap();
    File_system.Close(File).unwrap();
    let mut Opened = Vec::new();
    loop {
        match File_system.Open(Task, &Path("/x"), Read_flags()) {
            Ok(File) => Opened.push(File),
            Err(Error) => {
                assert_eq!(Error, Error_type::Too_many_open_files);
                break;
            },
        }
        assert!(Opened.len() <= 64);
    }
    assert_eq!(Opened.len(), 64);
    let Count_before = File_system.Get_open_files_count();
    let Result = File_system.Open(Task, &Path("/x"), Read_flags());
    assert_eq!(Result, Err(Error_type::Too_many_open_files));
    assert_eq!(File_system.Get_open_files_count(), Count_before);
    // every identifier stays usable after the failed allocation
    for File in &Opened {
        File_system.Get_mode(*File).unwrap();
    }
}

#[test]
fn close_all_removes_exactly_one_task() {
    let mut File_system = Mounted();
    let Task_a = Task_identifier_type(1);
    let Task_b = Task_identifier_type(2);
    let File = File_system.Open(Task_a, &Path("/x"), Write_flags()).unwrap();
    File_system.Write(File, &vec![1u8, 2, 3]).unwrap();
    File_system.Close(File).unwrap();
    // interleave the two tasks' opens
    let A_1 = File_system.Open(Task_a, &Path("/x"), Read_flags()).unwrap();
    let B_1 = File_system.Open(Task_b, &Path("/x"), Read_flags()).unwrap();
    let A_2 = File_system.Open(Task_a, &Path("/x"), Read_flags()).unwrap();
    let B_2 = File_system.Open(Task_b, &Path("/x"), Read_flags()).unwrap();
    File_system.Close_all(Task_a).unwrap();
    assert_eq!(File_system.Get_mode(A_1), Err(Error_type::Invalid_identifier));
    assert_eq!(File_system.Get_mode(A_2), Err(Error_type::Invalid_identifier));
    let mut Buffer = vec![0u8; 3];
    assert_eq!(File_system.Read(B_1, &mut Buffer).unwrap().0, 3);
    assert_eq!(Buffer, vec![1u8, 2, 3]);
    File_system.Get_mode(B_2).unwrap();
    assert_eq!(File_system.Get_open_files_count(), 2);
}

#[test]
fn duplicate_diverges_and_survives_close() {
    let mut File_system = Mounted();
    let Task = Task_identifier_type(4);
    let File = File_system.Open(Task, &Path("/x"), Write_flags()).unwrap();
    File_system.Write(File, &vec![10u8, 20, 30, 40]).unwrap();
    File_system.Close(File).unwrap();
    let Original = File_system.Open(Task, &Path("/x"), Read_flags()).unwrap();
    let Duplicate = File_system.Duplicate_file_identifier(Original).unwrap();
    assert_ne!(Original, Duplicate);
    // the documented policy: the clone's cursor diverges from then on
    let mut Buffer = vec![0u8; 2];
    File_system.Read(Original, &mut Buffer).unwrap();
    assert_eq!(Buffer, vec![10u8, 20]);
    let mut Buffer = vec![0u8; 2];
    File_system.Read(Duplicate, &mut Buffer).unwrap();
    assert_eq!(Buffer, vec![10u8, 20]);
    // closing one leaves the other live
    File_system.Close(Original).unwrap();
    let mut Buffer = vec![0u8; 2];
    File_system.Read(Duplicate, &mut Buffer).unwrap();
    assert_eq!(Buffer, vec![30u8, 40]);
    File_system.Close(Duplicate).unwrap();
}

#[test]
fn transfer_invalidates_the_source() {
    let mut File_system = Mounted();
    let Task_a = Task_identifier_type(1);
    let Task_b = Task_identifier_type(2);
    let File = File_system.Open(Task_a, &Path("/x"), Write_flags()).unwrap();
    File_system.Write(File, &vec![5u8, 6]).unwrap();
    File_system.Close(File).unwrap();
    let Source = File_system.Open(Task_a, &Path("/x"), Read_flags()).unwrap();
    let Transferred = File_system.Transfert_file_identifier(Task_b, Source).unwrap();
    assert_eq!(Transferred.Task, Task_b);
    let mut Buffer = vec![0u8; 2];
    assert_eq!(
        File_system.Read(Source, &mut Buffer),
        Err(Error_type::Invalid_identifier)
    );
    assert_eq!(File_system.Read(Transferred, &mut Buffer).unwrap().0, 2);
    assert_eq!(Buffer, vec![5u8, 6]);
}

#[test]
fn open_errors_match_the_taxonomy() {
    let mut File_system = Mounted();
    let Task = Task_identifier_type(1);
    assert_eq!(
        File_system.Open(Task, &Path("relative"), Read_flags()),
        Err(Error_type::Invalid_parameter)
    );
    assert_eq!(
        File_system.Open(Task, &Path(""), Read_flags()),
        Err(Error_type::Invalid_parameter)
    );
    assert_eq!(
        File_system.Open(Task, &Path_type::New(vec![47, 0, 65]), Read_flags()),
        Err(Error_type::Invalid_parameter)
    );
    assert_eq!(
        File_system.Open(Task, &Path("/absent"), Read_flags()),
        Err(Error_type::No_entry)
    );
    let mut Long = vec![47u8];
    Long.resize(5000, 97);
    assert_eq!(
        File_system.Open(Task, &Path_type::New(Long), Read_flags()),
        Err(Error_type::Name_too_long)
    );
    // truncating a read-only open has no native form
    assert_eq!(
        File_system.Open(Task, &Path("/x"), Flags_type::New(Mode_type::Read_only, false, true)),
        Err(Error_type::Invalid_parameter)
    );
}

#[test]
fn wrong_mode_is_a_bad_file_descriptor() {
    let mut File_system = Mounted();
    let Task = Task_identifier_type(1);
    let Writer = File_system.Open(Task, &Path("/x"), Write_flags()).unwrap();
    let mut Buffer = vec![0u8; 1];
    assert_eq!(
        File_system.Read(Writer, &mut Buffer),
        Err(Error_type::Bad_file_descriptor)
    );
    File_system.Write(Writer, &vec![1u8]).unwrap();
    File_system.Close(Writer).unwrap();
    let Reader = File_system.Open(Task, &Path("/x"), Read_flags()).unwrap();
    assert_eq!(
        File_system.Write(Reader, &vec![1u8]),
        Err(Error_type::Bad_file_descriptor)
    );
    assert_eq!(File_system.Get_mode(Reader), Ok(Mode_type::Read_only));
}

#[test]
fn set_position_moves_the_cursor() {
    let mut File_system = Mounted();
    let Task = Task_identifier_type(1);
    let File = File_system
        .Open(Task, &Path("/x"), Flags_type::New(Mode_type::Read_write, true, false))
        .unwrap();
    File_system.Write(File, &vec![0u8, 1, 2, 3, 4, 5, 6, 7]).unwrap();
    assert_eq!(File_system.Set_position(File, &Position_type::Start(2)).unwrap().0, 2);
    let mut Buffer = vec![0u8; 1];
    File_system.Read(File, &mut Buffer).unwrap();
    assert_eq!(Buffer[0], 2);
    assert_eq!(
        File_system.Set_position(File, &Position_type::Current(2)).unwrap().0,
        5
    );
    assert_eq!(File_system.Set_position(File, &Position_type::End(-3)).unwrap().0, 5);
    assert_eq!(
        File_system.Set_position(File, &Position_type::Current(-100)),
        Err(Error_type::Invalid_parameter)
    );
    // seeking past the end reads nothing and a write lands with a zero gap
    assert_eq!(File_system.Set_position(File, &Position_type::End(2)).unwrap().0, 10);
    let mut Buffer = vec![0u8; 1];
    assert_eq!(File_system.Read(File, &mut Buffer).unwrap().0, 0);
    File_system.Write(File, &vec![9u8]).unwrap();
    File_system.Set_position(File, &Position_type::Start(7)).unwrap();
    let mut Buffer = vec![0u8; 4];
    assert_eq!(File_system.Read(File, &mut Buffer).unwrap().0, 4);
    assert_eq!(Buffer, vec![7u8, 0, 0, 9]);
}

#[test]
fn statistics_report_the_size() {
    let mut File_system = Mounted();
    let Task = Task_identifier_type(1);
    let File = File_system.Open(Task, &Path("/x"), Write_flags()).unwrap();
    File_system.Write(File, &vec![1u8; 42]).unwrap();
    let Statistics = File_system.Get_statistics(File).unwrap();
    assert_eq!(Statistics.Size.0, 42);
    assert_eq!(Statistics.Type, Type_type::File);
    File_system.Close(File).unwrap();
    assert_eq!(
        File_system.Get_statistics(File),
        Err(Error_type::Invalid_identifier)
    );
}

#[test]
fn delete_and_move_respect_open_files() {
    let mut File_system = Mounted();
    let Task = Task_identifier_type(1);
    let File = File_system.Open(Task, &Path("/x"), Write_flags()).unwrap();
    File_system.Write(File, &vec![1u8]).unwrap();
    assert_eq!(File_system.Delete(&Path("/x")), Err(Error_type::Ressource_busy));
    assert_eq!(
        File_system.Move(&Path("/x"), &Path("/y")),
        Err(Error_type::Ressource_busy)
    );
    File_system.Close(File).unwrap();
    File_system.Move(&Path("/x"), &Path("/y")).unwrap();
    assert_eq!(
        File_system.Open(Task, &Path("/x"), Read_flags()),
        Err(Error_type::No_entry)
    );
    let Reader = File_system.Open(Task, &Path("/y"), Read_flags()).unwrap();
    let mut Buffer = vec![0u8; 1];
    File_system.Read(Reader, &mut Buffer).unwrap();
    assert_eq!(Buffer[0], 1);
    File_system.Close(Reader).unwrap();
    let Other = File_system.Open(Task, &Path("/z"), Write_flags()).unwrap();
    File_system.Close(Other).unwrap();
    assert_eq!(
        File_system.Move(&Path("/y"), &Path("/z")),
        Err(Error_type::Entry_exists)
    );
    File_system.Move(&Path("/y"), &Path("/y")).unwrap();
    File_system.Delete(&Path("/y")).unwrap();
    assert_eq!(File_system.Delete(&Path("/y")), Err(Error_type::No_entry));
    assert_eq!(File_system.Delete(&Path("no_slash")), Err(Error_type::Invalid_parameter));
}

#[test]
fn open_close_cycles_leak_nothing() {
    let mut File_system = Mounted();
    let Task = Task_identifier_type(5);
    let File = File_system.Open(Task, &Path("/x"), Write_flags()).unwrap();
    File_system.Write(File, &vec![1u8]).unwrap();
    File_system.Close(File).unwrap();
    for _ in 0..200 {
        let File = File_system.Open(Task, &Path("/x"), Read_flags()).unwrap();
        File_system.Close(File).unwrap();
    }
    assert_eq!(File_system.Get_open_files_count(), 0);
    // and a fresh mount of the same device still succeeds cleanly
    let Device = File_system.Unmount();
    let File_system = File_system_type::New(Device, Small_configuration()).unwrap();
    assert_eq!(File_system.Get_open_files_count(), 0);
}

#[test]
fn identifiers_split_into_task_and_slot() {
    let mut File_system = Mounted();
    let Task = Task_identifier_type(6);
    let File = File_system.Open(Task, &Path("/x"), Write_flags()).unwrap();
    let (Owner, Slot) = File.Split();
    assert_eq!(Owner, Task);
    assert_eq!(Slot.0, 0);
    let Minimum = Local_file_identifier_type::Get_minimum(Task);
    assert_eq!(Minimum, File);
    let Second = File_system.Open(Task, &Path("/x"), Flags_type::New(Mode_type::Read_only, true, false));
    // the same file may be opened twice under the next slot
    assert_eq!(Second.unwrap().File.0, 1);
}

#[test]
fn flush_persists_without_a_close() {
    let mut Device = Device_type::New(Memory_device_type::New(1024, 64));
    File_system_type::Format(&mut Device, Small_configuration()).unwrap();
    let mut File_system = File_system_type::New(Device, Small_configuration()).unwrap();
    let Task = Task_identifier_type(1);
    let File = File_system.Open(Task, &Path("/x"), Write_flags()).unwrap();
    File_system.Write(File, &vec![8u8, 9]).unwrap();
    File_system.Flush(File).unwrap();
    // the identifier is still open after the flush
    assert_eq!(File_system.Get_open_files_count(), 1);
    let Device = File_system.Unmount();
    let mut File_system = File_system_type::New(Device, Small_configuration()).unwrap();
    let File = File_system.Open(Task, &Path("/x"), Read_flags()).unwrap();
    let mut Buffer = vec![0u8; 2];
    assert_eq!(File_system.Read(File, &mut Buffer).unwrap().0, 2);
    assert_eq!(Buffer, vec![8u8, 9]);
    assert_eq!(
        File_system.Flush(Local_file_identifier_type::Get_minimum(Task_identifier_type(42))),
        Err(Error_type::Invalid_identifier)
    );
}

#[test]
fn failed_transfer_leaves_the_source_live() {
    let mut File_system = Mounted();
    let Task_a = Task_identifier_type(1);
    let Task_b = Task_identifier_type(2);
    let File = File_system.Open(Task_a, &Path("/x"), Write_flags()).unwrap();
    File_system.Write(File, &vec![4u8, 5]).unwrap();
    File_system.Close(File).unwrap();
    // exhaust the destination task's range
    loop {
        match File_system.Open(Task_b, &Path("/x"), Read_flags()) {
            Ok(_) => (),
            Err(Error) => {
                assert_eq!(Error, Error_type::Too_many_open_files);
                break;
            },
        }
    }
    let Source = File_system.Open(Task_a, &Path("/x"), Read_flags()).unwrap();
    let Count_before = File_system.Get_open_files_count();
    let Result = File_system.Transfert_file_identifier(Task_b, Source);
    assert_eq!(Result, Err(Error_type::Too_many_open_files));
    // the failed call changed nothing: the source identifier still reads
    assert_eq!(File_system.Get_open_files_count(), Count_before);
    let mut Buffer = vec![0u8; 2];
    assert_eq!(File_system.Read(Source, &mut Buffer).unwrap().0, 2);
    assert_eq!(Buffer, vec![4u8, 5]);
}

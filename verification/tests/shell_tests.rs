//! Tests of the concatenate command's compute core.

use xila_fs::device::Device_type;
use xila_fs::file_system::{Configuration_type, File_system_type};
use xila_fs::fundamentals::{Flags_type, Mode_type, Path_type, Task_identifier_type};
use xila_fs::memory_device::Memory_device_type;
use xila_fs::shell::{Concatenate, Read_file_and_write};
use xila_fs::error::Error_type;

fn Path(Text: &str) -> Path_type {
    Path_type::New(Text.as_bytes().to_vec())
}

fn Mounted_with(Files: &[(&str, &[u8])]) -> File_system_type<Memory_device_type> {
    let Configuration = Configuration_type::New(64, 32, 64, 64);
    let mut Device = Device_type::New(Memory_device_type::New(2048, 64));
    File_system_type::Format(&mut Device, Configuration).unwrap();
    let mut File_system = File_system_type::New(Device, Configuration).unwrap();
    let Task = Task_identifier_type(99);
    for (Name, Data) in Files {
        let File = File_system
            .Open(Task, &Path(Name), Flags_type::New(Mode_type::Write_only, true, false))
            .unwrap();
        File_system.Write(File, &Data.to_vec()).unwrap();
        File_system.Close(File).unwrap();
    }
    File_system
}

#[test]
fn one_file_is_read_whole() {
    let mut File_system = Mounted_with(&[("/a", b"alpha")]);
    let Task = Task_identifier_type(1);
    let mut Output = Vec::new();
    Read_file_and_write(&mut File_system, Task, &Path("/a"), &mut Output).unwrap();
    assert_eq!(Output, b"alpha".to_vec());
    assert_eq!(File_system.Get_open_files_count(), 0);
}

#[test]
fn a_long_file_is_read_across_chunks() {
    let Data: Vec<u8> = (0..=255u8).chain(0..=99u8).collect();
    let mut File_system = Mounted_with(&[("/long", &Data)]);
    let Task = Task_identifier_type(1);
    let mut Output = Vec::new();
    Read_file_and_write(&mut File_system, Task, &Path("/long"), &mut Output).unwrap();
    assert_eq!(Output, Data);
}

#[test]
fn missing_files_report_and_append_nothing() {
    let mut File_system = Mounted_with(&[]);
    let Task = Task_identifier_type(1);
    let mut Output = Vec::new();
    let Result = Read_file_and_write(&mut File_system, Task, &Path("/absent"), &mut Output);
    assert_eq!(Result, Err(Error_type::No_entry));
    assert!(Output.is_empty());
    let Result = Read_file_and_write(&mut File_system, Task, &Path("bad"), &mut Output);
    assert_eq!(Result, Err(Error_type::Invalid_parameter));
    assert!(Output.is_empty());
}

#[test]
fn concatenate_joins_relative_paths() {
    let mut File_system = Mounted_with(&[("/a", b"one"), ("/dir/b", b"two"), ("/c", b"three")]);
    let Task = Task_identifier_type(1);
    let Arguments = vec![Path("/a"), Path("b"), Path("/missing"), Path("/c")];
    let mut Output = Vec::new();
    let Results = Concatenate(&mut File_system, Task, &Path("/dir"), &Arguments, &mut Output);
    // the missing file contributes nothing and the rest come in order
    assert_eq!(Output, b"onetwothree".to_vec());
    assert_eq!(File_system.Get_open_files_count(), 0);
    // one result per argument, so a front end can report each failure
    assert_eq!(Results.len(), 4);
    assert_eq!(Results[0], Ok(()));
    assert_eq!(Results[1], Ok(()));
    assert_eq!(Results[2], Err(Error_type::No_entry));
    assert_eq!(Results[3], Ok(()));
}

#[test]
fn an_exhausted_task_reads_nothing_and_learns_so() {
    let mut File_system = Mounted_with(&[("/a", b"alpha")]);
    let Task = Task_identifier_type(1);
    let mut Held = Vec::new();
    loop {
        match File_system.Open(Task, &Path("/a"), Flags_type::New(Mode_type::Read_only, false, false)) {
            Ok(File) => Held.push(File),
            Err(Error) => {
                assert_eq!(Error, Error_type::Too_many_open_files);
                break;
            },
        }
    }
    let mut Output = Vec::new();
    let Result = Read_file_and_write(&mut File_system, Task, &Path("/a"), &mut Output);
    assert_eq!(Result, Err(Error_type::Too_many_open_files));
    assert!(Output.is_empty());
    // another task still reads the file
    let Result = Read_file_and_write(
        &mut File_system,
        Task_identifier_type(2),
        &Path("/a"),
        &mut Output,
    );
    assert_eq!(Result, Ok(()));
    assert_eq!(Output, b"alpha".to_vec());
}

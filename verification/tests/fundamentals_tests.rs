//! Tests of the plain value types: sizes, paths, flags and identifiers.

use xila_fs::fundamentals::{
    File_identifier_type, Flags_type, Local_file_identifier_type, Mode_type, Path_type,
    Size_type, Task_identifier_type,
};

#[test]
fn sizes_wrap_a_byte_count() {
    let Size = Size_type::New(42);
    assert_eq!(Size.As_usize(), 42);
    assert_eq!(Size, Size_type(42));
}

#[test]
fn path_validity_requires_an_absolute_clean_name() {
    assert!(Path_type::New(b"/x".to_vec()).Is_valid());
    assert!(Path_type::New(b"/a/b/c".to_vec()).Is_valid());
    assert!(!Path_type::New(b"".to_vec()).Is_valid());
    assert!(!Path_type::New(b"relative".to_vec()).Is_valid());
    assert!(!Path_type::New(vec![47, 0]).Is_valid());
    assert!(Path_type::New(b"/x".to_vec()).Is_absolute());
    assert!(!Path_type::New(b"x".to_vec()).Is_absolute());
}

#[test]
fn join_inserts_one_separator() {
    let Base = Path_type::New(b"/usr".to_vec());
    let Joined = Base.Join(&Path_type::New(b"bin".to_vec())).unwrap();
    assert_eq!(Joined.As_bytes().as_slice(), b"/usr/bin");
}

#[test]
fn modes_say_what_they_allow() {
    assert!(Mode_type::Read_only.Can_read());
    assert!(!Mode_type::Read_only.Can_write());
    assert!(!Mode_type::Write_only.Can_read());
    assert!(Mode_type::Write_only.Can_write());
    assert!(Mode_type::Read_write.Can_read());
    assert!(Mode_type::Read_write.Can_write());
    let Flags = Flags_type::From_mode(Mode_type::Read_write);
    assert_eq!(Flags.Get_mode(), Mode_type::Read_write);
    assert!(!Flags.Create);
    assert!(!Flags.Truncate);
    let Flags = Flags_type::New(Mode_type::Write_only, true, true);
    assert!(Flags.Create);
    assert!(Flags.Truncate);
}

#[test]
fn identifiers_carry_task_and_slot() {
    let Identifier = Local_file_identifier_type::New(
        Task_identifier_type(3),
        File_identifier_type(5),
    );
    let (Task, File) = Identifier.Split();
    assert_eq!(Task, Task_identifier_type(3));
    assert_eq!(File, File_identifier_type(5));
    let Minimum = Local_file_identifier_type::Get_minimum(Task_identifier_type(3));
    assert_eq!(Minimum.File, File_identifier_type(0));
    assert_eq!(Minimum.Task, Task_identifier_type(3));
}

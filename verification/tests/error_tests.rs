//! The native return-code translation, held against every documented
//! code.

use xila_fs::error::{Convert_result, Error_type};

#[test]
fn zero_and_positive_codes_are_success() {
    assert_eq!(Convert_result(0), Ok(()));
    assert_eq!(Convert_result(1), Ok(()));
    assert_eq!(Convert_result(i32::MAX), Ok(()));
}

#[test]
fn every_documented_code_translates_one_to_one() {
    assert_eq!(Convert_result(-5), Err(Error_type::Input_output));
    assert_eq!(Convert_result(-84), Err(Error_type::Corrupted));
    assert_eq!(Convert_result(-2), Err(Error_type::No_entry));
    assert_eq!(Convert_result(-17), Err(Error_type::Entry_exists));
    assert_eq!(Convert_result(-20), Err(Error_type::Not_directory));
    assert_eq!(Convert_result(-21), Err(Error_type::Is_directory));
    assert_eq!(Convert_result(-39), Err(Error_type::Directory_not_empty));
    assert_eq!(Convert_result(-9), Err(Error_type::Bad_file_descriptor));
    assert_eq!(Convert_result(-27), Err(Error_type::File_too_large));
    assert_eq!(Convert_result(-22), Err(Error_type::Invalid_parameter));
    assert_eq!(Convert_result(-28), Err(Error_type::No_space_left));
    assert_eq!(Convert_result(-12), Err(Error_type::No_memory));
    assert_eq!(Convert_result(-61), Err(Error_type::No_attribute));
    assert_eq!(Convert_result(-36), Err(Error_type::Name_too_long));
}

#[test]
fn undocumented_codes_collapse_into_internal_error() {
    assert_eq!(Convert_result(-1), Err(Error_type::Internal_error));
    assert_eq!(Convert_result(-1000), Err(Error_type::Internal_error));
    assert_eq!(Convert_result(i32::MIN), Err(Error_type::Internal_error));
}

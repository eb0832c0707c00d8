//! The shared error taxonomy of the storage layer.
//!
//! Every operation of the crate returns a typed result over this enum.
//! The block-structured backend also speaks the signed return-code
//! convention of classic embedded storage engines; `Convert_result`
//! translates every documented code into the taxonomy, one to one.

use vstd::prelude::*;

verus! {

/// Errors of the storage layer.
#[derive(Clone, Copy, Debug, PartialEq, Eq, Structural)]
pub enum Error_type {
    /// The identifier is absent from the open-file table.
    Invalid_identifier,
    /// The per-task identifier range is exhausted.
    Too_many_open_files,
    /// An internal consistency invariant was violated.
    Internal_error,
    /// A configuration or path is not convertible to its native form.
    Invalid_parameter,
    /// The capability is absent, for example erasing a non-block device.
    Unsupported_operation,
    /// The operation would have to block; devices never block.
    Ressource_busy,
    /// A low-level input or output failure.
    Input_output,
    /// The on-device image is not a readable file-system image.
    Corrupted,
    /// No entry bears the requested name.
    No_entry,
    /// An entry with the requested name already exists.
    Entry_exists,
    /// The entry is not a directory.
    Not_directory,
    /// The entry is a directory.
    Is_directory,
    /// The directory is not empty.
    Directory_not_empty,
    /// The identifier is open in a mode that forbids the operation.
    Bad_file_descriptor,
    /// The file would grow beyond the largest representable size.
    File_too_large,
    /// The device cannot hold the resulting image.
    No_space_left,
    /// Memory could not be allocated.
    No_memory,
    /// The requested attribute is absent.
    No_attribute,
    /// The name is longer than the backend accepts.
    Name_too_long,
}

pub type Result_type<T> = Result<T, Error_type>;

/// The meaning of every native return code, as a value of the taxonomy.
///
/// A negative code is an error, zero and positive codes are success;
/// undocumented negative codes collapse into `Internal_error`.
pub open spec fn Code_meaning(Code: int) -> Result_type<()> {
    if Code >= 0 {
        Ok(())
    } else if Code == -5 {
        Err(Error_type::Input_output)
    } else if Code == -84 {
        Err(Error_type::Corrupted)
    } else if Code == -2 {
        Err(Error_type::No_entry)
    } else if Code == -17 {
        Err(Error_type::Entry_exists)
    } else if Code == -20 {
        Err(Error_type::Not_directory)
    } else if Code == -21 {
        Err(Error_type::Is_directory)
    } else if Code == -39 {
        Err(Error_type::Directory_not_empty)
    } else if Code == -9 {
        Err(Error_type::Bad_file_descriptor)
    } else if Code == -27 {
        Err(Error_type::File_too_large)
    } else if Code == -22 {
        Err(Error_type::Invalid_parameter)
    } else if Code == -28 {
        Err(Error_type::No_space_left)
    } else if Code == -12 {
        Err(Error_type::No_memory)
    } else if Code == -61 {
        Err(Error_type::No_attribute)
    } else if Code == -36 {
        Err(Error_type::Name_too_long)
    } else {
        Err(Error_type::Internal_error)
    }
}

/// Translates a native signed return code into the shared taxonomy.
pub fn Convert_result(Code: i32) -> (Result: Result_type<()>)
    ensures
        Result == Code_meaning(Code as int),
{
    if Code >= 0 {
        Ok(())
    } else if Code == -5 {
        Err(Error_type::Input_output)
    } else if Code == -84 {
        Err(Error_type::Corrupted)
    } else if Code == -2 {
        Err(Error_type::No_entry)
    } else if Code == -17 {
        Err(Error_type::Entry_exists)
    } else if Code == -20 {
        Err(Error_type::Not_directory)
    } else if Code == -21 {
        Err(Error_type::Is_directory)
    } else if Code == -39 {
        Err(Error_type::Directory_not_empty)
    } else if Code == -9 {
        Err(Error_type::Bad_file_descriptor)
    } else if Code == -27 {
        Err(Error_type::File_too_large)
    } else if Code == -22 {
        Err(Error_type::Invalid_parameter)
    } else if Code == -28 {
        Err(Error_type::No_space_left)
    } else if Code == -12 {
        Err(Error_type::No_memory)
    } else if Code == -61 {
        Err(Error_type::No_attribute)
    } else if Code == -36 {
        Err(Error_type::Name_too_long)
    } else {
        Err(Error_type::Internal_error)
    }
}

} // verus!

//! The block-structured file-system backend.
//!
//! An instance mounts one device, owns the task-scoped open-file table
//! and the three cache buffers, and keeps the on-device image in step
//! with the directory: every operation that closes or flushes a file
//! rewrites the image prefix of the device.
//!
//! The open-file table is modelled as a map from task-scoped identifiers
//! to open-file records; every operation's contract says exactly how the
//! map, the directory and the device change.

use vstd::prelude::*;

use crate::device::{Device_trait, Device_type, Is_device_error, Transfer_count};
use crate::error::{Error_type, Result_type};
use crate::fundamentals::{
    File_identifier_type, Flags_type, Is_valid_path, Is_valid_path_bytes, Local_file_identifier_type,
    Maximum_opened_files, Maximum_path_length, Mode_type, Path_type, Position_type,
    Resolve_position, Size_type, Task_identifier_type,
};
use crate::image::{
    Copy_bytes, Decode_image, Decode_image_exec, Encode_image, Encode_image_exec, Encoded_size,
    Entries_view, Entry_view, Equal_bytes, File_entry_type, Length_limit,
};
use crate::metadata::{
    Group_identifier_type, Permissions_type, Time_type, Type_type, User_identifier_type,
};

verus! {

/// A backend-native open-file record: the file's name, the cursor, and
/// the flags the file was opened with.
pub struct File_type {
    pub Name: Vec<u8>,
    pub Cursor: usize,
    pub Flags: Flags_type,
}

/// What the table holds for one identifier, as contracts speak of it.
#[verifier::ext_equal]
pub struct File_view {
    pub Name: Seq<u8>,
    pub Cursor: nat,
    pub Flags: Flags_type,
}

impl File_type {
    pub open spec fn View(&self) -> File_view {
        File_view { Name: self.Name@, Cursor: self.Cursor as nat, Flags: self.Flags }
    }

    pub fn Get_mode(&self) -> (Result: Mode_type)
        ensures
            Result == self.Flags.Mode,
    {
        self.Flags.Mode
    }
}

/// What `Get_statistics` reports of an open file.
#[derive(Clone, Copy, Debug, PartialEq, Eq, Structural)]
pub struct Statistics_type {
    pub Size: Size_type,
    pub Type: Type_type,
    pub Creation_time: Time_type,
    pub Modification_time: Time_type,
    pub Access_time: Time_type,
    pub Permissions: Permissions_type,
    pub User: User_identifier_type,
    pub Group: Group_identifier_type,
}

/// Construction-time configuration of a mount or a format.
#[derive(Clone, Copy, Debug, PartialEq, Eq, Structural)]
pub struct Configuration_type {
    pub Block_size: usize,
    pub Block_count: usize,
    pub Cache_size: usize,
    pub Lookahead_size: usize,
}

/// A configuration converts to the engine's native descriptor exactly
/// when every size is positive and the image region is addressable.
pub open spec fn Is_valid_configuration(Configuration: Configuration_type) -> bool {
    &&& Configuration.Block_size >= 1
    &&& Configuration.Block_count >= 1
    &&& Configuration.Cache_size >= 1
    &&& Configuration.Lookahead_size >= 1
    &&& Configuration.Block_size * Configuration.Block_count <= usize::MAX
    &&& Configuration.Block_size * Configuration.Block_count >= 8
}

impl Configuration_type {
    pub fn New(
        Block_size: usize,
        Block_count: usize,
        Cache_size: usize,
        Lookahead_size: usize,
    ) -> (Result: Self)
        ensures
            Result.Block_size == Block_size,
            Result.Block_count == Block_count,
            Result.Cache_size == Cache_size,
            Result.Lookahead_size == Lookahead_size,
    {
        Configuration_type { Block_size, Block_count, Cache_size, Lookahead_size }
    }

    /// Whether the configuration converts to the native descriptor; the
    /// capacity it describes comes second.
    pub fn Validate(&self) -> (Result: Option<usize>)
        ensures
            match Result {
                Some(Capacity) => Is_valid_configuration(*self) && Capacity == self.Block_size
                    * self.Block_count,
                None => !Is_valid_configuration(*self),
            },
    {
        if self.Block_size < 1 || self.Block_count < 1 || self.Cache_size < 1
            || self.Lookahead_size < 1 {
            return None;
        }
        match self.Block_size.checked_mul(self.Block_count) {
            Some(Capacity) => {
                if Capacity < 8 {
                    None
                } else {
                    Some(Capacity)
                }
            },
            None => None,
        }
    }
}

/// Whether a run of directory entries is one the backend maintains:
/// bounded counts, valid unique names, bounded data.
pub open spec fn Valid_entries(Entries: Seq<Entry_view>) -> bool {
    &&& Entries.len() < Length_limit
    &&& forall|i: int|
        0 <= i < Entries.len() ==> Is_valid_path(#[trigger] Entries[i].Name)
            && Entries[i].Name.len() <= Maximum_path_length
            && Entries[i].Data.len() < Length_limit
    &&& forall|i: int, j: int|
        0 <= i < j < Entries.len() ==> (#[trigger] Entries[i].Name) != (#[trigger] Entries[j].Name)
}

/// Whether some entry bears `Name`.
pub open spec fn Has_file(Entries: Seq<Entry_view>, Name: Seq<u8>) -> bool {
    exists|i: int| 0 <= i < Entries.len() && (#[trigger] Entries[i].Name) == Name
}

/// The index of the entry bearing `Name`.
pub open spec fn File_index_spec(Entries: Seq<Entry_view>, Name: Seq<u8>) -> int {
    choose|i: int| 0 <= i < Entries.len() && (#[trigger] Entries[i].Name) == Name
}

/// The data of the entry bearing `Name`.
pub open spec fn File_data(Entries: Seq<Entry_view>, Name: Seq<u8>) -> Seq<u8> {
    Entries[File_index_spec(Entries, Name)].Data
}

/// Whether some pair of the table carries `Identifier`.
pub open spec fn Table_contains(
    Open_files: Seq<(Local_file_identifier_type, File_type)>,
    Identifier: Local_file_identifier_type,
) -> bool {
    exists|i: int|
        0 <= i < Open_files.len() && (#[trigger] Open_files[i].0) == Identifier
}

/// The position of `Identifier` in the table.
pub open spec fn Table_index(
    Open_files: Seq<(Local_file_identifier_type, File_type)>,
    Identifier: Local_file_identifier_type,
) -> int {
    choose|i: int| 0 <= i < Open_files.len() && (#[trigger] Open_files[i].0) == Identifier
}

/// No identifier appears twice.
pub open spec fn Unique_identifiers(
    Open_files: Seq<(Local_file_identifier_type, File_type)>,
) -> bool {
    forall|i: int, j: int|
        0 <= i < j < Open_files.len() ==> (#[trigger] Open_files[i].0) != (
        #[trigger] Open_files[j].0)
}

/// The open-file table as a map.
pub open spec fn Table_of(
    Open_files: Seq<(Local_file_identifier_type, File_type)>,
) -> Map<Local_file_identifier_type, File_view> {
    Map::new(
        |Identifier: Local_file_identifier_type| Table_contains(Open_files, Identifier),
        |Identifier: Local_file_identifier_type|
            Open_files[Table_index(Open_files, Identifier)].1.View(),
    )
}

/// With unique identifiers, an occupied position is the position the
/// table map reads through.
proof fn Lemma_table_index(
    Open_files: Seq<(Local_file_identifier_type, File_type)>,
    Index: int,
)
    requires
        Unique_identifiers(Open_files),
        0 <= Index < Open_files.len(),
    ensures
        Table_contains(Open_files, Open_files[Index].0),
        Table_index(Open_files, Open_files[Index].0) == Index,
        Table_of(Open_files)[Open_files[Index].0] == Open_files[Index].1.View(),
{
    let Identifier = Open_files[Index].0;
    assert(Table_contains(Open_files, Identifier));
    let Chosen = Table_index(Open_files, Identifier);
    if Chosen != Index {
        if Chosen < Index {
            assert(Open_files[Chosen].0 != Open_files[Index].0);
        } else {
            assert(Open_files[Index].0 != Open_files[Chosen].0);
        }
    }
}

/// Pushing a fresh pair inserts it into the table map.
proof fn Lemma_table_push(
    Open_files: Seq<(Local_file_identifier_type, File_type)>,
    Identifier: Local_file_identifier_type,
    File: File_type,
)
    requires
        Unique_identifiers(Open_files),
        !Table_contains(Open_files, Identifier),
    ensures
        Unique_identifiers(Open_files.push((Identifier, File))),
        Table_of(Open_files.push((Identifier, File))) == Table_of(Open_files).insert(
            Identifier,
            File.View(),
        ),
{
    let Extended = Open_files.push((Identifier, File));
    assert forall|i: int, j: int| 0 <= i < j < Extended.len() implies (#[trigger] Extended[i].0)
        != (#[trigger] Extended[j].0) by {
        if j < Open_files.len() {
            assert(Open_files[i].0 != Open_files[j].0);
        } else {
            assert(Extended[j].0 == Identifier);
            assert(Extended[i].0 == Open_files[i].0);
            if Open_files[i].0 == Identifier {
                assert(Table_contains(Open_files, Identifier));
            }
        }
    }
    let Left = Table_of(Extended);
    let Right = Table_of(Open_files).insert(Identifier, File.View());
    assert forall|Key: Local_file_identifier_type| Left.dom().contains(Key) implies
        Right.dom().contains(Key) by {
        let Position = Table_index(Extended, Key);
        if Position < Open_files.len() {
            assert(Open_files[Position].0 == Key);
            assert(Table_contains(Open_files, Key));
        }
    }
    assert forall|Key: Local_file_identifier_type| Right.dom().contains(Key) implies
        Left.dom().contains(Key) by {
        if Key == Identifier {
            assert(Extended[Open_files.len() as int].0 == Key);
        } else {
            let Position = Table_index(Open_files, Key);
            assert(Extended[Position].0 == Key);
        }
    }
    assert forall|Key: Local_file_identifier_type|
        Left.dom().contains(Key) implies #[trigger] Left[Key] == Right[Key] by {
        if Key == Identifier {
            Lemma_table_index(Extended, Open_files.len() as int);
        } else {
            let Position = Table_index(Open_files, Key);
            assert(Open_files[Position].0 == Key);
            assert(Extended[Position].0 == Key);
            Lemma_table_index(Open_files, Position);
            Lemma_table_index(Extended, Position);
        }
    }
    assert(Left =~= Right);
}

/// Removing an occupied position removes its identifier from the map.
proof fn Lemma_table_remove(
    Open_files: Seq<(Local_file_identifier_type, File_type)>,
    Index: int,
)
    requires
        Unique_identifiers(Open_files),
        0 <= Index < Open_files.len(),
    ensures
        Unique_identifiers(Open_files.remove(Index)),
        Table_of(Open_files.remove(Index)) == Table_of(Open_files).remove(Open_files[Index].0),
{
    let Shrunk = Open_files.remove(Index);
    let Removed = Open_files[Index].0;
    assert forall|i: int, j: int| 0 <= i < j < Shrunk.len() implies (#[trigger] Shrunk[i].0) != (
    #[trigger] Shrunk[j].0) by {
        let i_0 = if i < Index { i } else { i + 1 };
        let j_0 = if j < Index { j } else { j + 1 };
        assert(Shrunk[i] == Open_files[i_0]);
        assert(Shrunk[j] == Open_files[j_0]);
        assert(Open_files[i_0].0 != Open_files[j_0].0);
    }
    let Left = Table_of(Shrunk);
    let Right = Table_of(Open_files).remove(Removed);
    assert forall|Key: Local_file_identifier_type| Left.dom().contains(Key) implies
        Right.dom().contains(Key) by {
        let Position = Table_index(Shrunk, Key);
        let Source = if Position < Index { Position } else { Position + 1 };
        assert(Shrunk[Position] == Open_files[Source]);
        assert(Open_files[Source].0 == Key);
        assert(Table_contains(Open_files, Key));
        if Key == Removed {
            Lemma_table_index(Open_files, Index);
            Lemma_table_index(Open_files, Source);
        }
    }
    assert forall|Key: Local_file_identifier_type| Right.dom().contains(Key) implies
        Left.dom().contains(Key) by {
        let Source = Table_index(Open_files, Key);
        assert(Open_files[Source].0 == Key);
        if Source < Index {
            assert(Shrunk[Source] == Open_files[Source]);
        } else {
            assert(Source > Index);
            assert(Shrunk[Source - 1] == Open_files[Source]);
        }
    }
    assert forall|Key: Local_file_identifier_type|
        Left.dom().contains(Key) implies #[trigger] Left[Key] == Right[Key] by {
        let Position = Table_index(Shrunk, Key);
        Lemma_table_index(Shrunk, Position);
        let Source = if Position < Index { Position } else { Position + 1 };
        assert(Shrunk[Position] == Open_files[Source]);
        Lemma_table_index(Open_files, Source);
    }
    assert(Left =~= Right);
}

/// Updating the record at an occupied position rewrites its identifier's
/// image in the map.
proof fn Lemma_table_update(
    Open_files: Seq<(Local_file_identifier_type, File_type)>,
    Index: int,
    File: File_type,
)
    requires
        Unique_identifiers(Open_files),
        0 <= Index < Open_files.len(),
    ensures
        Unique_identifiers(Open_files.update(Index, (Open_files[Index].0, File))),
        Table_of(Open_files.update(Index, (Open_files[Index].0, File))) == Table_of(
            Open_files,
        ).insert(Open_files[Index].0, File.View()),
{
    let Identifier = Open_files[Index].0;
    let Updated = Open_files.update(Index, (Identifier, File));
    assert forall|i: int, j: int| 0 <= i < j < Updated.len() implies (#[trigger] Updated[i].0)
        != (#[trigger] Updated[j].0) by {
        assert(Updated[i].0 == Open_files[i].0);
        assert(Updated[j].0 == Open_files[j].0);
        assert(Open_files[i].0 != Open_files[j].0);
    }
    let Left = Table_of(Updated);
    let Right = Table_of(Open_files).insert(Identifier, File.View());
    assert forall|Key: Local_file_identifier_type| Left.dom().contains(Key) implies
        Right.dom().contains(Key) by {
        let Position = Table_index(Updated, Key);
        assert(Open_files[Position].0 == Key);
    }
    assert forall|Key: Local_file_identifier_type| Right.dom().contains(Key) implies
        Left.dom().contains(Key) by {
        if Key == Identifier {
            assert(Updated[Index].0 == Key);
        } else {
            let Position = Table_index(Open_files, Key);
            assert(Updated[Position].0 == Key);
        }
    }
    assert forall|Key: Local_file_identifier_type|
        Left.dom().contains(Key) implies #[trigger] Left[Key] == Right[Key] by {
        let Position = Table_index(Updated, Key);
        Lemma_table_index(Updated, Position);
        assert(Open_files[Position].0 == Key);
        Lemma_table_index(Open_files, Position);
        if Key == Identifier {
            Lemma_table_index(Updated, Index);
        }
    }
    assert(Left =~= Right);
}

/// With distinct names, an occupied position is the position the
/// directory lookup reads through.
proof fn Lemma_file_index(Entries: Seq<Entry_view>, Index: int)
    requires
        Valid_entries(Entries),
        0 <= Index < Entries.len(),
    ensures
        Has_file(Entries, Entries[Index].Name),
        File_index_spec(Entries, Entries[Index].Name) == Index,
{
    let Name = Entries[Index].Name;
    assert(Has_file(Entries, Name));
    let Chosen = File_index_spec(Entries, Name);
    if Chosen != Index {
        if Chosen < Index {
            assert(Entries[Chosen].Name != Entries[Index].Name);
        } else {
            assert(Entries[Index].Name != Entries[Chosen].Name);
        }
    }
}

/// Looks a name up in the directory.
fn Find_file_index(Files: &Vec<File_entry_type>, Name: &Vec<u8>) -> (Result: Option<usize>)
    ensures
        match Result {
            Some(Index) => Index < Files@.len() && Entries_view(Files@)[Index as int].Name
                == Name@,
            None => !Has_file(Entries_view(Files@), Name@),
        },
{
    let mut Index: usize = 0;
    while Index < Files.len()
        invariant
            0 <= Index <= Files@.len(),
            forall|i: int| 0 <= i < Index ==> Entries_view(Files@)[i].Name != Name@,
        decreases Files@.len() - Index,
    {
        if Equal_bytes(&Files[Index].Name, Name) {
            return Some(Index);
        }
        Index = Index + 1;
    }
    None
}

/// Whether some open record bears `Name`.
pub open spec fn Name_is_open(
    Open_files: Seq<(Local_file_identifier_type, File_type)>,
    Name: Seq<u8>,
) -> bool {
    exists|i: int|
        0 <= i < Open_files.len() && (#[trigger] Open_files[i].1).Name@ == Name
}

/// Whether any open record bears `Name`.
fn Any_handle_with_name(
    Open_files: &Vec<(Local_file_identifier_type, File_type)>,
    Name: &Vec<u8>,
) -> (Result: bool)
    ensures
        Result == Name_is_open(Open_files@, Name@),
{
    let mut Index: usize = 0;
    while Index < Open_files.len()
        invariant
            0 <= Index <= Open_files@.len(),
            forall|i: int| 0 <= i < Index ==> (#[trigger] Open_files@[i].1).Name@ != Name@,
        decreases Open_files@.len() - Index,
    {
        if Equal_bytes(&Open_files[Index].1.Name, Name) {
            return true;
        }
        Index = Index + 1;
    }
    false
}

/// Looks an identifier up in the open-file table.
fn Find_handle_index(
    Open_files: &Vec<(Local_file_identifier_type, File_type)>,
    Identifier: Local_file_identifier_type,
) -> (Result: Option<usize>)
    ensures
        match Result {
            Some(Index) => Index < Open_files@.len() && Open_files@[Index as int].0
                == Identifier,
            None => !Table_contains(Open_files@, Identifier),
        },
{
    let mut Index: usize = 0;
    while Index < Open_files.len()
        invariant
            0 <= Index <= Open_files@.len(),
            forall|i: int| 0 <= i < Index ==> (#[trigger] Open_files@[i].0) != Identifier,
        decreases Open_files@.len() - Index,
    {
        let Pair = &Open_files[Index];
        if Pair.0 == Identifier {
            return Some(Index);
        }
        Index = Index + 1;
    }
    None
}

/// Whether entries decoded from a device form a directory the backend
/// maintains: valid, bounded, pairwise distinct names.
fn Validate_entries_exec(Files: &Vec<File_entry_type>) -> (Result: bool)
    requires
        Files@.len() < Length_limit,
        forall|i: int|
            0 <= i < Files@.len() ==> (#[trigger] Files@[i]).Name@.len() < Length_limit
                && Files@[i].Data@.len() < Length_limit,
    ensures
        Result == Valid_entries(Entries_view(Files@)),
{
    let mut Index: usize = 0;
    while Index < Files.len()
        invariant
            0 <= Index <= Files@.len(),
            forall|i: int|
                0 <= i < Index ==> Is_valid_path(#[trigger] Entries_view(Files@)[i].Name)
                    && Entries_view(Files@)[i].Name.len() <= Maximum_path_length,
            forall|i: int, j: int|
                0 <= i < j < Index ==> (#[trigger] Entries_view(Files@)[i].Name) != (
                #[trigger] Entries_view(Files@)[j].Name),
        decreases Files@.len() - Index,
    {
        if !Is_valid_path_bytes(&Files[Index].Name) {
            proof {
                assert(Entries_view(Files@)[Index as int].Name == Files@[Index as int].Name@);
                if Valid_entries(Entries_view(Files@)) {
                    assert(Is_valid_path(Entries_view(Files@)[Index as int].Name));
                }
            }
            return false;
        }
        if Files[Index].Name.len() > Maximum_path_length {
            proof {
                assert(Entries_view(Files@)[Index as int].Name == Files@[Index as int].Name@);
                if Valid_entries(Entries_view(Files@)) {
                    assert(Entries_view(Files@)[Index as int].Name.len()
                        <= Maximum_path_length);
                }
            }
            return false;
        }
        let mut Other: usize = 0;
        while Other < Index
            invariant
                0 <= Other <= Index < Files@.len(),
                forall|i: int|
                    0 <= i < Other ==> (#[trigger] Entries_view(Files@)[i].Name)
                        != Entries_view(Files@)[Index as int].Name,
            decreases Index - Other,
        {
            if Equal_bytes(&Files[Other].Name, &Files[Index].Name) {
                proof {
                    assert(Entries_view(Files@)[Other as int].Name
                        == Files@[Other as int].Name@);
                    assert(Entries_view(Files@)[Index as int].Name
                        == Files@[Index as int].Name@);
                    if Valid_entries(Entries_view(Files@)) {
                        assert(Entries_view(Files@)[Other as int].Name != Entries_view(
                            Files@,
                        )[Index as int].Name);
                    }
                }
                return false;
            }
            Other = Other + 1;
        }
        Index = Index + 1;
    }
    proof {
        assert forall|i: int| 0 <= i < Entries_view(Files@).len() implies Is_valid_path(
            #[trigger] Entries_view(Files@)[i].Name,
        ) && Entries_view(Files@)[i].Name.len() <= Maximum_path_length && Entries_view(
            Files@,
        )[i].Data.len() < Length_limit by {
            assert(Entries_view(Files@)[i] == Files@[i].View());
        }
    }
    true
}

/// An instance of the block-structured backend: the mounted device, the
/// construction-time configuration, the three cache buffers, the
/// directory, and the open-file table.
///
/// The engine pins the read, write and lookahead buffers for transfer
/// staging over the instance's whole mounted lifetime: they are sized
/// from the configuration at construction and never reallocated, which
/// the invariant states.
pub struct File_system_type<D: Device_trait> {
    Device: Device_type<D>,
    Configuration: Configuration_type,
    Capacity: usize,
    Read_buffer: Vec<u8>,
    Write_buffer: Vec<u8>,
    Lookahead_buffer: Vec<u8>,
    Files: Vec<File_entry_type>,
    Open_files: Vec<(Local_file_identifier_type, File_type)>,
}

impl<D: Device_trait> File_system_type<D> {
    /// The directory: every file's name and data, in image order.
    pub closed spec fn Entries(&self) -> Seq<Entry_view> {
        Entries_view(self.Files@)
    }

    /// The open-file table as a map.
    pub closed spec fn Table(&self) -> Map<Local_file_identifier_type, File_view> {
        Table_of(self.Open_files@)
    }

    /// The live identifiers, in table order.
    pub closed spec fn Identifiers(&self) -> Seq<Local_file_identifier_type> {
        self.Open_files@.map_values(|Pair: (Local_file_identifier_type, File_type)| Pair.0)
    }

    /// The bytes of the mounted device.
    pub closed spec fn Device_content(&self) -> Seq<u8> {
        self.Device.Content()
    }

    pub closed spec fn Get_configuration_spec(&self) -> Configuration_type {
        self.Configuration
    }

    /// Whether some open record bears `Name`.
    pub closed spec fn Open_name(&self, Name: Seq<u8>) -> bool {
        Name_is_open(self.Open_files@, Name)
    }

    /// The byte capacity of the mounted image region.
    pub open spec fn Capacity_spec(&self) -> nat {
        (self.Get_configuration_spec().Block_size
            * self.Get_configuration_spec().Block_count) as nat
    }

    /// Whether the on-device image holds exactly the directory.
    pub open spec fn Synchronized(&self) -> bool {
        Decode_image(self.Device_content()) == Some(self.Entries())
    }

    /// The instance invariant: the device and configuration agree on the
    /// capacity, the cache buffers keep their construction-time size, the
    /// directory is valid, identifiers are unique and in their per-task
    /// range, and every open record points at a directory entry.
    pub closed spec fn Well_formed(&self) -> bool {
        &&& self.Device.Well_formed()
        &&& Is_valid_configuration(self.Configuration)
        &&& self.Capacity == self.Configuration.Block_size * self.Configuration.Block_count
        &&& self.Device.Content().len() == self.Capacity
        &&& self.Read_buffer@.len() == self.Configuration.Cache_size
        &&& self.Write_buffer@.len() == self.Configuration.Cache_size
        &&& self.Lookahead_buffer@.len() == self.Configuration.Cache_size
        &&& Valid_entries(self.Entries())
        &&& Unique_identifiers(self.Open_files@)
        &&& forall|i: int|
            0 <= i < self.Open_files@.len() ==> (#[trigger] self.Open_files@[i].0).File.0
                < Maximum_opened_files
        &&& forall|i: int|
            0 <= i < self.Open_files@.len() ==> Has_file(
                self.Entries(),
                (#[trigger] self.Open_files@[i]).1.Name@,
            )
    }

    /// A well-formed instance keeps a valid directory.
    pub proof fn Lemma_entries_valid(&self)
        requires
            self.Well_formed(),
        ensures
            Valid_entries(self.Entries()),
    {
    }

    /// The live identifiers, read off the table in order, are pairwise
    /// distinct.
    pub proof fn Lemma_identifiers_unique(&self)
        requires
            self.Well_formed(),
        ensures
            forall|i: int, j: int|
                0 <= i < j < self.Identifiers().len() ==> self.Identifiers()[i]
                    != self.Identifiers()[j],
    {
        assert forall|i: int, j: int|
            0 <= i < j < self.Identifiers().len() implies self.Identifiers()[i]
            != self.Identifiers()[j] by {
            assert(self.Identifiers()[i] == self.Open_files@[i].0);
            assert(self.Identifiers()[j] == self.Open_files@[j].0);
            assert(self.Open_files@[i].0 != self.Open_files@[j].0);
        }
    }

    /// Allocation: starting at the task's minimum, the first slot absent
    /// from the table; `Too_many_open_files` when the range is exhausted.
    fn Get_new_file_identifier(
        Task: Task_identifier_type,
        Open_files: &Vec<(Local_file_identifier_type, File_type)>,
    ) -> (Result: Result_type<Local_file_identifier_type>)
        ensures
            match Result {
                Ok(Identifier) => {
                    &&& Identifier.Task == Task
                    &&& Identifier.File.0 < Maximum_opened_files
                    &&& !Table_contains(Open_files@, Identifier)
                    &&& forall|Slot: u32|
                        Slot < Identifier.File.0 ==> Table_contains(
                            Open_files@,
                            (Local_file_identifier_type {
                                Task,
                                File: File_identifier_type(Slot),
                            }),
                        )
                },
                Err(Error) => {
                    &&& Error == Error_type::Too_many_open_files
                    &&& forall|Slot: u32|
                        Slot < Maximum_opened_files ==> Table_contains(
                            Open_files@,
                            (Local_file_identifier_type {
                                Task,
                                File: File_identifier_type(Slot),
                            }),
                        )
                },
            },
    {
        let mut Slot: u32 = 0;
        while Slot < Maximum_opened_files
            invariant
                0 <= Slot <= Maximum_opened_files,
                forall|Previous: u32|
                    Previous < Slot ==> Table_contains(
                        Open_files@,
                        (Local_file_identifier_type {
                            Task,
                            File: File_identifier_type(Previous),
                        }),
                    ),
            decreases Maximum_opened_files - Slot,
        {
            let Identifier = Local_file_identifier_type::New(Task, File_identifier_type(Slot));
            match Find_handle_index(Open_files, Identifier) {
                Some(_) => {
                    Slot = Slot + 1;
                },
                None => {
                    return Ok(Identifier);
                },
            }
        }
        Err(Error_type::Too_many_open_files)
    }

    /// Rewrites the image prefix of the device from the directory.
    fn Synchronize(
        Device: &mut Device_type<D>,
        Files: &Vec<File_entry_type>,
        Capacity: usize,
    ) -> (Result: Result_type<()>)
        requires
            old(Device).Well_formed(),
            old(Device).Content().len() == Capacity,
            Valid_entries(Entries_view(Files@)),
        ensures
            final(Device).Well_formed(),
            final(Device).Content().len() == Capacity,
            match Result {
                Ok(Unit) => Decode_image(final(Device).Content()) == Some(
                    Entries_view(Files@),
                ) && Encode_image(Entries_view(Files@)).len() <= Capacity,
                Err(Error) => {
                    &&& (Error == Error_type::No_space_left || Is_device_error(Error))
                    &&& (Error == Error_type::No_space_left <==> Encode_image(
                        Entries_view(Files@),
                    ).len() > Capacity)
                    &&& final(Device).Content() == old(Device).Content()
                },
            },
    {
        proof {
            Device.Bounds();
            assert forall|i: int| 0 <= i < Files@.len() implies (#[trigger] Files@[i]).Name@.len()
                < Length_limit && Files@[i].Data@.len() < Length_limit by {
                assert(Entries_view(Files@)[i] == Files@[i].View());
                assert(Entries_view(Files@)[i].Name.len() <= Maximum_path_length);
            }
        }
        let Size = match Encoded_size(Files) {
            Some(Size) => Size,
            None => {
                return Err(Error_type::No_space_left);
            },
        };
        if Size > Capacity {
            return Err(Error_type::No_space_left);
        }
        let Image = Encode_image_exec(Files);
        match Device.Set_position(&Position_type::Start(0)) {
            Ok(_) => (),
            Err(Error) => {
                proof {
                    assert(Is_device_error(Error));
                }
                return Err(Error);
            },
        };
        let ghost Content_before = Device.Content();
        match Device.Write(&Image) {
            Ok(Count) => {
                proof {
                    assert(Count.0 == Image@.len());
                    assert(Device.Content() =~= Encode_image(Entries_view(Files@))
                        + Content_before.skip(Size as int));
                    crate::image::Lemma_image_round_trip(
                        Entries_view(Files@),
                        Content_before.skip(Size as int),
                    );
                }
                Ok(())
            },
            Err(Error) => Err(Error),
        }
    }

    /// Formats the device: writes an image of the empty directory over
    /// it. Fails with `Invalid_parameter` when the configuration has no
    /// native form or does not describe the device.
    pub fn Format(Device: &mut Device_type<D>, Configuration: Configuration_type) -> (Result:
        Result_type<()>)
        requires
            old(Device).Well_formed(),
        ensures
            final(Device).Well_formed(),
            final(Device).Content().len() == old(Device).Content().len(),
            match Result {
                Ok(Unit) => {
                    &&& Is_valid_configuration(Configuration)
                    &&& old(Device).Content().len() == Configuration.Block_size
                        * Configuration.Block_count
                    &&& Decode_image(final(Device).Content()) == Some(
                        Seq::<Entry_view>::empty(),
                    )
                },
                Err(Error) => {
                    &&& (Error == Error_type::Invalid_parameter || Is_device_error(Error))
                    &&& (Error == Error_type::Invalid_parameter ==> (!Is_valid_configuration(
                        Configuration,
                    ) || old(Device).Content().len() != Configuration.Block_size
                        * Configuration.Block_count))
                },
            },
            !Is_valid_configuration(Configuration) ==> Result == Err::<(), Error_type>(
                Error_type::Invalid_parameter,
            ),
    {
        let Capacity = match Configuration.Validate() {
            Some(Capacity) => Capacity,
            None => {
                return Err(Error_type::Invalid_parameter);
            },
        };
        let Size = match Device.Get_size() {
            Ok(Size) => Size,
            Err(Error) => {
                return Err(Error);
            },
        };
        if Size.0 != Capacity {
            return Err(Error_type::Invalid_parameter);
        }
        let Files: Vec<File_entry_type> = Vec::new();
        proof {
            assert(Entries_view(Files@) =~= Seq::<Entry_view>::empty());
            assert(Encode_image(Seq::<Entry_view>::empty()).len() == 8);
        }
        match Self::Synchronize(Device, &Files, Capacity) {
            Ok(_) => Ok(()),
            Err(Error) => {
                proof {
                    assert(Is_device_error(Error));
                }
                Err(Error)
            },
        }
    }

    /// Mounts the device: reads and checks the image, takes ownership of
    /// the device, sizes the cache buffers, and starts with an empty
    /// open-file table.
    pub fn New(Device: Device_type<D>, Configuration: Configuration_type) -> (Result:
        Result_type<Self>)
        requires
            Device.Well_formed(),
        ensures
            match Result {
                Ok(File_system) => {
                    &&& File_system.Well_formed()
                    &&& File_system.Table() == Map::<
                        Local_file_identifier_type,
                        File_view,
                    >::empty()
                    &&& Is_valid_configuration(Configuration)
                    &&& File_system.Get_configuration_spec() == Configuration
                    &&& Device.Content().len() == Configuration.Block_size
                        * Configuration.Block_count
                    &&& Decode_image(Device.Content()) == Some(File_system.Entries())
                    &&& File_system.Device_content() == Device.Content()
                    &&& File_system.Synchronized()
                },
                Err(Error) => {
                    &&& (Error == Error_type::Invalid_parameter || Error
                        == Error_type::Corrupted || Is_device_error(Error))
                    &&& (Error == Error_type::Invalid_parameter ==> (!Is_valid_configuration(
                        Configuration,
                    ) || Device.Content().len() != Configuration.Block_size
                        * Configuration.Block_count))
                    &&& (Error == Error_type::Corrupted ==> match Decode_image(
                        Device.Content(),
                    ) {
                        Some(Entries) => !Valid_entries(Entries),
                        None => true,
                    })
                },
            },
            !Is_valid_configuration(Configuration) ==> Result == Err::<Self, Error_type>(
                Error_type::Invalid_parameter,
            ),
    {
        let Capacity = match Configuration.Validate() {
            Some(Capacity) => Capacity,
            None => {
                return Err(Error_type::Invalid_parameter);
            },
        };
        let mut Device = Device;
        let Size = match Device.Get_size() {
            Ok(Size) => Size,
            Err(Error) => {
                return Err(Error);
            },
        };
        if Size.0 != Capacity {
            return Err(Error_type::Invalid_parameter);
        }
        let Image = match Device.Dump_device() {
            Ok(Image) => Image,
            Err(Error) => {
                return Err(Error);
            },
        };
        let Files = match Decode_image_exec(&Image) {
            Some(Files) => Files,
            None => {
                return Err(Error_type::Corrupted);
            },
        };
        if !Validate_entries_exec(&Files) {
            return Err(Error_type::Corrupted);
        }
        let Read_buffer: Vec<u8> = vec![0u8; Configuration.Cache_size];
        let Write_buffer: Vec<u8> = vec![0u8; Configuration.Cache_size];
        let Lookahead_buffer: Vec<u8> = vec![0u8; Configuration.Cache_size];
        let File_system = File_system_type {
            Device,
            Configuration,
            Capacity,
            Read_buffer,
            Write_buffer,
            Lookahead_buffer,
            Files,
            Open_files: Vec::new(),
        };
        proof {
            assert(Table_of(File_system.Open_files@) =~= Map::<
                Local_file_identifier_type,
                File_view,
            >::empty());
        }
        Ok(File_system)
    }

    /// Opens a file: builds a native record from the path and flags,
    /// allocates the lowest free identifier of the task's range, and
    /// inserts it. Nothing touches the device; the image is rewritten on
    /// close or flush. The proved freshness of the allocated identifier
    /// is what rules out the colliding insertion the taxonomy reserves
    /// `Internal_error` for.
    pub fn Open(
        &mut self,
        Task: Task_identifier_type,
        Path: &Path_type,
        Flags: Flags_type,
    ) -> (Result: Result_type<Local_file_identifier_type>)
        requires
            old(self).Well_formed(),
        ensures
            final(self).Well_formed(),
            final(self).Device_content() == old(self).Device_content(),
            match Result {
                Ok(Identifier) => {
                    &&& Is_valid_path(Path.Inner@)
                    &&& Path.Inner@.len() <= Maximum_path_length
                    &&& Identifier.Task == Task
                    &&& Identifier.File.0 < Maximum_opened_files
                    &&& !old(self).Table().dom().contains(Identifier)
                    &&& final(self).Table() == old(self).Table().insert(
                        Identifier,
                        (File_view { Name: Path.Inner@, Cursor: 0, Flags }),
                    )
                    &&& forall|Slot: u32|
                        Slot < Identifier.File.0 ==> old(self).Table().dom().contains(
                            (Local_file_identifier_type {
                                Task,
                                File: File_identifier_type(Slot),
                            }),
                        )
                    &&& (Has_file(old(self).Entries(), Path.Inner@) ==> final(self).Entries()
                        == (if Flags.Truncate {
                        old(self).Entries().update(
                            File_index_spec(old(self).Entries(), Path.Inner@),
                            (Entry_view { Name: Path.Inner@, Data: Seq::empty() }),
                        )
                    } else {
                        old(self).Entries()
                    }))
                    &&& (!Has_file(old(self).Entries(), Path.Inner@) ==> Flags.Create && final(self).Entries() == old(self).Entries().push(
                        (Entry_view { Name: Path.Inner@, Data: Seq::empty() }),
                    ))
                },
                Err(Error) => {
                    &&& final(self).Table() == old(self).Table()
                    &&& final(self).Entries() == old(self).Entries()
                    &&& (Error == Error_type::Invalid_parameter <==> (!Is_valid_path(
                        Path.Inner@,
                    ) || (Is_valid_path(Path.Inner@) && Path.Inner@.len()
                        <= Maximum_path_length && Flags.Truncate && Flags.Mode
                        == Mode_type::Read_only)))
                    &&& (Error == Error_type::Name_too_long <==> (Is_valid_path(Path.Inner@)
                        && Path.Inner@.len() > Maximum_path_length))
                    &&& (Error == Error_type::No_entry <==> (Is_valid_path(Path.Inner@)
                        && Path.Inner@.len() <= Maximum_path_length && !(Flags.Truncate
                        && Flags.Mode == Mode_type::Read_only) && !Has_file(
                        old(self).Entries(),
                        Path.Inner@,
                    ) && !Flags.Create))
                    &&& (Error == Error_type::No_space_left <==> (Is_valid_path(Path.Inner@)
                        && Path.Inner@.len() <= Maximum_path_length && !(Flags.Truncate
                        && Flags.Mode == Mode_type::Read_only) && !Has_file(
                        old(self).Entries(),
                        Path.Inner@,
                    ) && Flags.Create && old(self).Entries().len() + 1 >= Length_limit))
                    &&& (Error == Error_type::Too_many_open_files <==> (Is_valid_path(
                        Path.Inner@,
                    ) && Path.Inner@.len() <= Maximum_path_length && !(Flags.Truncate
                        && Flags.Mode == Mode_type::Read_only) && (Has_file(
                        old(self).Entries(),
                        Path.Inner@,
                    ) || (Flags.Create && old(self).Entries().len() + 1 < Length_limit))
                        && forall|Slot: u32|
                        Slot < Maximum_opened_files ==> old(self).Table().dom().contains(
                            (Local_file_identifier_type {
                                Task,
                                File: File_identifier_type(Slot),
                            }),
                        )))
                    &&& (Error == Error_type::Invalid_parameter || Error
                        == Error_type::Name_too_long || Error == Error_type::No_entry || Error
                        == Error_type::No_space_left || Error
                        == Error_type::Too_many_open_files)
                },
            },
    {
        if !Path.Is_valid() {
            return Err(Error_type::Invalid_parameter);
        }
        if Path.As_bytes().len() > Maximum_path_length {
            return Err(Error_type::Name_too_long);
        }
        if Flags.Truncate && !Flags.Mode.Can_write() {
            return Err(Error_type::Invalid_parameter);
        }
        let Found = Find_file_index(&self.Files, Path.As_bytes());
        if Found.is_none() && !Flags.Create {
            return Err(Error_type::No_entry);
        }
        if Found.is_none() && self.Files.len() as u64 >= Length_limit - 1 {
            return Err(Error_type::No_space_left);
        }
        let Identifier = match Self::Get_new_file_identifier(Task, &self.Open_files) {
            Ok(Identifier) => Identifier,
            Err(Error) => {
                return Err(Error);
            },
        };
        let ghost Entries_before = self.Entries();
        match Found {
            Some(Index) => {
                proof {
                    Lemma_file_index(Entries_before, Index as int);
                }
                if Flags.Truncate {
                    let mut Entry = self.Files.remove(Index);
                    Entry.Data = Vec::new();
                    self.Files.insert(Index, Entry);
                    proof {
                        assert(self.Entries() =~= Entries_before.update(
                            Index as int,
                            (Entry_view { Name: Path.Inner@, Data: Seq::empty() }),
                        ));
                    }
                }
            },
            None => {
                let Name = Copy_bytes(Path.As_bytes());
                self.Files.push(File_entry_type { Name, Data: Vec::new() });
                proof {
                    assert(self.Entries() =~= Entries_before.push(
                        (Entry_view { Name: Path.Inner@, Data: Seq::empty() }),
                    ));
                }
            },
        };
        let Name = Copy_bytes(Path.As_bytes());
        let File = File_type { Name, Cursor: 0, Flags };
        proof {
            Lemma_table_push(self.Open_files@, Identifier, File);
        }
        self.Open_files.push((Identifier, File));
        proof {
            assert(Has_file(self.Entries(), Path.Inner@)) by {
                match Found {
                    Some(Index) => {
                        assert(self.Entries()[Index as int].Name == Path.Inner@);
                    },
                    None => {
                        assert(self.Entries()[self.Entries().len() - 1].Name == Path.Inner@);
                    },
                }
            }
            assert forall|i: int| 0 <= i < self.Open_files@.len() implies Has_file(
                self.Entries(),
                (#[trigger] self.Open_files@[i]).1.Name@,
            ) by {
                if i < self.Open_files@.len() - 1 {
                    assert(Has_file(Entries_before, self.Open_files@[i].1.Name@));
                    let Witness = File_index_spec(
                        Entries_before,
                        self.Open_files@[i].1.Name@,
                    );
                    assert(self.Entries()[Witness].Name == self.Open_files@[i].1.Name@);
                }
            }
        }
        Ok(Identifier)
    }

    /// Closes a file: the record leaves the table at once, then the image
    /// is rewritten; an error of that rewrite propagates but the
    /// identifier stays closed.
    pub fn Close(&mut self, File: Local_file_identifier_type) -> (Result: Result_type<()>)
        requires
            old(self).Well_formed(),
        ensures
            final(self).Well_formed(),
            final(self).Entries() == old(self).Entries(),
            match Result {
                Ok(Unit) => {
                    &&& old(self).Table().dom().contains(File)
                    &&& final(self).Table() == old(self).Table().remove(File)
                    &&& final(self).Synchronized()
                },
                Err(Error) => {
                    &&& (Error == Error_type::Invalid_identifier <==> !old(self).Table().dom().contains(File))
                    &&& (Error == Error_type::Invalid_identifier ==> final(self).Table()
                        == old(self).Table())
                    &&& (Error != Error_type::Invalid_identifier ==> (Error
                        == Error_type::No_space_left || Is_device_error(Error)) && final(self).Table() == old(self).Table().remove(File))
                    &&& (Error == Error_type::No_space_left <==> old(self).Table().dom().contains(
                        File,
                    ) && Encode_image(old(self).Entries()).len() > old(self).Capacity_spec())
                    &&& final(self).Device_content() == old(self).Device_content()
                },
            },
            old(self).Table().dom().contains(File) && Encode_image(old(self).Entries()).len()
                > old(self).Capacity_spec() ==> Result == Err::<(), Error_type>(Error_type::No_space_left),
    {
        let Index = match Find_handle_index(&self.Open_files, File) {
            Some(Index) => Index,
            None => {
                return Err(Error_type::Invalid_identifier);
            },
        };
        proof {
            Lemma_table_index(self.Open_files@, Index as int);
            Lemma_table_remove(self.Open_files@, Index as int);
        }
        let _ = self.Open_files.remove(Index);
        Self::Synchronize(&mut self.Device, &self.Files, self.Capacity)
    }

    /// Reads from the open file's cursor into the front of `Buffer`.
    /// Purely in memory: the engine's caches hold the data until a close
    /// or a flush.
    pub fn Read(
        &mut self,
        File: Local_file_identifier_type,
        Buffer: &mut Vec<u8>,
    ) -> (Result: Result_type<Size_type>)
        requires
            old(self).Well_formed(),
        ensures
            final(self).Well_formed(),
            final(self).Entries() == old(self).Entries(),
            final(self).Device_content() == old(self).Device_content(),
            final(Buffer)@.len() == old(Buffer)@.len(),
            match Result {
                Ok(Count) => {
                    &&& old(self).Table().dom().contains(File)
                    &&& old(self).Table()[File].Flags.Mode != Mode_type::Write_only
                    &&& Count.0 == Transfer_count(
                        File_data(old(self).Entries(), old(self).Table()[File].Name).len(),
                        old(self).Table()[File].Cursor,
                        old(Buffer)@.len() as nat,
                    )
                    &&& (old(self).Table()[File].Cursor <= File_data(
                        old(self).Entries(),
                        old(self).Table()[File].Name,
                    ).len() ==> final(Buffer)@ == File_data(
                        old(self).Entries(),
                        old(self).Table()[File].Name,
                    ).subrange(
                        old(self).Table()[File].Cursor as int,
                        old(self).Table()[File].Cursor + Count.0,
                    ) + old(Buffer)@.skip(Count.0 as int))
                    &&& (old(self).Table()[File].Cursor > File_data(
                        old(self).Entries(),
                        old(self).Table()[File].Name,
                    ).len() ==> final(Buffer)@ == old(Buffer)@)
                    &&& final(self).Table() == old(self).Table().insert(
                        File,
                        (File_view {
                            Name: old(self).Table()[File].Name,
                            Cursor: (old(self).Table()[File].Cursor + Count.0) as nat,
                            Flags: old(self).Table()[File].Flags,
                        }),
                    )
                },
                Err(Error) => {
                    &&& final(self).Table() == old(self).Table()
                    &&& final(Buffer)@ == old(Buffer)@
                    &&& (Error == Error_type::Invalid_identifier <==> !old(self).Table().dom().contains(File))
                    &&& (Error == Error_type::Bad_file_descriptor <==> old(self).Table().dom().contains(File) && old(self).Table()[File].Flags.Mode
                        == Mode_type::Write_only)
                    &&& (Error == Error_type::Invalid_identifier || Error
                        == Error_type::Bad_file_descriptor)
                },
            },
    {
        let Index = match Find_handle_index(&self.Open_files, File) {
            Some(Index) => Index,
            None => {
                return Err(Error_type::Invalid_identifier);
            },
        };
        proof {
            Lemma_table_index(self.Open_files@, Index as int);
        }
        if !self.Open_files[Index].1.Flags.Mode.Can_read() {
            return Err(Error_type::Bad_file_descriptor);
        }
        let Entry_index = match Find_file_index(&self.Files, &self.Open_files[Index].1.Name) {
            Some(Entry_index) => Entry_index,
            None => {
                proof {
                    assert(false);
                }
                return Err(Error_type::Internal_error);
            },
        };
        proof {
            Lemma_file_index(self.Entries(), Entry_index as int);
        }
        let Cursor = self.Open_files[Index].1.Cursor;
        let Length = self.Files[Entry_index].Data.len();
        let Available = if Cursor <= Length {
            Length - Cursor
        } else {
            0
        };
        let Count = if Buffer.len() <= Available {
            Buffer.len()
        } else {
            Available
        };
        let mut Position: usize = 0;
        while Position < Count
            invariant
                0 <= Position <= Count,
                Entry_index < self.Files@.len(),
                Length == self.Files@[Entry_index as int].Data@.len(),
                Count == 0 || Cursor + Count <= Length,
                Count <= Buffer@.len(),
                self == old(self),
                Buffer@.len() == old(Buffer)@.len(),
                forall|i: int|
                    0 <= i < Position ==> Buffer@[i] == self.Files@[
                        Entry_index as int
                    ].Data@[Cursor + i],
                forall|i: int|
                    Position <= i < Buffer@.len() ==> Buffer@[i] == old(Buffer)@[i],
            decreases Count - Position,
        {
            let Byte = self.Files[Entry_index].Data[Cursor + Position];
            Buffer[Position] = Byte;
            Position = Position + 1;
        }
        proof {
            if Cursor <= Length {
                assert(Buffer@ =~= File_data(old(self).Entries(), old(self).Table()[File].Name)
                    .subrange(Cursor as int, Cursor + Count) + old(Buffer)@.skip(Count as int));
            } else {
                assert(Buffer@ =~= old(Buffer)@);
            }
        }
        let ghost Open_before = self.Open_files@;
        let mut Pair = self.Open_files.remove(Index);
        Pair.1.Cursor = Cursor + Count;
        proof {
            Lemma_table_update(Open_before, Index as int, Pair.1);
        }
        self.Open_files.insert(Index, Pair);
        proof {
            assert(self.Open_files@ =~= Open_before.update(
                Index as int,
                (Open_before[Index as int].0, self.Open_files@[Index as int].1),
            ));
        }
        Ok(Size_type(Count))
    }

    /// The bytes a write leaves in a file: the data up to the cursor,
    /// zeroes where the cursor passed the end, the written bytes, then
    /// whatever the write did not reach.
    pub open spec fn Write_data(Data: Seq<u8>, Cursor: nat, Bytes: Seq<u8>) -> Seq<u8> {
        let End = Cursor + Bytes.len();
        let Length = if Data.len() >= End {
            Data.len() as int
        } else {
            End as int
        };
        Seq::new(
            Length as nat,
            |i: int|
                if i < Cursor {
                    if i < Data.len() {
                        Data[i]
                    } else {
                        0u8
                    }
                } else if i < End {
                    Bytes[i - Cursor]
                } else {
                    Data[i]
                },
        )
    }

    /// Writes the whole buffer at the open file's cursor, growing the
    /// file as needed. Purely in memory until a close or a flush.
    pub fn Write(
        &mut self,
        File: Local_file_identifier_type,
        Buffer: &Vec<u8>,
    ) -> (Result: Result_type<Size_type>)
        requires
            old(self).Well_formed(),
        ensures
            final(self).Well_formed(),
            final(self).Device_content() == old(self).Device_content(),
            match Result {
                Ok(Count) => {
                    &&& old(self).Table().dom().contains(File)
                    &&& old(self).Table()[File].Flags.Mode != Mode_type::Read_only
                    &&& old(self).Table()[File].Cursor + Buffer@.len() < Length_limit
                    &&& Count.0 == Buffer@.len()
                    &&& final(self).Entries() == old(self).Entries().update(
                        File_index_spec(old(self).Entries(), old(self).Table()[File].Name),
                        (Entry_view {
                            Name: old(self).Table()[File].Name,
                            Data: Self::Write_data(
                                File_data(
                                    old(self).Entries(),
                                    old(self).Table()[File].Name,
                                ),
                                old(self).Table()[File].Cursor,
                                Buffer@,
                            ),
                        }),
                    )
                    &&& final(self).Table() == old(self).Table().insert(
                        File,
                        (File_view {
                            Name: old(self).Table()[File].Name,
                            Cursor: (old(self).Table()[File].Cursor + Buffer@.len()) as nat,
                            Flags: old(self).Table()[File].Flags,
                        }),
                    )
                },
                Err(Error) => {
                    &&& final(self).Table() == old(self).Table()
                    &&& final(self).Entries() == old(self).Entries()
                    &&& (Error == Error_type::Invalid_identifier <==> !old(self).Table().dom().contains(File))
                    &&& (Error == Error_type::Bad_file_descriptor <==> old(self).Table().dom().contains(File) && old(self).Table()[File].Flags.Mode
                        == Mode_type::Read_only)
                    &&& (Error == Error_type::File_too_large <==> old(self).Table().dom().contains(File) && old(self).Table()[File].Flags.Mode
                        != Mode_type::Read_only && old(self).Table()[File].Cursor
                        + Buffer@.len() >= Length_limit)
                    &&& (Error == Error_type::Invalid_identifier || Error
                        == Error_type::Bad_file_descriptor || Error
                        == Error_type::File_too_large)
                },
            },
    {
        let Index = match Find_handle_index(&self.Open_files, File) {
            Some(Index) => Index,
            None => {
                return Err(Error_type::Invalid_identifier);
            },
        };
        proof {
            Lemma_table_index(self.Open_files@, Index as int);
        }
        if !self.Open_files[Index].1.Flags.Mode.Can_write() {
            return Err(Error_type::Bad_file_descriptor);
        }
        let Cursor = self.Open_files[Index].1.Cursor;
        let End = match Cursor.checked_add(Buffer.len()) {
            Some(End) => {
                if End as u64 >= Length_limit {
                    return Err(Error_type::File_too_large);
                }
                End
            },
            None => {
                return Err(Error_type::File_too_large);
            },
        };
        let Entry_index = match Find_file_index(&self.Files, &self.Open_files[Index].1.Name) {
            Some(Entry_index) => Entry_index,
            None => {
                proof {
                    assert(false);
                }
                return Err(Error_type::Internal_error);
            },
        };
        proof {
            Lemma_file_index(self.Entries(), Entry_index as int);
        }
        let Length = self.Files[Entry_index].Data.len();
        let New_length = if Length >= End {
            Length
        } else {
            End
        };
        let mut New_data: Vec<u8> = Vec::new();
        let mut Position: usize = 0;
        while Position < New_length
            invariant
                0 <= Position <= New_length,
                Entry_index < self.Files@.len(),
                Length == self.Files@[Entry_index as int].Data@.len(),
                End == Cursor + Buffer@.len(),
                New_length == (if Length >= End {
                    Length as int
                } else {
                    End as int
                }),
                New_data@.len() == Position,
                forall|i: int|
                    0 <= i < Position ==> New_data@[i] == (if i < Cursor {
                        if i < Length {
                            self.Files@[Entry_index as int].Data@[i]
                        } else {
                            0u8
                        }
                    } else if i < End {
                        Buffer@[i - Cursor]
                    } else {
                        self.Files@[Entry_index as int].Data@[i]
                    }),
            decreases New_length - Position,
        {
            let Byte = if Position < Cursor {
                if Position < Length {
                    self.Files[Entry_index].Data[Position]
                } else {
                    0u8
                }
            } else if Position < End {
                Buffer[Position - Cursor]
            } else {
                self.Files[Entry_index].Data[Position]
            };
            New_data.push(Byte);
            Position = Position + 1;
        }
        proof {
            assert(New_data@ =~= Self::Write_data(
                self.Files@[Entry_index as int].Data@,
                Cursor as nat,
                Buffer@,
            ));
        }
        let ghost Entries_before = self.Entries();
        let mut Entry = self.Files.remove(Entry_index);
        Entry.Data = New_data;
        self.Files.insert(Entry_index, Entry);
        proof {
            assert(self.Entries() =~= Entries_before.update(
                Entry_index as int,
                (Entry_view {
                    Name: old(self).Table()[File].Name,
                    Data: Self::Write_data(
                        File_data(Entries_before, old(self).Table()[File].Name),
                        old(self).Table()[File].Cursor,
                        Buffer@,
                    ),
                }),
            ));
            assert forall|i: int| 0 <= i < self.Entries().len() implies Is_valid_path(
                #[trigger] self.Entries()[i].Name,
            ) && self.Entries()[i].Name.len() <= Maximum_path_length && self.Entries()[
                i
            ].Data.len() < Length_limit by {
                if i != Entry_index as int {
                    assert(self.Entries()[i] == Entries_before[i]);
                } else {
                    assert(self.Entries()[i].Name == Entries_before[i].Name);
                    assert(self.Entries()[i].Data.len() < Length_limit);
                }
            }
            assert forall|i: int, j: int| 0 <= i < j < self.Entries().len() implies (
            #[trigger] self.Entries()[i].Name) != (#[trigger] self.Entries()[j].Name) by {
                assert(self.Entries()[i].Name == Entries_before[i].Name);
                assert(self.Entries()[j].Name == Entries_before[j].Name);
            }
        }
        let ghost Open_before = self.Open_files@;
        let mut Pair = self.Open_files.remove(Index);
        Pair.1.Cursor = End;
        proof {
            Lemma_table_update(Open_before, Index as int, Pair.1);
        }
        self.Open_files.insert(Index, Pair);
        proof {
            assert(self.Open_files@ =~= Open_before.update(
                Index as int,
                (Open_before[Index as int].0, self.Open_files@[Index as int].1),
            ));
            assert forall|i: int| 0 <= i < self.Open_files@.len() implies Has_file(
                self.Entries(),
                (#[trigger] self.Open_files@[i]).1.Name@,
            ) by {
                assert(Has_file(Entries_before, old(self).Open_files@[i].1.Name@));
                let Witness = File_index_spec(
                    Entries_before,
                    old(self).Open_files@[i].1.Name@,
                );
                assert(self.Entries()[Witness].Name == old(self).Open_files@[i].1.Name@);
            }
        }
        Ok(Size_type(Buffer.len()))
    }

    /// Moves the open file's cursor; seeking past the end is allowed and
    /// reads zero bytes until a write lands there.
    pub fn Set_position(
        &mut self,
        File: Local_file_identifier_type,
        Position: &Position_type,
    ) -> (Result: Result_type<Size_type>)
        requires
            old(self).Well_formed(),
        ensures
            final(self).Well_formed(),
            final(self).Entries() == old(self).Entries(),
            final(self).Device_content() == old(self).Device_content(),
            match Result {
                Ok(Offset) => {
                    &&& old(self).Table().dom().contains(File)
                    &&& Resolve_position(
                        old(self).Table()[File].Cursor,
                        File_data(old(self).Entries(), old(self).Table()[File].Name).len(),
                        *Position,
                    ) == Some(Offset.0 as nat)
                    &&& final(self).Table() == old(self).Table().insert(
                        File,
                        (File_view {
                            Name: old(self).Table()[File].Name,
                            Cursor: Offset.0 as nat,
                            Flags: old(self).Table()[File].Flags,
                        }),
                    )
                },
                Err(Error) => {
                    &&& final(self).Table() == old(self).Table()
                    &&& (Error == Error_type::Invalid_identifier <==> !old(self).Table().dom().contains(File))
                    &&& (Error == Error_type::Invalid_parameter <==> old(self).Table().dom().contains(File) && Resolve_position(
                        old(self).Table()[File].Cursor,
                        File_data(old(self).Entries(), old(self).Table()[File].Name).len(),
                        *Position,
                    ) is None)
                    &&& (Error == Error_type::Invalid_identifier || Error
                        == Error_type::Invalid_parameter)
                },
            },
    {
        let Index = match Find_handle_index(&self.Open_files, File) {
            Some(Index) => Index,
            None => {
                return Err(Error_type::Invalid_identifier);
            },
        };
        proof {
            Lemma_table_index(self.Open_files@, Index as int);
        }
        let Entry_index = match Find_file_index(&self.Files, &self.Open_files[Index].1.Name) {
            Some(Entry_index) => Entry_index,
            None => {
                proof {
                    assert(false);
                }
                return Err(Error_type::Internal_error);
            },
        };
        proof {
            Lemma_file_index(self.Entries(), Entry_index as int);
        }
        let Cursor = self.Open_files[Index].1.Cursor;
        let Length = self.Files[Entry_index].Data.len();
        let Target: usize = match *Position {
            Position_type::Start(Offset) => Offset,
            Position_type::Current(Offset) => {
                if Offset >= 0 {
                    let Forward = Offset as usize;
                    if Forward > usize::MAX - Cursor {
                        return Err(Error_type::Invalid_parameter);
                    }
                    Cursor + Forward
                } else {
                    let Backward = ((-(Offset + 1)) as usize) + 1;
                    if Backward > Cursor {
                        return Err(Error_type::Invalid_parameter);
                    }
                    Cursor - Backward
                }
            },
            Position_type::End(Offset) => {
                if Offset >= 0 {
                    let Forward = Offset as usize;
                    if Forward > usize::MAX - Length {
                        return Err(Error_type::Invalid_parameter);
                    }
                    Length + Forward
                } else {
                    let Backward = ((-(Offset + 1)) as usize) + 1;
                    if Backward > Length {
                        return Err(Error_type::Invalid_parameter);
                    }
                    Length - Backward
                }
            },
        };
        let ghost Open_before = self.Open_files@;
        let mut Pair = self.Open_files.remove(Index);
        Pair.1.Cursor = Target;
        proof {
            Lemma_table_update(Open_before, Index as int, Pair.1);
        }
        self.Open_files.insert(Index, Pair);
        proof {
            assert(self.Open_files@ =~= Open_before.update(
                Index as int,
                (Open_before[Index as int].0, self.Open_files@[Index as int].1),
            ));
        }
        Ok(Size_type(Target))
    }

    /// Flushes the instance: rewrites the on-device image. Keyed by an
    /// identifier, as the backend contract has it, though the engine
    /// synchronizes the whole image.
    pub fn Flush(&mut self, File: Local_file_identifier_type) -> (Result: Result_type<()>)
        requires
            old(self).Well_formed(),
        ensures
            final(self).Well_formed(),
            final(self).Entries() == old(self).Entries(),
            final(self).Table() == old(self).Table(),
            match Result {
                Ok(Unit) => old(self).Table().dom().contains(File) && final(self).Synchronized(),
                Err(Error) => {
                    &&& (Error == Error_type::Invalid_identifier <==> !old(self).Table().dom().contains(File))
                    &&& (Error == Error_type::Invalid_identifier || Error
                        == Error_type::No_space_left || Is_device_error(Error))
                    &&& (Error == Error_type::No_space_left <==> old(self).Table().dom().contains(
                        File,
                    ) && Encode_image(old(self).Entries()).len() > old(self).Capacity_spec())
                    &&& final(self).Device_content() == old(self).Device_content()
                },
            },
            old(self).Table().dom().contains(File) && Encode_image(old(self).Entries()).len()
                > old(self).Capacity_spec() ==> Result == Err::<(), Error_type>(
                Error_type::No_space_left,
            ),
    {
        match Find_handle_index(&self.Open_files, File) {
            Some(_) => (),
            None => {
                return Err(Error_type::Invalid_identifier);
            },
        };
        Self::Synchronize(&mut self.Device, &self.Files, self.Capacity)
    }

    /// The statistics of an open file. The engine keeps no clocks or
    /// identities of its own, so times are zero and ownership is the
    /// root identity; the size and type are the file's.
    pub fn Get_statistics(&self, File: Local_file_identifier_type) -> (Result: Result_type<
        Statistics_type,
    >)
        requires
            self.Well_formed(),
        ensures
            match Result {
                Ok(Statistics) => {
                    &&& self.Table().dom().contains(File)
                    &&& Statistics == (Statistics_type {
                        Size: Size_type(
                            File_data(self.Entries(), self.Table()[File].Name).len() as usize,
                        ),
                        Type: Type_type::File,
                        Creation_time: Time_type(0),
                        Modification_time: Time_type(0),
                        Access_time: Time_type(0),
                        Permissions: Permissions_type(0o644),
                        User: User_identifier_type(0),
                        Group: Group_identifier_type(0),
                    })
                },
                Err(Error) => Error == Error_type::Invalid_identifier
                    && !self.Table().dom().contains(File),
            },
    {
        let Index = match Find_handle_index(&self.Open_files, File) {
            Some(Index) => Index,
            None => {
                return Err(Error_type::Invalid_identifier);
            },
        };
        proof {
            Lemma_table_index(self.Open_files@, Index as int);
        }
        let Entry_index = match Find_file_index(&self.Files, &self.Open_files[Index].1.Name) {
            Some(Entry_index) => Entry_index,
            None => {
                proof {
                    assert(false);
                }
                return Err(Error_type::Internal_error);
            },
        };
        proof {
            Lemma_file_index(self.Entries(), Entry_index as int);
        }
        Ok(Statistics_type {
            Size: Size_type(self.Files[Entry_index].Data.len()),
            Type: Type_type::File,
            Creation_time: Time_type(0),
            Modification_time: Time_type(0),
            Access_time: Time_type(0),
            Permissions: Permissions_type(0o644),
            User: User_identifier_type(0),
            Group: Group_identifier_type(0),
        })
    }

    /// How many identifiers are live in the open-file table.
    pub fn Get_open_files_count(&self) -> (Result: usize)
        ensures
            Result == self.Identifiers().len(),
    {
        self.Open_files.len()
    }

    /// The mode an identifier was opened with; a read-only query.
    pub fn Get_mode(&self, File: Local_file_identifier_type) -> (Result: Result_type<Mode_type>)
        requires
            self.Well_formed(),
        ensures
            match Result {
                Ok(Mode) => self.Table().dom().contains(File) && Mode
                    == self.Table()[File].Flags.Mode,
                Err(Error) => Error == Error_type::Invalid_identifier
                    && !self.Table().dom().contains(File),
            },
    {
        let Index = match Find_handle_index(&self.Open_files, File) {
            Some(Index) => Index,
            None => {
                return Err(Error_type::Invalid_identifier);
            },
        };
        proof {
            Lemma_table_index(self.Open_files@, Index as int);
        }
        Ok(self.Open_files[Index].1.Get_mode())
    }

    /// Closes every identifier a task owns, for task teardown. Exactly
    /// the task's identifiers leave the table; everyone else's stay
    /// valid, with their records untouched. One image rewrite follows.
    pub fn Close_all(&mut self, Task: Task_identifier_type) -> (Result: Result_type<()>)
        requires
            old(self).Well_formed(),
        ensures
            final(self).Well_formed(),
            final(self).Entries() == old(self).Entries(),
            final(self).Table() == Map::new(
                |Identifier: Local_file_identifier_type|
                    old(self).Table().dom().contains(Identifier) && Identifier.Task != Task,
                |Identifier: Local_file_identifier_type| old(self).Table()[Identifier],
            ),
            match Result {
                Ok(Unit) => final(self).Synchronized(),
                Err(Error) => {
                    &&& (Error == Error_type::No_space_left || Is_device_error(Error))
                    &&& (Error == Error_type::No_space_left <==> Encode_image(
                        old(self).Entries(),
                    ).len() > old(self).Capacity_spec())
                    &&& final(self).Device_content() == old(self).Device_content()
                },
            },
            Encode_image(old(self).Entries()).len() > old(self).Capacity_spec() ==> Result
                == Err::<(), Error_type>(Error_type::No_space_left),
    {
        let ghost Original = self.Open_files@;
        let Total = self.Open_files.len();
        let mut Kept: Vec<(Local_file_identifier_type, File_type)> = Vec::new();
        let mut Index: usize = 0;
        while self.Open_files.len() > 0
            invariant
                Original == old(self).Open_files@,
                Original.len() == Total,
                self.Device == old(self).Device,
                self.Files == old(self).Files,
                self.Configuration == old(self).Configuration,
                self.Capacity == old(self).Capacity,
                self.Read_buffer == old(self).Read_buffer,
                self.Write_buffer == old(self).Write_buffer,
                self.Lookahead_buffer == old(self).Lookahead_buffer,
                Index == Original.len() - self.Open_files@.len(),
                self.Open_files@ == Original.skip(Index as int),
                Unique_identifiers(Original),
                Unique_identifiers(Kept@),
                forall|k: int|
                    0 <= k < Kept@.len() ==> exists|s: int|
                        0 <= s < Index && Original[s] == (#[trigger] Kept@[k]),
                forall|Identifier: Local_file_identifier_type|
                    #[trigger] Table_contains(Kept@, Identifier) <==> (exists|s: int|
                        0 <= s < Index && (#[trigger] Original[s].0) == Identifier
                            && Identifier.Task != Task),
            decreases self.Open_files@.len(),
        {
            let Pair = self.Open_files.remove(0);
            proof {
                assert(Pair == Original[Index as int]);
                assert(self.Open_files@ =~= Original.skip(Index + 1));
            }
            let ghost Kept_before = Kept@;
            if !(Pair.0.Task == Task) {
                proof {
                    if Table_contains(Kept_before, Pair.0) {
                        let Source = choose|s: int|
                            0 <= s < Index && (#[trigger] Original[s].0) == Pair.0
                                && Pair.0.Task != Task;
                        assert(Original[Source].0 == Original[Index as int].0);
                        assert(false);
                    }
                    Lemma_table_push(Kept_before, Pair.0, Pair.1);
                }
                let ghost Pushed = (Pair.0, Pair.1);
                Kept.push(Pair);
                proof {
                    assert forall|Identifier: Local_file_identifier_type|
                        #[trigger] Table_contains(Kept@, Identifier) implies (exists|s: int|
                        0 <= s < Index + 1 && (#[trigger] Original[s].0) == Identifier
                            && Identifier.Task != Task) by {
                        let Position = Table_index(Kept@, Identifier);
                        if Position < Kept_before.len() {
                            assert(Table_contains(Kept_before, Identifier));
                            let Source = choose|s: int|
                                0 <= s < Index && (#[trigger] Original[s].0) == Identifier
                                    && Identifier.Task != Task;
                            assert(Original[Source].0 == Identifier);
                        } else {
                            assert(Original[Index as int].0 == Identifier);
                        }
                    }
                    assert forall|Identifier: Local_file_identifier_type| (exists|s: int|
                        0 <= s < Index + 1 && (#[trigger] Original[s].0) == Identifier
                            && Identifier.Task != Task) implies #[trigger] Table_contains(
                        Kept@,
                        Identifier,
                    ) by {
                        let Source = choose|s: int|
                            0 <= s < Index + 1 && (#[trigger] Original[s].0) == Identifier
                                && Identifier.Task != Task;
                        if Source < Index {
                            assert(Table_contains(Kept_before, Identifier));
                            let Position = Table_index(Kept_before, Identifier);
                            assert(Kept@[Position].0 == Identifier);
                        } else {
                            assert(Kept@[Kept_before.len() as int].0 == Identifier);
                        }
                    }
                }
            } else {
                proof {
                    assert forall|Identifier: Local_file_identifier_type| (exists|s: int|
                        0 <= s < Index + 1 && (#[trigger] Original[s].0) == Identifier
                            && Identifier.Task != Task) implies #[trigger] Table_contains(
                        Kept@,
                        Identifier,
                    ) by {
                        let Source = choose|s: int|
                            0 <= s < Index + 1 && (#[trigger] Original[s].0) == Identifier
                                && Identifier.Task != Task;
                        assert(Source < Index);
                    }
                }
            }
            Index = Index + 1;
        }
        self.Open_files = Kept;
        proof {
            assert(Index == Original.len());
            assert forall|i: int| 0 <= i < self.Open_files@.len() implies exists|s: int|
                0 <= s < Original.len() && Original[s] == (#[trigger] self.Open_files@[i]) by {
                assert(self.Open_files@[i] == Kept@[i]);
                let Source = choose|s: int|
                    0 <= s < Index && Original[s] == (#[trigger] Kept@[i]);
                assert(Original[Source] == self.Open_files@[i]);
            }
            let Left = self.Table();
            let Right = Map::new(
                |Identifier: Local_file_identifier_type|
                    Table_contains(Original, Identifier) && Identifier.Task != Task,
                |Identifier: Local_file_identifier_type|
                    Table_of(Original)[Identifier],
            );
            assert forall|Identifier: Local_file_identifier_type|
                Left.dom().contains(Identifier) implies Right.dom().contains(Identifier) by {
                let Source = choose|s: int|
                    0 <= s < Original.len() && (#[trigger] Original[s].0) == Identifier
                        && Identifier.Task != Task;
                assert(Original[Source].0 == Identifier);
            }
            assert forall|Identifier: Local_file_identifier_type|
                Right.dom().contains(Identifier) implies Left.dom().contains(Identifier) by {
                let Source = Table_index(Original, Identifier);
                assert(Original[Source].0 == Identifier);
            }
            assert forall|Identifier: Local_file_identifier_type|
                Left.dom().contains(Identifier) implies #[trigger] Left[Identifier]
                == Right[Identifier] by {
                let Position = Table_index(self.Open_files@, Identifier);
                Lemma_table_index(self.Open_files@, Position);
                let Source = choose|s: int|
                    0 <= s < Original.len() && Original[s] == (#[trigger] self.Open_files@[
                        Position
                    ]);
                assert(Original[Source] == self.Open_files@[Position]);
                Lemma_table_index(Original, Source);
            }
            assert(Left =~= Right);
            assert forall|i: int| 0 <= i < self.Open_files@.len() implies Has_file(
                self.Entries(),
                (#[trigger] self.Open_files@[i]).1.Name@,
            ) by {
                let Source = choose|s: int|
                    0 <= s < Original.len() && Original[s] == (#[trigger] self.Open_files@[i]);
                assert(Original[Source] == old(self).Open_files@[Source]);
                assert(Has_file(self.Entries(), old(self).Open_files@[Source].1.Name@));
            }
            assert forall|i: int| 0 <= i < self.Open_files@.len() implies (
            #[trigger] self.Open_files@[i].0).File.0 < Maximum_opened_files by {
                let Source = choose|s: int|
                    0 <= s < Original.len() && Original[s] == (#[trigger] self.Open_files@[i]);
                assert(Original[Source] == old(self).Open_files@[Source]);
                assert(old(self).Open_files@[Source].0.File.0 < Maximum_opened_files);
            }
        }
        Self::Synchronize(&mut self.Device, &self.Files, self.Capacity)
    }

    /// Duplicates an identifier: the record is cloned under a fresh
    /// identifier of the same task. The clone's cursor starts where the
    /// original's stood and diverges from then on: the two records are
    /// independent, and closing one never invalidates the other.
    pub fn Duplicate_file_identifier(
        &mut self,
        File: Local_file_identifier_type,
    ) -> (Result: Result_type<Local_file_identifier_type>)
        requires
            old(self).Well_formed(),
        ensures
            final(self).Well_formed(),
            final(self).Entries() == old(self).Entries(),
            final(self).Device_content() == old(self).Device_content(),
            match Result {
                Ok(Duplicate) => {
                    &&& old(self).Table().dom().contains(File)
                    &&& Duplicate.Task == File.Task
                    &&& Duplicate.File.0 < Maximum_opened_files
                    &&& !old(self).Table().dom().contains(Duplicate)
                    &&& forall|Slot: u32|
                        Slot < Duplicate.File.0 ==> old(self).Table().dom().contains(
                            (Local_file_identifier_type {
                                Task: File.Task,
                                File: File_identifier_type(Slot),
                            }),
                        )
                    &&& Duplicate != File
                    &&& final(self).Table() == old(self).Table().insert(
                        Duplicate,
                        old(self).Table()[File],
                    )
                },
                Err(Error) => {
                    &&& final(self).Table() == old(self).Table()
                    &&& (Error == Error_type::Invalid_identifier <==> !old(self).Table().dom().contains(File))
                    &&& (Error == Error_type::Too_many_open_files <==> old(self).Table().dom().contains(File) && forall|Slot: u32|
                        Slot < Maximum_opened_files ==> old(self).Table().dom().contains(
                            (Local_file_identifier_type {
                                Task: File.Task,
                                File: File_identifier_type(Slot),
                            }),
                        ))
                    &&& (Error == Error_type::Invalid_identifier || Error
                        == Error_type::Too_many_open_files)
                },
            },
    {
        let Index = match Find_handle_index(&self.Open_files, File) {
            Some(Index) => Index,
            None => {
                return Err(Error_type::Invalid_identifier);
            },
        };
        proof {
            Lemma_table_index(self.Open_files@, Index as int);
        }
        let (Task, _) = File.Split();
        let Identifier = match Self::Get_new_file_identifier(Task, &self.Open_files) {
            Ok(Identifier) => Identifier,
            Err(Error) => {
                return Err(Error);
            },
        };
        let Name = Copy_bytes(&self.Open_files[Index].1.Name);
        let Cursor = self.Open_files[Index].1.Cursor;
        let Flags = self.Open_files[Index].1.Flags;
        let Clone = File_type { Name, Cursor, Flags };
        proof {
            assert(Clone.View() == old(self).Table()[File]);
            Lemma_table_push(self.Open_files@, Identifier, Clone);
        }
        self.Open_files.push((Identifier, Clone));
        proof {
            assert forall|i: int| 0 <= i < self.Open_files@.len() implies Has_file(
                self.Entries(),
                (#[trigger] self.Open_files@[i]).1.Name@,
            ) by {
                if i < self.Open_files@.len() - 1 {
                    assert(Has_file(self.Entries(), old(self).Open_files@[i].1.Name@));
                } else {
                    assert(Has_file(
                        self.Entries(),
                        old(self).Open_files@[Index as int].1.Name@,
                    ));
                }
            }
        }
        Ok(Identifier)
    }

    /// Transfers an identifier to another task: the record moves to a
    /// fresh identifier of the new task, allocated as if the source slot
    /// were already free, and the source identifier is invalid the moment
    /// the call succeeds. A failed call changes nothing: when the new
    /// task's range is exhausted the record stays where it was and the
    /// source identifier remains live.
    pub fn Transfert_file_identifier(
        &mut self,
        New_task: Task_identifier_type,
        File: Local_file_identifier_type,
    ) -> (Result: Result_type<Local_file_identifier_type>)
        requires
            old(self).Well_formed(),
        ensures
            final(self).Well_formed(),
            final(self).Entries() == old(self).Entries(),
            final(self).Device_content() == old(self).Device_content(),
            match Result {
                Ok(Transferred) => {
                    &&& old(self).Table().dom().contains(File)
                    &&& Transferred.Task == New_task
                    &&& Transferred.File.0 < Maximum_opened_files
                    &&& !old(self).Table().remove(File).dom().contains(Transferred)
                    &&& forall|Slot: u32|
                        Slot < Transferred.File.0 ==> old(self).Table().remove(
                            File,
                        ).dom().contains(
                            (Local_file_identifier_type {
                                Task: New_task,
                                File: File_identifier_type(Slot),
                            }),
                        )
                    &&& final(self).Table() == old(self).Table().remove(File).insert(
                        Transferred,
                        old(self).Table()[File],
                    )
                    &&& (New_task != File.Task ==> !final(self).Table().dom().contains(File))
                },
                Err(Error) => {
                    &&& final(self).Table() == old(self).Table()
                    &&& (Error == Error_type::Invalid_identifier <==> !old(self).Table().dom().contains(File))
                    &&& (Error == Error_type::Too_many_open_files <==> old(self).Table().dom().contains(File) && forall|Slot: u32|
                        Slot < Maximum_opened_files ==> old(self).Table().remove(
                            File,
                        ).dom().contains(
                            (Local_file_identifier_type {
                                Task: New_task,
                                File: File_identifier_type(Slot),
                            }),
                        ))
                    &&& (Error == Error_type::Invalid_identifier || Error
                        == Error_type::Too_many_open_files)
                },
            },
    {
        let Index = match Find_handle_index(&self.Open_files, File) {
            Some(Index) => Index,
            None => {
                return Err(Error_type::Invalid_identifier);
            },
        };
        proof {
            Lemma_table_index(self.Open_files@, Index as int);
            Lemma_table_remove(self.Open_files@, Index as int);
        }
        let Pair = self.Open_files.remove(Index);
        let Identifier = match Self::Get_new_file_identifier(New_task, &self.Open_files) {
            Ok(Identifier) => Identifier,
            Err(Error) => {
                self.Open_files.insert(Index, Pair);
                proof {
                    assert(self.Open_files@ =~= old(self).Open_files@);
                }
                return Err(Error);
            },
        };
        proof {
            assert(Pair.1.View() == old(self).Table()[File]);
            Lemma_table_push(self.Open_files@, Identifier, Pair.1);
        }
        self.Open_files.push((Identifier, Pair.1));
        proof {
            assert forall|i: int| 0 <= i < self.Open_files@.len() implies Has_file(
                self.Entries(),
                (#[trigger] self.Open_files@[i]).1.Name@,
            ) by {
                if i < self.Open_files@.len() - 1 {
                    let Source = if i < Index as int {
                        i
                    } else {
                        i + 1
                    };
                    assert(self.Open_files@[i] == old(self).Open_files@[Source]);
                    assert(Has_file(self.Entries(), old(self).Open_files@[Source].1.Name@));
                } else {
                    assert(Has_file(
                        self.Entries(),
                        old(self).Open_files@[Index as int].1.Name@,
                    ));
                }
            }
            assert forall|i: int| 0 <= i < self.Open_files@.len() implies (
            #[trigger] self.Open_files@[i].0).File.0 < Maximum_opened_files by {
                if i < self.Open_files@.len() - 1 {
                    let Source = if i < Index as int {
                        i
                    } else {
                        i + 1
                    };
                    assert(self.Open_files@[i] == old(self).Open_files@[Source]);
                }
            }
        }
        Ok(Identifier)
    }

    /// Deletes a file by name. Deleting a file that is still open fails
    /// with `Ressource_busy`: open records always point at live entries.
    /// The image is rewritten afterwards.
    pub fn Delete(&mut self, Path: &Path_type) -> (Result: Result_type<()>)
        requires
            old(self).Well_formed(),
        ensures
            final(self).Well_formed(),
            final(self).Table() == old(self).Table(),
            match Result {
                Ok(Unit) => {
                    &&& Is_valid_path(Path.Inner@)
                    &&& Has_file(old(self).Entries(), Path.Inner@)
                    &&& !old(self).Open_name(Path.Inner@)
                    &&& final(self).Entries() == old(self).Entries().remove(
                        File_index_spec(old(self).Entries(), Path.Inner@),
                    )
                    &&& final(self).Synchronized()
                },
                Err(Error) => {
                    &&& (Error == Error_type::Invalid_parameter <==> !Is_valid_path(
                        Path.Inner@,
                    ))
                    &&& (Error == Error_type::No_entry <==> Is_valid_path(Path.Inner@)
                        && !Has_file(old(self).Entries(), Path.Inner@))
                    &&& (Is_valid_path(Path.Inner@) && Has_file(old(self).Entries(), Path.Inner@)
                        && old(self).Open_name(Path.Inner@) ==> Error
                        == Error_type::Ressource_busy && final(self).Entries() == old(self).Entries() && final(self).Device_content() == old(self).Device_content())
                    &&& (Is_valid_path(Path.Inner@) && Has_file(old(self).Entries(), Path.Inner@)
                        && !old(self).Open_name(Path.Inner@) ==> (Error
                        == Error_type::No_space_left || Is_device_error(Error)) && final(self).Entries() == old(self).Entries().remove(
                        File_index_spec(old(self).Entries(), Path.Inner@),
                    ) && (Error == Error_type::No_space_left <==> Encode_image(
                        old(self).Entries().remove(
                            File_index_spec(old(self).Entries(), Path.Inner@),
                        ),
                    ).len() > old(self).Capacity_spec()))
                    &&& ((Error == Error_type::Invalid_parameter || Error
                        == Error_type::No_entry) ==> final(self).Entries() == old(self).Entries())
                    &&& final(self).Device_content() == old(self).Device_content()
                },
            },
            Is_valid_path(Path.Inner@) && Has_file(old(self).Entries(), Path.Inner@) && !old(
                self,
            ).Open_name(Path.Inner@) && Encode_image(
                old(self).Entries().remove(File_index_spec(old(self).Entries(), Path.Inner@)),
            ).len() > old(self).Capacity_spec() ==> Result == Err::<(), Error_type>(
                Error_type::No_space_left,
            ),
    {
        if !Path.Is_valid() {
            return Err(Error_type::Invalid_parameter);
        }
        let Index = match Find_file_index(&self.Files, Path.As_bytes()) {
            Some(Index) => Index,
            None => {
                return Err(Error_type::No_entry);
            },
        };
        proof {
            Lemma_file_index(self.Entries(), Index as int);
        }
        if Any_handle_with_name(&self.Open_files, Path.As_bytes()) {
            return Err(Error_type::Ressource_busy);
        }
        let ghost Entries_before = self.Entries();
        let _ = self.Files.remove(Index);
        proof {
            assert(self.Entries() =~= Entries_before.remove(Index as int));
            assert forall|i: int| 0 <= i < self.Entries().len() implies Is_valid_path(
                #[trigger] self.Entries()[i].Name,
            ) && self.Entries()[i].Name.len() <= Maximum_path_length && self.Entries()[
                i
            ].Data.len() < Length_limit by {
                let Source = if i < Index as int {
                    i
                } else {
                    i + 1
                };
                assert(self.Entries()[i] == Entries_before[Source]);
            }
            assert forall|i: int, j: int| 0 <= i < j < self.Entries().len() implies (
            #[trigger] self.Entries()[i].Name) != (#[trigger] self.Entries()[j].Name) by {
                let Source_i = if i < Index as int {
                    i
                } else {
                    i + 1
                };
                let Source_j = if j < Index as int {
                    j
                } else {
                    j + 1
                };
                assert(self.Entries()[i] == Entries_before[Source_i]);
                assert(self.Entries()[j] == Entries_before[Source_j]);
                assert(Entries_before[Source_i].Name != Entries_before[Source_j].Name);
            }
            assert forall|i: int| 0 <= i < self.Open_files@.len() implies Has_file(
                self.Entries(),
                (#[trigger] self.Open_files@[i]).1.Name@,
            ) by {
                let Witness = File_index_spec(Entries_before, self.Open_files@[i].1.Name@);
                assert(Has_file(Entries_before, self.Open_files@[i].1.Name@));
                assert(Entries_before[Witness].Name == self.Open_files@[i].1.Name@);
                assert(Witness != Index as int);
                let Target = if Witness < Index as int {
                    Witness
                } else {
                    Witness - 1
                };
                assert(self.Entries()[Target].Name == self.Open_files@[i].1.Name@);
            }
        }
        Self::Synchronize(&mut self.Device, &self.Files, self.Capacity)
    }

    /// Renames a file. The destination must not exist, the source must
    /// not be open, and renaming a file to itself changes nothing. The
    /// image is rewritten afterwards.
    pub fn Move(&mut self, Source: &Path_type, Destination: &Path_type) -> (Result:
        Result_type<()>)
        requires
            old(self).Well_formed(),
        ensures
            final(self).Well_formed(),
            final(self).Table() == old(self).Table(),
            match Result {
                Ok(Unit) => {
                    &&& Is_valid_path(Source.Inner@)
                    &&& Is_valid_path(Destination.Inner@)
                    &&& Has_file(old(self).Entries(), Source.Inner@)
                    &&& final(self).Synchronized()
                    &&& (Source.Inner@ == Destination.Inner@ ==> final(self).Entries() == old(self).Entries())
                    &&& (Source.Inner@ != Destination.Inner@ ==> !Has_file(
                        old(self).Entries(),
                        Destination.Inner@,
                    ) && !old(self).Open_name(Source.Inner@) && final(self).Entries() == old(self).Entries().update(
                        File_index_spec(old(self).Entries(), Source.Inner@),
                        (Entry_view {
                            Name: Destination.Inner@,
                            Data: File_data(old(self).Entries(), Source.Inner@),
                        }),
                    ))
                },
                Err(Error) => {
                    &&& (Error == Error_type::Invalid_parameter <==> (!Is_valid_path(
                        Source.Inner@,
                    ) || !Is_valid_path(Destination.Inner@)))
                    &&& (Error == Error_type::Name_too_long <==> Is_valid_path(Source.Inner@)
                        && Is_valid_path(Destination.Inner@) && Destination.Inner@.len()
                        > Maximum_path_length)
                    &&& (Error == Error_type::No_entry <==> Is_valid_path(Source.Inner@)
                        && Is_valid_path(Destination.Inner@) && Destination.Inner@.len()
                        <= Maximum_path_length && !Has_file(
                        old(self).Entries(),
                        Source.Inner@,
                    ))
                    &&& (Error == Error_type::Entry_exists <==> Is_valid_path(Source.Inner@)
                        && Is_valid_path(Destination.Inner@) && Destination.Inner@.len()
                        <= Maximum_path_length && Has_file(old(self).Entries(), Source.Inner@)
                        && Source.Inner@ != Destination.Inner@ && Has_file(
                        old(self).Entries(),
                        Destination.Inner@,
                    ))
                    &&& (Is_valid_path(Source.Inner@) && Is_valid_path(Destination.Inner@)
                        && Destination.Inner@.len() <= Maximum_path_length && Has_file(
                        old(self).Entries(),
                        Source.Inner@,
                    ) && Source.Inner@ != Destination.Inner@ && !Has_file(
                        old(self).Entries(),
                        Destination.Inner@,
                    ) && old(self).Open_name(Source.Inner@) ==> Error
                        == Error_type::Ressource_busy && final(self).Entries() == old(self).Entries() && final(self).Device_content() == old(self).Device_content())
                    &&& (Is_valid_path(Source.Inner@) && Is_valid_path(Destination.Inner@)
                        && Destination.Inner@.len() <= Maximum_path_length && Has_file(
                        old(self).Entries(),
                        Source.Inner@,
                    ) && Source.Inner@ == Destination.Inner@ ==> (Error
                        == Error_type::No_space_left || Is_device_error(Error)) && final(self).Entries() == old(self).Entries() && (Error == Error_type::No_space_left
                        <==> Encode_image(old(self).Entries()).len() > old(self).Capacity_spec()))
                    &&& (Is_valid_path(Source.Inner@) && Is_valid_path(Destination.Inner@)
                        && Destination.Inner@.len() <= Maximum_path_length && Has_file(
                        old(self).Entries(),
                        Source.Inner@,
                    ) && Source.Inner@ != Destination.Inner@ && !Has_file(
                        old(self).Entries(),
                        Destination.Inner@,
                    ) && !old(self).Open_name(Source.Inner@) ==> (Error
                        == Error_type::No_space_left || Is_device_error(Error)) && final(self).Entries() == old(self).Entries().update(
                        File_index_spec(old(self).Entries(), Source.Inner@),
                        (Entry_view {
                            Name: Destination.Inner@,
                            Data: File_data(old(self).Entries(), Source.Inner@),
                        }),
                    ) && (Error == Error_type::No_space_left <==> Encode_image(
                        old(self).Entries().update(
                            File_index_spec(old(self).Entries(), Source.Inner@),
                            (Entry_view {
                                Name: Destination.Inner@,
                                Data: File_data(old(self).Entries(), Source.Inner@),
                            }),
                        ),
                    ).len() > old(self).Capacity_spec()))
                    &&& ((Error == Error_type::Invalid_parameter || Error
                        == Error_type::Name_too_long || Error == Error_type::No_entry || Error
                        == Error_type::Entry_exists) ==> final(self).Entries() == old(self).Entries())
                    &&& final(self).Device_content() == old(self).Device_content()
                },
            },
    {
        if !Source.Is_valid() || !Destination.Is_valid() {
            return Err(Error_type::Invalid_parameter);
        }
        if Destination.As_bytes().len() > Maximum_path_length {
            return Err(Error_type::Name_too_long);
        }
        let Index = match Find_file_index(&self.Files, Source.As_bytes()) {
            Some(Index) => Index,
            None => {
                return Err(Error_type::No_entry);
            },
        };
        proof {
            Lemma_file_index(self.Entries(), Index as int);
        }
        if Equal_bytes(Source.As_bytes(), Destination.As_bytes()) {
            return Self::Synchronize(&mut self.Device, &self.Files, self.Capacity);
        }
        match Find_file_index(&self.Files, Destination.As_bytes()) {
            Some(_) => {
                return Err(Error_type::Entry_exists);
            },
            None => (),
        };
        if Any_handle_with_name(&self.Open_files, Source.As_bytes()) {
            return Err(Error_type::Ressource_busy);
        }
        let ghost Entries_before = self.Entries();
        let mut Entry = self.Files.remove(Index);
        Entry.Name = Copy_bytes(Destination.As_bytes());
        self.Files.insert(Index, Entry);
        proof {
            assert(self.Entries() =~= Entries_before.update(
                Index as int,
                (Entry_view {
                    Name: Destination.Inner@,
                    Data: File_data(Entries_before, Source.Inner@),
                }),
            ));
            assert forall|i: int| 0 <= i < self.Entries().len() implies Is_valid_path(
                #[trigger] self.Entries()[i].Name,
            ) && self.Entries()[i].Name.len() <= Maximum_path_length && self.Entries()[
                i
            ].Data.len() < Length_limit by {
                if i != Index as int {
                    assert(self.Entries()[i] == Entries_before[i]);
                } else {
                    assert(self.Entries()[i].Name == Destination.Inner@);
                    assert(self.Entries()[i].Data == Entries_before[Index as int].Data);
                }
            }
            assert forall|i: int, j: int| 0 <= i < j < self.Entries().len() implies (
            #[trigger] self.Entries()[i].Name) != (#[trigger] self.Entries()[j].Name) by {
                if i != Index as int && j != Index as int {
                    assert(self.Entries()[i].Name == Entries_before[i].Name);
                    assert(self.Entries()[j].Name == Entries_before[j].Name);
                } else if i == Index as int {
                    assert(self.Entries()[j].Name == Entries_before[j].Name);
                    if Entries_before[j].Name == Destination.Inner@ {
                        assert(Has_file(Entries_before, Destination.Inner@));
                    }
                } else {
                    assert(self.Entries()[i].Name == Entries_before[i].Name);
                    if Entries_before[i].Name == Destination.Inner@ {
                        assert(Has_file(Entries_before, Destination.Inner@));
                    }
                }
            }
            assert forall|i: int| 0 <= i < self.Open_files@.len() implies Has_file(
                self.Entries(),
                (#[trigger] self.Open_files@[i]).1.Name@,
            ) by {
                let Witness = File_index_spec(Entries_before, self.Open_files@[i].1.Name@);
                assert(Has_file(Entries_before, self.Open_files@[i].1.Name@));
                assert(Entries_before[Witness].Name == self.Open_files@[i].1.Name@);
                assert(Witness != Index as int);
                assert(self.Entries()[Witness].Name == self.Open_files@[i].1.Name@);
            }
        }
        Self::Synchronize(&mut self.Device, &self.Files, self.Capacity)
    }

    /// Teardown: a final best-effort synchronization, whose failure is
    /// swallowed, then the device is handed back.
    pub fn Unmount(self) -> (Result: Device_type<D>)
        requires
            self.Well_formed(),
        ensures
            Result.Well_formed(),
            Result.Content().len() == self.Device_content().len(),
            Decode_image(Result.Content()) == Some(self.Entries()) || Result.Content()
                == self.Device_content(),
    {
        let File_system_type { Device: mut Device, Files, Capacity, .. } = self;
        let _ = Self::Synchronize(&mut Device, &Files, Capacity);
        Device
    }
}

/// No two simultaneously live identifiers of one instance coincide:
/// whatever sequence of opens, closes, duplications and transfers
/// produced the table, it holds each identifier at most once.
pub proof fn Lemma_live_identifiers_distinct<D: Device_trait>(File_system: &File_system_type<D>)
    requires
        File_system.Well_formed(),
    ensures
        forall|i: int, j: int|
            0 <= i < j < File_system.Identifiers().len() ==> File_system.Identifiers()[i]
                != File_system.Identifiers()[j],
{
    File_system.Lemma_identifiers_unique();
}

/// An open followed by a close of the returned identifier leaves the
/// table exactly as it was: one open/close cycle leaks nothing, and any
/// run of such cycles composes from this step.
pub proof fn Lemma_open_close_leaves_no_trace(
    Table: Map<Local_file_identifier_type, File_view>,
    Identifier: Local_file_identifier_type,
    File: File_view,
)
    requires
        !Table.dom().contains(Identifier),
    ensures
        Table.insert(Identifier, File).remove(Identifier) == Table,
{
    assert(Table.insert(Identifier, File).remove(Identifier) =~= Table);
}

/// Closing one identifier never touches another's record: a duplicate
/// stays live and unchanged when its original is closed, and the other
/// way round.
pub proof fn Lemma_close_keeps_others(
    Table: Map<Local_file_identifier_type, File_view>,
    Closed: Local_file_identifier_type,
    Other: Local_file_identifier_type,
)
    requires
        Other != Closed,
        Table.dom().contains(Other),
    ensures
        Table.remove(Closed).dom().contains(Other),
        Table.remove(Closed)[Other] == Table[Other],
{
}

} // verus!

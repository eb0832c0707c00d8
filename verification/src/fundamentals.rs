//! Plain value types shared by the storage layer: sizes, positions,
//! task and file identifiers, paths and open flags.

use vstd::prelude::*;

verus! {

/// A byte count, as reported by devices and file operations.
#[derive(Clone, Copy, Debug, PartialEq, Eq, Structural)]
pub struct Size_type(pub usize);

impl Size_type {
    pub fn New(Inner: usize) -> (Result: Self)
        ensures
            Result.0 == Inner,
    {
        Size_type(Inner)
    }

    pub fn As_usize(&self) -> (Result: usize)
        ensures
            Result == self.0,
    {
        self.0
    }
}

/// A seek request: from the start, from the current cursor, or from the end.
#[derive(Clone, Copy, Debug, PartialEq, Eq, Structural)]
pub enum Position_type {
    Start(usize),
    Current(isize),
    End(isize),
}

/// Where a seek request lands, given the current cursor and the length of
/// the data. `None` means the request resolves outside `0..=usize::MAX`.
pub open spec fn Resolve_position(Cursor: nat, Length: nat, Position: Position_type) -> Option<nat> {
    let Target: int = match Position {
        Position_type::Start(Offset) => Offset as int,
        Position_type::Current(Offset) => Cursor + Offset,
        Position_type::End(Offset) => Length + Offset,
    };
    if 0 <= Target <= usize::MAX {
        Some(Target as nat)
    } else {
        None
    }
}

/// The scheduler's isolation unit; each task owns a slice of the
/// identifier space.
#[derive(Clone, Copy, Debug, PartialEq, Eq, Structural)]
pub struct Task_identifier_type(pub u32);

/// The per-task slot of an open file.
#[derive(Clone, Copy, Debug, PartialEq, Eq, Structural)]
pub struct File_identifier_type(pub u32);

/// How many files one task may hold open at once. Slots of one task range
/// over `0 .. Maximum_opened_files`, so identifiers of different tasks
/// never collide.
pub const Maximum_opened_files: u32 = 64;

/// A task-scoped open-file identifier: the owning task and its slot.
#[derive(Clone, Copy, Debug, PartialEq, Eq, Structural)]
pub struct Local_file_identifier_type {
    pub Task: Task_identifier_type,
    pub File: File_identifier_type,
}

impl Local_file_identifier_type {
    pub fn New(Task: Task_identifier_type, File: File_identifier_type) -> (Result: Self)
        ensures
            Result.Task == Task,
            Result.File == File,
    {
        Local_file_identifier_type { Task, File }
    }

    /// The composite key, split into its parts.
    pub fn Split(&self) -> (Result: (Task_identifier_type, File_identifier_type))
        ensures
            Result.0 == self.Task,
            Result.1 == self.File,
    {
        (self.Task, self.File)
    }

    /// The lowest identifier of a task's range, where allocation starts.
    pub fn Get_minimum(Task: Task_identifier_type) -> (Result: Self)
        ensures
            Result.Task == Task,
            Result.File.0 == 0,
    {
        Local_file_identifier_type { Task, File: File_identifier_type(0) }
    }
}

/// The longest path the backend accepts.
pub const Maximum_path_length: usize = 4096;

/// A path has a native form exactly when it is non-empty, absolute and
/// free of embedded null bytes.
pub open spec fn Is_valid_path(Path: Seq<u8>) -> bool {
    &&& Path.len() > 0
    &&& Path[0] == 47u8
    &&& forall|i: int| 0 <= i < Path.len() ==> Path[i] != 0u8
}

/// Whether raw bytes form a valid path.
pub fn Is_valid_path_bytes(Path: &Vec<u8>) -> (Result: bool)
    ensures
        Result == Is_valid_path(Path@),
{
    if Path.len() == 0 {
        return false;
    }
    if Path[0] != 47u8 {
        return false;
    }
    let mut Index: usize = 0;
    while Index < Path.len()
        invariant
            0 <= Index <= Path.len(),
            forall|i: int| 0 <= i < Index ==> Path@[i] != 0u8,
        decreases Path.len() - Index,
    {
        if Path[Index] == 0u8 {
            return false;
        }
        Index = Index + 1;
    }
    true
}

/// An owned path, kept as bytes.
#[derive(Clone, Debug)]
pub struct Path_type {
    pub Inner: Vec<u8>,
}

impl Path_type {
    pub fn New(Inner: Vec<u8>) -> (Result: Self)
        ensures
            Result.Inner@ == Inner@,
    {
        Path_type { Inner }
    }

    pub fn As_bytes(&self) -> (Result: &Vec<u8>)
        ensures
            Result@ == self.Inner@,
    {
        &self.Inner
    }

    /// Whether the path is convertible to the backend's native form.
    pub fn Is_valid(&self) -> (Result: bool)
        ensures
            Result == Is_valid_path(self.Inner@),
    {
        Is_valid_path_bytes(&self.Inner)
    }

    /// Whether the path starts at the root of the tree.
    pub fn Is_absolute(&self) -> (Result: bool)
        ensures
            Result == (self.Inner@.len() > 0 && self.Inner@[0] == 47u8),
    {
        self.Inner.len() > 0 && self.Inner[0] == 47u8
    }

    /// Appends a relative component under `self`, with a separator in
    /// between. Fails when the result would overflow the address space.
    pub fn Join(&self, Other: &Path_type) -> (Result: Option<Path_type>)
        ensures
            match Result {
                Some(Joined) => {
                    &&& self.Inner@.len() + 1 + Other.Inner@.len() <= usize::MAX
                    &&& Joined.Inner@ == self.Inner@ + seq![47u8] + Other.Inner@
                },
                None => self.Inner@.len() + 1 + Other.Inner@.len() > usize::MAX,
            },
    {
        if self.Inner.len() == usize::MAX
            || Other.Inner.len() > usize::MAX - 1 - self.Inner.len() {
            return None;
        }
        let mut Joined: Vec<u8> = Vec::new();
        let mut Index: usize = 0;
        while Index < self.Inner.len()
            invariant
                0 <= Index <= self.Inner.len(),
                Joined@ == self.Inner@.subrange(0, Index as int),
            decreases self.Inner.len() - Index,
        {
            Joined.push(self.Inner[Index]);
            Index = Index + 1;
        }
        Joined.push(47u8);
        let mut Index: usize = 0;
        while Index < Other.Inner.len()
            invariant
                0 <= Index <= Other.Inner.len(),
                Joined@ == self.Inner@ + seq![47u8] + Other.Inner@.subrange(0, Index as int),
            decreases Other.Inner.len() - Index,
        {
            Joined.push(Other.Inner[Index]);
            Index = Index + 1;
        }
        proof {
            assert(Joined@ =~= self.Inner@ + seq![47u8] + Other.Inner@);
            assert(self.Inner@.subrange(0, self.Inner@.len() as int) =~= self.Inner@);
        }
        Some(Path_type { Inner: Joined })
    }
}

/// The access mode of an open file.
#[derive(Clone, Copy, Debug, PartialEq, Eq, Structural)]
pub enum Mode_type {
    Read_only,
    Write_only,
    Read_write,
}

impl Mode_type {
    /// Whether the mode allows reading.
    pub fn Can_read(&self) -> (Result: bool)
        ensures
            Result == (*self == Mode_type::Read_only || *self == Mode_type::Read_write),
    {
        match self {
            Mode_type::Read_only => true,
            Mode_type::Write_only => false,
            Mode_type::Read_write => true,
        }
    }

    /// Whether the mode allows writing.
    pub fn Can_write(&self) -> (Result: bool)
        ensures
            Result == (*self == Mode_type::Write_only || *self == Mode_type::Read_write),
    {
        match self {
            Mode_type::Read_only => false,
            Mode_type::Write_only => true,
            Mode_type::Read_write => true,
        }
    }
}

/// The open flags: the access mode, whether an absent file is created,
/// and whether an existing file is truncated.
#[derive(Clone, Copy, Debug, PartialEq, Eq, Structural)]
pub struct Flags_type {
    pub Mode: Mode_type,
    pub Create: bool,
    pub Truncate: bool,
}

impl Flags_type {
    pub fn New(Mode: Mode_type, Create: bool, Truncate: bool) -> (Result: Self)
        ensures
            Result.Mode == Mode,
            Result.Create == Create,
            Result.Truncate == Truncate,
    {
        Flags_type { Mode, Create, Truncate }
    }

    /// Plain flags for a mode: nothing created, nothing truncated.
    pub fn From_mode(Mode: Mode_type) -> (Result: Self)
        ensures
            Result.Mode == Mode,
            !Result.Create,
            !Result.Truncate,
    {
        Flags_type { Mode, Create: false, Truncate: false }
    }

    pub fn Get_mode(&self) -> (Result: Mode_type)
        ensures
            Result == self.Mode,
    {
        self.Mode
    }
}

} // verus!

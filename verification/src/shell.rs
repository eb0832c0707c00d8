//! The compute core of the shell's concatenate command: resolving each
//! argument against the current directory, reading the file through the
//! backend, and appending its bytes to the caller's sink. Printing the
//! sink is the front end's business.

use vstd::prelude::*;

use crate::device::Device_trait;
use crate::error::{Error_type, Result_type};
use crate::file_system::{
    File_data, File_system_type, File_view, Has_file, Lemma_open_close_leaves_no_trace,
};
use crate::fundamentals::{
    Flags_type, Is_valid_path, Maximum_path_length, Mode_type, Path_type, Task_identifier_type,
};
use crate::image::Entry_view;

verus! {

/// What a relative argument resolves to under the current directory;
/// an absolute argument stands alone. `None` when joining would leave
/// the address space.
pub open spec fn Resolved(Current: Seq<u8>, Argument: Seq<u8>) -> Option<Seq<u8>> {
    if Argument.len() > 0 && Argument[0] == 47u8 {
        Some(Argument)
    } else if Current.len() + 1 + Argument.len() <= usize::MAX {
        Some(Current + seq![47u8] + Argument)
    } else {
        None
    }
}

/// The bytes one readable path yields: the file's data when the path is
/// usable and present, nothing otherwise.
pub open spec fn Direct_contribution(Entries: Seq<Entry_view>, Path: Seq<u8>) -> Seq<u8> {
    if Is_valid_path(Path) && Path.len() <= Maximum_path_length && Has_file(Entries, Path) {
        File_data(Entries, Path)
    } else {
        Seq::<u8>::empty()
    }
}

/// The bytes one argument yields after resolution.
pub open spec fn Contribution(
    Entries: Seq<Entry_view>,
    Current: Seq<u8>,
    Argument: Seq<u8>,
) -> Seq<u8> {
    match Resolved(Current, Argument) {
        Some(Path) => Direct_contribution(Entries, Path),
        None => Seq::<u8>::empty(),
    }
}

/// The bytes a run of arguments yields, in order.
pub open spec fn Concatenation(
    Entries: Seq<Entry_view>,
    Current: Seq<u8>,
    Arguments: Seq<Path_type>,
) -> Seq<u8>
    decreases Arguments.len(),
{
    if Arguments.len() == 0 {
        Seq::<u8>::empty()
    } else {
        Contribution(Entries, Current, Arguments[0].Inner@) + Concatenation(
            Entries,
            Current,
            Arguments.skip(1),
        )
    }
}

proof fn Lemma_concatenation_snoc(
    Entries: Seq<Entry_view>,
    Current: Seq<u8>,
    Arguments: Seq<Path_type>,
    Argument: Path_type,
)
    ensures
        Concatenation(Entries, Current, Arguments + seq![Argument]) == Concatenation(
            Entries,
            Current,
            Arguments,
        ) + Contribution(Entries, Current, Argument.Inner@),
    decreases Arguments.len(),
{
    let Extended = Arguments + seq![Argument];
    if Arguments.len() == 0 {
        assert(Extended.skip(1) =~= Seq::<Path_type>::empty());
        assert(Extended[0] == Argument);
        assert(Concatenation(Entries, Current, Extended) == Contribution(
            Entries,
            Current,
            Argument.Inner@,
        ) + Concatenation(Entries, Current, Seq::<Path_type>::empty()));
        assert(Concatenation(Entries, Current, Seq::<Path_type>::empty())
            == Seq::<u8>::empty());
        assert(Concatenation(Entries, Current, Arguments) == Seq::<u8>::empty());
        assert(Contribution(Entries, Current, Argument.Inner@) + Seq::<u8>::empty()
            =~= Contribution(Entries, Current, Argument.Inner@));
        assert(Seq::<u8>::empty() + Contribution(Entries, Current, Argument.Inner@)
            =~= Contribution(Entries, Current, Argument.Inner@));
    } else {
        assert(Extended.skip(1) =~= Arguments.skip(1) + seq![Argument]);
        assert(Extended[0] == Arguments[0]);
        assert(Concatenation(Entries, Current, Extended) == Contribution(
            Entries,
            Current,
            Arguments[0].Inner@,
        ) + Concatenation(Entries, Current, Arguments.skip(1) + seq![Argument]));
        Lemma_concatenation_snoc(Entries, Current, Arguments.skip(1), Argument);
        assert(Concatenation(Entries, Current, Arguments) == Contribution(
            Entries,
            Current,
            Arguments[0].Inner@,
        ) + Concatenation(Entries, Current, Arguments.skip(1)));
        vstd::seq_lib::lemma_concat_associative(
            Contribution(Entries, Current, Arguments[0].Inner@),
            Concatenation(Entries, Current, Arguments.skip(1)),
            Contribution(Entries, Current, Argument.Inner@),
        );
    }
}

/// Whether every slot of a task's identifier range is live in the table.
#[verifier::opaque]
pub open spec fn Task_range_full(
    Table: Map<crate::fundamentals::Local_file_identifier_type, File_view>,
    Task: Task_identifier_type,
) -> bool {
    forall|Slot: u32|
        Slot < crate::fundamentals::Maximum_opened_files ==> Table.dom().contains(
            (crate::fundamentals::Local_file_identifier_type {
                Task,
                File: crate::fundamentals::File_identifier_type(Slot),
            }),
        )
}

/// What one concatenate argument may end in, given the directory, the
/// table and the current directory: the same error conditions the
/// file-reading core states, or a sink or device failure after the
/// bytes were read.
pub open spec fn Argument_result_allowed(
    Entries: Seq<Entry_view>,
    Table: Map<crate::fundamentals::Local_file_identifier_type, File_view>,
    Task: Task_identifier_type,
    Current: Seq<u8>,
    Argument: Path_type,
    Result: Result_type<()>,
) -> bool {
    match Resolved(Current, Argument.Inner@) {
        None => Result == Err::<(), Error_type>(Error_type::Invalid_parameter),
        Some(Path) => {
            &&& (Result is Ok ==> Is_valid_path(Path) && Path.len() <= Maximum_path_length
                && Has_file(Entries, Path) && !Task_range_full(Table, Task))
            &&& (Result matches Err(Error) ==> {
                &&& (Error == Error_type::Invalid_parameter <==> !Is_valid_path(Path))
                &&& (Error == Error_type::Name_too_long <==> Is_valid_path(Path) && Path.len()
                    > Maximum_path_length)
                &&& (Error == Error_type::No_entry <==> Is_valid_path(Path) && Path.len()
                    <= Maximum_path_length && !Has_file(Entries, Path))
                &&& (Error == Error_type::Too_many_open_files <==> Is_valid_path(Path)
                    && Path.len() <= Maximum_path_length && Has_file(Entries, Path)
                    && Task_range_full(Table, Task))
                &&& (!(Error == Error_type::Invalid_parameter || Error
                    == Error_type::Name_too_long || Error == Error_type::No_entry || Error
                    == Error_type::Too_many_open_files) ==> (Error
                    == Error_type::No_space_left || crate::device::Is_device_error(Error)))
            })
        },
    }
}

/// Opens a file read-only, reads it whole in fixed chunks, appends the
/// bytes to `Output`, and closes the identifier again. The table ends as
/// it began. A task whose identifier range is exhausted reads nothing
/// and learns so.
pub fn Read_file_and_write<D: Device_trait>(
    File_system: &mut File_system_type<D>,
    Task: Task_identifier_type,
    Path: &Path_type,
    Output: &mut Vec<u8>,
) -> (Result: Result_type<()>)
    requires
        old(File_system).Well_formed(),
    ensures
        final(File_system).Well_formed(),
        final(File_system).Entries() == old(File_system).Entries(),
        final(File_system).Table() == old(File_system).Table(),
        Is_valid_path(Path.Inner@) && Path.Inner@.len() <= Maximum_path_length && Has_file(
            old(File_system).Entries(),
            Path.Inner@,
        ) && Task_range_full(old(File_system).Table(), Task) ==> Result == Err::<
            (),
            Error_type,
        >(Error_type::Too_many_open_files),
        !Task_range_full(old(File_system).Table(), Task) ==> final(Output)@ == old(Output)@
            + Direct_contribution(old(File_system).Entries(), Path.Inner@),
        Task_range_full(old(File_system).Table(), Task) ==> final(Output)@ == old(Output)@,
        match Result {
            Ok(Unit) => Is_valid_path(Path.Inner@) && Path.Inner@.len()
                <= Maximum_path_length && Has_file(old(File_system).Entries(), Path.Inner@)
                && !Task_range_full(old(File_system).Table(), Task),
            Err(Error) => {
                &&& (Error == Error_type::Invalid_parameter <==> !Is_valid_path(Path.Inner@))
                &&& (Error == Error_type::Name_too_long <==> Is_valid_path(Path.Inner@)
                    && Path.Inner@.len() > Maximum_path_length)
                &&& (Error == Error_type::No_entry <==> Is_valid_path(Path.Inner@)
                    && Path.Inner@.len() <= Maximum_path_length && !Has_file(
                    old(File_system).Entries(),
                    Path.Inner@,
                ))
                &&& (Error == Error_type::Too_many_open_files <==> Is_valid_path(Path.Inner@)
                    && Path.Inner@.len() <= Maximum_path_length && Has_file(
                    old(File_system).Entries(),
                    Path.Inner@,
                ) && Task_range_full(old(File_system).Table(), Task))
                &&& (!(Error == Error_type::Invalid_parameter || Error
                    == Error_type::Name_too_long || Error == Error_type::No_entry || Error
                    == Error_type::Too_many_open_files) ==> (Error
                    == Error_type::No_space_left || crate::device::Is_device_error(Error)))
            },
        },
{
    let Flags = Flags_type::From_mode(Mode_type::Read_only);
    let Identifier = match File_system.Open(Task, Path, Flags) {
        Ok(Identifier) => Identifier,
        Err(Error) => {
            proof {
                assert(Task_range_full(old(File_system).Table(), Task) <==> (forall|Slot: u32|
                    Slot < crate::fundamentals::Maximum_opened_files ==> old(
                        File_system,
                    ).Table().dom().contains(
                        (crate::fundamentals::Local_file_identifier_type {
                            Task,
                            File: crate::fundamentals::File_identifier_type(Slot),
                        }),
                    ))) by {
                    reveal(Task_range_full);
                }
                assert(Output@ + Seq::<u8>::empty() =~= Output@);
            }
            return Err(Error);
        },
    };
    proof {
        assert(!Task_range_full(old(File_system).Table(), Task)) by {
            reveal(Task_range_full);
            if Task_range_full(old(File_system).Table(), Task) {
                let Same = (crate::fundamentals::Local_file_identifier_type {
                    Task,
                    File: crate::fundamentals::File_identifier_type(Identifier.File.0),
                });
                assert(old(File_system).Table().dom().contains(Same));
                assert(Same == Identifier);
            }
        }
    }
    let ghost Table_before = old(File_system).Table();
    let ghost Data = File_data(old(File_system).Entries(), Path.Inner@);
    let mut Chunk: Vec<u8> = vec![0u8; 128];
    let mut Read_total: usize = 0;
    proof {
        File_system.Lemma_entries_valid();
        assert(Has_file(old(File_system).Entries(), Path.Inner@));
        let Witness = crate::file_system::File_index_spec(
            old(File_system).Entries(),
            Path.Inner@,
        );
        assert(0 <= Witness < old(File_system).Entries().len());
        assert(Is_valid_path(old(File_system).Entries()[Witness].Name));
        assert(old(File_system).Entries()[Witness].Data.len() < crate::image::Length_limit);
        assert(Output@ + Data.subrange(0, 0) =~= Output@);
    }
    loop
        invariant
            File_system.Well_formed(),
            File_system.Entries() == old(File_system).Entries(),
            Data == File_data(old(File_system).Entries(), Path.Inner@),
            Data.len() <= usize::MAX,
            Chunk@.len() == 128,
            Read_total <= Data.len(),
            File_system.Table() == Table_before.insert(
                Identifier,
                (File_view { Name: Path.Inner@, Cursor: Read_total as nat, Flags }),
            ),
            Table_before == old(File_system).Table(),
            !Table_before.dom().contains(Identifier),
            Flags == (Flags_type {
                Mode: Mode_type::Read_only,
                Create: false,
                Truncate: false,
            }),
            Output@ == old(Output)@ + Data.subrange(0, Read_total as int),
        ensures
            File_system.Well_formed(),
            File_system.Entries() == old(File_system).Entries(),
            File_system.Table() == Table_before.insert(
                Identifier,
                (File_view { Name: Path.Inner@, Cursor: Read_total as nat, Flags }),
            ),
            Output@ == old(Output)@ + Data,
        decreases Data.len() - Read_total,
    {
        let ghost Cursor_before = Read_total as nat;
        let Count = match File_system.Read(Identifier, &mut Chunk) {
            Ok(Count) => Count,
            Err(Error) => {
                proof {
                    assert(File_system.Table().dom().contains(Identifier));
                    assert(File_system.Table()[Identifier].Flags.Mode
                        != Mode_type::Write_only);
                    assert(false);
                }
                return Err(Error);
            },
        };
        proof {
            assert(File_system.Table()[Identifier] == (File_view {
                Name: Path.Inner@,
                Cursor: (Cursor_before + Count.0) as nat,
                Flags,
            }));
            assert(Table_before.insert(
                Identifier,
                (File_view { Name: Path.Inner@, Cursor: Cursor_before, Flags }),
            ).insert(
                Identifier,
                (File_view {
                    Name: Path.Inner@,
                    Cursor: (Cursor_before + Count.0) as nat,
                    Flags,
                }),
            ) =~= Table_before.insert(
                Identifier,
                (File_view {
                    Name: Path.Inner@,
                    Cursor: (Cursor_before + Count.0) as nat,
                    Flags,
                }),
            ));
        }
        if Count.0 == 0 {
            proof {
                assert(Read_total == Data.len());
                assert(Data.subrange(0, Data.len() as int) =~= Data);
            }
            break;
        }
        let ghost Output_before = Output@;
        let mut Offset: usize = 0;
        while Offset < Count.0
            invariant
                0 <= Offset <= Count.0,
                Count.0 <= Chunk@.len(),
                Chunk@.len() == 128,
                Output@ == Output_before + Chunk@.subrange(0, Offset as int),
            decreases Count.0 - Offset,
        {
            let Byte = Chunk[Offset];
            Output.push(Byte);
            proof {
                assert(Output@ =~= Output_before + Chunk@.subrange(0, Offset + 1));
            }
            Offset = Offset + 1;
        }
        proof {
            assert(Chunk@.subrange(0, Count.0 as int) =~= Data.subrange(
                Cursor_before as int,
                Cursor_before + Count.0,
            ));
            assert(Output_before + Data.subrange(Cursor_before as int, Cursor_before + Count.0)
                =~= old(Output)@ + Data.subrange(0, Cursor_before + Count.0));
        }
        Read_total = Read_total + Count.0;
    }
    let ghost Final_view = (File_view {
        Name: Path.Inner@,
        Cursor: Read_total as nat,
        Flags,
    });
    proof {
        Lemma_open_close_leaves_no_trace(Table_before, Identifier, Final_view);
        assert(File_system.Table().dom().contains(Identifier));
    }
    match File_system.Close(Identifier) {
        Ok(_) => Ok(()),
        Err(Error) => {
            proof {
                assert(Error != Error_type::Invalid_identifier);
            }
            Err(Error)
        },
    }
}

/// Concatenates the named files to `Output`: each argument resolves
/// against the current directory, absolute arguments stand alone, and an
/// argument that resolves to nothing readable contributes nothing, as a
/// shell that reports and moves on. One result per argument comes back,
/// so a front end can print an error line for each failing one. The
/// open-file table ends as it began.
pub fn Concatenate<D: Device_trait>(
    File_system: &mut File_system_type<D>,
    Task: Task_identifier_type,
    Current_directory: &Path_type,
    Arguments: &Vec<Path_type>,
    Output: &mut Vec<u8>,
) -> (Results: Vec<Result_type<()>>)
    requires
        old(File_system).Well_formed(),
    ensures
        final(File_system).Well_formed(),
        final(File_system).Entries() == old(File_system).Entries(),
        final(File_system).Table() == old(File_system).Table(),
        !Task_range_full(old(File_system).Table(), Task) ==> final(Output)@ == old(Output)@
            + Concatenation(
            old(File_system).Entries(),
            Current_directory.Inner@,
            Arguments@,
        ),
        Task_range_full(old(File_system).Table(), Task) ==> final(Output)@ == old(Output)@,
        Results@.len() == Arguments@.len(),
        forall|i: int|
            0 <= i < Arguments@.len() ==> Argument_result_allowed(
                old(File_system).Entries(),
                old(File_system).Table(),
                Task,
                Current_directory.Inner@,
                Arguments@[i],
                #[trigger] Results@[i],
            ),
{
    let mut Results: Vec<Result_type<()>> = Vec::new();
    let mut Index: usize = 0;
    proof {
        assert(Arguments@.subrange(0, 0) =~= Seq::<Path_type>::empty());
        assert(Output@ + Seq::<u8>::empty() =~= Output@);
    }
    while Index < Arguments.len()
        invariant
            0 <= Index <= Arguments@.len(),
            File_system.Well_formed(),
            File_system.Entries() == old(File_system).Entries(),
            File_system.Table() == old(File_system).Table(),
            Results@.len() == Index,
            forall|i: int|
                0 <= i < Index ==> Argument_result_allowed(
                    old(File_system).Entries(),
                    old(File_system).Table(),
                    Task,
                    Current_directory.Inner@,
                    Arguments@[i],
                    #[trigger] Results@[i],
                ),
            !Task_range_full(old(File_system).Table(), Task) ==> Output@ == old(Output)@
                + Concatenation(
                old(File_system).Entries(),
                Current_directory.Inner@,
                Arguments@.subrange(0, Index as int),
            ),
            Task_range_full(old(File_system).Table(), Task) ==> Output@ == old(Output)@,
        decreases Arguments@.len() - Index,
    {
        let ghost Previous = Arguments@.subrange(0, Index as int);
        let ghost Output_before = Output@;
        let Argument = &Arguments[Index];
        let Outcome: Result_type<()> = if Argument.Is_absolute() {
            Read_file_and_write(File_system, Task, Argument, Output)
        } else {
            match Current_directory.Join(Argument) {
                Some(Joined) => Read_file_and_write(File_system, Task, &Joined, Output),
                None => {
                    proof {
                        assert(Resolved(Current_directory.Inner@, Argument.Inner@) is None);
                        assert(Output@ =~= Output_before + Contribution(
                            old(File_system).Entries(),
                            Current_directory.Inner@,
                            Argument.Inner@,
                        ));
                    }
                    Err(Error_type::Invalid_parameter)
                },
            }
        };
        Results.push(Outcome);
        proof {
            assert(Arguments@.subrange(0, Index + 1) =~= Previous + seq![
                Arguments@[Index as int],
            ]);
            if !Task_range_full(old(File_system).Table(), Task) {
                Lemma_concatenation_snoc(
                    old(File_system).Entries(),
                    Current_directory.Inner@,
                    Previous,
                    Arguments@[Index as int],
                );
                vstd::seq_lib::lemma_concat_associative(
                    old(Output)@,
                    Concatenation(
                        old(File_system).Entries(),
                        Current_directory.Inner@,
                        Previous,
                    ),
                    Contribution(
                        old(File_system).Entries(),
                        Current_directory.Inner@,
                        Arguments@[Index as int].Inner@,
                    ),
                );
            }
        }
        Index = Index + 1;
    }
    proof {
        assert(Arguments@.subrange(0, Arguments@.len() as int) =~= Arguments@);
    }
    Results
}

} // verus!

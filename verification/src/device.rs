//! The uniform device abstraction: a byte source and sink with a cursor,
//! shared by peripherals and virtual stores.
//!
//! A device never blocks: an operation that cannot complete immediately
//! fails with `Ressource_busy` instead of waiting, so the contracts below
//! admit a busy failure on every operation while pinning down exactly what
//! a successful call transfers.

use vstd::prelude::*;

use crate::error::{Error_type, Result_type};
use crate::fundamentals::{Position_type, Resolve_position, Size_type};

verus! {

/// How many bytes a transfer moves: the request, capped by what lies
/// between the cursor and the end of the content.
pub open spec fn Transfer_count(Length: nat, Position: nat, Requested: nat) -> nat {
    if Position <= Length {
        if Requested <= Length - Position {
            Requested
        } else {
            (Length - Position) as nat
        }
    } else {
        0
    }
}

/// The errors a device operation may report of its own accord.
pub open spec fn Is_device_error(Error: Error_type) -> bool {
    Error == Error_type::Ressource_busy || Error == Error_type::Input_output
}

/// Where a line ends: the index of the first newline at or after
/// `Position`, or the length of the content when no newline follows.
pub open spec fn Line_end(Content: Seq<u8>, Position: nat) -> nat
    decreases Content.len() - Position,
{
    if Position >= Content.len() {
        Content.len()
    } else if Content[Position as int] == 10u8 {
        Position
    } else {
        Line_end(Content, Position + 1)
    }
}

/// A line never ends before the cursor nor after the content.
pub proof fn Lemma_line_end_in_range(Content: Seq<u8>, Position: nat)
    requires
        Position <= Content.len(),
    ensures
        Position <= Line_end(Content, Position) <= Content.len(),
    decreases Content.len() - Position,
{
    if Position >= Content.len() {
    } else if Content[Position as int] == 10u8 {
    } else {
        Lemma_line_end_in_range(Content, Position + 1);
    }
}

/// Whether `After` extends `Before` by some prefix of the line at the
/// cursor: what an interrupted line read is allowed to leave behind.
pub open spec fn Appended_line_prefix(
    Content: Seq<u8>,
    Position: nat,
    Before: Seq<u8>,
    After: Seq<u8>,
) -> bool {
    exists|Count: int|
        0 <= Count <= Line_end(Content, Position) - Position && After == Before
            + #[trigger] Content.subrange(Position as int, Position + Count)
}

/// The device contract.
///
/// A device models itself as a fixed run of bytes (`Content`) and a cursor
/// (`Position`). Reads and writes move `Transfer_count` bytes at the
/// cursor; the content's length never changes. Implementations must not
/// block: when an operation cannot complete at once it returns
/// `Ressource_busy`. Devices may be driven by many tasks in turn; Rust's
/// exclusive references serialize the calls.
pub trait Device_trait: Sized {
    /// The bytes the device serves.
    spec fn Content(&self) -> Seq<u8>;

    /// The cursor the next transfer starts at.
    spec fn Position(&self) -> nat;

    /// The device's own invariant.
    spec fn Well_formed(&self) -> bool;

    /// Whether the device is a character terminal.
    spec fn Is_a_terminal_spec(&self) -> bool;

    /// Whether the device is block-structured.
    spec fn Is_a_block_device_spec(&self) -> bool;

    /// Implementations prove that the model stays in range: the cursor
    /// never passes the end, and the content is addressable.
    proof fn Bounds(&self)
        requires
            self.Well_formed(),
        ensures
            self.Position() <= self.Content().len() <= usize::MAX,
    ;

    /// Read data from the device into the front of `Buffer`.
    fn Read(&mut self, Buffer: &mut Vec<u8>) -> (Result: Result_type<Size_type>)
        requires
            old(self).Well_formed(),
        ensures
            final(self).Well_formed(),
            final(self).Content().len() == old(self).Content().len(),
            final(Buffer)@.len() == old(Buffer)@.len(),
            match Result {
                Ok(Count) => {
                    &&& Count.0 == Transfer_count(
                        old(self).Content().len(),
                        old(self).Position(),
                        old(Buffer)@.len() as nat,
                    )
                    &&& final(self).Content() == old(self).Content()
                    &&& final(self).Position() == old(self).Position() + Count.0
                    &&& final(Buffer)@ == old(self).Content().subrange(
                        old(self).Position() as int,
                        old(self).Position() + Count.0,
                    ) + old(Buffer)@.skip(Count.0 as int)
                },
                Err(Error) => {
                    &&& Is_device_error(Error)
                    &&& final(self).Content() == old(self).Content()
                    &&& final(self).Position() == old(self).Position()
                    &&& final(Buffer)@ == old(Buffer)@
                },
            },
    ;

    /// Write data from `Buffer` to the device at the cursor.
    fn Write(&mut self, Buffer: &Vec<u8>) -> (Result: Result_type<Size_type>)
        requires
            old(self).Well_formed(),
        ensures
            final(self).Well_formed(),
            final(self).Content().len() == old(self).Content().len(),
            match Result {
                Ok(Count) => {
                    &&& Count.0 == Transfer_count(
                        old(self).Content().len(),
                        old(self).Position(),
                        Buffer@.len() as nat,
                    )
                    &&& final(self).Content() == old(self).Content().subrange(
                        0,
                        old(self).Position() as int,
                    ) + Buffer@.subrange(0, Count.0 as int) + old(self).Content().skip(
                        old(self).Position() + Count.0,
                    )
                    &&& final(self).Position() == old(self).Position() + Count.0
                },
                Err(Error) => {
                    &&& Is_device_error(Error)
                    &&& final(self).Content() == old(self).Content()
                    &&& final(self).Position() == old(self).Position()
                },
            },
    ;

    /// The size of the device's addressable content.
    fn Get_size(&self) -> (Result: Result_type<Size_type>)
        requires
            self.Well_formed(),
        ensures
            match Result {
                Ok(Size) => Size.0 == self.Content().len(),
                Err(Error) => Is_device_error(Error),
            },
    ;

    /// Move the cursor; the new absolute offset is returned.
    fn Set_position(&mut self, Position: &Position_type) -> (Result: Result_type<Size_type>)
        requires
            old(self).Well_formed(),
        ensures
            final(self).Well_formed(),
            final(self).Content() == old(self).Content(),
            match Result {
                Ok(Offset) => {
                    &&& Resolve_position(
                        old(self).Position(),
                        old(self).Content().len(),
                        *Position,
                    ) == Some(Offset.0 as nat)
                    &&& Offset.0 <= old(self).Content().len()
                    &&& final(self).Position() == Offset.0
                },
                Err(Error) => {
                    &&& final(self).Position() == old(self).Position()
                    &&& (Error == Error_type::Invalid_parameter || Is_device_error(Error))
                    &&& (Error == Error_type::Invalid_parameter ==> match Resolve_position(
                        old(self).Position(),
                        old(self).Content().len(),
                        *Position,
                    ) {
                        Some(Offset) => Offset > old(self).Content().len(),
                        None => true,
                    })
                },
            },
    ;

    /// Push any buffered data down to the medium.
    fn Flush(&mut self) -> (Result: Result_type<()>)
        requires
            old(self).Well_formed(),
        ensures
            final(self).Well_formed(),
            final(self).Content() == old(self).Content(),
            final(self).Position() == old(self).Position(),
            match Result {
                Ok(Unit) => true,
                Err(Error) => Is_device_error(Error),
            },
    ;

    /// Reset the whole content to zeroes. Only block devices support it.
    fn Erase(&mut self) -> (Result: Result_type<()>)
        requires
            old(self).Well_formed(),
        ensures
            final(self).Well_formed(),
            final(self).Content().len() == old(self).Content().len(),
            match Result {
                Ok(Unit) => {
                    &&& final(self).Content() == Seq::new(
                        old(self).Content().len(),
                        |i: int| 0u8,
                    )
                    &&& final(self).Position() == old(self).Position()
                },
                Err(Error) => {
                    &&& (Error == Error_type::Unsupported_operation || Is_device_error(Error))
                    &&& final(self).Content() == old(self).Content()
                    &&& final(self).Position() == old(self).Position()
                },
            },
    {
        Err(Error_type::Unsupported_operation)
    }

    /// The block granularity. Only block devices support it.
    fn Get_block_size(&self) -> (Result: Result_type<usize>)
        requires
            self.Well_formed(),
        ensures
            match Result {
                Ok(Block_size) => Block_size >= 1,
                Err(Error) => Error == Error_type::Unsupported_operation || Is_device_error(
                    Error,
                ),
            },
    {
        Err(Error_type::Unsupported_operation)
    }

    fn Is_a_terminal(&self) -> (Result: bool)
        ensures
            Result == self.Is_a_terminal_spec(),
    ;

    fn Is_a_block_device(&self) -> (Result: bool)
        ensures
            Result == self.Is_a_block_device_spec(),
    ;

    /// Read one line into the caller's accumulator, one byte at a time.
    /// The terminating newline is consumed but not appended; the line also
    /// ends where the content does.
    fn Read_line(&mut self, Buffer: &mut Vec<u8>) -> (Result: Result_type<Size_type>)
        requires
            old(self).Well_formed(),
        ensures
            final(self).Well_formed(),
            final(self).Content() == old(self).Content(),
            match Result {
                Ok(Count) => {
                    &&& Count.0 == Line_end(old(self).Content(), old(self).Position())
                        - old(self).Position()
                    &&& final(Buffer)@ == old(Buffer)@ + old(self).Content().subrange(
                        old(self).Position() as int,
                        Line_end(old(self).Content(), old(self).Position()) as int,
                    )
                    &&& final(self).Position() == (if Line_end(
                        old(self).Content(),
                        old(self).Position(),
                    ) < old(self).Content().len() {
                        (Line_end(old(self).Content(), old(self).Position()) + 1) as int
                    } else {
                        Line_end(old(self).Content(), old(self).Position()) as int
                    })
                },
                Err(Error) => {
                    &&& Is_device_error(Error)
                    &&& Appended_line_prefix(
                        old(self).Content(),
                        old(self).Position(),
                        old(Buffer)@,
                        final(Buffer)@,
                    )
                },
            },
    {
        let ghost Original_content = self.Content();
        let ghost Start = self.Position();
        let ghost Buffer_start = Buffer@;
        let mut Byte_buffer: Vec<u8> = Vec::new();
        Byte_buffer.push(0);
        let mut Count: usize = 0;
        proof {
            self.Bounds();
            assert(Buffer@ =~= Buffer_start + Original_content.subrange(
                Start as int,
                Start as int,
            ));
        }
        loop
            invariant_except_break
                Count == self.Position() - Start,
                Line_end(Original_content, Start) == Line_end(
                    Original_content,
                    self.Position(),
                ),
                Buffer@ == Buffer_start + Original_content.subrange(
                    Start as int,
                    self.Position() as int,
                ),
            invariant
                self.Well_formed(),
                Byte_buffer@.len() == 1,
                Original_content == old(self).Content(),
                Start == old(self).Position(),
                Buffer_start == old(Buffer)@,
                self.Content() == Original_content,
                Original_content.len() <= usize::MAX,
                Start <= self.Position() <= self.Content().len(),
            ensures
                self.Well_formed(),
                self.Content() == Original_content,
                Count == Line_end(Original_content, Start) - Start,
                Buffer@ == Buffer_start + Original_content.subrange(
                    Start as int,
                    Line_end(Original_content, Start) as int,
                ),
                self.Position() == (if Line_end(Original_content, Start)
                    < Original_content.len() {
                    (Line_end(Original_content, Start) + 1) as int
                } else {
                    Line_end(Original_content, Start) as int
                }),
            decreases self.Content().len() - self.Position(),
        {
            let ghost Before = self.Position();
            let Transferred = match self.Read(&mut Byte_buffer) {
                Ok(Transferred) => Transferred,
                Err(Error) => {
                    proof {
                        Lemma_line_end_in_range(Original_content, Before);
                        let Witness = Before - Start;
                        assert(0 <= Witness <= Line_end(Original_content, Start) - Start);
                        assert(Buffer@ == Buffer_start + Original_content.subrange(
                            Start as int,
                            Start + Witness,
                        ));
                    }
                    return Err(Error);
                },
            };
            if Transferred.0 == 0 {
                proof {
                    assert(Before == Original_content.len());
                    assert(Line_end(Original_content, Before) == Before);
                    assert(Count == Line_end(Original_content, Start) - Start);
                }
                break;
            }
            proof {
                assert(Byte_buffer@[0] == Original_content[Before as int]);
            }
            if Byte_buffer[0] == 10u8 {
                proof {
                    assert(Line_end(Original_content, Before) == Before);
                    assert(Count == Line_end(Original_content, Start) - Start);
                    assert(Line_end(Original_content, Start) < Original_content.len());
                    assert(self.Position() == Line_end(Original_content, Start) + 1);
                }
                break;
            }
            Buffer.push(Byte_buffer[0]);
            Count = Count + 1;
            proof {
                assert(Line_end(Original_content, Before) == Line_end(
                    Original_content,
                    self.Position(),
                ));
                assert(Buffer@ =~= Buffer_start + Original_content.subrange(
                    Start as int,
                    self.Position() as int,
                ));
            }
        }
        Ok(Size_type(Count))
    }

    /// Read the whole addressable content into a fresh buffer.
    fn Dump_device(&mut self) -> (Result: Result_type<Vec<u8>>)
        requires
            old(self).Well_formed(),
        ensures
            final(self).Well_formed(),
            final(self).Content() == old(self).Content(),
            match Result {
                Ok(Buffer) => Buffer@ == old(self).Content(),
                Err(Error) => Is_device_error(Error),
            },
    {
        let Size = match self.Get_size() {
            Ok(Size) => Size,
            Err(Error) => {
                return Err(Error);
            },
        };
        match self.Set_position(&Position_type::Start(0)) {
            Ok(_) => (),
            Err(Error) => {
                return Err(Error);
            },
        };
        let mut Buffer: Vec<u8> = vec![0u8; Size.0];
        let Count = match self.Read(&mut Buffer) {
            Ok(Count) => Count,
            Err(Error) => {
                return Err(Error);
            },
        };
        proof {
            assert(Buffer@ =~= self.Content());
        }
        Ok(Buffer)
    }
}

/// An owned device handle: the uniform front the rest of the storage
/// layer holds a device through. Every call forwards to the wrapped
/// device under the same contract.
pub struct Device_type<D: Device_trait> {
    Inner: D,
}

impl<D: Device_trait> Device_type<D> {
    pub closed spec fn Content(&self) -> Seq<u8> {
        self.Inner.Content()
    }

    pub closed spec fn Position(&self) -> nat {
        self.Inner.Position()
    }

    pub closed spec fn Well_formed(&self) -> bool {
        self.Inner.Well_formed()
    }

    pub proof fn Bounds(&self)
        requires
            self.Well_formed(),
        ensures
            self.Position() <= self.Content().len() <= usize::MAX,
    {
        self.Inner.Bounds();
    }

    pub fn New(Device: D) -> (Result: Self)
        requires
            Device.Well_formed(),
        ensures
            Result.Well_formed(),
            Result.Content() == Device.Content(),
            Result.Position() == Device.Position(),
    {
        Device_type { Inner: Device }
    }

    pub fn Read(&mut self, Buffer: &mut Vec<u8>) -> (Result: Result_type<Size_type>)
        requires
            old(self).Well_formed(),
        ensures
            final(self).Well_formed(),
            final(self).Content().len() == old(self).Content().len(),
            final(Buffer)@.len() == old(Buffer)@.len(),
            match Result {
                Ok(Count) => {
                    &&& Count.0 == Transfer_count(
                        old(self).Content().len(),
                        old(self).Position(),
                        old(Buffer)@.len() as nat,
                    )
                    &&& final(self).Content() == old(self).Content()
                    &&& final(self).Position() == old(self).Position() + Count.0
                    &&& final(Buffer)@ == old(self).Content().subrange(
                        old(self).Position() as int,
                        old(self).Position() + Count.0,
                    ) + old(Buffer)@.skip(Count.0 as int)
                },
                Err(Error) => {
                    &&& Is_device_error(Error)
                    &&& final(self).Content() == old(self).Content()
                    &&& final(self).Position() == old(self).Position()
                    &&& final(Buffer)@ == old(Buffer)@
                },
            },
    {
        self.Inner.Read(Buffer)
    }

    pub fn Write(&mut self, Buffer: &Vec<u8>) -> (Result: Result_type<Size_type>)
        requires
            old(self).Well_formed(),
        ensures
            final(self).Well_formed(),
            final(self).Content().len() == old(self).Content().len(),
            match Result {
                Ok(Count) => {
                    &&& Count.0 == Transfer_count(
                        old(self).Content().len(),
                        old(self).Position(),
                        Buffer@.len() as nat,
                    )
                    &&& final(self).Content() == old(self).Content().subrange(
                        0,
                        old(self).Position() as int,
                    ) + Buffer@.subrange(0, Count.0 as int) + old(self).Content().skip(
                        old(self).Position() + Count.0,
                    )
                    &&& final(self).Position() == old(self).Position() + Count.0
                },
                Err(Error) => {
                    &&& Is_device_error(Error)
                    &&& final(self).Content() == old(self).Content()
                    &&& final(self).Position() == old(self).Position()
                },
            },
    {
        self.Inner.Write(Buffer)
    }

    pub fn Get_size(&self) -> (Result: Result_type<Size_type>)
        requires
            self.Well_formed(),
        ensures
            match Result {
                Ok(Size) => Size.0 == self.Content().len(),
                Err(Error) => Is_device_error(Error),
            },
    {
        self.Inner.Get_size()
    }

    pub fn Set_position(&mut self, Position: &Position_type) -> (Result: Result_type<Size_type>)
        requires
            old(self).Well_formed(),
        ensures
            final(self).Well_formed(),
            final(self).Content() == old(self).Content(),
            match Result {
                Ok(Offset) => {
                    &&& Resolve_position(
                        old(self).Position(),
                        old(self).Content().len(),
                        *Position,
                    ) == Some(Offset.0 as nat)
                    &&& Offset.0 <= old(self).Content().len()
                    &&& final(self).Position() == Offset.0
                },
                Err(Error) => {
                    &&& final(self).Position() == old(self).Position()
                    &&& (Error == Error_type::Invalid_parameter || Is_device_error(Error))
                    &&& (Error == Error_type::Invalid_parameter ==> match Resolve_position(
                        old(self).Position(),
                        old(self).Content().len(),
                        *Position,
                    ) {
                        Some(Offset) => Offset > old(self).Content().len(),
                        None => true,
                    })
                },
            },
    {
        self.Inner.Set_position(Position)
    }

    pub fn Flush(&mut self) -> (Result: Result_type<()>)
        requires
            old(self).Well_formed(),
        ensures
            final(self).Well_formed(),
            final(self).Content() == old(self).Content(),
            final(self).Position() == old(self).Position(),
            match Result {
                Ok(Unit) => true,
                Err(Error) => Is_device_error(Error),
            },
    {
        self.Inner.Flush()
    }

    pub fn Erase(&mut self) -> (Result: Result_type<()>)
        requires
            old(self).Well_formed(),
        ensures
            final(self).Well_formed(),
            final(self).Content().len() == old(self).Content().len(),
            match Result {
                Ok(Unit) => {
                    &&& final(self).Content() == Seq::new(
                        old(self).Content().len(),
                        |i: int| 0u8,
                    )
                    &&& final(self).Position() == old(self).Position()
                },
                Err(Error) => {
                    &&& (Error == Error_type::Unsupported_operation || Is_device_error(Error))
                    &&& final(self).Content() == old(self).Content()
                    &&& final(self).Position() == old(self).Position()
                },
            },
    {
        self.Inner.Erase()
    }

    pub fn Get_block_size(&self) -> (Result: Result_type<usize>)
        requires
            self.Well_formed(),
        ensures
            match Result {
                Ok(Block_size) => Block_size >= 1,
                Err(Error) => Error == Error_type::Unsupported_operation || Is_device_error(
                    Error,
                ),
            },
    {
        self.Inner.Get_block_size()
    }

    /// Whether the wrapped device is a character terminal.
    pub closed spec fn Is_a_terminal_spec(&self) -> bool {
        self.Inner.Is_a_terminal_spec()
    }

    /// Whether the wrapped device is block-structured.
    pub closed spec fn Is_a_block_device_spec(&self) -> bool {
        self.Inner.Is_a_block_device_spec()
    }

    pub fn Is_a_terminal(&self) -> (Result: bool)
        ensures
            Result == self.Is_a_terminal_spec(),
    {
        self.Inner.Is_a_terminal()
    }

    pub fn Is_a_block_device(&self) -> (Result: bool)
        ensures
            Result == self.Is_a_block_device_spec(),
    {
        self.Inner.Is_a_block_device()
    }

    pub fn Read_line(&mut self, Buffer: &mut Vec<u8>) -> (Result: Result_type<Size_type>)
        requires
            old(self).Well_formed(),
        ensures
            final(self).Well_formed(),
            final(self).Content() == old(self).Content(),
            match Result {
                Ok(Count) => {
                    &&& Count.0 == Line_end(old(self).Content(), old(self).Position())
                        - old(self).Position()
                    &&& final(Buffer)@ == old(Buffer)@ + old(self).Content().subrange(
                        old(self).Position() as int,
                        Line_end(old(self).Content(), old(self).Position()) as int,
                    )
                },
                Err(Error) => {
                    &&& Is_device_error(Error)
                    &&& Appended_line_prefix(
                        old(self).Content(),
                        old(self).Position(),
                        old(Buffer)@,
                        final(Buffer)@,
                    )
                },
            },
    {
        self.Inner.Read_line(Buffer)
    }

    pub fn Dump_device(&mut self) -> (Result: Result_type<Vec<u8>>)
        requires
            old(self).Well_formed(),
        ensures
            final(self).Well_formed(),
            final(self).Content() == old(self).Content(),
            match Result {
                Ok(Buffer) => Buffer@ == old(self).Content(),
                Err(Error) => Is_device_error(Error),
            },
    {
        self.Inner.Dump_device()
    }
}

} // verus!

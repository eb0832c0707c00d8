//! A memory-backed block device: a fixed run of bytes with a cursor.
//!
//! The device never blocks and never fails a transfer; a seek outside the
//! content is the one operation it rejects.

use vstd::prelude::*;

use crate::device::{Device_trait, Transfer_count};
use crate::error::{Error_type, Result_type};
use crate::fundamentals::{Position_type, Resolve_position, Size_type};

verus! {

/// An in-memory device of a fixed size.
pub struct Memory_device_type {
    Data: Vec<u8>,
    Position: usize,
    Block_size: usize,
}

impl Memory_device_type {
    /// A zero-filled device of `Size` bytes in blocks of `Block_size`.
    pub fn New(Size: usize, Block_size: usize) -> (Result: Self)
        requires
            Block_size >= 1,
        ensures
            Result.Well_formed(),
            Result.Content() == Seq::new(Size as nat, |i: int| 0u8),
            Result.Position() == 0,
            Result.Get_block_size_spec() == Block_size,
    {
        let Data: Vec<u8> = vec![0u8; Size];
        proof {
            assert(Data@ =~= Seq::new(Size as nat, |i: int| 0u8));
        }
        Memory_device_type { Data, Position: 0, Block_size }
    }

    pub closed spec fn Get_block_size_spec(&self) -> usize {
        self.Block_size
    }
}

impl Device_trait for Memory_device_type {
    closed spec fn Content(&self) -> Seq<u8> {
        self.Data@
    }

    closed spec fn Position(&self) -> nat {
        self.Position as nat
    }

    closed spec fn Well_formed(&self) -> bool {
        self.Position <= self.Data.len() && self.Block_size >= 1
    }

    proof fn Bounds(&self) {
    }

    fn Read(&mut self, Buffer: &mut Vec<u8>) -> (Result: Result_type<Size_type>) {
        let Available = self.Data.len() - self.Position;
        let Count = if Buffer.len() <= Available {
            Buffer.len()
        } else {
            Available
        };
        let mut Index: usize = 0;
        while Index < Count
            invariant
                Count <= Buffer.len(),
                self.Position + Count <= self.Data.len(),
                0 <= Index <= Count,
                self == old(self),
                Buffer@.len() == old(Buffer)@.len(),
                forall|i: int|
                    0 <= i < Index ==> Buffer@[i] == self.Data@[self.Position + i],
                forall|i: int|
                    Index <= i < Buffer@.len() ==> Buffer@[i] == old(Buffer)@[i],
            decreases Count - Index,
        {
            let Byte = self.Data[self.Position + Index];
            Buffer[Index] = Byte;
            Index = Index + 1;
        }
        proof {
            assert(Buffer@ =~= old(self).Content().subrange(
                old(self).Position() as int,
                old(self).Position() + Count,
            ) + old(Buffer)@.skip(Count as int));
        }
        self.Position = self.Position + Count;
        Ok(Size_type(Count))
    }

    fn Write(&mut self, Buffer: &Vec<u8>) -> (Result: Result_type<Size_type>) {
        let Available = self.Data.len() - self.Position;
        let Count = if Buffer.len() <= Available {
            Buffer.len()
        } else {
            Available
        };
        let mut Index: usize = 0;
        while Index < Count
            invariant
                Count <= Buffer.len(),
                self.Position + Count <= self.Data.len(),
                0 <= Index <= Count,
                self.Position == old(self).Position,
                self.Block_size == old(self).Block_size,
                self.Data@.len() == old(self).Data@.len(),
                forall|i: int|
                    self.Position <= i < self.Position + Index ==> self.Data@[i] == Buffer@[i
                        - self.Position],
                forall|i: int|
                    0 <= i < self.Data@.len() && !(self.Position <= i < self.Position + Index)
                        ==> self.Data@[i] == old(self).Data@[i],
            decreases Count - Index,
        {
            let Byte = Buffer[Index];
            let Target = self.Position + Index;
            self.Data[Target] = Byte;
            Index = Index + 1;
        }
        proof {
            assert(self.Data@ =~= old(self).Content().subrange(
                0,
                old(self).Position() as int,
            ) + Buffer@.subrange(0, Count as int) + old(self).Content().skip(
                old(self).Position() + Count,
            ));
        }
        self.Position = self.Position + Count;
        Ok(Size_type(Count))
    }

    fn Get_size(&self) -> (Result: Result_type<Size_type>) {
        Ok(Size_type(self.Data.len()))
    }

    fn Set_position(&mut self, Position: &Position_type) -> (Result: Result_type<Size_type>) {
        let Target: usize = match *Position {
            Position_type::Start(Offset) => Offset,
            Position_type::Current(Offset) => {
                if Offset >= 0 {
                    let Forward = Offset as usize;
                    if Forward > usize::MAX - self.Position {
                        return Err(Error_type::Invalid_parameter);
                    }
                    self.Position + Forward
                } else {
                    let Backward = ((-(Offset + 1)) as usize) + 1;
                    if Backward > self.Position {
                        return Err(Error_type::Invalid_parameter);
                    }
                    self.Position - Backward
                }
            },
            Position_type::End(Offset) => {
                if Offset >= 0 {
                    let Forward = Offset as usize;
                    if Forward > usize::MAX - self.Data.len() {
                        return Err(Error_type::Invalid_parameter);
                    }
                    self.Data.len() + Forward
                } else {
                    let Backward = ((-(Offset + 1)) as usize) + 1;
                    if Backward > self.Data.len() {
                        return Err(Error_type::Invalid_parameter);
                    }
                    self.Data.len() - Backward
                }
            },
        };
        if Target > self.Data.len() {
            return Err(Error_type::Invalid_parameter);
        }
        self.Position = Target;
        Ok(Size_type(Target))
    }

    fn Flush(&mut self) -> (Result: Result_type<()>) {
        Ok(())
    }

    fn Erase(&mut self) -> (Result: Result_type<()>) {
        let Length = self.Data.len();
        let mut Index: usize = 0;
        while Index < Length
            invariant
                Length == self.Data@.len(),
                0 <= Index <= Length,
                self.Position == old(self).Position,
                self.Block_size == old(self).Block_size,
                forall|i: int| 0 <= i < Index ==> self.Data@[i] == 0u8,
            decreases Length - Index,
        {
            self.Data[Index] = 0u8;
            Index = Index + 1;
        }
        proof {
            assert(self.Data@ =~= Seq::new(old(self).Content().len(), |i: int| 0u8));
        }
        Ok(())
    }

    fn Get_block_size(&self) -> (Result: Result_type<usize>) {
        Ok(self.Block_size)
    }

    open spec fn Is_a_terminal_spec(&self) -> bool {
        false
    }

    open spec fn Is_a_block_device_spec(&self) -> bool {
        true
    }

    fn Is_a_terminal(&self) -> (Result: bool) {
        false
    }

    fn Is_a_block_device(&self) -> (Result: bool) {
        true
    }
}

} // verus!

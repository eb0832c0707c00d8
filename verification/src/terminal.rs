//! The terminal front end's text state: the display buffer, the pending
//! input line, and the validation flag.
//!
//! The display buffer always ends in a terminating null byte once
//! something was printed. Printing honours the two escape sequences the
//! terminal understands: clear-screen and cursor-home both discard the
//! buffer and keep only what follows their last occurrence.

use vstd::prelude::*;

use crate::image::Copy_bytes;
use crate::image::Copy_range;

verus! {

/// The clear-screen escape sequence.
pub open spec fn Clear_sequence() -> Seq<u8> {
    seq![27u8, 91u8, 50u8, 74u8]
}

/// The cursor-home escape sequence.
pub open spec fn Home_sequence() -> Seq<u8> {
    seq![27u8, 91u8, 72u8]
}

/// Whether `Pattern` occurs in `Text` at `Index`.
pub open spec fn Match_at(Text: Seq<u8>, Pattern: Seq<u8>, Index: int) -> bool {
    &&& 0 <= Index
    &&& Index + Pattern.len() <= Text.len()
    &&& Text.subrange(Index, Index + Pattern.len()) == Pattern
}

/// The last occurrence of `Pattern` at or below `Index`.
pub open spec fn Last_match_from(Text: Seq<u8>, Pattern: Seq<u8>, Index: int) -> Option<int>
    decreases Index + 1,
{
    if Index < 0 {
        None
    } else if Match_at(Text, Pattern, Index) {
        Some(Index)
    } else {
        Last_match_from(Text, Pattern, Index - 1)
    }
}

/// The last occurrence of `Pattern` in `Text`.
pub open spec fn Find_last(Text: Seq<u8>, Pattern: Seq<u8>) -> Option<int> {
    Last_match_from(Text, Pattern, Text.len() - Pattern.len())
}

/// A found occurrence really is one.
proof fn Lemma_last_match_is_match(Text: Seq<u8>, Pattern: Seq<u8>, Index: int)
    requires
        Last_match_from(Text, Pattern, Index) is Some,
    ensures
        Match_at(Text, Pattern, Last_match_from(Text, Pattern, Index).unwrap()),
    decreases Index + 1,
{
    if Index < 0 {
    } else if Match_at(Text, Pattern, Index) {
    } else {
        Lemma_last_match_is_match(Text, Pattern, Index - 1);
    }
}

fn Match_at_exec(Text: &Vec<u8>, Pattern: &Vec<u8>, Index: usize) -> (Result: bool)
    requires
        Index + Pattern@.len() <= Text@.len(),
    ensures
        Result == Match_at(Text@, Pattern@, Index as int),
{
    let Length = Text.len();
    let mut Offset: usize = 0;
    while Offset < Pattern.len()
        invariant
            Length == Text@.len(),
            Index + Pattern@.len() <= Text@.len(),
            0 <= Offset <= Pattern@.len(),
            forall|i: int| 0 <= i < Offset ==> Text@[Index + i] == Pattern@[i],
        decreases Pattern@.len() - Offset,
    {
        if Text[Index + Offset] != Pattern[Offset] {
            proof {
                if Text@.subrange(Index as int, Index + Pattern@.len()) == Pattern@ {
                    assert(Text@.subrange(Index as int, Index + Pattern@.len())[
                        Offset as int
                    ] == Text@[Index + Offset]);
                }
            }
            return false;
        }
        Offset = Offset + 1;
    }
    proof {
        assert(Text@.subrange(Index as int, Index + Pattern@.len()) =~= Pattern@);
    }
    true
}

fn Find_last_exec(Text: &Vec<u8>, Pattern: &Vec<u8>) -> (Result: Option<usize>)
    requires
        Pattern@.len() >= 1,
    ensures
        match Result {
            Some(Index) => Find_last(Text@, Pattern@) == Some(Index as int),
            None => Find_last(Text@, Pattern@) is None,
        },
{
    if Pattern.len() > Text.len() {
        return None;
    }
    let mut Index: usize = Text.len() - Pattern.len();
    loop
        invariant
            Pattern@.len() >= 1,
            Index + Pattern@.len() <= Text@.len(),
            Last_match_from(Text@, Pattern@, Text@.len() - Pattern@.len())
                == Last_match_from(Text@, Pattern@, Index as int),
        decreases Index,
    {
        if Match_at_exec(Text, Pattern, Index) {
            return Some(Index);
        }
        if Index == 0 {
            proof {
                assert(Last_match_from(Text@, Pattern@, 0) == Last_match_from(
                    Text@,
                    Pattern@,
                    -1,
                ));
                assert(Last_match_from(Text@, Pattern@, -1) is None);
            }
            return None;
        }
        Index = Index - 1;
    }
}

/// The display buffer after printing `Text`: the previous terminating
/// null is dropped, the buffer is discarded when the text holds a
/// clear-screen or cursor-home sequence, what follows the governing
/// escape is appended, and the null returns. A cursor-home sequence
/// governs over a clear-screen one wherever it stands.
pub open spec fn Print_update(Buffer: Seq<u8>, Text: Seq<u8>) -> Seq<u8> {
    let Trimmed = if Buffer.len() > 0 {
        Buffer.drop_last()
    } else {
        Buffer
    };
    let Clear = Find_last(Text, Clear_sequence());
    let Home = Find_last(Text, Home_sequence());
    let Start = match Home {
        Some(Index) => Index + 3,
        None => match Clear {
            Some(Index) => Index + 4,
            None => 0,
        },
    };
    let Base = if Clear is Some || Home is Some {
        Seq::<u8>::empty()
    } else {
        Trimmed
    };
    Base + Text.skip(Start) + seq![0u8]
}

/// Whether a byte is line whitespace.
pub open spec fn Is_space(Byte: u8) -> bool {
    Byte == 32 || Byte == 9 || Byte == 10 || Byte == 13
}

/// The first index at or after `Index` that holds a non-space byte.
pub open spec fn First_non_space(Text: Seq<u8>, Index: int) -> int
    decreases Text.len() - Index,
{
    if Index >= Text.len() || Index < 0 {
        Index
    } else if Is_space(Text[Index]) {
        First_non_space(Text, Index + 1)
    } else {
        Index
    }
}

/// One past the last non-space byte strictly below `Index`.
pub open spec fn Last_non_space(Text: Seq<u8>, Index: int) -> int
    decreases Index,
{
    if Index <= 0 {
        0
    } else if Is_space(Text[Index - 1]) {
        Last_non_space(Text, Index - 1)
    } else {
        Index
    }
}

/// `Text` without leading and trailing whitespace.
pub open spec fn Trim(Text: Seq<u8>) -> Seq<u8> {
    let Start = First_non_space(Text, 0);
    let End = Last_non_space(Text, Text.len() as int);
    if Start >= End {
        Seq::<u8>::empty()
    } else {
        Text.subrange(Start, End)
    }
}

fn Trim_exec(Text: &Vec<u8>) -> (Result: Vec<u8>)
    ensures
        Result@ == Trim(Text@),
{
    let mut Start: usize = 0;
    while Start < Text.len() && (Text[Start] == 32 || Text[Start] == 9 || Text[Start] == 10
        || Text[Start] == 13)
        invariant
            0 <= Start <= Text@.len(),
            First_non_space(Text@, 0) == First_non_space(Text@, Start as int),
        decreases Text@.len() - Start,
    {
        Start = Start + 1;
    }
    let mut End: usize = Text.len();
    while End > 0 && (Text[End - 1] == 32 || Text[End - 1] == 9 || Text[End - 1] == 10
        || Text[End - 1] == 13)
        invariant
            0 <= End <= Text@.len(),
            Last_non_space(Text@, Text@.len() as int) == Last_non_space(Text@, End as int),
        decreases End,
    {
        End = End - 1;
    }
    if Start >= End {
        proof {
            assert(First_non_space(Text@, Start as int) >= Start);
            assert(Last_non_space(Text@, End as int) <= End);
        }
        return Vec::new();
    }
    proof {
        assert(First_non_space(Text@, Start as int) == Start);
        assert(Last_non_space(Text@, End as int) == End);
    }
    Copy_range(Text, Start, End)
}

/// The display buffer after printing one validated line: like
/// `Print_update` with only the clear-screen escape honoured, the
/// appended text trimmed, and a newline before the null.
pub open spec fn Print_line_update(Buffer: Seq<u8>, Text: Seq<u8>) -> Seq<u8> {
    let Trimmed = if Buffer.len() > 0 {
        Buffer.drop_last()
    } else {
        Buffer
    };
    let Clear = Find_last(Text, Clear_sequence());
    let Start = match Clear {
        Some(Index) => Index + 4,
        None => 0,
    };
    let Base = if Clear is Some {
        Seq::<u8>::empty()
    } else {
        Trimmed
    };
    Base + Trim(Text.skip(Start)) + seq![10u8, 0u8]
}

/// The terminal's text state. The graphics objects that render the
/// display and collect keystrokes live outside; they hand keys and the
/// input line in, and read the display buffer out.
pub struct Terminal_type {
    Buffer: Vec<u8>,
    Pending: Vec<u8>,
    Validated: bool,
}

impl Terminal_type {
    /// The display buffer.
    pub closed spec fn Display(&self) -> Seq<u8> {
        self.Buffer@
    }

    /// The validated line not yet consumed.
    pub closed spec fn Pending_input(&self) -> Seq<u8> {
        self.Pending@
    }

    /// Whether a validated line waits to be read.
    pub closed spec fn Is_validated(&self) -> bool {
        self.Validated
    }

    pub fn New() -> (Result: Self)
        ensures
            Result.Display() == Seq::<u8>::empty(),
            Result.Pending_input() == Seq::<u8>::empty(),
            !Result.Is_validated(),
    {
        Terminal_type { Buffer: Vec::new(), Pending: Vec::new(), Validated: false }
    }

    /// The display buffer, for whatever renders it.
    pub fn Get_display(&self) -> (Result: &Vec<u8>)
        ensures
            Result@ == self.Display(),
    {
        &self.Buffer
    }

    /// Prints text to the display.
    pub fn Print(&mut self, Text: &Vec<u8>)
        ensures
            final(self).Display() == Print_update(old(self).Display(), Text@),
            final(self).Pending_input() == old(self).Pending_input(),
            final(self).Is_validated() == old(self).Is_validated(),
    {
        let Length = Text.len();
        if self.Buffer.len() > 0 {
            let _ = self.Buffer.pop();
        }
        let mut Clear_pattern: Vec<u8> = Vec::new();
        Clear_pattern.push(27);
        Clear_pattern.push(91);
        Clear_pattern.push(50);
        Clear_pattern.push(74);
        proof {
            assert(Clear_pattern@ =~= Clear_sequence());
        }
        let mut Home_pattern: Vec<u8> = Vec::new();
        Home_pattern.push(27);
        Home_pattern.push(91);
        Home_pattern.push(72);
        proof {
            assert(Home_pattern@ =~= Home_sequence());
        }
        let Clear = Find_last_exec(Text, &Clear_pattern);
        let Home = Find_last_exec(Text, &Home_pattern);
        let Start: usize = match Home {
            Some(Index) => {
                proof {
                    Lemma_last_match_is_match(
                        Text@,
                        Home_sequence(),
                        Text@.len() - Home_sequence().len(),
                    );
                }
                Index + 3
            },
            None => match Clear {
                Some(Index) => {
                    proof {
                        Lemma_last_match_is_match(
                            Text@,
                            Clear_sequence(),
                            Text@.len() - Clear_sequence().len(),
                        );
                    }
                    Index + 4
                },
                None => 0,
            },
        };
        if Clear.is_some() || Home.is_some() {
            self.Buffer.clear();
        }
        let ghost Base = self.Buffer@;
        let mut Index: usize = Start;
        while Index < Text.len()
            invariant
                Start <= Index <= Text@.len(),
                self.Buffer@ == Base + Text@.subrange(Start as int, Index as int),
                self.Pending@ == old(self).Pending@,
                self.Validated == old(self).Validated,
            decreases Text@.len() - Index,
        {
            self.Buffer.push(Text[Index]);
            proof {
                assert(self.Buffer@ =~= Base + Text@.subrange(Start as int, Index + 1));
            }
            Index = Index + 1;
        }
        self.Buffer.push(0);
        proof {
            assert(Base + Text@.subrange(Start as int, Text@.len() as int) + seq![0u8] =~= Base
                + Text@.skip(Start as int) + seq![0u8]);
            assert(self.Buffer@ =~= Base + Text@.skip(Start as int) + seq![0u8]);
        }
    }

    /// Prints one validated line to the display: the line is trimmed and
    /// followed by a newline.
    pub fn Print_line(&mut self, Text: &Vec<u8>)
        ensures
            final(self).Display() == Print_line_update(old(self).Display(), Text@),
            final(self).Pending_input() == old(self).Pending_input(),
            final(self).Is_validated() == old(self).Is_validated(),
    {
        let Length = Text.len();
        if self.Buffer.len() > 0 {
            let _ = self.Buffer.pop();
        }
        let mut Clear_pattern: Vec<u8> = Vec::new();
        Clear_pattern.push(27);
        Clear_pattern.push(91);
        Clear_pattern.push(50);
        Clear_pattern.push(74);
        proof {
            assert(Clear_pattern@ =~= Clear_sequence());
        }
        let Clear = Find_last_exec(Text, &Clear_pattern);
        let Start: usize = match Clear {
            Some(Index) => {
                proof {
                    Lemma_last_match_is_match(
                        Text@,
                        Clear_sequence(),
                        Text@.len() - Clear_sequence().len(),
                    );
                }
                Index + 4
            },
            None => 0,
        };
        if Clear.is_some() {
            self.Buffer.clear();
        }
        let Tail = Copy_range(Text, Start, Text.len());
        proof {
            assert(Tail@ =~= Text@.skip(Start as int));
        }
        let Segment = Trim_exec(&Tail);
        let ghost Base = self.Buffer@;
        let mut Index: usize = 0;
        while Index < Segment.len()
            invariant
                0 <= Index <= Segment@.len(),
                self.Buffer@ == Base + Segment@.subrange(0, Index as int),
                self.Pending@ == old(self).Pending@,
                self.Validated == old(self).Validated,
            decreases Segment@.len() - Index,
        {
            self.Buffer.push(Segment[Index]);
            proof {
                assert(self.Buffer@ =~= Base + Segment@.subrange(0, Index + 1));
            }
            Index = Index + 1;
        }
        self.Buffer.push(10);
        self.Buffer.push(0);
        proof {
            assert(Base + Segment@.subrange(0, Segment@.len() as int) + seq![10u8] + seq![0u8]
                =~= Base + Trim(Text@.skip(Start as int)) + seq![10u8, 0u8]);
            assert(self.Buffer@ =~= Base + Trim(Text@.skip(Start as int)) + seq![10u8, 0u8]);
        }
    }

    /// The terminal's decision on one keystroke: a line feed or carriage
    /// return, when no validated line is pending, commits the input line
    /// to the display and holds it for `Read_input`. Everything else
    /// changes nothing.
    pub fn Handle_key(&mut self, Character: u8, Input: &Vec<u8>) -> (Validated_now: bool)
        ensures
            (old(self).Is_validated() || (Character != 10 && Character != 13)) ==> (*final(self) == *old(self) && !Validated_now),
            (!old(self).Is_validated() && (Character == 10 || Character == 13)) ==> ({
                &&& final(self).Display() == Print_line_update(old(self).Display(), Input@)
                &&& final(self).Pending_input() == Input@
                &&& final(self).Is_validated()
                &&& Validated_now
            }),
    {
        if self.Validated {
            return false;
        }
        if Character != 10 && Character != 13 {
            return false;
        }
        self.Print_line(Input);
        self.Pending = Copy_bytes(Input);
        self.Validated = true;
        true
    }

    /// Hands the validated line to the caller, if one waits: it is
    /// appended to the accumulator, the pending line empties, and the
    /// count of appended bytes returns.
    pub fn Read_input(&mut self, Output: &mut Vec<u8>) -> (Count: usize)
        ensures
            !old(self).Is_validated() ==> (*final(self) == *old(self) && final(Output)@ == old(Output)@ && Count == 0),
            old(self).Is_validated() ==> ({
                &&& final(Output)@ == old(Output)@ + old(self).Pending_input()
                &&& Count == old(self).Pending_input().len()
                &&& final(self).Pending_input() == Seq::<u8>::empty()
                &&& !final(self).Is_validated()
                &&& final(self).Display() == old(self).Display()
            }),
    {
        if !self.Validated {
            return 0;
        }
        let Count = self.Pending.len();
        let mut Index: usize = 0;
        while Index < self.Pending.len()
            invariant
                0 <= Index <= self.Pending@.len(),
                self.Pending@ == old(self).Pending@,
                self.Buffer@ == old(self).Buffer@,
                self.Validated == old(self).Validated,
                Output@ == old(Output)@ + self.Pending@.subrange(0, Index as int),
            decreases self.Pending@.len() - Index,
        {
            let Byte = self.Pending[Index];
            Output.push(Byte);
            proof {
                assert(Output@ =~= old(Output)@ + self.Pending@.subrange(0, Index + 1));
            }
            Index = Index + 1;
        }
        proof {
            assert(old(Output)@ + self.Pending@.subrange(0, self.Pending@.len() as int) =~= old(Output)@ + self.Pending@);
        }
        self.Pending = Vec::new();
        self.Validated = false;
        Count
    }
}

} // verus!

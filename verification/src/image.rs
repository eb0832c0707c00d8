//! The on-device image format of the block-structured backend.
//!
//! An image is a magic number, an entry count, and for each entry a
//! length-prefixed name and length-prefixed data, all lengths 32-bit
//! little-endian. Decoding tolerates trailing bytes, so an image occupies
//! a prefix of the device. Encoding and decoding are proved inverse.

use vstd::prelude::*;
use vstd::arithmetic::div_mod::lemma_fundamental_div_mod;

verus! {

/// One directory entry, as contracts speak of it: a name and its data.
#[verifier::ext_equal]
pub struct Entry_view {
    pub Name: Seq<u8>,
    pub Data: Seq<u8>,
}

/// One directory entry of the mounted engine.
pub struct File_entry_type {
    pub Name: Vec<u8>,
    pub Data: Vec<u8>,
}

impl File_entry_type {
    pub open spec fn View(&self) -> Entry_view {
        Entry_view { Name: self.Name@, Data: self.Data@ }
    }
}

/// The directory a run of entries describes.
pub open spec fn Entries_view(Files: Seq<File_entry_type>) -> Seq<Entry_view> {
    Files.map_values(|Entry: File_entry_type| Entry.View())
}

/// The largest length a 32-bit field represents, plus one.
pub const Length_limit: u64 = 4294967296;

/// The four bytes every image starts with.
pub open spec fn Magic() -> Seq<u8> {
    seq![88u8, 70u8, 83u8, 49u8]
}

/// A 32-bit length, little-endian.
pub open spec fn Encode_u32(Value: nat) -> Seq<u8> {
    seq![
        (Value % 256) as u8,
        ((Value / 256) % 256) as u8,
        ((Value / 65536) % 256) as u8,
        ((Value / 16777216) % 256) as u8,
    ]
}

/// The value four little-endian bytes carry.
pub open spec fn Decode_u32(Bytes: Seq<u8>) -> nat
    recommends
        Bytes.len() == 4,
{
    (Bytes[0] + 256 * Bytes[1] + 65536 * Bytes[2] + 16777216 * Bytes[3]) as nat
}

pub proof fn Lemma_u32_round_trip(Value: nat)
    requires
        Value < Length_limit,
    ensures
        Decode_u32(Encode_u32(Value)) == Value,
{
    lemma_fundamental_div_mod(Value as int, 256);
    lemma_fundamental_div_mod(Value as int / 256, 256);
    lemma_fundamental_div_mod(Value as int / 256 / 256, 256);
    assert(Value as int / 256 / 65536 == Value as int / 256 / 256 / 256) by {
        vstd::arithmetic::div_mod::lemma_div_denominator(Value as int / 256, 256, 256);
    }
    assert(Value as int / 65536 == Value as int / 256 / 256) by {
        vstd::arithmetic::div_mod::lemma_div_denominator(Value as int, 256, 256);
    }
    assert(Value as int / 16777216 == Value as int / 65536 / 256) by {
        vstd::arithmetic::div_mod::lemma_div_denominator(Value as int, 65536, 256);
    }
    assert(Value as int / 16777216 < 256) by {
        vstd::arithmetic::div_mod::lemma_div_is_ordered(Value as int, 4294967295, 16777216);
        assert(4294967295int / 16777216 == 255) by (nonlinear_arith);
    }
}

/// The bytes one entry occupies in an image.
pub open spec fn Encode_entry(Entry: Entry_view) -> Seq<u8> {
    Encode_u32(Entry.Name.len()) + Entry.Name + Encode_u32(Entry.Data.len()) + Entry.Data
}

/// The bytes a run of entries occupies, in order.
pub open spec fn Encode_entries(Entries: Seq<Entry_view>) -> Seq<u8>
    decreases Entries.len(),
{
    if Entries.len() == 0 {
        Seq::empty()
    } else {
        Encode_entry(Entries[0]) + Encode_entries(Entries.skip(1))
    }
}

/// The whole image a directory serializes to.
pub open spec fn Encode_image(Entries: Seq<Entry_view>) -> Seq<u8> {
    Magic() + Encode_u32(Entries.len()) + Encode_entries(Entries)
}

/// Reads one entry off the front of `Bytes`; yields the entry and how
/// many bytes it occupied.
pub open spec fn Decode_entry(Bytes: Seq<u8>) -> Option<(Entry_view, nat)> {
    if Bytes.len() < 4 {
        None
    } else {
        let Name_length = Decode_u32(Bytes.subrange(0, 4));
        if Bytes.len() < 4 + Name_length {
            None
        } else {
            let Name = Bytes.subrange(4, 4 + Name_length as int);
            let Rest = Bytes.skip(4 + Name_length as int);
            if Rest.len() < 4 {
                None
            } else {
                let Data_length = Decode_u32(Rest.subrange(0, 4));
                if Rest.len() < 4 + Data_length {
                    None
                } else {
                    Some(
                        (
                            Entry_view { Name, Data: Rest.subrange(4, 4 + Data_length as int) },
                            (4 + Name_length + 4 + Data_length) as nat,
                        ),
                    )
                }
            }
        }
    }
}

/// Reads `Count` entries off the front of `Bytes`.
pub open spec fn Decode_entries(Bytes: Seq<u8>, Count: nat) -> Option<Seq<Entry_view>>
    decreases Count,
{
    if Count == 0 {
        Some(Seq::empty())
    } else {
        match Decode_entry(Bytes) {
            None => None,
            Some(Head) => match Decode_entries(Bytes.skip(Head.1 as int), (Count - 1) as nat) {
                None => None,
                Some(Rest) => Some(seq![Head.0] + Rest),
            },
        }
    }
}

/// The directory an image holds, if the bytes form one. Bytes past the
/// last entry are ignored.
pub open spec fn Decode_image(Bytes: Seq<u8>) -> Option<Seq<Entry_view>> {
    if Bytes.len() < 8 {
        None
    } else if Bytes.subrange(0, 4) != Magic() {
        None
    } else {
        Decode_entries(Bytes.skip(8), Decode_u32(Bytes.subrange(4, 8)))
    }
}

pub proof fn Lemma_entry_round_trip(Entry: Entry_view, Rest: Seq<u8>)
    requires
        Entry.Name.len() < Length_limit,
        Entry.Data.len() < Length_limit,
    ensures
        Decode_entry(Encode_entry(Entry) + Rest) == Some(
            (Entry, Encode_entry(Entry).len() as nat),
        ),
{
    let Bytes = Encode_entry(Entry) + Rest;
    Lemma_u32_round_trip(Entry.Name.len());
    Lemma_u32_round_trip(Entry.Data.len());
    assert(Bytes.subrange(0, 4) =~= Encode_u32(Entry.Name.len()));
    let Name_length = Entry.Name.len() as int;
    assert(Bytes.subrange(4, 4 + Name_length) =~= Entry.Name);
    let Tail = Bytes.skip(4 + Name_length);
    assert(Tail =~= Encode_u32(Entry.Data.len()) + Entry.Data + Rest);
    assert(Tail.subrange(0, 4) =~= Encode_u32(Entry.Data.len()));
    let Data_length = Entry.Data.len() as int;
    assert(Tail.subrange(4, 4 + Data_length) =~= Entry.Data);
    let Decoded = Decode_entry(Bytes).unwrap();
    assert(Decoded.0 =~= Entry);
}

pub proof fn Lemma_entries_round_trip(Entries: Seq<Entry_view>, Rest: Seq<u8>)
    requires
        forall|i: int|
            0 <= i < Entries.len() ==> (#[trigger] Entries[i]).Name.len() < Length_limit
                && Entries[i].Data.len() < Length_limit,
    ensures
        Decode_entries(Encode_entries(Entries) + Rest, Entries.len()) == Some(Entries),
    decreases Entries.len(),
{
    if Entries.len() == 0 {
        assert(Decode_entries(Encode_entries(Entries) + Rest, 0) == Some(Seq::<
            Entry_view,
        >::empty()));
        assert(Entries =~= Seq::<Entry_view>::empty());
    } else {
        let Head = Entries[0];
        let Tail = Entries.skip(1);
        let Bytes = Encode_entries(Entries) + Rest;
        assert(Bytes =~= Encode_entry(Head) + (Encode_entries(Tail) + Rest));
        Lemma_entry_round_trip(Head, Encode_entries(Tail) + Rest);
        assert(Bytes.skip(Encode_entry(Head).len() as int) =~= Encode_entries(Tail) + Rest);
        Lemma_entries_round_trip(Tail, Rest);
        assert(seq![Head] + Tail =~= Entries);
    }
}

/// The image round trip: decoding what a directory encodes, with any
/// trailing bytes after it, yields that directory again.
pub proof fn Lemma_image_round_trip(Entries: Seq<Entry_view>, Rest: Seq<u8>)
    requires
        Entries.len() < Length_limit,
        forall|i: int|
            0 <= i < Entries.len() ==> (#[trigger] Entries[i]).Name.len() < Length_limit
                && Entries[i].Data.len() < Length_limit,
    ensures
        Decode_image(Encode_image(Entries) + Rest) == Some(Entries),
{
    let Bytes = Encode_image(Entries) + Rest;
    assert(Bytes.subrange(0, 4) =~= Magic());
    assert(Bytes.subrange(4, 8) =~= Encode_u32(Entries.len()));
    Lemma_u32_round_trip(Entries.len());
    assert(Bytes.skip(8) =~= Encode_entries(Entries) + Rest);
    Lemma_entries_round_trip(Entries, Rest);
}

/// Appending one entry extends the encoding by that entry's bytes.
pub proof fn Lemma_encode_entries_snoc(Entries: Seq<Entry_view>, Entry: Entry_view)
    ensures
        Encode_entries(Entries + seq![Entry]) == Encode_entries(Entries) + Encode_entry(Entry),
    decreases Entries.len(),
{
    let Extended = Entries + seq![Entry];
    assert(Extended.len() == Entries.len() + 1);
    if Entries.len() == 0 {
        assert(Extended.skip(1) =~= Seq::<Entry_view>::empty());
        assert(Extended[0] == Entry);
        assert(Encode_entries(Extended) == Encode_entry(Entry) + Encode_entries(
            Seq::<Entry_view>::empty(),
        ));
        assert(Encode_entries(Seq::<Entry_view>::empty()) == Seq::<u8>::empty());
        assert(Encode_entries(Entries) == Seq::<u8>::empty());
        assert(Encode_entry(Entry) + Seq::<u8>::empty() =~= Encode_entry(Entry));
        assert(Seq::<u8>::empty() + Encode_entry(Entry) =~= Encode_entry(Entry));
    } else {
        assert(Extended.skip(1) =~= Entries.skip(1) + seq![Entry]);
        assert(Extended[0] == Entries[0]);
        assert(Encode_entries(Extended) == Encode_entry(Entries[0]) + Encode_entries(
            Entries.skip(1) + seq![Entry],
        ));
        Lemma_encode_entries_snoc(Entries.skip(1), Entry);
        assert(Encode_entries(Extended) == Encode_entry(Entries[0]) + (Encode_entries(
            Entries.skip(1),
        ) + Encode_entry(Entry)));
        vstd::seq_lib::lemma_concat_associative(
            Encode_entry(Entries[0]),
            Encode_entries(Entries.skip(1)),
            Encode_entry(Entry),
        );
        assert(Encode_entries(Entries) == Encode_entry(Entries[0]) + Encode_entries(
            Entries.skip(1),
        ));
    }
}

/// Appends `Bytes` to `Output`.
pub(crate) fn Append_bytes(Output: &mut Vec<u8>, Bytes: &Vec<u8>)
    ensures
        final(Output)@ == old(Output)@ + Bytes@,
{
    let mut Index: usize = 0;
    while Index < Bytes.len()
        invariant
            0 <= Index <= Bytes.len(),
            Output@ == old(Output)@ + Bytes@.subrange(0, Index as int),
        decreases Bytes.len() - Index,
    {
        Output.push(Bytes[Index]);
        proof {
            assert(Output@ =~= old(Output)@ + Bytes@.subrange(0, Index + 1));
        }
        Index = Index + 1;
    }
    proof {
        assert(old(Output)@ + Bytes@.subrange(0, Bytes@.len() as int) =~= old(Output)@ + Bytes@);
    }
}

/// Copies `Bytes[Start..End]` into a fresh buffer.
pub(crate) fn Copy_range(Bytes: &Vec<u8>, Start: usize, End: usize) -> (Result: Vec<u8>)
    requires
        Start <= End <= Bytes@.len(),
    ensures
        Result@ == Bytes@.subrange(Start as int, End as int),
{
    let mut Output: Vec<u8> = Vec::new();
    let mut Index: usize = Start;
    while Index < End
        invariant
            Start <= Index <= End <= Bytes@.len(),
            Output@ == Bytes@.subrange(Start as int, Index as int),
        decreases End - Index,
    {
        Output.push(Bytes[Index]);
        proof {
            assert(Output@ =~= Bytes@.subrange(Start as int, Index + 1));
        }
        Index = Index + 1;
    }
    Output
}

/// A fresh buffer holding the same bytes.
pub(crate) fn Copy_bytes(Bytes: &Vec<u8>) -> (Result: Vec<u8>)
    ensures
        Result@ == Bytes@,
{
    let Result = Copy_range(Bytes, 0, Bytes.len());
    proof {
        assert(Bytes@.subrange(0, Bytes@.len() as int) =~= Bytes@);
    }
    Result
}

/// Whether two byte runs hold the same bytes.
pub(crate) fn Equal_bytes(Left: &Vec<u8>, Right: &Vec<u8>) -> (Result: bool)
    ensures
        Result == (Left@ == Right@),
{
    if Left.len() != Right.len() {
        return false;
    }
    let mut Index: usize = 0;
    while Index < Left.len()
        invariant
            Left@.len() == Right@.len(),
            0 <= Index <= Left@.len(),
            forall|i: int| 0 <= i < Index ==> Left@[i] == Right@[i],
        decreases Left.len() - Index,
    {
        if Left[Index] != Right[Index] {
            return false;
        }
        Index = Index + 1;
    }
    proof {
        assert(Left@ =~= Right@);
    }
    true
}

/// Writes `Value` to the end of `Output`, little-endian.
fn Encode_u32_exec(Value: u32, Output: &mut Vec<u8>)
    ensures
        final(Output)@ == old(Output)@ + Encode_u32(Value as nat),
{
    Output.push((Value % 256) as u8);
    Output.push(((Value / 256) % 256) as u8);
    Output.push(((Value / 65536) % 256) as u8);
    Output.push(((Value / 16777216) % 256) as u8);
    proof {
        assert(Output@ =~= old(Output)@ + Encode_u32(Value as nat));
    }
}

/// Reads the 32-bit length at `Offset`.
fn Decode_u32_exec(Bytes: &Vec<u8>, Offset: usize) -> (Result: u32)
    requires
        Offset + 4 <= Bytes@.len(),
    ensures
        Result as nat == Decode_u32(Bytes@.subrange(Offset as int, Offset + 4)),
{
    let Length = Bytes.len();
    let Byte_0 = Bytes[Offset] as u32;
    let Byte_1 = Bytes[Offset + 1] as u32;
    let Byte_2 = Bytes[Offset + 2] as u32;
    let Byte_3 = Bytes[Offset + 3] as u32;
    Byte_0 + 256 * Byte_1 + 65536 * Byte_2 + 16777216 * Byte_3
}

/// How long the image of `Files` is, or `None` past `usize::MAX`.
pub(crate) fn Encoded_size(Files: &Vec<File_entry_type>) -> (Result: Option<usize>)
    requires
        Files@.len() < Length_limit,
        forall|i: int|
            0 <= i < Files@.len() ==> (#[trigger] Files@[i]).Name@.len() < Length_limit
                && Files@[i].Data@.len() < Length_limit,
    ensures
        match Result {
            Some(Size) => Size == Encode_image(Entries_view(Files@)).len(),
            None => Encode_image(Entries_view(Files@)).len() > usize::MAX,
        },
{
    let mut Total: usize = 8;
    let mut Index: usize = 0;
    proof {
        assert(Entries_view(Files@).subrange(0, 0) =~= Seq::<Entry_view>::empty());
    }
    while Index < Files.len()
        invariant
            Files@.len() < Length_limit,
            forall|i: int|
                0 <= i < Files@.len() ==> (#[trigger] Files@[i]).Name@.len() < Length_limit
                    && Files@[i].Data@.len() < Length_limit,
            0 <= Index <= Files@.len(),
            Total == 8 + Encode_entries(Entries_view(Files@).subrange(0, Index as int)).len(),
        decreases Files@.len() - Index,
    {
        let Entry = &Files[Index];
        let With_header = Total.checked_add(8);
        let With_name = match With_header {
            Some(Sum) => Sum.checked_add(Entry.Name.len()),
            None => None,
        };
        let With_data = match With_name {
            Some(Sum) => Sum.checked_add(Entry.Data.len()),
            None => None,
        };
        let New_total = match With_data {
            Some(Sum) => Sum,
            None => {
                proof {
                    Lemma_encode_prefix_monotonic(Entries_view(Files@), Index as int);
                }
                return None;
            },
        };
        let ghost Previous = Entries_view(Files@).subrange(0, Index as int);
        Total = New_total;
        proof {
            assert(Entries_view(Files@).subrange(0, Index + 1) =~= Previous + seq![
                Files@[Index as int].View(),
            ]);
            Lemma_encode_entries_snoc(Previous, Files@[Index as int].View());
        }
        Index = Index + 1;
    }
    proof {
        assert(Entries_view(Files@).subrange(0, Files@.len() as int) =~= Entries_view(Files@));
    }
    Some(Total)
}

/// A longer prefix never encodes to fewer bytes.
proof fn Lemma_encode_prefix_monotonic(Entries: Seq<Entry_view>, Index: int)
    requires
        0 <= Index < Entries.len(),
    ensures
        Encode_entries(Entries).len() >= Encode_entries(Entries.subrange(0, Index)).len() + 8
            + Entries[Index].Name.len() + Entries[Index].Data.len(),
    decreases Entries.len(),
{
    if Index == 0 {
        Lemma_encode_length_nonnegative(Entries.skip(1));
        assert(Entries.subrange(0, 0) =~= Seq::<Entry_view>::empty());
    } else {
        Lemma_encode_prefix_monotonic(Entries.skip(1), Index - 1);
        assert(Entries.skip(1).subrange(0, Index - 1) =~= Entries.subrange(0, Index).skip(1));
    }
}

proof fn Lemma_encode_length_nonnegative(Entries: Seq<Entry_view>)
    ensures
        Encode_entries(Entries).len() >= 0,
{
}

/// Serializes the directory. The caller has already sized the result.
pub(crate) fn Encode_image_exec(Files: &Vec<File_entry_type>) -> (Result: Vec<u8>)
    requires
        Files@.len() < Length_limit,
        forall|i: int|
            0 <= i < Files@.len() ==> (#[trigger] Files@[i]).Name@.len() < Length_limit
                && Files@[i].Data@.len() < Length_limit,
    ensures
        Result@ == Encode_image(Entries_view(Files@)),
{
    let mut Output: Vec<u8> = Vec::new();
    Output.push(88);
    Output.push(70);
    Output.push(83);
    Output.push(49);
    proof {
        assert(Output@ =~= Magic());
    }
    Encode_u32_exec(Files.len() as u32, &mut Output);
    let mut Index: usize = 0;
    proof {
        assert(Entries_view(Files@).subrange(0, 0) =~= Seq::<Entry_view>::empty());
        assert(Output@ =~= Magic() + Encode_u32(Files@.len()) + Encode_entries(
            Entries_view(Files@).subrange(0, 0),
        ));
    }
    while Index < Files.len()
        invariant
            Files@.len() < Length_limit,
            forall|i: int|
                0 <= i < Files@.len() ==> (#[trigger] Files@[i]).Name@.len() < Length_limit
                    && Files@[i].Data@.len() < Length_limit,
            0 <= Index <= Files@.len(),
            Output@ == Magic() + Encode_u32(Files@.len()) + Encode_entries(
                Entries_view(Files@).subrange(0, Index as int),
            ),
        decreases Files@.len() - Index,
    {
        let ghost Previous = Entries_view(Files@).subrange(0, Index as int);
        Encode_u32_exec(Files[Index].Name.len() as u32, &mut Output);
        Append_bytes(&mut Output, &Files[Index].Name);
        Encode_u32_exec(Files[Index].Data.len() as u32, &mut Output);
        Append_bytes(&mut Output, &Files[Index].Data);
        proof {
            assert(Entries_view(Files@).subrange(0, Index + 1) =~= Previous + seq![
                Files@[Index as int].View(),
            ]);
            Lemma_encode_entries_snoc(Previous, Files@[Index as int].View());
            assert(Output@ =~= Magic() + Encode_u32(Files@.len()) + Encode_entries(
                Entries_view(Files@).subrange(0, Index + 1),
            ));
        }
        Index = Index + 1;
    }
    proof {
        assert(Entries_view(Files@).subrange(0, Files@.len() as int) =~= Entries_view(Files@));
    }
    Output
}

/// What remains to compose after a parsed prefix.
pub open spec fn Compose_decoded(
    Prefix: Seq<Entry_view>,
    Rest: Option<Seq<Entry_view>>,
) -> Option<Seq<Entry_view>> {
    match Rest {
        None => None,
        Some(Entries) => Some(Prefix + Entries),
    }
}

/// Parses an image. `Some` and `None` both mirror the specification.
pub(crate) fn Decode_image_exec(Bytes: &Vec<u8>) -> (Result: Option<Vec<File_entry_type>>)
    ensures
        match Result {
            Some(Files) => {
                &&& Decode_image(Bytes@) == Some(Entries_view(Files@))
                &&& Files@.len() < Length_limit
                &&& forall|i: int|
                    0 <= i < Files@.len() ==> (#[trigger] Files@[i]).Name@.len() < Length_limit
                        && Files@[i].Data@.len() < Length_limit
            },
            None => Decode_image(Bytes@) is None,
        },
{
    if Bytes.len() < 8 {
        return None;
    }
    if Bytes[0] != 88 || Bytes[1] != 70 || Bytes[2] != 83 || Bytes[3] != 49 {
        proof {
            if Bytes@.subrange(0, 4) == Magic() {
                assert(Bytes@[0] == 88 && Bytes@[1] == 70 && Bytes@[2] == 83 && Bytes@[3] == 49)
                    by {
                    assert(Bytes@.subrange(0, 4)[0] == Bytes@[0]);
                    assert(Bytes@.subrange(0, 4)[1] == Bytes@[1]);
                    assert(Bytes@.subrange(0, 4)[2] == Bytes@[2]);
                    assert(Bytes@.subrange(0, 4)[3] == Bytes@[3]);
                }
            }
        }
        return None;
    }
    proof {
        assert(Bytes@.subrange(0, 4) =~= Magic());
    }
    let Count = Decode_u32_exec(Bytes, 4);
    let ghost Full_count = Decode_u32(Bytes@.subrange(4, 8)) as nat;
    let mut Files: Vec<File_entry_type> = Vec::new();
    let mut Offset: usize = 8;
    let mut Index: u32 = 0;
    proof {
        assert(Entries_view(Files@) =~= Seq::<Entry_view>::empty());
    }
    while Index < Count
        invariant
            Bytes@.len() <= usize::MAX,
            Bytes@.len() >= 8,
            Bytes@.subrange(0, 4) == Magic(),
            Full_count == Decode_u32(Bytes@.subrange(4, 8)),
            Count as nat == Full_count,
            8 <= Offset <= Bytes@.len(),
            0 <= Index <= Count,
            Files@.len() == Index,
            forall|i: int|
                0 <= i < Files@.len() ==> (#[trigger] Files@[i]).Name@.len() < Length_limit
                    && Files@[i].Data@.len() < Length_limit,
            Decode_entries(Bytes@.skip(8), Full_count) == Compose_decoded(
                Entries_view(Files@),
                Decode_entries(Bytes@.skip(Offset as int), (Full_count - Index) as nat),
            ),
        decreases Count - Index,
    {
        let ghost Remaining = Bytes@.skip(Offset as int);
        let ghost Count_left = (Full_count - Index) as nat;
        if Bytes.len() - Offset < 4 {
            proof {
                assert(Remaining.len() < 4);
                assert(Decode_entry(Remaining) is None);
                assert(Decode_entries(Remaining, Count_left) is None);
            }
            return None;
        }
        let Name_length_32 = Decode_u32_exec(Bytes, Offset);
        let Name_length = Name_length_32 as usize;
        proof {
            assert(Remaining.subrange(0, 4) =~= Bytes@.subrange(Offset as int, Offset + 4));
        }
        if Name_length > Bytes.len() - Offset - 4 {
            proof {
                assert(Remaining.len() < 4 + Name_length);
                assert(Decode_entry(Remaining) is None);
                assert(Decode_entries(Remaining, Count_left) is None);
            }
            return None;
        }
        let Name = Copy_range(Bytes, Offset + 4, Offset + 4 + Name_length);
        let Offset_2 = Offset + 4 + Name_length;
        let ghost Tail = Remaining.skip(4 + Name_length as int);
        proof {
            assert(Tail =~= Bytes@.skip(Offset_2 as int));
            assert(Name@ =~= Remaining.subrange(4, 4 + Name_length as int));
        }
        if Bytes.len() - Offset_2 < 4 {
            proof {
                assert(Tail.len() < 4);
                assert(Decode_entry(Remaining) is None);
                assert(Decode_entries(Remaining, Count_left) is None);
            }
            return None;
        }
        let Data_length_32 = Decode_u32_exec(Bytes, Offset_2);
        let Data_length = Data_length_32 as usize;
        proof {
            assert(Tail.subrange(0, 4) =~= Bytes@.subrange(Offset_2 as int, Offset_2 + 4));
        }
        if Data_length > Bytes.len() - Offset_2 - 4 {
            proof {
                assert(Tail.len() < 4 + Data_length);
                assert(Decode_entry(Remaining) is None);
                assert(Decode_entries(Remaining, Count_left) is None);
            }
            return None;
        }
        let Data = Copy_range(Bytes, Offset_2 + 4, Offset_2 + 4 + Data_length);
        proof {
            assert(Data@ =~= Tail.subrange(4, 4 + Data_length as int));
        }
        let ghost Previous_entries = Entries_view(Files@);
        let Entry = File_entry_type { Name, Data };
        let ghost Consumed = (4 + Name_length + 4 + Data_length) as nat;
        proof {
            assert(Decode_entry(Remaining) == Some((Entry.View(), Consumed)));
        }
        Files.push(Entry);
        Offset = Offset_2 + 4 + Data_length;
        Index = Index + 1;
        proof {
            assert(Bytes@.skip(Offset as int) =~= Remaining.skip(Consumed as int));
            assert(Entries_view(Files@) =~= Previous_entries + seq![Files@.last().View()]);
            assert(Decode_entries(Remaining, Count_left) == Compose_decoded(
                seq![Files@.last().View()],
                Decode_entries(Bytes@.skip(Offset as int), (Full_count - Index) as nat),
            ));
            if Decode_entries(Bytes@.skip(Offset as int), (Full_count - Index) as nat) is Some {
                let Rest = Decode_entries(
                    Bytes@.skip(Offset as int),
                    (Full_count - Index) as nat,
                ).unwrap();
                assert(Previous_entries + (seq![Files@.last().View()] + Rest) =~= Entries_view(
                    Files@,
                ) + Rest);
            }
        }
    }
    proof {
        assert(Decode_entries(Bytes@.skip(Offset as int), 0) == Some(Seq::<Entry_view>::empty()));
        assert(Entries_view(Files@) + Seq::<Entry_view>::empty() =~= Entries_view(Files@));
    }
    Some(Files)
}

} // verus!

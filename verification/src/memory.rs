//! Segmented word memory: an instruction range and a data range, each backed
//! by storage that grows one block at a time and counts its writes.

use vstd::prelude::*;
use vstd::arithmetic::div_mod::{
    lemma_fundamental_div_mod, lemma_mod_adds, lemma_mod_multiples_basic, lemma_mod_self_0,
};
use crate::errors::SuperMipsError;

verus! {

/// First word address of the instruction range.
pub const TEXT_START: u32 = 0x0010_0000;

/// Last word address of the instruction range.
pub const TEXT_END: u32 = 0x0400_3FFF;

/// First word address of the data range.
pub const DATA_START: u32 = 0x0400_4000;

/// Last word address of the data range.
pub const DATA_END: u32 = 0x1FFF_FFFF;

/// The two address ranges of the machine.
#[derive(Debug, Clone, Copy, PartialEq, Eq, Structural)]
pub enum Segment {
    Text,
    Data,
}

/// The range that holds `address`, if any.
pub open spec fn segment_of(address: u32) -> Option<Segment> {
    if TEXT_START <= address <= TEXT_END {
        Some(Segment::Text)
    } else if DATA_START <= address <= DATA_END {
        Some(Segment::Data)
    } else {
        None
    }
}

/// First word address of a range.
pub open spec fn base_of(segment: Segment) -> u32 {
    match segment {
        Segment::Text => TEXT_START,
        Segment::Data => DATA_START,
    }
}

/// Last word address of a range.
pub open spec fn end_of(segment: Segment) -> u32 {
    match segment {
        Segment::Text => TEXT_END,
        Segment::Data => DATA_END,
    }
}

/// How many of the `count` consecutive addresses from `base` on lie in
/// `segment`.
pub open spec fn stores_in(segment: Segment, base: u32, count: nat) -> nat {
    let first = if base >= base_of(segment) {
        base as int
    } else {
        base_of(segment) as int
    };
    let last = if base + count - 1 <= end_of(segment) {
        base + count - 1
    } else {
        end_of(segment) as int
    };
    if first <= last {
        (last - first + 1) as nat
    } else {
        0
    }
}

/// What a load of `count` words at `base` reports: it is refused as soon as
/// one of the addresses lies past the data range.
pub open spec fn load_result(base: u32, count: nat) -> Result<(), SuperMipsError> {
    if base + count <= DATA_END + 1 {
        Ok(())
    } else {
        Err(SuperMipsError::AddressError((DATA_END + 1) as u32))
    }
}

/// The word at `index`, where everything past the stored words reads as zero.
pub open spec fn word_or_zero(words: Seq<u32>, index: int) -> u32 {
    if 0 <= index < words.len() {
        words[index]
    } else {
        0
    }
}

/// Number of words a segment holds once `index` has been made addressable:
/// unchanged if it already is, else the least multiple of `blocksize` above
/// `index`.
pub open spec fn grown_len(len: nat, blocksize: nat, index: nat) -> nat {
    if index < len {
        len
    } else {
        (index / blocksize + 1) * blocksize
    }
}

/// `words`, extended by zeros up to `grown_len`.
pub open spec fn grown(words: Seq<u32>, blocksize: nat, index: nat) -> Seq<u32> {
    Seq::new(
        grown_len(words.len(), blocksize, index),
        |i: int| word_or_zero(words, i),
    )
}

/// `len` zero words.
pub open spec fn zeros(len: nat) -> Seq<u32> {
    Seq::new(len, |i: int| 0u32)
}

/// State of one segment: its stored words and the number of writes so far.
pub struct SegmentView {
    pub words: Seq<u32>,
    pub generation: u32,
}

/// Mathematical model of a `Memory`.
pub struct MemoryView {
    pub text: SegmentView,
    pub data: SegmentView,
    pub blocksize: nat,
}

impl MemoryView {
    /// Storage is allocated in whole blocks.
    pub open spec fn wf(self) -> bool {
        &&& self.blocksize > 0
        &&& self.text.words.len() % self.blocksize == 0
        &&& self.data.words.len() % self.blocksize == 0
    }

    /// The state of one of the two segments.
    pub open spec fn segment(self, segment: Segment) -> SegmentView {
        match segment {
            Segment::Text => self.text,
            Segment::Data => self.data,
        }
    }

    /// What a load from `address` yields.
    pub open spec fn read(self, address: u32) -> Result<u32, SuperMipsError> {
        match segment_of(address) {
            Some(s) => Ok(word_or_zero(self.segment(s).words, address - base_of(s))),
            None => Err(SuperMipsError::AddressError(address)),
        }
    }

    /// Whether a store to `address` can be counted: the generation counter
    /// of the segment that holds the address, if one does, has room for one
    /// more write.
    pub open spec fn can_write(self, address: u32) -> bool {
        match segment_of(address) {
            Some(s) => self.segment(s).generation < u32::MAX,
            None => true,
        }
    }

    /// What a store to `address` reports.
    pub open spec fn write_result(self, address: u32) -> Result<(), SuperMipsError> {
        match segment_of(address) {
            Some(_) => Ok(()),
            None => Err(SuperMipsError::AddressError(address)),
        }
    }

    /// The memory after stores of `words[0]`, `words[1]`, ... to `base`,
    /// `base + 1`, ..., one after the other.
    pub open spec fn write_all(self, base: u32, words: Seq<u32>) -> MemoryView
        decreases words.len(),
    {
        if words.len() == 0 {
            self
        } else {
            self.write_all(base, words.drop_last()).write(
                (base + words.len() - 1) as u32,
                words.last(),
            )
        }
    }

    /// Whether the generation counters have room for a load of `count` words
    /// at `base`.
    pub open spec fn can_load(self, base: u32, count: nat) -> bool {
        load_result(base, count) is Ok ==> {
            &&& self.text.generation + stores_in(Segment::Text, base, count) <= u32::MAX
            &&& self.data.generation + stores_in(Segment::Data, base, count) <= u32::MAX
        }
    }

    /// What a consumer that last saw generation `last_seen` of `segment` is
    /// handed: nothing if the segment has that generation still, else its
    /// words and its generation.
    pub open spec fn snapshot(self, segment: Segment, last_seen: u32) -> Option<(Seq<u32>, u32)> {
        let s = self.segment(segment);
        if s.generation == last_seen {
            None
        } else {
            Some((s.words, s.generation))
        }
    }

    /// The memory after a store of `value` to `address`. A store to an
    /// unmapped address changes nothing.
    pub open spec fn write(self, address: u32, value: u32) -> MemoryView {
        match segment_of(address) {
            Some(Segment::Text) => MemoryView {
                text: stored(self.text, self.blocksize, (address - TEXT_START) as nat, value),
                ..self
            },
            Some(Segment::Data) => MemoryView {
                data: stored(self.data, self.blocksize, (address - DATA_START) as nat, value),
                ..self
            },
            None => self,
        }
    }
}

/// Whether the generations of `after` are those of `before` advanced by a
/// load of `count` words at `base`: each by the number of words that
/// landed in its segment.
pub open spec fn counted(before: MemoryView, after: MemoryView, base: u32, count: nat) -> bool {
    &&& after.text.generation == before.text.generation + stores_in(Segment::Text, base, count)
    &&& after.data.generation == before.data.generation + stores_in(Segment::Data, base, count)
}

/// A segment after a store at `index`: grown as far as needed, the word
/// replaced, the generation advanced by one.
pub open spec fn stored(segment: SegmentView, blocksize: nat, index: nat, value: u32) -> SegmentView {
    SegmentView {
        words: grown(segment.words, blocksize, index).update(index as int, value),
        generation: (segment.generation + 1) as u32,
    }
}

/// Block arithmetic behind `grown_len`: growth adds at least one block, ends
/// on a block boundary, and stops at the first boundary above `index`.
pub proof fn lemma_grown_len(len: nat, blocksize: nat, index: nat)
    requires
        blocksize > 0,
        len % blocksize == 0,
    ensures
        grown_len(len, blocksize, index) % blocksize == 0,
        index < grown_len(len, blocksize, index),
        len <= grown_len(len, blocksize, index),
        index >= len ==> len + blocksize <= grown_len(len, blocksize, index) <= index + blocksize,
        index < len ==> (index / blocksize + 1) * blocksize <= len,
{
    let q = index / blocksize;
    lemma_fundamental_div_mod(index as int, blocksize as int);
    lemma_mod_multiples_basic((q + 1) as int, blocksize as int);
    assert(blocksize * q + blocksize == (q + 1) * blocksize) by (nonlinear_arith);
    if index >= len {
        let k = len / blocksize;
        lemma_fundamental_div_mod(len as int, blocksize as int);
        assert(k <= q) by (nonlinear_arith)
            requires
                blocksize > 0,
                len == blocksize * k,
                index == blocksize * q + index % blocksize,
                0 <= index % blocksize < blocksize,
                index >= len,
        ;
        assert(blocksize * k + blocksize <= blocksize * q + blocksize) by (nonlinear_arith)
            requires
                k <= q,
                blocksize > 0,
        ;
    } else {
        let k = len / blocksize;
        lemma_fundamental_div_mod(len as int, blocksize as int);
        assert(q + 1 <= k) by (nonlinear_arith)
            requires
                blocksize > 0,
                len == blocksize * k,
                index == blocksize * q + index % blocksize,
                0 <= index % blocksize < blocksize,
                index < len,
        ;
        assert((q + 1) * blocksize <= blocksize * k) by (nonlinear_arith)
            requires
                q + 1 <= k,
                blocksize > 0,
        ;
    }
}

/// Grows `words` by whole blocks of zeros until `offset` is inside, then
/// stores `value` there.
fn store_word(words: &mut Vec<u32>, blocksize: usize, offset: usize, value: u32)
    requires
        blocksize > 0,
        old(words)@.len() % (blocksize as nat) == 0,
    ensures
        final(words)@ == grown(old(words)@, blocksize as nat, offset as nat).update(
            offset as int,
            value,
        ),
{
    let ghost before = words@;
    let ghost target = grown_len(before.len(), blocksize as nat, offset as nat);
    proof {
        lemma_grown_len(before.len(), blocksize as nat, offset as nat);
    }
    while offset >= words.len()
        invariant
            blocksize > 0,
            before.len() % (blocksize as nat) == 0,
            target == grown_len(before.len(), blocksize as nat, offset as nat),
            words@.len() % (blocksize as nat) == 0,
            before.len() <= words@.len() <= target,
            forall|i: int| 0 <= i < words@.len() ==> words@[i] == word_or_zero(before, i),
        decreases target - words@.len(),
    {
        let ghost start = words@.len();
        proof {
            lemma_grown_len(start, blocksize as nat, offset as nat);
            assert(grown_len(start, blocksize as nat, offset as nat) == target);
        }
        let mut count: usize = 0;
        while count < blocksize
            invariant
                count <= blocksize,
                start + blocksize <= target,
                before.len() <= start,
                words@.len() == start + count,
                forall|i: int| 0 <= i < words@.len() ==> words@[i] == word_or_zero(before, i),
            decreases blocksize - count,
        {
            words.push(0);
            count += 1;
        }
        proof {
            lemma_mod_adds(start as int, blocksize as int, blocksize as int);
            lemma_mod_self_0(blocksize as int);
        }
    }
    proof {
        lemma_grown_len(words@.len(), blocksize as nat, offset as nat);
    }
    assert(words@ =~= grown(before, blocksize as nat, offset as nat));
    words[offset] = value;
}

/// Word-addressed memory of the machine.
#[derive(Debug)]
pub struct Memory {
    text: Vec<u32>,
    data: Vec<u32>,
    blocksize: usize,
    text_generation: u32,
    data_generation: u32,
}

impl View for Memory {
    type V = MemoryView;

    closed spec fn view(&self) -> MemoryView {
        MemoryView {
            text: SegmentView { words: self.text@, generation: self.text_generation },
            data: SegmentView { words: self.data@, generation: self.data_generation },
            blocksize: self.blocksize as nat,
        }
    }
}

impl Memory {
    /// Storage is allocated in whole blocks.
    pub open spec fn wf(&self) -> bool {
        self@.wf()
    }

    /// A memory whose two segments each hold one block of zeros and have
    /// seen no write.
    pub fn new_mips_default(blocksize: usize) -> (mem: Memory)
        requires
            blocksize > 0,
        ensures
            mem.wf(),
            mem@.blocksize == blocksize,
            mem@.text == (SegmentView { words: zeros(blocksize as nat), generation: 0 }),
            mem@.data == (SegmentView { words: zeros(blocksize as nat), generation: 0 }),
    {
        let mut mem = Memory {
            text: Vec::with_capacity(blocksize),
            data: Vec::with_capacity(blocksize),
            blocksize,
            text_generation: 0,
            data_generation: 0,
        };
        let mut count: usize = 0;
        while count < blocksize
            invariant
                count <= blocksize,
                mem.blocksize == blocksize,
                mem.text_generation == 0,
                mem.data_generation == 0,
                mem.text@ == zeros(count as nat),
                mem.data@ == zeros(count as nat),
            decreases blocksize - count,
        {
            mem.text.push(0);
            mem.data.push(0);
            count += 1;
        }
        proof {
            lemma_mod_self_0(blocksize as int);
        }
        mem
    }

    /// Stores `value` at `index`, growing the segment by whole blocks of
    /// zeros until `index` is inside it, and counts the write. A store to an
    /// unmapped address is refused and changes nothing.
    pub fn set(&mut self, index: u32, value: u32) -> (res: Result<(), SuperMipsError>)
        requires
            old(self).wf(),
            old(self)@.can_write(index),
        ensures
            final(self).wf(),
            final(self)@ == old(self)@.write(index, value),
            res == old(self)@.write_result(index),
    {
        if TEXT_START <= index && index <= TEXT_END {
            let offset = (index - TEXT_START) as usize;
            proof {
                lemma_grown_len(self.text@.len(), self.blocksize as nat, offset as nat);
            }
            store_word(&mut self.text, self.blocksize, offset, value);
            self.text_generation += 1;
            return Ok(());
        }
        if DATA_START <= index && index <= DATA_END {
            let offset = (index - DATA_START) as usize;
            proof {
                lemma_grown_len(self.data@.len(), self.blocksize as nat, offset as nat);
            }
            store_word(&mut self.data, self.blocksize, offset, value);
            self.data_generation += 1;
            return Ok(());
        }
        Err(SuperMipsError::AddressError(index))
    }

    /// Installs `text` word by word from the start of the instruction range.
    /// Words that do not fit there continue into the data range, which
    /// follows it; a load that would pass the end of the data range is
    /// refused and changes nothing.
    pub fn load_text(&mut self, text: Vec<u32>) -> (res: Result<(), SuperMipsError>)
        requires
            old(self).wf(),
            old(self)@.can_load(TEXT_START, text@.len()),
        ensures
            final(self).wf(),
            res == load_result(TEXT_START, text@.len()),
            res is Ok ==> final(self)@ == old(self)@.write_all(TEXT_START, text@),
            res is Ok ==> counted(old(self)@, final(self)@, TEXT_START, text@.len()),
            res is Err ==> final(self)@ == old(self)@,
    {
        self.load(TEXT_START, &text)
    }

    /// Installs `data` word by word from the start of the data range. A load
    /// that would pass the end of the range is refused and changes nothing.
    pub fn load_data(&mut self, data: Vec<u32>) -> (res: Result<(), SuperMipsError>)
        requires
            old(self).wf(),
            old(self)@.can_load(DATA_START, data@.len()),
        ensures
            final(self).wf(),
            res == load_result(DATA_START, data@.len()),
            res is Ok ==> final(self)@ == old(self)@.write_all(DATA_START, data@),
            res is Ok ==> counted(old(self)@, final(self)@, DATA_START, data@.len()),
            res is Err ==> final(self)@ == old(self)@,
    {
        self.load(DATA_START, &data)
    }

    /// Stores `words` one after the other from `base` on, if all of them
    /// have an address.
    fn load(&mut self, base: u32, words: &Vec<u32>) -> (res: Result<(), SuperMipsError>)
        requires
            old(self).wf(),
            old(self)@.can_load(base, words@.len()),
            base == TEXT_START || base == DATA_START,
        ensures
            final(self).wf(),
            res == load_result(base, words@.len()),
            res is Ok ==> final(self)@ == old(self)@.write_all(base, words@),
            res is Ok ==> counted(old(self)@, final(self)@, base, words@.len()),
            res is Err ==> final(self)@ == old(self)@,
    {
        let count = words.len();
        if count > (DATA_END - base) as usize + 1 {
            return Err(SuperMipsError::AddressError(DATA_END + 1));
        }
        let ghost before = self@;
        let mut done: usize = 0;
        while done < count
            invariant
                done <= count,
                count == words@.len(),
                base == TEXT_START || base == DATA_START,
                base + count <= DATA_END + 1,
                before.can_load(base, count as nat),
                self.wf(),
                self@ == before.write_all(base, words@.take(done as int)),
                self@.text.generation == before.text.generation + stores_in(
                    Segment::Text,
                    base,
                    done as nat,
                ),
                self@.data.generation == before.data.generation + stores_in(
                    Segment::Data,
                    base,
                    done as nat,
                ),
            decreases count - done,
        {
            let address = base + done as u32;
            let ghost prefix = words@.take(done as int + 1);
            assert(prefix.drop_last() == words@.take(done as int));
            let _ = self.set(address, words[done]);
            done += 1;
        }
        assert(words@.take(count as int) == words@);
        Ok(())
    }

    /// Hands a consumer that last saw generation `last_seen` of `segment` a
    /// copy of the segment's words together with its generation, but only if
    /// the segment has been written since.
    pub fn snapshot_if_changed(&self, segment: Segment, last_seen: u32) -> (res: Option<
        (Vec<u32>, u32),
    >)
        ensures
            res is Some == self@.snapshot(segment, last_seen) is Some,
            res matches Some((words, generation)) ==> self@.snapshot(segment, last_seen) == Some(
                (words@, generation),
            ),
    {
        match segment {
            Segment::Text => {
                if self.text_generation == last_seen {
                    None
                } else {
                    let words = self.text.clone();
                    assert(words@ =~= self.text@);
                    Some((words, self.text_generation))
                }
            },
            Segment::Data => {
                if self.data_generation == last_seen {
                    None
                } else {
                    let words = self.data.clone();
                    assert(words@ =~= self.data@);
                    Some((words, self.data_generation))
                }
            },
        }
    }

    /// Number of writes that `segment` has seen.
    pub fn generation(&self, segment: Segment) -> (generation: u32)
        ensures
            generation == self@.segment(segment).generation,
    {
        match segment {
            Segment::Text => self.text_generation,
            Segment::Data => self.data_generation,
        }
    }

    /// Number of words that `segment` stores at present.
    pub fn allocated(&self, segment: Segment) -> (len: usize)
        ensures
            len == self@.segment(segment).words.len(),
    {
        match segment {
            Segment::Text => self.text.len(),
            Segment::Data => self.data.len(),
        }
    }

    /// Number of words by which a segment grows.
    pub fn blocksize(&self) -> (blocksize: usize)
        ensures
            blocksize == self@.blocksize,
    {
        self.blocksize
    }

    /// Loads the word at `index`. Mapped addresses past the stored words read
    /// as zero; nothing is allocated.
    pub fn get(&self, index: u32) -> (res: Result<u32, SuperMipsError>)
        ensures
            res == self@.read(index),
    {
        if TEXT_START <= index && index <= TEXT_END {
            let offset = (index - TEXT_START) as usize;
            if offset >= self.text.len() {
                return Ok(0);
            }
            return Ok(self.text[offset]);
        }
        if DATA_START <= index && index <= DATA_END {
            let offset = (index - DATA_START) as usize;
            if offset >= self.data.len() {
                return Ok(0);
            }
            return Ok(self.data[offset]);
        }
        Err(SuperMipsError::AddressError(index))
    }
}

/// A store followed by a load of the same mapped address yields the stored
/// value.
pub proof fn lemma_set_then_get(mem: MemoryView, address: u32, value: u32)
    requires
        mem.wf(),
        segment_of(address) is Some,
    ensures
        mem.write(address, value).read(address) == Ok::<u32, SuperMipsError>(value),
{
    let s = segment_of(address).unwrap();
    let index = (address - base_of(s)) as nat;
    lemma_grown_len(mem.segment(s).words.len(), mem.blocksize, index);
}

/// A store leaves what every other address reads as unchanged, whether or
/// not it made the segment grow.
pub proof fn lemma_set_keeps_other_words(mem: MemoryView, address: u32, value: u32, other: u32)
    requires
        mem.wf(),
        other != address,
    ensures
        mem.write(address, value).read(other) == mem.read(other),
{
    if segment_of(address) is Some {
        let s = segment_of(address).unwrap();
        let index = (address - base_of(s)) as nat;
        lemma_grown_len(mem.segment(s).words.len(), mem.blocksize, index);
    }
}

/// A store past the allocated words grows the segment by whole blocks, just
/// far enough to hold the address, keeps the words that were there, and
/// leaves every new word zero but the one written.
pub proof fn lemma_set_grows_by_blocks(mem: MemoryView, address: u32, value: u32)
    requires
        mem.wf(),
        segment_of(address) is Some,
        address - base_of(segment_of(address).unwrap()) >= mem.segment(
            segment_of(address).unwrap(),
        ).words.len(),
    ensures
        ({
            let s = segment_of(address).unwrap();
            let index = address - base_of(s);
            let before = mem.segment(s).words;
            let after = mem.write(address, value).segment(s).words;
            &&& after.len() % mem.blocksize == 0
            &&& after.len() >= before.len() + mem.blocksize
            &&& after.len() - mem.blocksize <= index < after.len()
            &&& forall|i: int| 0 <= i < before.len() ==> after[i] == before[i]
            &&& forall|i: int| before.len() <= i < after.len() && i != index ==> after[i] == 0
            &&& after[index] == value
        }),
        mem.write(address, value).wf(),
{
    let s = segment_of(address).unwrap();
    let index = (address - base_of(s)) as nat;
    lemma_grown_len(mem.segment(s).words.len(), mem.blocksize, index);
}

/// A store keeps storage allocated in whole blocks, never shrinks a
/// segment and never changes the block size.
pub proof fn lemma_set_keeps_shape(mem: MemoryView, address: u32, value: u32)
    requires
        mem.wf(),
    ensures
        mem.write(address, value).wf(),
        mem.write(address, value).blocksize == mem.blocksize,
        mem.write(address, value).text.words.len() >= mem.text.words.len(),
        mem.write(address, value).data.words.len() >= mem.data.words.len(),
{
    if segment_of(address) is Some {
        let s = segment_of(address).unwrap();
        let index = (address - base_of(s)) as nat;
        lemma_grown_len(mem.segment(s).words.len(), mem.blocksize, index);
    }
}

/// A store inside the allocated words changes that one word and nothing
/// else of the segment.
pub proof fn lemma_set_in_place(mem: MemoryView, address: u32, value: u32)
    requires
        mem.wf(),
        segment_of(address) is Some,
        address - base_of(segment_of(address).unwrap()) < mem.segment(
            segment_of(address).unwrap(),
        ).words.len(),
    ensures
        ({
            let s = segment_of(address).unwrap();
            mem.write(address, value).segment(s).words == mem.segment(s).words.update(
                address - base_of(s),
                value,
            )
        }),
{
    let s = segment_of(address).unwrap();
    let before = mem.segment(s).words;
    let index = (address - base_of(s)) as nat;
    assert(grown(before, mem.blocksize, index) =~= before);
}

/// A store to a mapped address advances the generation of the segment it
/// lands in by exactly one and leaves the other segment as it was; a refused
/// store changes nothing.
pub proof fn lemma_set_counts_once(mem: MemoryView, address: u32, value: u32)
    requires
        mem.wf(),
        mem.can_write(address),
    ensures
        segment_of(address) == Some(Segment::Text) ==> {
            &&& mem.write(address, value).text.generation == mem.text.generation + 1
            &&& mem.write(address, value).data == mem.data
        },
        segment_of(address) == Some(Segment::Data) ==> {
            &&& mem.write(address, value).data.generation == mem.data.generation + 1
            &&& mem.write(address, value).text == mem.text
        },
        segment_of(address) is None ==> mem.write(address, value) == mem,
        mem.write(address, value).blocksize == mem.blocksize,
{
}

/// A consumer that remembers the generation it was handed is handed nothing
/// more, however often it asks, until the segment is written again; after a
/// write it is handed the segment once, with the written word in it.
pub proof fn lemma_snapshot_once_per_write(
    mem: MemoryView,
    segment: Segment,
    last_seen: u32,
    address: u32,
    value: u32,
)
    requires
        mem.wf(),
        mem.can_write(address),
        segment_of(address) == Some(segment),
    ensures
        mem.snapshot(segment, mem.segment(segment).generation) is None,
        mem.snapshot(segment, last_seen) matches Some((_, seen)) ==> mem.snapshot(segment, seen)
            is None,
        ({
            let written = mem.write(address, value);
            let seen = mem.segment(segment).generation;
            &&& written.snapshot(segment, seen) == Some(
                (written.segment(segment).words, written.segment(segment).generation),
            )
            &&& written.snapshot(segment, written.segment(segment).generation) is None
            &&& word_or_zero(written.segment(segment).words, address - base_of(segment)) == value
        }),
{
    lemma_set_then_get(mem, address, value);
}

/// After a load that was accepted, each loaded word reads back from its
/// address.
pub proof fn lemma_load_then_get(mem: MemoryView, base: u32, words: Seq<u32>, i: int)
    requires
        mem.wf(),
        base == TEXT_START || base == DATA_START,
        load_result(base, words.len()) is Ok,
        0 <= i < words.len(),
    ensures
        mem.write_all(base, words).wf(),
        mem.write_all(base, words).read((base + i) as u32) == Ok::<u32, SuperMipsError>(words[i]),
    decreases words.len(),
{
    let front = words.drop_last();
    let last_address = (base + words.len() - 1) as u32;
    lemma_write_all_wf(mem, base, front);
    if i == words.len() - 1 {
        lemma_set_then_get(mem.write_all(base, front), last_address, words.last());
    } else {
        lemma_load_then_get(mem, base, front, i);
        lemma_set_keeps_other_words(
            mem.write_all(base, front),
            last_address,
            words.last(),
            (base + i) as u32,
        );
    }
    lemma_write_all_wf(mem, base, words);
}

/// Stores keep storage allocated in whole blocks.
pub proof fn lemma_write_all_wf(mem: MemoryView, base: u32, words: Seq<u32>)
    requires
        mem.wf(),
    ensures
        mem.write_all(base, words).wf(),
        mem.write_all(base, words).blocksize == mem.blocksize,
    decreases words.len(),
{
    if words.len() > 0 {
        let front = words.drop_last();
        lemma_write_all_wf(mem, base, front);
        let address = (base + words.len() - 1) as u32;
        let inner = mem.write_all(base, front);
        if segment_of(address) is Some {
            let s = segment_of(address).unwrap();
            lemma_grown_len(inner.segment(s).words.len(), inner.blocksize, (address - base_of(s)) as nat);
        }
    }
}

} // verus!

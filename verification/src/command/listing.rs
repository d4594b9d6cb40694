//! DIR: the listing of a directory.
use vstd::prelude::*;

use crate::command::files::BUFFER_SIZE;
use crate::text::{
    decimal, lossy_utf8, push_bytes, push_decimal, push_text, sub_bytes, text, utf8_lossy,
};
use crate::time::date::DateTime;
use crate::time::system::Timestamp;

verus! {

/// A file in a directory.
pub struct DirEntry {
    pub name: Vec<u8>,
    pub size: u32,
    pub mod_timestamp: u32,
    pub is_dir: bool,
}

/// The same, over a sequence.
#[verifier::ext_equal]
pub struct DirEntryModel {
    pub name: Seq<u8>,
    pub size: u32,
    pub mod_timestamp: u32,
    pub is_dir: bool,
}

impl View for DirEntry {
    type V = DirEntryModel;

    open spec fn view(&self) -> DirEntryModel {
        DirEntryModel {
            name: self.name@,
            size: self.size,
            mod_timestamp: self.mod_timestamp,
            is_dir: self.is_dir,
        }
    }
}

pub open spec fn entries_model(v: Seq<DirEntry>) -> Seq<DirEntryModel> {
    Seq::new(v.len(), |i: int| v[i]@)
}

/// What is after the last zero byte.
pub open spec fn tail(s: Seq<u8>) -> Seq<u8>
    decreases s.len(),
{
    if s.len() == 0 || s.last() == 0 { Seq::empty() } else { tail(s.drop_last()).push(s.last()) }
}

/// The names in a chunk: the runs that a zero byte ends.
pub open spec fn names(s: Seq<u8>) -> Seq<Seq<u8>>
    decreases s.len(),
{
    if s.len() == 0 {
        Seq::empty()
    } else if s.last() == 0 {
        names(s.drop_last()).push(tail(s.drop_last()))
    } else {
        names(s.drop_last())
    }
}

/// An entry of which only the name is known.
pub open spec fn new_entry(name: Seq<u8>) -> DirEntryModel {
    DirEntryModel { name: lossy_utf8(name), size: 0, mod_timestamp: 0, is_dir: false }
}

pub open spec fn new_entries(names: Seq<Seq<u8>>) -> Seq<DirEntryModel> {
    Seq::new(names.len(), |i: int| new_entry(names[i]))
}

proof fn lemma_tail(s: Seq<u8>, start: int, i: int)
    requires
        0 <= start <= i <= s.len(),
        start == 0 || s[start - 1] == 0,
        forall|k: int| start <= k < i ==> #[trigger] s[k] != 0,
    ensures
        tail(s.subrange(0, i)) == s.subrange(start, i),
    decreases i,
{
    let t = s.subrange(0, i);
    if i == start {
        assert(s.subrange(start, i) =~= Seq::empty());
    } else {
        lemma_tail(s, start, i - 1);
        assert(t.drop_last() =~= s.subrange(0, i - 1));
        assert(tail(t) =~= s.subrange(start, i));
    }
}

/// The listing of a directory.
pub struct Listing {
    pub entries: Vec<DirEntry>,
    pub read_offset: u32,
}

impl Listing {
    pub open spec fn model(&self) -> Seq<DirEntryModel> {
        entries_model(self.entries@)
    }

    pub fn new() -> (r: Self)
        ensures
            r.model() == Seq::<DirEntryModel>::empty(),
            r.read_offset == 0,
    {
        let r: Listing = Listing { entries: Vec::new(), read_offset: 0 };
        assert(r.model() =~= Seq::<DirEntryModel>::empty());
        r
    }

    /// Take the names in a chunk of the directory. True where there is more to read: a
    /// chunk that does not fill the buffer is the last.
    pub fn add_chunk(&mut self, chunk: &[u8]) -> (r: bool)
        requires
            old(self).read_offset + chunk@.len() <= u32::MAX,
        ensures
            final(self).model() == old(self).model() + new_entries(names(chunk@)),
            final(self).read_offset == old(self).read_offset + chunk@.len(),
            r == (chunk@.len() >= BUFFER_SIZE),
    {
        let n: usize = chunk.len();
        self.read_offset = self.read_offset + n as u32;
        let mut name_start: usize = 0;
        let mut i: usize = 0;
        let ghost before = self.model();
        assert(names(chunk@.subrange(0, 0)) =~= Seq::empty());
        assert(before =~= before + new_entries(names(chunk@.subrange(0, 0))));
        while i < n
            invariant
                n == chunk@.len(),
                name_start <= i <= n,
                name_start == 0 || chunk@[name_start - 1] == 0,
                forall|k: int| name_start <= k < i ==> #[trigger] chunk@[k] != 0,
                self.model() == before + new_entries(names(chunk@.subrange(0, i as int))),
                self.read_offset == old(self).read_offset + n,
            decreases n - i,
        {
            let ghost t = chunk@.subrange(0, i + 1);
            assert(t.drop_last() =~= chunk@.subrange(0, i as int));
            assert(t.last() == chunk@[i as int]);
            if chunk[i] == 0 {
                proof { lemma_tail(chunk@, name_start as int, i as int); }
                let ghost m = self.model();
                let name: Vec<u8> = utf8_lossy(vstd::slice::slice_subrange(chunk, name_start, i));
                let entry: DirEntry = DirEntry { name, size: 0, mod_timestamp: 0, is_dir: false };
                self.entries.push(entry);
                assert(self.model() =~= m.push(entry@));
                assert(new_entries(names(t)) =~= new_entries(names(t.drop_last())).push(entry@));
                assert(self.model() =~= before + new_entries(names(t)));
                name_start = i + 1;
            }
            i += 1;
        }
        assert(chunk@.subrange(0, n as int) =~= chunk@);
        n >= BUFFER_SIZE as usize
    }

    /// The path whose status tells the size, time and type of an entry.
    pub fn status_path(&self, cwd: &[u8], index: usize) -> (r: Vec<u8>)
        requires
            index < self.model().len(),
        ensures
            r@ == cwd@ + self.model()[index as int].name,
    {
        let mut path: Vec<u8> = sub_bytes(cwd, 0, cwd.len());
        assert(path@ =~= cwd@);
        push_bytes(&mut path, self.entries[index].name.as_slice());
        path
    }

    /// Take the status of an entry. Bit 1 of the type marks directories.
    pub fn set_status(&mut self, index: usize, byte_size: u32, modification_time: u32, file_type: u32)
        requires
            index < old(self).model().len(),
        ensures
            final(self).read_offset == old(self).read_offset,
            final(self).model() == old(self).model().update(
                index as int,
                DirEntryModel {
                    name: old(self).model()[index as int].name,
                    size: byte_size,
                    mod_timestamp: modification_time,
                    is_dir: file_type & 2 != 0,
                },
            ),
    {
        let entry: &mut DirEntry = &mut self.entries[index];
        entry.size = byte_size;
        entry.mod_timestamp = modification_time;
        entry.is_dir = file_type & 2 != 0;
        assert(self.model() =~= old(self).model().update(
            index as int,
            DirEntryModel {
                name: old(self).model()[index as int].name,
                size: byte_size,
                mod_timestamp: modification_time,
                is_dir: file_type & 2 != 0,
            },
        ));
    }

    /// The listing: a row for each entry, and their number.
    pub fn report(&self) -> (r: Vec<u8>)
        ensures
            is_report(self.model(), r@),
    {
        let mut out: Vec<u8> = Vec::new();
        let n: usize = self.entries.len();
        let mut i: usize = 0;
        let ghost mut rows: Seq<Seq<u8>> = Seq::empty();
        while i < n
            invariant
                i <= n == self.entries@.len(),
                rows.len() == i,
                forall|k: int| 0 <= k < i ==> is_row(self.model()[k], #[trigger] rows[k]),
                out@ == concat(rows),
            decreases n - i,
        {
            let row: Vec<u8> = format_row(&self.entries[i]);
            let ghost before = rows;
            proof {
                rows = rows.push(row@);
                assert(rows.drop_last() =~= before);
            }
            push_bytes(&mut out, row.as_slice());
            i += 1;
        }
        let ghost body = out@;
        push_spaces(&mut out, 13);
        push_decimal(&mut out, n as u64);
        push_text(&mut out, " file(s)\n");
        assert(out@ =~= body + summary(n as nat));
        out
    }
}

/// Byte strings one after another.
pub open spec fn concat(parts: Seq<Seq<u8>>) -> Seq<u8>
    decreases parts.len(),
{
    if parts.len() == 0 { Seq::empty() } else { concat(parts.drop_last()) + parts.last() }
}

/// The last line: how many entries there are.
pub open spec fn summary(n: nat) -> Seq<u8> {
    spaces(13) + decimal(n) + text(" file(s)\n")
}

/// A listing of entries: their rows in order, and the last line.
pub open spec fn is_report(entries: Seq<DirEntryModel>, out: Seq<u8>) -> bool {
    exists|rows: Seq<Seq<u8>>|
        #![trigger concat(rows)]
        rows.len() == entries.len() && (forall|k: int|
            0 <= k < rows.len() ==> is_row(entries[k], #[trigger] rows[k])) && out == concat(rows)
            + summary(entries.len())
}

pub open spec fn spaces(n: int) -> Seq<u8> {
    Seq::new(if n > 0 { n as nat } else { 0 }, |i: int| 0x20u8)
}

/// Append spaces.
pub fn push_spaces(out: &mut Vec<u8>, n: usize)
    ensures
        final(out)@ == old(out)@ + spaces(n as int),
{
    let mut i: usize = 0;
    while i < n
        invariant
            i <= n,
            out@ =~= old(out)@ + spaces(i as int),
        decreases n - i,
    {
        out.push(0x20);
        i += 1;
    }
}

/// The row of an entry: its name in 13 columns, its size in 9 or a mark for a
/// directory, and when it was changed.
pub open spec fn row(entry: DirEntryModel, when: DateTime) -> Seq<u8> {
    entry.name + spaces(13 - entry.name.len()) + (if entry.is_dir {
        text("<DIR>     ")
    } else {
        spaces(9 - decimal(entry.size as nat).len()) + decimal(entry.size as nat) + seq![0x20u8]
    }) + when.date.text() + seq![0x20u8] + when.time.text() + seq![0x0Au8]
}

/// The row of an entry, with its time.
pub open spec fn is_row(entry: DirEntryModel, r: Seq<u8>) -> bool {
    exists|when: DateTime| #[trigger]
        DateTime::of_stamp(entry.mod_timestamp, when) && r == row(entry, when)
}

/// The row of an entry.
pub fn format_row(entry: &DirEntry) -> (r: Vec<u8>)
    ensures
        is_row(entry@, r@),
{
    let mut out: Vec<u8> = sub_bytes(entry.name.as_slice(), 0, entry.name.len());
    assert(out@ =~= entry.name@);
    if entry.name.len() < 13 {
        push_spaces(&mut out, 13 - entry.name.len());
    }
    assert(out@ =~= entry.name@ + spaces(13 - entry.name@.len()));
    let ghost named = out@;
    if entry.is_dir {
        push_text(&mut out, "<DIR>     ");
    } else {
        let mut digits: Vec<u8> = Vec::new();
        push_decimal(&mut digits, entry.size as u64);
        assert(digits@ =~= decimal(entry.size as nat));
        if digits.len() < 9 {
            push_spaces(&mut out, 9 - digits.len());
        }
        push_bytes(&mut out, digits.as_slice());
        out.push(0x20);
        assert(out@ =~= named + (spaces(9 - digits@.len()) + digits@ + seq![0x20u8]));
    }
    let when: DateTime = DateTime::from_timestamp(Timestamp(entry.mod_timestamp));
    when.date.push_text(&mut out);
    out.push(0x20);
    when.time.push_text(&mut out);
    out.push(0x0A);
    assert(out@ =~= row(entry@, when));
    assert(DateTime::of_stamp(entry@.mod_timestamp, when));
    out
}

pub const DIR_FAILED: &'static str = "Failed to open directory...\n";

/// What DIR prints first.
pub fn dir_header(cwd: &[u8]) -> (r: Vec<u8>)
    ensures
        r@ == text(
            " Volume in drive is UNKNOWN\n Volume Serial Number is UNKNOWN\n Directory of ",
        ) + cwd@ + seq![0x0Au8, 0x0A],
{
    let mut out: Vec<u8> = Vec::new();
    push_text(
        &mut out,
        " Volume in drive is UNKNOWN\n Volume Serial Number is UNKNOWN\n Directory of ",
    );
    push_bytes(&mut out, cwd);
    out.push(0x0A);
    out.push(0x0A);
    assert(out@ =~= text(
        " Volume in drive is UNKNOWN\n Volume Serial Number is UNKNOWN\n Directory of ",
    ) + cwd@ + seq![0x0Au8, 0x0A]);
    out
}

/// Where DIR stands.
#[derive(Clone, Copy, PartialEq, Eq, Structural, Debug)]
pub enum DirState {
    /// The directory is being opened.
    Opening,
    /// The directory is being read.
    Reading,
    /// An entry is being opened.
    OpeningEntry(usize),
    /// The status of an entry is being asked for.
    Asking(usize),
    Finished,
}

/// What DIR does next.
pub enum DirAction {
    /// Read the directory at an offset.
    Read(u32),
    /// Open the file at a path.
    OpenEntry(Vec<u8>),
    /// Ask for the status of the file, and close it.
    Ask,
    /// Print, and stop.
    Print(Vec<u8>),
}

/// The DIR command in progress. It begins by printing its header and opening the working
/// directory.
pub struct DirJob {
    pub cwd: Vec<u8>,
    pub listing: Listing,
    pub state: DirState,
}

/// The next entry is opened, or where there is none, the listing printed.
pub open spec fn goes_to_entry(job: DirJob, i: int, action: DirAction) -> bool {
    if i < job.listing.model().len() {
        &&& job.state == DirState::OpeningEntry(i as usize)
        &&& action matches DirAction::OpenEntry(path) && path@ == job.cwd@
            + job.listing.model()[i].name
    } else {
        &&& job.state == DirState::Finished
        &&& action matches DirAction::Print(out) && is_report(job.listing.model(), out@)
    }
}

impl DirJob {
    pub fn new(cwd: Vec<u8>) -> (r: Self)
        ensures
            r.cwd == cwd,
            r.state == DirState::Opening,
            r.listing.model() == Seq::<DirEntryModel>::empty(),
            r.listing.read_offset == 0,
    {
        DirJob { cwd, listing: Listing::new(), state: DirState::Opening }
    }

    fn go_to_entry(&mut self, i: usize) -> (r: DirAction)
        ensures
            final(self).cwd == old(self).cwd,
            final(self).listing == old(self).listing,
            goes_to_entry(*final(self), i as int, r),
    {
        if i < self.listing.entries.len() {
            self.state = DirState::OpeningEntry(i);
            DirAction::OpenEntry(self.listing.status_path(self.cwd.as_slice(), i))
        } else {
            self.state = DirState::Finished;
            DirAction::Print(self.listing.report())
        }
    }

    /// The directory was opened, or could not be.
    pub fn opened(&mut self, ok: bool) -> (r: DirAction)
        requires
            old(self).state == DirState::Opening,
        ensures
            final(self).cwd == old(self).cwd,
            final(self).listing == old(self).listing,
            ok ==> final(self).state == DirState::Reading && r == DirAction::Read(
                old(self).listing.read_offset,
            ),
            !ok ==> final(self).state == DirState::Finished && (r matches DirAction::Print(out)
                && out@ == text(DIR_FAILED)),
    {
        if ok {
            self.state = DirState::Reading;
            return DirAction::Read(self.listing.read_offset);
        }
        self.state = DirState::Finished;
        let mut out: Vec<u8> = Vec::new();
        push_text(&mut out, DIR_FAILED);
        assert(out@ =~= text(DIR_FAILED));
        DirAction::Print(out)
    }

    /// A chunk of the directory was read. After the last, the entries are asked for.
    pub fn read(&mut self, chunk: &[u8]) -> (r: DirAction)
        requires
            old(self).state == DirState::Reading,
            old(self).listing.read_offset + chunk@.len() <= u32::MAX,
        ensures
            final(self).cwd == old(self).cwd,
            final(self).listing.model() == old(self).listing.model() + new_entries(names(chunk@)),
            final(self).listing.read_offset == old(self).listing.read_offset + chunk@.len(),
            chunk@.len() >= BUFFER_SIZE ==> final(self).state == DirState::Reading && r
                == DirAction::Read(final(self).listing.read_offset),
            chunk@.len() < BUFFER_SIZE ==> goes_to_entry(*final(self), 0, r),
    {
        if self.listing.add_chunk(chunk) {
            DirAction::Read(self.listing.read_offset)
        } else {
            self.go_to_entry(0)
        }
    }

    /// An entry was opened. One that could not be keeps its name alone.
    pub fn entry_opened(&mut self, ok: bool) -> (r: DirAction)
        requires
            old(self).state is OpeningEntry,
            old(self).state->OpeningEntry_0 < old(self).listing.model().len(),
        ensures
            final(self).cwd == old(self).cwd,
            final(self).listing == old(self).listing,
            ok ==> final(self).state == DirState::Asking(old(self).state->OpeningEntry_0) && r
                == DirAction::Ask,
            !ok ==> goes_to_entry(*final(self), old(self).state->OpeningEntry_0 + 1, r),
    {
        match self.state {
            DirState::OpeningEntry(i) => {
                if ok {
                    self.state = DirState::Asking(i);
                    DirAction::Ask
                } else {
                    let n: usize = self.listing.entries.len();
                    assert(i < n);
                    self.go_to_entry(i + 1)
                }
            },
            _ => DirAction::Ask,
        }
    }

    /// The status of an entry came.
    pub fn entry_status(&mut self, byte_size: u32, modification_time: u32, file_type: u32) -> (r:
        DirAction)
        requires
            old(self).state is Asking,
            old(self).state->Asking_0 < old(self).listing.model().len(),
        ensures
            final(self).cwd == old(self).cwd,
            final(self).listing.model() == old(self).listing.model().update(
                old(self).state->Asking_0 as int,
                DirEntryModel {
                    name: old(self).listing.model()[old(self).state->Asking_0 as int].name,
                    size: byte_size,
                    mod_timestamp: modification_time,
                    is_dir: file_type & 2 != 0,
                },
            ),
            goes_to_entry(*final(self), old(self).state->Asking_0 + 1, r),
    {
        match self.state {
            DirState::Asking(i) => {
                let n: usize = self.listing.entries.len();
                assert(i < n);
                self.listing.set_status(i, byte_size, modification_time, file_type);
                self.go_to_entry(i + 1)
            },
            _ => DirAction::Ask,
        }
    }
}

/// The row of an entry says one thing: an entry has one row.
pub proof fn row_is_determined(entry: DirEntryModel, a: Seq<u8>, b: Seq<u8>)
    requires
        is_row(entry, a),
        is_row(entry, b),
    ensures
        a == b,
{
    let x = choose|when: DateTime| #[trigger]
        DateTime::of_stamp(entry.mod_timestamp, when) && a == row(entry, when);
    let y = choose|when: DateTime| #[trigger]
        DateTime::of_stamp(entry.mod_timestamp, when) && b == row(entry, when);
    crate::time::date::timestamp_means_one_date(entry.mod_timestamp, x, y);
}

/// A directory whose names are each ended by a zero byte lists exactly those names.
pub proof fn every_name_is_listed(list: Seq<Seq<u8>>)
    requires
        forall|i: int, k: int|
            0 <= i < list.len() && 0 <= k < list[i].len() ==> #[trigger] list[i][k] != 0,
    ensures
        names(terminated(list)) == list,
        tail(terminated(list)) == Seq::<u8>::empty(),
    decreases list.len(),
{
    if list.len() == 0 {
        assert(names(terminated(list)) =~= list);
    } else {
        let s = terminated(list);
        let front = terminated(list.drop_last());
        let name = list.last();
        assert forall|i: int, k: int|
            0 <= i < list.drop_last().len() && 0 <= k
                < list.drop_last()[i].len() implies #[trigger] list.drop_last()[i][k] != 0 by {
            assert(list.drop_last()[i] == list[i]);
            assert(list[i][k] != 0);
        }
        every_name_is_listed(list.drop_last());
        assert forall|k: int| 0 <= k < name.len() implies #[trigger] name[k] != 0 by {
            assert(list[list.len() - 1][k] != 0);
        }
        lemma_add_name(front, name);
        assert(s.drop_last() =~= front + name);
        assert(s.last() == 0);
        assert(list =~= list.drop_last().push(name));
    }
}

/// Names, each with a zero byte after it.
pub open spec fn terminated(list: Seq<Seq<u8>>) -> Seq<u8>
    decreases list.len(),
{
    if list.len() == 0 {
        Seq::empty()
    } else {
        terminated(list.drop_last()) + list.last() + seq![0u8]
    }
}

proof fn lemma_add_name(front: Seq<u8>, name: Seq<u8>)
    requires
        tail(front) == Seq::<u8>::empty(),
        forall|k: int| 0 <= k < name.len() ==> #[trigger] name[k] != 0,
    ensures
        names(front + name) == names(front),
        tail(front + name) == name,
    decreases name.len(),
{
    if name.len() == 0 {
        assert(front + name =~= front);
        assert(name =~= Seq::<u8>::empty());
    } else {
        lemma_add_name(front, name.drop_last());
        assert((front + name).drop_last() =~= front + name.drop_last());
        assert((front + name).last() == name.last());
        assert(name[name.len() - 1] != 0);
        assert(tail(front + name) =~= name);
    }
}

} // verus!

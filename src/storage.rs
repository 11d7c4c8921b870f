//! The page store: fixed-size pages laid end to end in one byte image.
//!
//! Page `i` occupies bytes `[i * PAGE_SIZE, (i + 1) * PAGE_SIZE)` of the image;
//! there is no header and no metadata page.
use vstd::prelude::*;

use crate::wal::{decode_log, entries, frames, lemma_read_back_appended, LogEntry, WalRecord};

verus! {

/// Size in bytes of one page.
pub const PAGE_SIZE: usize = 4096;

/// A detached copy of one page: its id and its raw payload.
pub struct Page {
    pub id: u64,
    pub data: [u8; PAGE_SIZE],
}

/// The payload of a freshly allocated page.
pub open spec fn zero_page() -> Seq<u8> {
    Seq::new(PAGE_SIZE as nat, |i: int| 0u8)
}

impl Page {
    /// A zero-filled page with the given id.
    pub fn new(id: u64) -> (p: Page)
        ensures
            p.id == id,
            p.data@ == zero_page(),
    {
        let p = Page { id, data: [0u8; PAGE_SIZE] };
        assert(p.data@ =~= zero_page());
        p
    }
}


/// Why a page-store operation failed.
#[derive(PartialEq, Eq, Structural, Debug, Clone, Copy)]
pub enum StorageError {
    /// The page lies beyond the end of the store.
    PageNotFound(u64),
    /// The store cannot grow by another page.
    StoreFull,
    /// A logged record whose payload or region does not fit its page.
    InvalidRecord,
}

/// The number of whole pages an image holds; also the id of the next page
/// to be allocated.
pub open spec fn page_count(img: Seq<u8>) -> int {
    img.len() as int / PAGE_SIZE as int
}

/// Page `id` lies wholly within the image.
pub open spec fn page_exists(img: Seq<u8>, id: int) -> bool {
    0 <= id < page_count(img)
}

/// The bytes of page `id`.
pub open spec fn page_bytes(img: Seq<u8>, id: int) -> Seq<u8> {
    img.subrange(id * PAGE_SIZE, id * PAGE_SIZE + PAGE_SIZE)
}

/// The image after page `id` is overwritten with `data`.
pub open spec fn write_image(img: Seq<u8>, id: int, data: Seq<u8>) -> Seq<u8> {
    img.subrange(0, id * PAGE_SIZE) + data + img.subrange(
        id * PAGE_SIZE + PAGE_SIZE,
        img.len() as int,
    )
}

/// The image grown with zero bytes, if needed, so that page `id` lies
/// wholly within it.
pub open spec fn extended(img: Seq<u8>, id: int) -> Seq<u8> {
    if img.len() < id * PAGE_SIZE + PAGE_SIZE {
        img + Seq::new((id * PAGE_SIZE + PAGE_SIZE - img.len()) as nat, |i: int| 0u8)
    } else {
        img
    }
}

/// The image after page `id` is written with `data`, growing it if needed.
pub open spec fn stored_image(img: Seq<u8>, id: int, data: Seq<u8>) -> Seq<u8> {
    write_image(extended(img, id), id, data)
}

/// The image after one allocation: a zero page is placed at the end of the
/// last whole page.
pub open spec fn alloc_image(img: Seq<u8>) -> Seq<u8> {
    img.subrange(0, page_count(img) * PAGE_SIZE) + zero_page()
}

/// The image after `n` allocations.
pub open spec fn allocate_times(img: Seq<u8>, n: nat) -> Seq<u8>
    decreases n,
{
    if n == 0 {
        img
    } else {
        alloc_image(allocate_times(img, (n - 1) as nat))
    }
}

/// A page's bytes with a record's data laid over its region.
pub open spec fn patched(data: Seq<u8>, e: LogEntry) -> Seq<u8> {
    Seq::new(
        data.len(),
        |i: int|
            if e.offset <= i < e.offset + e.length {
                e.data[i - e.offset]
            } else {
                data[i]
            },
    )
}

/// The image after one record is applied, or `None` if the record cannot be
/// replayed (its payload or region does not fit its page) or its page is
/// absent.
pub open spec fn apply_image(img: Seq<u8>, e: LogEntry) -> Option<Seq<u8>> {
    if e.valid() && page_exists(img, e.page_id as int) {
        Some(write_image(img, e.page_id as int, patched(page_bytes(img, e.page_id as int), e)))
    } else {
        None
    }
}

/// The image after the records are applied in order, or `None` if one of
/// them cannot be applied.
pub open spec fn replay_image(img: Seq<u8>, es: Seq<LogEntry>) -> Option<Seq<u8>>
    decreases es.len(),
{
    if es.len() == 0 {
        Some(img)
    } else {
        match replay_image(img, es.drop_last()) {
            Some(prev) => apply_image(prev, es.last()),
            None => None,
        }
    }
}

/// Byte offset of page `id` in the backing file, if it fits in 64 bits.
pub fn page_offset(id: u64) -> (r: Option<u64>)
    ensures
        id * PAGE_SIZE <= u64::MAX ==> r == Some((id * PAGE_SIZE) as u64),
        id * PAGE_SIZE > u64::MAX ==> r is None,
{
    id.checked_mul(PAGE_SIZE as u64)
}

/// The page store, over the bytes of its backing file.
pub struct StorageEngine {
    image: Vec<u8>,
}

impl View for StorageEngine {
    type V = Seq<u8>;

    closed spec fn view(&self) -> Seq<u8> {
        self.image@
    }
}

impl StorageEngine {
    /// An empty store.
    pub fn new() -> (s: StorageEngine)
        ensures
            s@ == Seq::<u8>::empty(),
    {
        StorageEngine { image: Vec::new() }
    }

    /// A store over the given file contents.
    pub fn from_image(image: Vec<u8>) -> (s: StorageEngine)
        ensures
            s@ == image@,
    {
        StorageEngine { image }
    }

    /// The number of whole pages in the store.
    pub fn page_count(&self) -> (r: u64)
        ensures
            r == page_count(self@),
            self@.len() <= usize::MAX,
    {
        (self.image.len() / PAGE_SIZE) as u64
    }

    /// A copy of page `page_id`; fails with `PageNotFound` if the store ends
    /// before the page does.
    pub fn read_page(&self, page_id: u64) -> (r: Result<Page, StorageError>)
        ensures
            !page_exists(self@, page_id as int) ==> r == Err::<Page, StorageError>(
                StorageError::PageNotFound(page_id),
            ),
            page_exists(self@, page_id as int) ==> (r matches Ok(p) && p.id == page_id
                && p.data@ == page_bytes(self@, page_id as int)),
    {
        if page_id >= (self.image.len() / PAGE_SIZE) as u64 {
            return Err(StorageError::PageNotFound(page_id));
        }
        let base = page_id as usize * PAGE_SIZE;
        let mut page = Page::new(page_id);
        let mut i: usize = 0;
        while i < PAGE_SIZE
            invariant
                base + PAGE_SIZE <= self@.len(),
                base == page_id * PAGE_SIZE,
                i <= PAGE_SIZE,
                page.id == page_id,
                forall|j: int| 0 <= j < i ==> page.data@[j] == self@[base + j],
            decreases PAGE_SIZE - i,
        {
            page.data[i] = self.image[base + i];
            i = i + 1;
        }
        assert(page.data@ =~= page_bytes(self@, page_id as int));
        Ok(page)
    }

    /// Writes the page at its place, `page.id * PAGE_SIZE`; a page past the
    /// end grows the store, the gap filled with zero bytes. Fails with
    /// `StoreFull`, changing nothing, if the store cannot hold that page.
    pub fn write_page(&mut self, page: &Page) -> (r: Result<(), StorageError>)
        ensures
            (page.id + 1) * PAGE_SIZE > usize::MAX ==> r == Err::<(), StorageError>(
                StorageError::StoreFull,
            ) && final(self)@ == old(self)@,
            (page.id + 1) * PAGE_SIZE <= usize::MAX ==> r is Ok && final(self)@ == stored_image(
                old(self)@,
                page.id as int,
                page.data@,
            ),
    {
        if page.id >= (usize::MAX / PAGE_SIZE) as u64 {
            return Err(StorageError::StoreFull);
        }
        let base = page.id as usize * PAGE_SIZE;
        let end = base + PAGE_SIZE;
        let ghost before = extended(self.image@, page.id as int);
        let ghost start = self.image@;
        while self.image.len() < end
            invariant
                end == base + PAGE_SIZE,
                base == page.id * PAGE_SIZE,
                end <= usize::MAX,
                before == extended(start, page.id as int),
                start.len() < end ==> (start.len() <= self.image@.len() <= end && forall|j: int|
                    0 <= j < self.image@.len() ==> #[trigger] self.image@[j] == before[j]),
                start.len() >= end ==> self.image@ == start,
            decreases end - self.image@.len(),
        {
            self.image.push(0u8);
        }
        assert(self.image@ =~= before);
        let mut i: usize = 0;
        while i < PAGE_SIZE
            invariant
                base + PAGE_SIZE <= before.len(),
                base == page.id * PAGE_SIZE,
                i <= PAGE_SIZE,
                self.image@.len() == before.len(),
                forall|j: int|
                    0 <= j < self.image@.len() ==> #[trigger] self.image@[j] == if base <= j
                        < base + i {
                        page.data@[j - base]
                    } else {
                        before[j]
                    },
            decreases PAGE_SIZE - i,
        {
            self.image.set(base + i, page.data[i]);
            i = i + 1;
        }
        assert(self.image@ =~= write_image(before, page.id as int, page.data@));
        Ok(())
    }

    /// Appends a zero-filled page with the next id (the number of whole pages)
    /// and returns a copy of it; fails with `StoreFull` if the store cannot
    /// grow by a page.
    pub fn allocate_page(&mut self) -> (r: Result<Page, StorageError>)
        ensures
            (page_count(old(self)@) + 1) * PAGE_SIZE > usize::MAX ==> r == Err::<
                Page,
                StorageError,
            >(StorageError::StoreFull) && final(self)@ == old(self)@,
            (page_count(old(self)@) + 1) * PAGE_SIZE <= usize::MAX ==> (r matches Ok(p) && p.id
                == page_count(old(self)@) && p.data@ == zero_page() && final(self)@
                == alloc_image(old(self)@)),
    {
        let count = self.image.len() / PAGE_SIZE;
        if count >= usize::MAX / PAGE_SIZE {
            return Err(StorageError::StoreFull);
        }
        let base = count * PAGE_SIZE;
        self.image.truncate(base);
        let mut i: usize = 0;
        while i < PAGE_SIZE
            invariant
                base + PAGE_SIZE <= usize::MAX,
                base == count * PAGE_SIZE,
                i <= PAGE_SIZE,
                self.image@.len() == base + i,
                forall|j: int| 0 <= j < base ==> #[trigger] self.image@[j] == old(self)@[j],
                forall|j: int| base <= j < base + i ==> #[trigger] self.image@[j] == 0u8,
            decreases PAGE_SIZE - i,
        {
            self.image.push(0u8);
            i = i + 1;
        }
        assert(self.image@ =~= alloc_image(old(self)@));
        Ok(Page::new(count as u64))
    }

    /// Lays a logged record over its page. Changing nothing, it fails with
    /// `InvalidRecord` if the record does not fit its page, and with
    /// `PageNotFound` if that page was never allocated.
    pub fn apply_record(&mut self, rec: &WalRecord) -> (r: Result<(), StorageError>)
        ensures
            !rec@.valid() ==> r == Err::<(), StorageError>(StorageError::InvalidRecord)
                && final(self)@ == old(self)@,
            rec@.valid() && apply_image(old(self)@, rec@) is None ==> r == Err::<(), StorageError>(
                StorageError::PageNotFound(rec.page_id),
            ) && final(self)@ == old(self)@,
            apply_image(old(self)@, rec@) matches Some(img) ==> r is Ok && final(self)@ == img,
    {
        if !rec.is_valid() {
            return Err(StorageError::InvalidRecord);
        }
        let mut page = match self.read_page(rec.page_id) {
            Ok(p) => p,
            Err(e) => return Err(e),
        };
        let ghost unpatched = page.data@;
        let start = rec.offset as usize;
        let mut i: usize = 0;
        while i < rec.data.len()
            invariant
                rec@.valid(),
                start == rec.offset,
                i <= rec.data@.len(),
                page.id == rec.page_id,
                forall|j: int|
                    0 <= j < PAGE_SIZE ==> #[trigger] page.data@[j] == if start <= j < start + i {
                        rec.data@[j - start]
                    } else {
                        unpatched[j]
                    },
            decreases rec.data@.len() - i,
        {
            page.data[start + i] = rec.data[i];
            i = i + 1;
        }
        assert(page.data@ =~= patched(unpatched, rec@));
        let len = self.image.len();
        proof {
            lemma_write_existing_in_place(self@, rec.page_id as int, page.data@);
            assert((rec.page_id + 1) * PAGE_SIZE <= len);
        }
        self.write_page(&page)
    }

    /// Applies logged records in order, stopping with an error at the first
    /// that cannot be replayed (`InvalidRecord`) or whose page is absent
    /// (`PageNotFound`).
    pub fn replay(&mut self, records: &Vec<WalRecord>) -> (r: Result<(), StorageError>)
        ensures
            replay_image(old(self)@, entries(records@)) is None ==> r is Err,
            replay_image(old(self)@, entries(records@)) matches Some(img) ==> r is Ok
                && final(self)@ == img,
    {
        let mut i: usize = 0;
        assert(entries(records@.subrange(0, 0)) =~= Seq::<LogEntry>::empty());
        while i < records.len()
            invariant
                i <= records@.len(),
                replay_image(old(self)@, entries(records@.subrange(0, i as int))) == Some(
                    self@,
                ),
            decreases records@.len() - i,
        {
            let ghost done = entries(records@.subrange(0, i as int));
            let ghost next = entries(records@.subrange(0, i + 1));
            assert(next.drop_last() =~= done);
            assert(next.last() == records@[i as int]@);
            let step = self.apply_record(&records[i]);
            if step.is_err() {
                proof {
                    assert(entries(records@).subrange(0, i as int + 1) =~= next);
                    lemma_replay_stays_none(old(self)@, entries(records@), i as int + 1);
                }
                return step;
            }
            i = i + 1;
        }
        assert(records@.subrange(0, i as int) =~= records@);
        Ok(())
    }
}


/// Once a record's page is missing, replaying any longer prefix fails too.
proof fn lemma_replay_stays_none(img: Seq<u8>, es: Seq<LogEntry>, n: int)
    requires
        0 < n <= es.len(),
        replay_image(img, es.subrange(0, n)) is None,
    ensures
        replay_image(img, es) is None,
    decreases es.len() - n,
{
    if n < es.len() {
        let longer = es.subrange(0, n + 1);
        assert(longer.drop_last() =~= es.subrange(0, n));
        lemma_replay_stays_none(img, es, n + 1);
    } else {
        assert(es.subrange(0, n) =~= es);
    }
}

/// Writing a page and reading it back returns exactly the bytes written,
/// whether the page existed before or the write grew the store.
pub proof fn lemma_write_read_round_trip(img: Seq<u8>, id: int, data: Seq<u8>)
    requires
        0 <= id,
        data.len() == PAGE_SIZE,
    ensures
        page_exists(stored_image(img, id, data), id),
        page_bytes(stored_image(img, id, data), id) == data,
{
    let x = extended(img, id);
    let w = stored_image(img, id, data);
    assert(x.len() >= id * PAGE_SIZE + PAGE_SIZE);
    assert(w.len() == x.len());
    assert(id < w.len() as int / PAGE_SIZE as int) by (nonlinear_arith)
        requires
            w.len() >= id * PAGE_SIZE + PAGE_SIZE,
            0 <= id,
    ;
    assert(page_bytes(w, id) =~= data);
}

/// An existing page is written in place: the store neither grows nor shrinks.
pub proof fn lemma_write_existing_in_place(img: Seq<u8>, id: int, data: Seq<u8>)
    requires
        page_exists(img, id),
    ensures
        id * PAGE_SIZE + PAGE_SIZE <= img.len(),
        extended(img, id) == img,
        stored_image(img, id, data) == write_image(img, id, data),
{
    assert(id * PAGE_SIZE + PAGE_SIZE <= img.len()) by (nonlinear_arith)
        requires
            0 <= id < img.len() as int / PAGE_SIZE as int,
    ;
}

/// Allocating from an empty store hands out the ids 0, 1, 2, ... in order:
/// before the allocation numbered `i`, the store holds exactly `i` pages.
pub proof fn lemma_allocation_ids(n: nat)
    ensures
        allocate_times(Seq::empty(), n).len() == n * PAGE_SIZE,
        forall|i: nat| i <= n ==> page_count(#[trigger] allocate_times(Seq::empty(), i)) == i,
{
    lemma_allocation_len(n);
    assert forall|i: nat| i <= n implies page_count(#[trigger] allocate_times(Seq::empty(), i))
        == i by {
        lemma_allocation_len(i);
    }
}

/// On a store of whole pages, an allocation adds exactly one page: the next
/// allocation returns the next id, so ids are never skipped nor reused.
pub proof fn lemma_allocate_next(img: Seq<u8>)
    requires
        img.len() % (PAGE_SIZE as nat) == 0,
    ensures
        alloc_image(img).len() == img.len() + PAGE_SIZE,
        alloc_image(img).len() % (PAGE_SIZE as nat) == 0,
        page_count(alloc_image(img)) == page_count(img) + 1,
{
    let len = img.len() as int;
    assert((len / 4096) * 4096 == len) by (nonlinear_arith)
        requires
            len % 4096 == 0,
            len >= 0,
    ;
    assert(page_count(img) * PAGE_SIZE == len);
    let m = alloc_image(img).len() as int;
    assert(m == len + PAGE_SIZE);
    assert(m % 4096 == 0 && m / 4096 == len / 4096 + 1) by (nonlinear_arith)
        requires
            len % 4096 == 0,
            m == len + 4096,
            len >= 0,
    ;
}

/// After `n` allocations from an empty store it holds `n` whole pages.
proof fn lemma_allocation_len(n: nat)
    ensures
        allocate_times(Seq::empty(), n).len() == n * PAGE_SIZE,
        page_count(allocate_times(Seq::empty(), n)) == n,
    decreases n,
{
    if n > 0 {
        lemma_allocation_len((n - 1) as nat);
        let prev = allocate_times(Seq::<u8>::empty(), (n - 1) as nat);
        assert(page_count(prev) * PAGE_SIZE == prev.len());
        assert(allocate_times(Seq::<u8>::empty(), n).len() == n * PAGE_SIZE) by (nonlinear_arith)
            requires
                allocate_times(Seq::<u8>::empty(), n).len() == prev.len() + PAGE_SIZE,
                prev.len() == (n - 1) * PAGE_SIZE,
        ;
    }
    let len = allocate_times(Seq::<u8>::empty(), n).len();
    assert(len as int / PAGE_SIZE as int == n) by (nonlinear_arith)
        requires
            len == n * PAGE_SIZE,
    ;
}

/// A page mutation that reached the log but not the store is recovered by
/// replaying the log: the page then holds exactly the intended bytes.
pub proof fn lemma_recover_logged_write(img: Seq<u8>, e: LogEntry)
    requires
        e.valid(),
        page_exists(img, e.page_id as int),
    ensures
        replay_image(img, decode_log(e.frame())) == Some(
            write_image(img, e.page_id as int, patched(page_bytes(img, e.page_id as int), e)),
        ),
        page_bytes(
            write_image(img, e.page_id as int, patched(page_bytes(img, e.page_id as int), e)),
            e.page_id as int,
        ) == patched(page_bytes(img, e.page_id as int), e),
{
    let id = e.page_id as int;
    lemma_read_back_appended(seq![e]);
    assert(seq![e].drop_first() =~= Seq::<LogEntry>::empty());
    assert(frames(Seq::<LogEntry>::empty()) == Seq::<u8>::empty());
    assert(frames(seq![e]) == e.frame() + frames(Seq::<LogEntry>::empty()));
    assert(frames(seq![e]) =~= e.frame());
    assert(seq![e].drop_last() =~= Seq::<LogEntry>::empty());
    assert(replay_image(img, Seq::<LogEntry>::empty()) == Some(img));
    assert(seq![e].last() == e);
    assert(decode_log(e.frame()) == seq![e]);
    lemma_write_existing_in_place(img, id, patched(page_bytes(img, id), e));
    lemma_write_read_round_trip(img, id, patched(page_bytes(img, id), e));
}

} // verus!

use vstd::prelude::*;
use crate::api::{VrApiReq, ReqView, copy_bytes};

verus! {

pub ghost struct EntryView {
    pub view: u64,
    pub op_number: u64,
    pub client_id: u128,
    pub request_num: u64,
    pub op: ReqView,
}

/// One operation of the log, stamped with the view that accepted it.
#[derive(Debug, Clone, PartialEq, Eq)]
pub struct LogEntry {
    pub view: u64,
    pub op_number: u64,
    pub client_id: u128,
    pub request_num: u64,
    pub op: VrApiReq,
}

impl View for LogEntry {
    type V = EntryView;

    open spec fn view(&self) -> EntryView {
        EntryView {
            view: self.view,
            op_number: self.op_number,
            client_id: self.client_id,
            request_num: self.request_num,
            op: self.op@,
        }
    }
}

pub open spec fn entries_view(v: Seq<LogEntry>) -> Seq<EntryView> {
    v.map_values(|e: LogEntry| e@)
}

/// The entries are numbered 1, 2, 3, ... in order.
pub open spec fn numbered(s: Seq<EntryView>) -> bool {
    numbered_from(s, 0)
}

/// The entries are numbered `k + 1`, `k + 2`, ... in order.
pub open spec fn numbered_from(s: Seq<EntryView>, k: int) -> bool {
    forall|i: int| 0 <= i < s.len() ==> #[trigger] s[i].op_number == k + i + 1
}

fn same_bytes(a: &Vec<u8>, b: &Vec<u8>) -> (r: bool)
    ensures
        r == (a@ == b@),
{
    if a.len() != b.len() {
        return false;
    }
    let mut i: usize = 0;
    while i < a.len()
        invariant
            i <= a.len() == b.len(),
            a@.take(i as int) == b@.take(i as int),
        decreases a.len() - i,
    {
        if a[i] != b[i] {
            assert(a@[i as int] != b@[i as int]);
            return false;
        }
        i = i + 1;
        assert(a@.take(i as int) =~= a@.take(i - 1).push(a@[i - 1]));
        assert(b@.take(i as int) =~= b@.take(i - 1).push(b@[i - 1]));
    }
    assert(a@ =~= a@.take(a.len() as int));
    assert(b@ =~= b@.take(b.len() as int));
    true
}

/// Whether two requests have the same value.
pub fn same_request(a: &VrApiReq, b: &VrApiReq) -> (r: bool)
    ensures
        r == (a@ == b@),
{
    match (a, b) {
        (VrApiReq::Create { path: p, ty: t }, VrApiReq::Create { path: q, ty: u }) => *p == *q && *t
            == *u,
        (
            VrApiReq::Put { path: p, data: d, cas_tag: c },
            VrApiReq::Put { path: q, data: e, cas_tag: f },
        ) => *p == *q && same_bytes(d, e) && *c == *f,
        (VrApiReq::Delete { path: p, cas_tag: c }, VrApiReq::Delete { path: q, cas_tag: f }) => *p
            == *q && *c == *f,
        (VrApiReq::Get { path: p, cas: c }, VrApiReq::Get { path: q, cas: f }) => *p == *q && *c
            == *f,
        (VrApiReq::List { path: p }, VrApiReq::List { path: q }) => *p == *q,
        _ => false,
    }
}

impl LogEntry {
    pub fn duplicate(&self) -> (r: LogEntry)
        ensures
            r@ == self@,
    {
        LogEntry {
            view: self.view,
            op_number: self.op_number,
            client_id: self.client_id,
            request_num: self.request_num,
            op: self.op.duplicate(),
        }
    }

    pub fn same(&self, o: &LogEntry) -> (r: bool)
        ensures
            r == (self@ == o@),
    {
        self.view == o.view && self.op_number == o.op_number && self.client_id == o.client_id
            && self.request_num == o.request_num && same_request(&self.op, &o.op)
    }
}

/// Copies `v[from..to]`.
pub fn copy_entries(v: &Vec<LogEntry>, from: usize, to: usize) -> (r: Vec<LogEntry>)
    requires
        from <= to <= v.len(),
    ensures
        entries_view(r@) == entries_view(v@).subrange(from as int, to as int),
{
    let mut r: Vec<LogEntry> = Vec::new();
    let mut i: usize = from;
    while i < to
        invariant
            from <= i <= to <= v.len(),
            entries_view(r@) =~= entries_view(v@).subrange(from as int, i as int),
        decreases to - i,
    {
        let ghost before = r@;
        r.push(v[i].duplicate());
        assert(entries_view(r@) =~= entries_view(before).push(v@[i as int]@));
        i = i + 1;
    }
    r
}

/// The append-only sequence of operations, indexed by operation number from 1.
pub struct Log {
    entries: Vec<LogEntry>,
}

impl View for Log {
    type V = Seq<EntryView>;

    closed spec fn view(&self) -> Seq<EntryView> {
        entries_view(self.entries@)
    }
}

impl Log {
    pub open spec fn wf(&self) -> bool {
        numbered(self@)
    }

    pub fn new() -> (r: Log)
        ensures
            r@ == Seq::<EntryView>::empty(),
            r.wf(),
    {
        let r = Log { entries: Vec::new() };
        assert(r@ =~= Seq::<EntryView>::empty());
        r
    }

    /// The number of the last entry, 0 when the log is empty.
    pub fn last_index(&self) -> (r: u64)
        ensures
            r == self@.len(),
    {
        self.entries.len() as u64
    }

    /// The entry numbered `op_number`.
    pub fn entry(&self, op_number: u64) -> (r: &LogEntry)
        requires
            1 <= op_number <= self@.len(),
        ensures
            r@ == self@[op_number - 1],
    {
        let len = self.entries.len();
        assert(self@.len() == len);
        &self.entries[(op_number - 1) as usize]
    }

    /// Adds the next entry.
    pub fn append(&mut self, entry: LogEntry)
        requires
            old(self).wf(),
            entry.op_number == old(self)@.len() + 1,
        ensures
            final(self)@ == old(self)@.push(entry@),
            final(self).wf(),
    {
        let ghost before = self.entries@;
        self.entries.push(entry);
        assert(entries_view(self.entries@) =~= entries_view(before).push(entry@));
    }

    /// Drops every entry numbered above `op_number`.
    pub fn truncate_after(&mut self, op_number: u64)
        requires
            old(self).wf(),
            op_number <= old(self)@.len(),
        ensures
            final(self)@ == old(self)@.take(op_number as int),
            final(self).wf(),
    {
        self.entries.truncate(op_number as usize);
        assert(self@ =~= old(self)@.take(op_number as int));
    }

    /// Copies of the entries numbered `from + 1` to `to`.
    pub fn slice(&self, from: u64, to: u64) -> (r: Vec<LogEntry>)
        requires
            from <= to <= self@.len(),
        ensures
            entries_view(r@) == self@.subrange(from as int, to as int),
    {
        let len = self.entries.len();
        assert(self@.len() == len);
        copy_entries(&self.entries, from as usize, to as usize)
    }

    /// Copies of all entries.
    pub fn copy_all(&self) -> (r: Vec<LogEntry>)
        ensures
            entries_view(r@) == self@,
    {
        let r = copy_entries(&self.entries, 0, self.entries.len());
        assert(self@.subrange(0, self@.len() as int) =~= self@);
        r
    }

    /// Whether `other` starts with the first `n` entries of this log.
    pub fn prefix_of(&self, n: u64, other: &Vec<LogEntry>) -> (r: bool)
        requires
            n <= self@.len(),
        ensures
            r == (n <= other@.len() && entries_view(other@).take(n as int) == self@.take(n as int)),
    {
        assert(self@.len() == self.entries@.len());
        if (other.len() as u64) < n {
            return false;
        }
        let mut i: usize = 0;
        while i < n as usize
            invariant
                i <= n <= self@.len(),
                n <= other@.len(),
                entries_view(other@).take(i as int) == self@.take(i as int),
            decreases n - i,
        {
            if !self.entries[i].same(&other[i]) {
                assert(entries_view(other@).take(n as int)[i as int] != self@.take(n as int)[i as int]);
                return false;
            }
            i = i + 1;
            assert(entries_view(other@).take(i as int) =~= entries_view(other@).take(i - 1).push(other@[i - 1]@));
            assert(self@.take(i as int) =~= self@.take(i - 1).push(self@[i - 1]));
        }
        true
    }

    /// Replaces the whole log.
    pub fn replace(&mut self, entries: Vec<LogEntry>)
        requires
            numbered(entries_view(entries@)),
        ensures
            final(self)@ == entries_view(entries@),
            final(self).wf(),
    {
        self.entries = entries;
    }

    /// Whether the given entries are numbered `k + 1`, `k + 2`, ...
    pub fn check_numbered(entries: &Vec<LogEntry>, k: u64) -> (r: bool)
        ensures
            r == numbered_from(entries_view(entries@), k as int),
    {
        let mut i: usize = 0;
        while i < entries.len()
            invariant
                i <= entries.len(),
                forall|j: int| 0 <= j < i ==> #[trigger] entries@[j].op_number == k + j + 1,
            decreases entries.len() - i,
        {
            if entries[i].op_number as u128 != k as u128 + i as u128 + 1 {
                assert(entries_view(entries@)[i as int].op_number != k + i + 1);
                return false;
            }
            i = i + 1;
        }
        assert(forall|j: int| 0 <= j < entries@.len() ==> entries_view(entries@)[j] == entries@[j]@);
        true
    }
}

} // verus!

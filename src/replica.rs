use vstd::prelude::*;
use crate::api::{VrApiReq, VrApiRsp, RspView};
use crate::namespace::{NamespaceStore, StoreView, apply_spec};
use crate::client_table::{ClientTable, ClientView, record_spec, cached_spec};
use crate::log::{Log, LogEntry, EntryView, entries_view, numbered, numbered_from};
use crate::quorum::{QuorumTracker, ack_count, majority_of};

verus! {

pub open spec fn empty_store() -> StoreView {
    StoreView { nodes: Seq::empty(), version: 0 }
}

/// The store and client table reached by executing `entries` in order on a
/// fresh replica. An entry whose request the client table has already answered
/// is not executed again.
pub open spec fn replay(entries: Seq<EntryView>) -> (StoreView, Seq<ClientView>)
    decreases entries.len(),
{
    if entries.len() == 0 {
        (empty_store(), Seq::empty())
    } else {
        let prev = replay(entries.drop_last());
        let e = entries.last();
        if cached_spec(prev.1, e.client_id, e.request_num) is Some {
            prev
        } else {
            let (s, r) = apply_spec(prev.0, e.op);
            (s, record_spec(prev.1, e.client_id, e.request_num, r))
        }
    }
}

/// The reply owed to log entry `k` when it commits: the cached reply when the
/// client table has already answered that request, else what applying it gives.
/// It is also what the client table records for the request.
pub open spec fn reply_at(log: Seq<EntryView>, k: int) -> RspView {
    let prev = replay(log.take(k));
    let e = log[k];
    match cached_spec(prev.1, e.client_id, e.request_num) {
        Some(v) => v,
        None => apply_spec(prev.0, e.op).1,
    }
}

/// `o` is the reply to the client of log entry `k`.
pub open spec fn reply_for(o: Outbound, log: Seq<EntryView>, k: int) -> bool {
    o matches Outbound::Reply { client_id, request_num, value } && client_id == log[k].client_id
        && request_num == log[k].request_num && value@ == reply_at(log, k)
}

/// `out` holds the replies to log entries `from + 1` to `to`, one each, in order.
pub open spec fn replies_for(out: Seq<Outbound>, log: Seq<EntryView>, from: int, to: int) -> bool {
    out.len() == to - from && forall|j: int| 0 <= j < out.len() ==> reply_for(#[trigger] out[j], log, from + j)
}

/// The commit number after taking a log of `len` entries offered with
/// `offered`: it goes up to `offered` as far as the log reaches, never down.
pub open spec fn commit_after(current: u64, offered: u64, len: int) -> int {
    if current < offered {
        if offered < len {
            offered as int
        } else {
            len
        }
    } else {
        current as int
    }
}

/// Where a replica stands in the protocol.
#[derive(Clone, Copy, Debug, PartialEq, Eq, Structural)]
pub enum Status {
    Normal,
    ViewChange,
    Recovering,
}

/// What a replica reports to the prospective primary of a new view.
#[derive(Debug)]
pub struct ViewChangeReport {
    pub from: u64,
    pub log: Vec<LogEntry>,
    pub last_normal_view: u64,
    pub commit_number: u64,
}

/// Messages between replicas.
#[derive(Debug)]
pub enum VrMsg {
    Prepare { view: u64, op_number: u64, commit_number: u64, entry: LogEntry },
    PrepareOk { view: u64, op_number: u64, from: u64 },
    Commit { view: u64, commit_number: u64 },
    StartViewChange { view: u64, from: u64 },
    DoViewChange { view: u64, report: ViewChangeReport },
    StartView { view: u64, log: Vec<LogEntry>, commit_number: u64 },
    GetState { view: u64, op_number: u64, from: u64 },
    NewState { view: u64, op_number: u64, entries: Vec<LogEntry>, commit_number: u64 },
}

/// What a replica asks its transport to do.
#[derive(Debug)]
pub enum Outbound {
    Reply { client_id: u128, request_num: u64, value: VrApiRsp },
    Broadcast(VrMsg),
    Send { to: u64, msg: VrMsg },
}

/// A log that a replica can take: numbered from 1, and holding what the
/// replica has committed unchanged.
pub open spec fn acceptable(rep: &Replica, log: &Vec<LogEntry>) -> bool {
    &&& numbered(entries_view(log@))
    &&& rep.spec_commit() <= log@.len()
    &&& entries_view(log@).take(rep.spec_commit() as int) == rep.spec_log().take(
        rep.spec_commit() as int,
    )
}

fn has_report_from(reports: &Vec<ViewChangeReport>, from: u64) -> (r: bool)
    ensures
        r == exists|i: int| 0 <= i < reports@.len() && #[trigger] reports@[i].from == from,
{
    let mut k: usize = 0;
    while k < reports.len()
        invariant
            k <= reports.len(),
            forall|i: int| 0 <= i < k ==> #[trigger] reports@[i].from != from,
        decreases reports.len() - k,
    {
        if reports[k].from == from {
            return true;
        }
        k = k + 1;
    }
    false
}

/// The largest commit number among `floor` and those reported.
fn max_commit(reports: &Vec<ViewChangeReport>, floor: u64) -> (r: u64)
    ensures
        floor <= r,
        forall|i: int| 0 <= i < reports@.len() ==> #[trigger] reports@[i].commit_number <= r,
        r == floor || exists|i: int| 0 <= i < reports@.len() && #[trigger] reports@[i].commit_number == r,
{
    let mut commit = floor;
    let mut j: usize = 0;
    while j < reports.len()
        invariant
            j <= reports.len(),
            floor <= commit,
            forall|i: int| 0 <= i < j ==> #[trigger] reports@[i].commit_number <= commit,
            commit == floor || exists|i: int| 0 <= i < reports@.len() && #[trigger] reports@[i].commit_number == commit,
        decreases reports.len() - j,
    {
        if reports[j].commit_number > commit {
            commit = reports[j].commit_number;
        }
        j = j + 1;
    }
    commit
}

proof fn lemma_take_chain(a: Seq<EntryView>, b: Seq<EntryView>, c: Seq<EntryView>, i: int, j: int)
    requires
        0 <= i <= j <= b.len(),
        i <= a.len(),
        j <= c.len(),
        b.take(i) == a.take(i),
        c.take(j) == b.take(j),
    ensures
        c.take(i) == a.take(i),
{
    assert(c.take(i) =~= c.take(j).take(i));
    assert(b.take(i) =~= b.take(j).take(i));
}

proof fn lemma_no_acks_beyond(acks: Seq<(u64, u64)>, op: u64)
    requires
        forall|i: int| 0 <= i < acks.len() ==> #[trigger] acks[i].0 < op,
    ensures
        ack_count(acks, op) == 0,
    decreases acks.len(),
{
    if acks.len() > 0 {
        lemma_no_acks_beyond(acks.drop_last(), op);
        assert(acks.last().0 < op);
    }
}

/// The ordering of reports by (last normal view, log length).
pub open spec fn report_le(a: &ViewChangeReport, b: &ViewChangeReport) -> bool {
    a.last_normal_view < b.last_normal_view || (a.last_normal_view == b.last_normal_view
        && a.log@.len() <= b.log@.len())
}

/// The report with the most advanced log: the largest last normal view, then
/// the longest log.
pub fn select_log(reports: &Vec<ViewChangeReport>) -> (r: usize)
    requires
        reports@.len() > 0,
    ensures
        r < reports@.len(),
        forall|i: int| 0 <= i < reports@.len() ==> report_le(&#[trigger] reports@[i], &reports@[r as int]),
{
    let mut best: usize = 0;
    let mut i: usize = 1;
    while i < reports.len()
        invariant
            best < i <= reports@.len(),
            forall|j: int| 0 <= j < i ==> report_le(&#[trigger] reports@[j], &reports@[best as int]),
        decreases reports.len() - i,
    {
        let a = &reports[i];
        let b = &reports[best];
        if a.last_normal_view > b.last_normal_view || (a.last_normal_view == b.last_normal_view
            && a.log.len() > b.log.len()) {
            best = i;
        }
        i = i + 1;
    }
    best
}

fn copy_log(v: &Vec<LogEntry>) -> (r: Vec<LogEntry>)
    ensures
        entries_view(r@) == entries_view(v@),
{
    let r = crate::log::copy_entries(v, 0, v.len());
    assert(entries_view(v@).subrange(0, v@.len() as int) =~= entries_view(v@));
    r
}

/// One replica of the group: the protocol state and the state it replicates.
pub struct Replica {
    me: u64,
    group_size: u64,
    view: u64,
    status: Status,
    last_normal_view: u64,
    commit_number: u64,
    log: Log,
    store: NamespaceStore,
    clients: ClientTable,
    acks: QuorumTracker,
    votes: QuorumTracker,
    reports: Vec<ViewChangeReport>,
}

impl Replica {
    pub closed spec fn spec_me(&self) -> u64 {
        self.me
    }

    pub closed spec fn spec_group_size(&self) -> u64 {
        self.group_size
    }

    pub closed spec fn spec_view(&self) -> u64 {
        self.view
    }

    pub closed spec fn spec_status(&self) -> Status {
        self.status
    }

    pub closed spec fn spec_last_normal_view(&self) -> u64 {
        self.last_normal_view
    }

    pub closed spec fn spec_commit(&self) -> u64 {
        self.commit_number
    }

    pub closed spec fn spec_log(&self) -> Seq<EntryView> {
        self.log@
    }

    pub closed spec fn spec_store(&self) -> StoreView {
        self.store@
    }

    pub closed spec fn spec_clients(&self) -> Seq<ClientView> {
        self.clients@
    }

    pub closed spec fn spec_acks(&self) -> Seq<(u64, u64)> {
        self.acks@
    }

    pub closed spec fn spec_votes(&self) -> Seq<(u64, u64)> {
        self.votes@
    }

    /// `o` sends this replica's report for its view to the view's prospective primary.
    pub open spec fn is_report(&self, o: Outbound) -> bool {
        o matches Outbound::Send { to, msg: VrMsg::DoViewChange { view, report } } && to
            == self.spec_view() % self.spec_group_size() && view == self.spec_view() && report.from
            == self.spec_me() && entries_view(report.log@) == self.spec_log()
            && report.last_normal_view == self.spec_last_normal_view() && report.commit_number
            == self.spec_commit()
    }

    pub closed spec fn spec_reports(&self) -> Seq<ViewChangeReport> {
        self.reports@
    }

    /// The reports a prospective primary holds once `report` for `view` is in.
    pub open spec fn reports_with(&self, view: u64, report: ViewChangeReport) -> Seq<ViewChangeReport> {
        if view > self.spec_view() {
            seq![report]
        } else {
            self.spec_reports().push(report)
        }
    }

    pub open spec fn spec_primary(&self) -> bool {
        self.spec_view() % self.spec_group_size() == self.spec_me()
    }

    /// The replicated state is the replay of the committed part of the log.
    pub closed spec fn inv(&self) -> bool {
        &&& self.log.wf()
        &&& self.store.wf()
        &&& 1 <= self.group_size
        &&& self.me < self.group_size
        &&& self.acks.group() == self.group_size
        &&& self.votes.group() == self.group_size
        &&& self.commit_number <= self.log@.len()
        &&& forall|i: int| 0 <= i < self.acks@.len() ==> #[trigger] self.acks@[i].0 <= self.log@.len()
        &&& (self.store@, self.clients@) == replay(self.log@.take(self.commit_number as int))
    }

    /// Nothing committed is lost: the commit number does not go down, the
    /// committed entries stay as they were, and the view does not go back.
    pub open spec fn keeps_committed(&self, prev: &Replica) -> bool {
        &&& prev.spec_commit() <= self.spec_commit() <= self.spec_log().len()
        &&& self.spec_log().take(prev.spec_commit() as int) == prev.spec_log().take(
            prev.spec_commit() as int,
        )
        &&& prev.spec_view() <= self.spec_view()
        &&& self.spec_me() == prev.spec_me()
        &&& self.spec_group_size() == prev.spec_group_size()
    }

    /// Same protocol and replicated state.
    pub open spec fn unchanged(&self, prev: &Replica) -> bool {
        &&& self.spec_view() == prev.spec_view()
        &&& self.spec_status() == prev.spec_status()
        &&& self.spec_last_normal_view() == prev.spec_last_normal_view()
        &&& self.spec_commit() == prev.spec_commit()
        &&& self.spec_log() == prev.spec_log()
        &&& self.spec_store() == prev.spec_store()
        &&& self.spec_clients() == prev.spec_clients()
        &&& self.spec_me() == prev.spec_me()
        &&& self.spec_group_size() == prev.spec_group_size()
    }

    /// A replica `me` of a group of `group_size`, with an empty log and store.
    /// It starts in `Normal` when `bootstrap` is set and `Recovering` otherwise.
    pub fn new(me: u64, group_size: u64, bootstrap: bool) -> (r: Replica)
        requires
            me < group_size,
        ensures
            r.inv(),
            r.spec_me() == me,
            r.spec_group_size() == group_size,
            r.spec_view() == 0,
            r.spec_status() == (if bootstrap {
                Status::Normal
            } else {
                Status::Recovering
            }),
            r.spec_commit() == 0,
            r.spec_log() == Seq::<EntryView>::empty(),
            r.spec_store() == empty_store(),
            r.spec_clients() == Seq::<ClientView>::empty(),
    {
        let r = Replica {
            me,
            group_size,
            view: 0,
            status: if bootstrap {
                Status::Normal
            } else {
                Status::Recovering
            },
            last_normal_view: 0,
            commit_number: 0,
            log: Log::new(),
            store: NamespaceStore::new(),
            clients: ClientTable::new(),
            acks: QuorumTracker::new(group_size),
            votes: QuorumTracker::new(group_size),
            reports: Vec::new(),
        };
        assert(r.log@.take(0) =~= Seq::<EntryView>::empty());
        r
    }

    pub fn view_number(&self) -> (r: u64)
        ensures
            r == self.spec_view(),
    {
        self.view
    }

    pub fn status(&self) -> (r: Status)
        ensures
            r == self.spec_status(),
    {
        self.status
    }

    pub fn commit_number(&self) -> (r: u64)
        ensures
            r == self.spec_commit(),
    {
        self.commit_number
    }

    /// The number of the last entry of the log.
    pub fn op_number(&self) -> (r: u64)
        ensures
            r == self.spec_log().len(),
    {
        self.log.last_index()
    }

    /// The last tag the store has handed out: it grows by one with each mutation.
    pub fn store_version(&self) -> (r: u64)
        ensures
            r == self.spec_store().version,
    {
        self.store.version()
    }

    pub fn is_primary(&self) -> (r: bool)
        requires
            self.inv(),
        ensures
            r == self.spec_primary(),
    {
        self.view % self.group_size == self.me
    }

    /// Applies the log entries after the commit number up to `upto`, in order.
    /// A primary hands back the reply of each.
    fn apply_committed(&mut self, upto: u64) -> (r: Vec<Outbound>)
        requires
            old(self).inv(),
            old(self).spec_commit() <= upto <= old(self).spec_log().len(),
        ensures
            final(self).inv(),
            final(self).spec_commit() == upto,
            final(self).spec_log() == old(self).spec_log(),
            final(self).spec_view() == old(self).spec_view(),
            final(self).spec_status() == old(self).spec_status(),
            final(self).spec_last_normal_view() == old(self).spec_last_normal_view(),
            final(self).spec_me() == old(self).spec_me(),
            final(self).spec_group_size() == old(self).spec_group_size(),
            old(self).spec_primary() ==> replies_for(r@, old(self).spec_log(), old(self).spec_commit() as int, upto as int),
            !old(self).spec_primary() ==> r@.len() == 0,
    {
        let primary = self.view % self.group_size == self.me;
        let mut out: Vec<Outbound> = Vec::new();
        while self.commit_number < upto
            invariant
                self.inv(),
                old(self).spec_commit() <= self.commit_number <= upto <= self.log@.len(),
                self.log@ == old(self).spec_log(),
                self.view == old(self).spec_view(),
                self.status == old(self).spec_status(),
                self.last_normal_view == old(self).spec_last_normal_view(),
                self.me == old(self).spec_me(),
                self.group_size == old(self).spec_group_size(),
                primary == old(self).spec_primary(),
                primary ==> replies_for(out@, self.log@, old(self).spec_commit() as int, self.commit_number as int),
                !primary ==> out@.len() == 0,
            decreases upto - self.commit_number,
        {
            let ghost before = out@;
            let n = self.commit_number + 1;
            let e = self.log.entry(n);
            let cid = e.client_id;
            let rn = e.request_num;
            assert(self.log@.take(n as int).drop_last() =~= self.log@.take(n - 1));
            assert(self.log@.take(n as int).last() == self.log@[n - 1]);
            match self.clients.cached(cid, rn) {
                Some(v) => {
                    if primary {
                        out.push(Outbound::Reply { client_id: cid, request_num: rn, value: v });
                    }
                },
                None => {
                    let v = self.store.apply(&e.op);
                    if primary {
                        out.push(
                            Outbound::Reply { client_id: cid, request_num: rn, value: v.duplicate() },
                        );
                    }
                    self.clients.record(cid, rn, v);
                },
            }
            self.commit_number = n;
            assert(primary ==> out@ =~= before.push(out@.last()));
            assert(primary ==> reply_for(out@.last(), self.log@, n - 1));
        }
        out
    }

    /// The message asking the primary of `view` for the entries after `op_number`.
    fn get_state(&self, view: u64) -> (r: Outbound)
        requires
            self.inv(),
        ensures
            r matches Outbound::Send { to, msg: VrMsg::GetState { view: v, op_number: n, from } }
                && to == view % self.spec_group_size() && v == view && n == self.spec_commit()
                && from == self.spec_me(),
    {
        Outbound::Send {
            to: view % self.group_size,
            msg: VrMsg::GetState { view, op_number: self.commit_number, from: self.me },
        }
    }

    /// Learns that a peer is in the later `view`: drops what is not committed and
    /// asks the primary of that view for the rest.
    fn begin_recovery(&mut self, view: u64) -> (r: Vec<Outbound>)
        requires
            old(self).inv(),
            old(self).spec_view() < view,
        ensures
            final(self).inv(),
            final(self).keeps_committed(old(self)),
            final(self).spec_view() == view,
            final(self).spec_status() == Status::Recovering,
            final(self).spec_log() == old(self).spec_log().take(old(self).spec_commit() as int),
            final(self).spec_commit() == old(self).spec_commit(),
    {
        self.log.truncate_after(self.commit_number);
        self.acks.clear();
        assert(self.log@.take(self.commit_number as int) =~= self.log@);
        self.view = view;
        self.status = Status::Recovering;
        let m = self.get_state(view);
        let mut out: Vec<Outbound> = Vec::new();
        out.push(m);
        out
    }

    /// A client request reaching this replica. Only the primary of a view in
    /// `Normal` takes it: a request already answered gets its cached reply, a
    /// new one becomes the next log entry and is sent to the backups.
    pub fn handle_client_request(&mut self, client_id: u128, request_num: u64, op: VrApiReq) -> (r:
        Vec<Outbound>)
        requires
            old(self).inv(),
        ensures
            final(self).inv(),
            final(self).keeps_committed(old(self)),
            !(old(self).spec_status() == Status::Normal && old(self).spec_primary()) ==> final(self).unchanged(old(self)) && r@.len() == 0,
            old(self).spec_status() == Status::Normal && old(self).spec_primary() && cached_spec(
                old(self).spec_clients(),
                client_id,
                request_num,
            ) is Some ==> final(self).unchanged(old(self)) && r@.len() == 1 && (r@[0] matches Outbound::Reply { client_id: c, request_num: n, value: v } && c == client_id && n
                == request_num && v@ == cached_spec(old(self).spec_clients(), client_id, request_num)->0),
            old(self).spec_status() == Status::Normal && old(self).spec_primary() && cached_spec(
                old(self).spec_clients(),
                client_id,
                request_num,
            ) is None && old(self).spec_log().len() < u64::MAX ==> final(self).spec_log() == old(self).spec_log().push(
                EntryView {
                    view: old(self).spec_view(),
                    op_number: (old(self).spec_log().len() + 1) as u64,
                    client_id,
                    request_num,
                    op: op@,
                },
            ) && final(self).spec_view() == old(self).spec_view() && final(self).spec_status()
                == Status::Normal && r@.len() >= 1 && (r@[0] matches Outbound::Broadcast(VrMsg::Prepare { view, op_number, commit_number, entry })
                && view == old(self).spec_view() && op_number == old(self).spec_log().len() + 1
                && commit_number == old(self).spec_commit() && entry@ == final(self).spec_log().last())
                && (old(self).spec_group_size() == 1 ==> final(self).spec_commit() == final(self).spec_log().len()
                && replies_for(r@.skip(1), final(self).spec_log(), old(self).spec_commit() as int,
                final(self).spec_commit() as int))
                && (old(self).spec_group_size() > 1 ==> r@.len() == 1 && final(self).spec_commit()
                == old(self).spec_commit()),
    {
        let mut out: Vec<Outbound> = Vec::new();
        if self.status != Status::Normal || !self.is_primary() {
            return out;
        }
        match self.clients.cached(client_id, request_num) {
            Some(v) => {
                out.push(Outbound::Reply { client_id, request_num, value: v });
                return out;
            },
            None => {},
        }
        let len = self.log.last_index();
        if len == u64::MAX {
            return out;
        }
        let op_number = len + 1;
        let entry = LogEntry { view: self.view, op_number, client_id, request_num, op };
        let sent = entry.duplicate();
        self.log.append(entry);
        assert(self.log@.take(self.commit_number as int) =~= old(self).log@.take(
            self.commit_number as int,
        ));
        out.push(
            Outbound::Broadcast(
                VrMsg::Prepare {
                    view: self.view,
                    op_number,
                    commit_number: self.commit_number,
                    entry: sent,
                },
            ),
        );
        proof {
            lemma_no_acks_beyond(self.acks@, op_number);
            if self.acks@.contains((op_number, self.me)) {
                let i = choose|i: int| 0 <= i < self.acks@.len() && self.acks@[i] == (op_number, self.me);
                assert(self.acks@[i].0 < op_number);
            }
        }
        assert(self.group_size > 1 ==> majority_of(self.group_size as nat) > 1);
        if self.acks.register_ack(op_number, self.me) {
            let ghost head = out@;
            let mut replies = self.apply_committed(op_number);
            out.append(&mut replies);
            assert(head.len() == 1);
            assert(out@.skip(1) =~= out@.subrange(1, out@.len() as int));
        }
        out
    }

    /// A `Prepare` from the primary, at a backup. The entry is taken when it is
    /// the next one of the current view; a gap asks for state transfer, a later
    /// view starts recovery, and an earlier one is dropped.
    pub fn handle_prepare(&mut self, view: u64, op_number: u64, commit_number: u64, entry: LogEntry) -> (r:
        Vec<Outbound>)
        requires
            old(self).inv(),
        ensures
            final(self).inv(),
            final(self).keeps_committed(old(self)),
            view < old(self).spec_view() ==> final(self).unchanged(old(self)),
            view > old(self).spec_view() ==> final(self).spec_status() == Status::Recovering
                && final(self).spec_view() == view,
            view == old(self).spec_view() && old(self).spec_status() == Status::Normal && !old(self).spec_primary()
                && op_number > old(self).spec_log().len() + 1 ==> final(self).unchanged(old(self))
                && r@.len() == 1 && (r@[0] matches Outbound::Send { to, msg: VrMsg::GetState { view: v, op_number: n, from } }
                && to == view % old(self).spec_group_size() && v == view && n == old(self).spec_commit()
                && from == old(self).spec_me()),
            view == old(self).spec_view() && old(self).spec_status() == Status::Normal && !old(self).spec_primary() && op_number == old(self).spec_log().len() + 1 && entry.op_number
                == op_number ==> final(self).spec_log() == old(self).spec_log().push(entry@)
                && r@.len() >= 1 && (r@[0] matches Outbound::Send { to, msg: VrMsg::PrepareOk { view: v, op_number: n, from } }
                && to == view % old(self).spec_group_size() && v == view && n == op_number
                && from == old(self).spec_me())
                && final(self).spec_commit() == if old(self).spec_commit() < commit_number {
                if commit_number < op_number {
                    commit_number
                } else {
                    op_number
                }
            } else {
                old(self).spec_commit()
            },
    {
        if view < self.view {
            return Vec::new();
        }
        if view > self.view {
            return self.begin_recovery(view);
        }
        let mut out: Vec<Outbound> = Vec::new();
        if self.status != Status::Normal || self.is_primary() {
            return out;
        }
        let primary = self.view % self.group_size;
        let len = self.log.last_index();
        if op_number <= len {
            out.push(
                Outbound::Send {
                    to: primary,
                    msg: VrMsg::PrepareOk { view, op_number: len, from: self.me },
                },
            );
            return out;
        }
        if op_number > len + 1 {
            let m = self.get_state(view);
            out.push(m);
            return out;
        }
        if entry.op_number != op_number {
            return out;
        }
        self.log.append(entry);
        assert(self.log@.take(self.commit_number as int) =~= old(self).log@.take(
            self.commit_number as int,
        ));
        out.push(
            Outbound::Send { to: primary, msg: VrMsg::PrepareOk { view, op_number, from: self.me } },
        );
        if self.commit_number < commit_number {
            let upto = if commit_number < op_number {
                commit_number
            } else {
                op_number
            };
            let mut replies = self.apply_committed(upto);
            out.append(&mut replies);
        }
        out
    }

    /// A `PrepareOk` from a backup, at the primary. When a majority holds the
    /// entry `op_number`, everything up to it is committed and applied.
    pub fn handle_prepare_ok(&mut self, view: u64, op_number: u64, from: u64) -> (r: Vec<Outbound>)
        requires
            old(self).inv(),
        ensures
            final(self).inv(),
            final(self).keeps_committed(old(self)),
            final(self).spec_log() == old(self).spec_log(),
            final(self).spec_view() == old(self).spec_view(),
            final(self).spec_status() == old(self).spec_status(),
            ({
                let takes = view == old(self).spec_view() && old(self).spec_status() == Status::Normal
                    && old(self).spec_primary() && op_number <= old(self).spec_log().len()
                    && !old(self).spec_acks().contains((op_number, from)) && ack_count(
                    old(self).spec_acks(),
                    op_number,
                ) + 1 == majority_of(old(self).spec_group_size() as nat) && old(self).spec_commit()
                    < op_number;
                &&& takes ==> final(self).spec_commit() == op_number && replies_for(
                    r@,
                    old(self).spec_log(),
                    old(self).spec_commit() as int,
                    op_number as int,
                )
                &&& !takes ==> final(self).spec_commit() == old(self).spec_commit() && r@.len() == 0
            }),
    {
        let out: Vec<Outbound> = Vec::new();
        if view != self.view || self.status != Status::Normal || !self.is_primary() {
            return out;
        }
        if op_number > self.log.last_index() {
            return out;
        }
        if self.acks.register_ack(op_number, from) && self.commit_number < op_number {
            return self.apply_committed(op_number);
        }
        out
    }

    /// The primary's commit heartbeat, at a backup: commits up to the smaller
    /// of `commit_number` and the last entry held.
    pub fn handle_commit(&mut self, view: u64, commit_number: u64) -> (r: Vec<Outbound>)
        requires
            old(self).inv(),
        ensures
            final(self).inv(),
            final(self).keeps_committed(old(self)),
            view < old(self).spec_view() ==> final(self).unchanged(old(self)),
            view > old(self).spec_view() ==> final(self).spec_status() == Status::Recovering
                && final(self).spec_view() == view,
            view == old(self).spec_view() && old(self).spec_status() == Status::Normal && !old(self).spec_primary() ==> final(self).spec_log() == old(self).spec_log() && r@.len() == 0 && final(self).spec_commit() == if old(self).spec_commit() < commit_number {
                if commit_number < old(self).spec_log().len() {
                    commit_number as int
                } else {
                    old(self).spec_log().len() as int
                }
            } else {
                old(self).spec_commit() as int
            },
    {
        if view < self.view {
            return Vec::new();
        }
        if view > self.view {
            return self.begin_recovery(view);
        }
        if self.status != Status::Normal || self.is_primary() {
            return Vec::new();
        }
        let len = self.log.last_index();
        if self.commit_number < commit_number {
            let upto = if commit_number < len {
                commit_number
            } else {
                len
            };
            return self.apply_committed(upto);
        }
        Vec::new()
    }

    /// Enters view change for the view after the current one, after the primary
    /// was suspected. Nothing is done once the view numbers run out.
    pub fn start_view_change(&mut self) -> (r: Vec<Outbound>)
        requires
            old(self).inv(),
        ensures
            final(self).inv(),
            final(self).keeps_committed(old(self)),
            final(self).spec_log() == old(self).spec_log(),
            old(self).spec_view() < u64::MAX ==> final(self).spec_view() == old(self).spec_view() + 1
                && final(self).spec_status() == Status::ViewChange && r@.len() >= 1 && (r@[0] matches Outbound::Broadcast(VrMsg::StartViewChange { view, from })
                && view == final(self).spec_view() && from == old(self).spec_me()),
            old(self).spec_view() == u64::MAX ==> final(self).unchanged(old(self)),
    {
        if self.view == u64::MAX {
            return Vec::new();
        }
        let view = self.view + 1;
        self.enter_view_change(view)
    }

    fn enter_view_change(&mut self, view: u64) -> (r: Vec<Outbound>)
        requires
            old(self).inv(),
            old(self).spec_view() < view,
        ensures
            final(self).inv(),
            final(self).keeps_committed(old(self)),
            final(self).spec_log() == old(self).spec_log(),
            final(self).spec_view() == view,
            final(self).spec_status() == Status::ViewChange,
            final(self).spec_reports() == Seq::<ViewChangeReport>::empty(),
            final(self).spec_commit() == old(self).spec_commit(),
            r@.len() >= 1,
            r@[0] matches Outbound::Broadcast(VrMsg::StartViewChange { view: v, from }) && v == view
                && from == old(self).spec_me(),
    {
        self.view = view;
        self.status = Status::ViewChange;
        self.votes.clear();
        self.reports = Vec::new();
        let mut out: Vec<Outbound> = Vec::new();
        out.push(Outbound::Broadcast(VrMsg::StartViewChange { view, from: self.me }));
        if self.votes.register_ack(view, self.me) {
            let m = self.do_view_change();
            out.push(m);
        }
        out
    }

    /// This replica's report for the prospective primary of its view.
    fn do_view_change(&self) -> (r: Outbound)
        requires
            self.inv(),
        ensures
            self.is_report(r),
    {
        Outbound::Send {
            to: self.view % self.group_size,
            msg: VrMsg::DoViewChange {
                view: self.view,
                report: ViewChangeReport {
                    from: self.me,
                    log: self.log.copy_all(),
                    last_normal_view: self.last_normal_view,
                    commit_number: self.commit_number,
                },
            },
        }
    }

    /// A `StartViewChange`. A later view is joined; once a majority asks for
    /// the current view, the report goes to its prospective primary.
    pub fn handle_start_view_change(&mut self, view: u64, from: u64) -> (r: Vec<Outbound>)
        requires
            old(self).inv(),
        ensures
            final(self).inv(),
            final(self).keeps_committed(old(self)),
            final(self).spec_log() == old(self).spec_log(),
            view < old(self).spec_view() ==> final(self).unchanged(old(self)),
            view > old(self).spec_view() ==> final(self).spec_view() == view
                && final(self).spec_status() == Status::ViewChange,
            view == old(self).spec_view() && old(self).spec_status() == Status::ViewChange
                && !old(self).spec_votes().contains((view, from)) && ack_count(old(self).spec_votes(), view)
                + 1 == majority_of(old(self).spec_group_size() as nat) ==> final(self).unchanged(old(self))
                && r@.len() == 1 && old(self).is_report(r@[0]),
    {
        let mut out: Vec<Outbound> = Vec::new();
        if view < self.view {
            return out;
        }
        if view > self.view {
            out = self.enter_view_change(view);
        }
        if self.status == Status::ViewChange && self.votes.register_ack(view, from) {
            let m = self.do_view_change();
            out.push(m);
        }
        out
    }

    /// A `DoViewChange`, at the prospective primary of `view`. Once reports
    /// from a majority are in, it takes the most advanced log among them, the
    /// largest commit number reported, enters `Normal` and announces the view.
    pub fn handle_do_view_change(&mut self, view: u64, report: ViewChangeReport) -> (r: Vec<Outbound>)
        requires
            old(self).inv(),
        ensures
            final(self).inv(),
            final(self).keeps_committed(old(self)),
            view < old(self).spec_view() ==> final(self).unchanged(old(self)),
            final(self).spec_status() == Status::Normal && old(self).spec_status() != Status::Normal
                ==> final(self).spec_view() == view && final(self).spec_last_normal_view() == view
                && final(self).spec_primary(),
            view == old(self).spec_view() && old(self).spec_status() == Status::ViewChange
                && old(self).spec_primary() && (forall|i: int| 0 <= i < old(self).spec_reports().len()
                ==> #[trigger] old(self).spec_reports()[i].from != report.from)
                && old(self).spec_reports().len() + 1 >= majority_of(old(self).spec_group_size() as nat)
                && (forall|i: int| 0 <= i < old(self).reports_with(view, report).len()
                ==> acceptable(old(self), &#[trigger] old(self).reports_with(view, report)[i].log))
                ==> final(self).spec_status() == Status::Normal && final(self).spec_view() == view,
            final(self).spec_status() == Status::Normal && old(self).spec_status() != Status::Normal
                ==> r@.len() >= 1 && (r@.last() matches Outbound::Broadcast(VrMsg::StartView { view: v, log, commit_number })
                && v == view && entries_view(log@) == final(self).spec_log() && commit_number
                == final(self).spec_commit()) && (forall|i: int| 0 <= i < old(self).reports_with(view, report).len()
                ==> (#[trigger] old(self).reports_with(view, report)[i]).commit_number <= final(self).spec_log().len()
                ==> old(self).reports_with(view, report)[i].commit_number <= final(self).spec_commit()),
            final(self).spec_status() == Status::Normal && old(self).spec_status() != Status::Normal
                ==> exists|k: int|
                0 <= k < old(self).reports_with(view, report).len() && final(self).spec_log()
                    == entries_view(old(self).reports_with(view, report)[k].log@) && forall|i: int|
                    0 <= i < old(self).reports_with(view, report).len() ==> report_le(
                        &#[trigger] old(self).reports_with(view, report)[i],
                        &old(self).reports_with(view, report)[k],
                    ),
    {
        let ghost received = old(self).reports_with(view, report);
        let mut out: Vec<Outbound> = Vec::new();
        if view < self.view {
            return out;
        }
        if view > self.view {
            out = self.enter_view_change(view);
        }
        let ghost mid_log = self.log@;
        let ghost mid_commit = self.commit_number;
        if self.status != Status::ViewChange || self.view % self.group_size != self.me {
            return out;
        }
        if has_report_from(&self.reports, report.from) {
            return out;
        }
        self.reports.push(report);
        if (self.reports.len() as u64) < self.acks.quorum() {
            return out;
        }
        assert(self.reports@ =~= received);
        let best = select_log(&self.reports);
        let commit = max_commit(&self.reports, self.commit_number);
        let log = copy_log(&self.reports[best].log);
        let mut more = self.adopt(view, log, commit);
        out.append(&mut more);
        proof {
            lemma_take_chain(
                old(self).log@,
                mid_log,
                self.log@,
                old(self).commit_number as int,
                mid_commit as int,
            );
        }
        assert(self.status == Status::Normal ==> self.log@ == entries_view(received[best as int].log@));
        if self.status == Status::Normal {
            self.reports = Vec::new();
            let log = self.log.copy_all();
            out.push(
                Outbound::Broadcast(
                    VrMsg::StartView { view, log, commit_number: self.commit_number },
                ),
            );
        }
        out
    }

    /// Takes `log` as the log of `view` and enters `Normal`, committing up to
    /// `commit_number` as far as the log reaches. A log that is misnumbered or
    /// that differs in what is already committed here is refused.
    fn adopt(&mut self, view: u64, log: Vec<LogEntry>, commit_number: u64) -> (r: Vec<Outbound>)
        requires
            old(self).inv(),
            old(self).spec_view() <= view,
        ensures
            final(self).inv(),
            final(self).keeps_committed(old(self)),
            acceptable(old(self), &log) ==> final(self).spec_status() == Status::Normal
                && final(self).spec_view() == view && final(self).spec_last_normal_view() == view
                && final(self).spec_log() == entries_view(log@) && final(self).spec_commit() == if old(
                self).spec_commit() < commit_number {
                if commit_number < log@.len() {
                    commit_number as int
                } else {
                    log@.len() as int
                }
            } else {
                old(self).spec_commit() as int
            },
            !acceptable(old(self), &log) ==> final(self).unchanged(old(self)),
    {
        if !Log::check_numbered(&log, 0) || !self.log.prefix_of(self.commit_number, &log) {
            return Vec::new();
        }
        let len = log.len() as u64;
        let ghost prev = self.log@;
        self.log.replace(log);
        assert(self.log@.take(self.commit_number as int) =~= prev.take(self.commit_number as int));
        self.view = view;
        self.status = Status::Normal;
        self.last_normal_view = view;
        self.acks.clear();
        let upto = if self.commit_number < commit_number {
            if commit_number < len {
                commit_number
            } else {
                len
            }
        } else {
            self.commit_number
        };
        self.apply_committed(upto)
    }

    /// A `StartView` from the new primary: the replica takes its log, discarding
    /// any entries of its own that are not in it, and enters `Normal`.
    pub fn handle_start_view(&mut self, view: u64, log: Vec<LogEntry>, commit_number: u64) -> (r:
        Vec<Outbound>)
        requires
            old(self).inv(),
        ensures
            final(self).inv(),
            final(self).keeps_committed(old(self)),
            view < old(self).spec_view() ==> final(self).unchanged(old(self)),
            view >= old(self).spec_view() && !(view == old(self).spec_view() && old(self).spec_status()
                == Status::Normal) && numbered(entries_view(log@)) && old(self).spec_commit() <= log@.len()
                && entries_view(log@).take(old(self).spec_commit() as int) == old(self).spec_log().take(
                old(self).spec_commit() as int) ==> final(self).spec_status() == Status::Normal
                && final(self).spec_view() == view && final(self).spec_log() == entries_view(log@)
                && final(self).spec_commit() == commit_after(old(self).spec_commit(), commit_number, log@.len() as int),
    {
        if view < self.view || (view == self.view && self.status == Status::Normal) {
            return Vec::new();
        }
        let mut out = self.adopt(view, log, commit_number);
        if self.status == Status::Normal && self.view == view {
            let len = self.log.last_index();
            if len > self.commit_number {
                out.push(
                    Outbound::Send {
                        to: view % self.group_size,
                        msg: VrMsg::PrepareOk { view, op_number: len, from: self.me },
                    },
                );
            }
        }
        out
    }

    /// A `GetState` from a replica that fell behind: it gets the entries after
    /// `op_number` and the commit number, when this replica is in `Normal` in that view.
    pub fn handle_get_state(&self, view: u64, op_number: u64, from: u64) -> (r: Vec<Outbound>)
        requires
            self.inv(),
        ensures
            r@.len() <= 1,
            r@.len() == 1 <==> (view == self.spec_view() && self.spec_status() == Status::Normal
                && op_number <= self.spec_log().len()),
            r@.len() == 1 ==> (r@[0] matches Outbound::Send { to, msg: VrMsg::NewState { view: v, op_number: n, entries, commit_number: c } }
                && to == from && v == view && n == op_number && c == self.spec_commit()
                && entries_view(entries@) == self.spec_log().subrange(op_number as int, self.spec_log().len() as int)),
    {
        let mut out: Vec<Outbound> = Vec::new();
        if view != self.view || self.status != Status::Normal || op_number > self.log.last_index() {
            return out;
        }
        let entries = self.log.slice(op_number, self.log.last_index());
        out.push(
            Outbound::Send {
                to: from,
                msg: VrMsg::NewState {
                    view,
                    op_number,
                    entries,
                    commit_number: self.commit_number,
                },
            },
        );
        out
    }

    /// A `NewState` answering this replica's `GetState`: the entries after
    /// `op_number` replace those it holds there, and it enters `Normal` in `view`.
    pub fn handle_new_state(
        &mut self,
        view: u64,
        op_number: u64,
        entries: Vec<LogEntry>,
        commit_number: u64,
    ) -> (r: Vec<Outbound>)
        requires
            old(self).inv(),
        ensures
            final(self).inv(),
            final(self).keeps_committed(old(self)),
            view < old(self).spec_view() ==> final(self).unchanged(old(self)),
            view >= old(self).spec_view() && old(self).spec_commit() <= op_number <= old(self).spec_log().len()
                && numbered_from(entries_view(entries@), op_number as int) && op_number + entries@.len()
                <= u64::MAX ==> final(self).spec_status() == Status::Normal && final(self).spec_view() == view
                && final(self).spec_log() == old(self).spec_log().take(op_number as int) + entries_view(entries@)
                && final(self).spec_commit() == commit_after(old(self).spec_commit(), commit_number,
                op_number + entries@.len()),
    {
        if view < self.view || op_number < self.commit_number || op_number > self.log.last_index() {
            return Vec::new();
        }
        if !Log::check_numbered(&entries, op_number) {
            return Vec::new();
        }
        if entries.len() as u128 + op_number as u128 > u64::MAX as u128 {
            return Vec::new();
        }
        let mut log = self.log.slice(0, op_number);
        let mut i: usize = 0;
        let ghost head = entries_view(log@);
        while i < entries.len()
            invariant
                i <= entries.len(),
                entries_view(log@) == head + entries_view(entries@).take(i as int),
            decreases entries.len() - i,
        {
            let ghost before = log@;
            log.push(entries[i].duplicate());
            assert(entries_view(log@) =~= entries_view(before).push(entries@[i as int]@));
            assert(entries_view(entries@).take(i + 1) =~= entries_view(entries@).take(i as int).push(
                entries@[i as int]@));
            i = i + 1;
        }
        assert(entries_view(entries@).take(entries@.len() as int) =~= entries_view(entries@));
        assert(head =~= self.log@.take(op_number as int));
        assert(numbered(entries_view(log@)));
        assert(entries_view(log@).take(self.commit_number as int) =~= self.log@.take(
            self.commit_number as int));
        self.adopt(view, log, commit_number)
    }
}

/// The replicated state of a replica is what executing its committed log
/// entries one after another, in log order, on a fresh store gives.
pub proof fn lemma_state_is_sequential(r: &Replica)
    requires
        r.inv(),
    ensures
        (r.spec_store(), r.spec_clients()) == replay(r.spec_log().take(r.spec_commit() as int)),
{
}

/// Two replicas whose committed entries are the same hold the same store and
/// the same client table.
pub proof fn lemma_same_committed_same_state(a: &Replica, b: &Replica)
    requires
        a.inv(),
        b.inv(),
        a.spec_log().take(a.spec_commit() as int) == b.spec_log().take(b.spec_commit() as int),
    ensures
        a.spec_store() == b.spec_store(),
        a.spec_clients() == b.spec_clients(),
{
}

/// A request whose (client, request number) the client table has already
/// answered is not executed again: a log entry that repeats it leaves the
/// store and the client table as they were.
pub proof fn lemma_at_most_once(entries: Seq<EntryView>, e: EntryView)
    requires
        cached_spec(replay(entries).1, e.client_id, e.request_num) is Some,
    ensures
        replay(entries.push(e)) == replay(entries),
{
    assert(entries.push(e).drop_last() =~= entries);
}

/// Once a request's reply is recorded, the same request (or an older one of
/// that client) gets that very reply from the cache.
pub proof fn lemma_recorded_reply_is_cached(
    t: Seq<ClientView>,
    client_id: u128,
    request_num: u64,
    reply: RspView,
    again: u64,
)
    requires
        again <= request_num,
    ensures
        cached_spec(record_spec(t, client_id, request_num, reply), client_id, again) == Some(reply),
{
    crate::client_table::lemma_record_lookup(t, client_id, request_num, reply);
}

/// Entry sequence `a` is a prefix of `b`.
pub open spec fn is_prefix(a: Seq<EntryView>, b: Seq<EntryView>) -> bool {
    a.len() <= b.len() && b.take(a.len() as int) == a
}

/// The log chosen in a view change holds every committed entry. Suppose the
/// logs reported from one last normal view are prefixes of one another (they
/// come from one primary's history), and the committed entries are a prefix
/// of a log reported from the latest last normal view among the reports. Then
/// they are a prefix of the log that the selection picks.
pub proof fn lemma_view_change_keeps_committed(
    reports: Seq<ViewChangeReport>,
    best: int,
    holder: int,
    committed: Seq<EntryView>,
)
    requires
        0 <= best < reports.len(),
        0 <= holder < reports.len(),
        forall|i: int| 0 <= i < reports.len() ==> report_le(&#[trigger] reports[i], &reports[best]),
        forall|i: int| 0 <= i < reports.len() ==> #[trigger] reports[i].last_normal_view
            <= reports[holder].last_normal_view,
        forall|i: int, j: int|
            0 <= i < reports.len() && 0 <= j < reports.len() && #[trigger] reports[i].last_normal_view
                == #[trigger] reports[j].last_normal_view && reports[i].log@.len() <= reports[j].log@.len()
                ==> is_prefix(entries_view(reports[i].log@), entries_view(reports[j].log@)),
        is_prefix(committed, entries_view(reports[holder].log@)),
    ensures
        is_prefix(committed, entries_view(reports[best].log@)),
{
    assert(report_le(&reports[holder], &reports[best]));
    let h = entries_view(reports[holder].log@);
    let b = entries_view(reports[best].log@);
    assert(is_prefix(h, b));
    assert(b.take(committed.len() as int) =~= b.take(h.len() as int).take(committed.len() as int));
    assert(h.take(committed.len() as int) =~= committed);
}

} // verus!

use vstd::prelude::*;
use crate::api::{VrApiRsp, RspView};

verus! {

pub ghost struct ClientView {
    pub client_id: u128,
    pub last_request_num: u64,
    pub reply: RspView,
}

/// Index of the entry of `id` in `t`, or -1 when it has none.
pub open spec fn client_index(t: Seq<ClientView>, id: u128) -> int
    decreases t.len(),
{
    if t.len() == 0 {
        -1
    } else if t.last().client_id == id {
        t.len() - 1
    } else {
        client_index(t.drop_last(), id)
    }
}

/// The entry of `id` in `t`, if any.
pub open spec fn lookup(t: Seq<ClientView>, id: u128) -> Option<ClientView> {
    let i = client_index(t, id);
    if 0 <= i < t.len() {
        Some(t[i])
    } else {
        None
    }
}

/// `t` after recording `reply` for request `num` of client `id`: its entry is
/// replaced, or added when it has none.
pub open spec fn record_spec(t: Seq<ClientView>, id: u128, num: u64, reply: RspView) -> Seq<ClientView> {
    let e = ClientView { client_id: id, last_request_num: num, reply };
    let i = client_index(t, id);
    if 0 <= i < t.len() {
        t.update(i, e)
    } else {
        t.push(e)
    }
}

pub proof fn lemma_client_index(t: Seq<ClientView>, id: u128)
    ensures
        -1 <= client_index(t, id) < t.len(),
        client_index(t, id) >= 0 ==> t[client_index(t, id)].client_id == id,
    decreases t.len(),
{
    if t.len() > 0 {
        lemma_client_index(t.drop_last(), id);
    }
}

proof fn lemma_client_index_update(t: Seq<ClientView>, id: u128, e: ClientView)
    requires
        client_index(t, id) >= 0,
        e.client_id == id,
    ensures
        client_index(t.update(client_index(t, id), e), id) == client_index(t, id),
    decreases t.len(),
{
    let i = client_index(t, id);
    if t.last().client_id != id {
        lemma_client_index(t.drop_last(), id);
        lemma_client_index_update(t.drop_last(), id, e);
        assert(t.update(i, e).drop_last() =~= t.drop_last().update(i, e));
    }
}

/// After recording a reply for a client, the client's entry is the one recorded.
pub proof fn lemma_record_lookup(t: Seq<ClientView>, id: u128, num: u64, reply: RspView)
    ensures
        lookup(record_spec(t, id, num, reply), id) == Some(
            ClientView { client_id: id, last_request_num: num, reply },
        ),
{
    lemma_client_index(t, id);
    let e = ClientView { client_id: id, last_request_num: num, reply };
    if client_index(t, id) >= 0 {
        lemma_client_index_update(t, id, e);
    } else {
        assert(t.push(e).drop_last() =~= t);
    }
}

/// The reply a request of `id` numbered `num` gets without being executed, if any.
pub open spec fn cached_spec(t: Seq<ClientView>, id: u128, num: u64) -> Option<RspView> {
    match lookup(t, id) {
        Some(e) => if num <= e.last_request_num {
            Some(e.reply)
        } else {
            None
        },
        None => None,
    }
}

pub struct ClientEntry {
    pub client_id: u128,
    pub last_request_num: u64,
    pub reply: VrApiRsp,
}

/// The last request number seen of each client, with the reply it got.
pub struct ClientTable {
    entries: Vec<ClientEntry>,
}

impl View for ClientTable {
    type V = Seq<ClientView>;

    closed spec fn view(&self) -> Seq<ClientView> {
        self.entries@.map_values(
            |e: ClientEntry|
                ClientView {
                    client_id: e.client_id,
                    last_request_num: e.last_request_num,
                    reply: e.reply@,
                },
        )
    }
}

impl ClientTable {
    pub fn new() -> (r: ClientTable)
        ensures
            r@ == Seq::<ClientView>::empty(),
    {
        let r = ClientTable { entries: Vec::new() };
        assert(r@ =~= Seq::<ClientView>::empty());
        r
    }

    fn index_of(&self, client_id: u128) -> (r: Option<usize>)
        ensures
            r is None <==> client_index(self@, client_id) < 0,
            r is Some ==> r->0 == client_index(self@, client_id) && r->0 < self@.len(),
    {
        proof {
            lemma_client_index(self@, client_id);
        }
        let mut i: usize = self.entries.len();
        assert(self@.take(i as int) =~= self@);
        while i > 0
            invariant
                i <= self.entries.len(),
                self@.len() == self.entries@.len(),
                client_index(self@, client_id) == client_index(self@.take(i as int), client_id),
            decreases i,
        {
            assert(self@.take(i as int).drop_last() =~= self@.take(i - 1));
            if self.entries[i - 1].client_id == client_id {
                return Some(i - 1);
            }
            i = i - 1;
        }
        None
    }

    /// The cached reply owed to a request that is not newer than the last one seen.
    pub fn cached(&self, client_id: u128, request_num: u64) -> (r: Option<VrApiRsp>)
        ensures
            r is None <==> cached_spec(self@, client_id, request_num) is None,
            r is Some ==> r->0@ == cached_spec(self@, client_id, request_num)->0,
    {
        match self.index_of(client_id) {
            Some(i) => {
                let e = &self.entries[i];
                if request_num <= e.last_request_num {
                    Some(e.reply.duplicate())
                } else {
                    None
                }
            },
            None => None,
        }
    }

    /// Records the reply given to request `request_num` of `client_id`,
    /// replacing the client's earlier entry.
    pub fn record(&mut self, client_id: u128, request_num: u64, reply: VrApiRsp)
        ensures
            final(self)@ == record_spec(old(self)@, client_id, request_num, reply@),
    {
        let ghost before = self@;
        let ghost e = ClientView { client_id, last_request_num: request_num, reply: reply@ };
        let entry = ClientEntry { client_id, last_request_num: request_num, reply };
        match self.index_of(client_id) {
            Some(i) => {
                self.entries.set(i, entry);
                assert(self@ =~= before.update(i as int, e));
            },
            None => {
                self.entries.push(entry);
                assert(self@ =~= before.push(e));
            },
        }
    }
}

} // verus!

use vstd::prelude::*;
use crate::clock::now_rfc3339;
use crate::table::{
    copy_opt, key_index, lemma_key_index, lemma_lookup_removed, lemma_lookup_set, lemma_lookup_upserted, lookup, removed,
    upserted,
    Keyed, Table,
};

verus! {

/// A profile whose browser is running, reachable over CDP.
#[derive(Debug)]
pub struct ActiveProfile {
    pub port: u16,
    pub ws_url: Option<String>,
    pub pid: Option<u32>,
    pub opened_at: String,
}

impl ActiveProfile {
    /// An exact copy.
    pub fn duplicate(&self) -> (r: Self)
        ensures
            r == *self,
    {
        ActiveProfile {
            port: self.port,
            ws_url: copy_opt(&self.ws_url),
            pid: self.pid,
            opened_at: self.opened_at.clone(),
        }
    }
}

/// An active profile stored under its profile id.
#[derive(Debug)]
pub struct RegistryEntry {
    pub id: String,
    pub active: ActiveProfile,
}

impl View for RegistryEntry {
    type V = RegistryEntry;

    open spec fn view(&self) -> RegistryEntry {
        *self
    }
}

impl Keyed for RegistryEntry {
    open spec fn key(&self) -> Seq<char> {
        self.id@
    }

    fn key_string(&self) -> (r: &String) {
        &self.id
    }

    fn duplicate(&self) -> (r: Self) {
        RegistryEntry { id: self.id.clone(), active: self.active.duplicate() }
    }
}

/// The profiles whose browsers are running, by profile id.
pub struct ProfileRegistry {
    pub map: Table<RegistryEntry>,
}

impl ProfileRegistry {
    /// Profile ids are unique.
    pub open spec fn wf(&self) -> bool {
        self.map.wf()
    }

    /// The entries, in registration order.
    pub open spec fn entries(&self) -> Seq<RegistryEntry> {
        self.map.rows@
    }

    /// The active profile registered under `id`.
    pub open spec fn active(&self, id: Seq<char>) -> Option<ActiveProfile> {
        match lookup(self.entries(), id) {
            Some(e) => Some(e.active),
            None => None,
        }
    }

    /// An empty registry.
    pub fn new() -> (r: Self)
        ensures
            r.wf(),
            r.entries() == Seq::<RegistryEntry>::empty(),
    {
        ProfileRegistry { map: Table::new() }
    }

    /// Number of active profiles.
    pub fn len(&self) -> (n: usize)
        ensures
            n == self.entries().len(),
    {
        self.map.rows.len()
    }

    /// Registers profile `id` as running with CDP on `port`, replacing an earlier entry.
    pub fn insert(&mut self, id: &str, port: u16, pid: Option<u32>)
        requires
            old(self).wf(),
        ensures
            final(self).wf(),
            final(self).active(id@) matches Some(a) && a.port == port && a.ws_url is None && a.pid
                == pid,
            forall|k: Seq<char>| k != id@ ==> #[trigger] final(self).active(k) == old(self).active(k),
            exists|e: RegistryEntry|
                e.id@ == id@ && e.active.port == port && e.active.ws_url is None && e.active.pid == pid
                    && final(self).entries() == #[trigger] upserted(old(self).entries(), e),
            op_done(*old(self), *final(self), RegistryOp::Insert(id@, port, pid)),
    {
        let e = RegistryEntry {
            id: id.to_owned(),
            active: ActiveProfile { port, ws_url: None, pid, opened_at: now_rfc3339() },
        };
        let ghost ge = e;
        self.map.upsert(e);
        proof {
            lemma_lookup_upserted(old(self).entries(), ge, id@);
            assert forall|k: Seq<char>| k != id@ implies #[trigger] self.active(k) == old(self).active(k) by {
                lemma_lookup_upserted(old(self).entries(), ge, k);
            }
        }
    }

    /// Records the CDP WebSocket address of a registered profile; an unknown id is ignored.
    pub fn set_ws_url(&mut self, id: &str, ws_url: &str)
        requires
            old(self).wf(),
        ensures
            final(self).wf(),
            match lookup(old(self).entries(), id@) {
                None => final(self).entries() == old(self).entries(),
                Some(e) => exists|w: String|
                    w@ == ws_url@ && final(self).entries() == #[trigger] old(self).entries().update(
                        key_index(old(self).entries(), id@),
                        RegistryEntry { active: ActiveProfile { ws_url: Some(w), ..e.active }, ..e },
                    ),
            },
            old(self).active(id@) is None ==> final(self).active(id@) is None,
            old(self).active(id@) matches Some(a) ==> (final(self).active(id@) matches Some(b) && b.port == a.port
                && b.pid == a.pid && (b.ws_url matches Some(w) && w@ == ws_url@)),
            forall|k: Seq<char>| k != id@ ==> #[trigger] final(self).active(k) == old(self).active(k),
            op_done(*old(self), *final(self), RegistryOp::SetWsUrl(id@, ws_url@)),
    {
        match self.map.find(id) {
            None => {},
            Some(i) => {
                let mut e = self.map.rows[i].duplicate();
                let w = ws_url.to_owned();
                let ghost gw = w;
                e.active.ws_url = Some(w);
                let ghost ge = e;
                self.map.set_at(i, e);
                proof {
                    lemma_key_index(old(self).entries(), i as int);
                    let oe = old(self).entries()[i as int];
                    assert(ge == RegistryEntry { active: ActiveProfile { ws_url: Some(gw), ..oe.active }, ..oe });
                    lemma_lookup_set(old(self).entries(), i as int, ge, id@);
                    assert forall|k: Seq<char>| k != id@ implies #[trigger] self.active(k) == old(self).active(k) by {
                        lemma_lookup_set(old(self).entries(), i as int, ge, k);
                    }
                }
            },
        }
    }

    /// Records the process id of a registered profile's browser; an unknown id is ignored.
    pub fn set_pid(&mut self, id: &str, pid: u32)
        requires
            old(self).wf(),
        ensures
            final(self).wf(),
            match lookup(old(self).entries(), id@) {
                None => final(self).entries() == old(self).entries(),
                Some(e) => final(self).entries() == old(self).entries().update(
                    key_index(old(self).entries(), id@),
                    RegistryEntry { active: ActiveProfile { pid: Some(pid), ..e.active }, ..e },
                ),
            },
            old(self).active(id@) is None ==> final(self).active(id@) is None,
            old(self).active(id@) matches Some(a) ==> final(self).active(id@) == Some(
                ActiveProfile { pid: Some(pid), ..a },
            ),
            forall|k: Seq<char>| k != id@ ==> #[trigger] final(self).active(k) == old(self).active(k),
            op_done(*old(self), *final(self), RegistryOp::SetPid(id@, pid)),
    {
        match self.map.find(id) {
            None => {},
            Some(i) => {
                let mut e = self.map.rows[i].duplicate();
                e.active.pid = Some(pid);
                let ghost ge = e;
                self.map.set_at(i, e);
                proof {
                    lemma_key_index(old(self).entries(), i as int);
                    let oe = old(self).entries()[i as int];
                    assert(ge == RegistryEntry { active: ActiveProfile { pid: Some(pid), ..oe.active }, ..oe });
                    lemma_lookup_set(old(self).entries(), i as int, ge, id@);
                    assert forall|k: Seq<char>| k != id@ implies #[trigger] self.active(k) == old(self).active(k) by {
                        lemma_lookup_set(old(self).entries(), i as int, ge, k);
                    }
                }
            },
        }
    }

    /// The active profile registered under `id`.
    pub fn get(&self, id: &str) -> (r: Option<ActiveProfile>)
        requires
            self.wf(),
        ensures
            r == self.active(id@),
    {
        match self.map.get(id) {
            Some(e) => Some(e.active.duplicate()),
            None => None,
        }
    }

    /// The CDP port of the profile registered under `id`.
    pub fn get_port(&self, id: &str) -> (r: Option<u16>)
        requires
            self.wf(),
        ensures
            r == match self.active(id@) {
                Some(a) => Some(a.port),
                None => None::<u16>,
            },
    {
        match self.map.get(id) {
            Some(e) => Some(e.active.port),
            None => None,
        }
    }

    /// The CDP WebSocket address of the profile registered under `id`, once known.
    pub fn get_ws_url(&self, id: &str) -> (r: Option<String>)
        requires
            self.wf(),
        ensures
            r == match self.active(id@) {
                Some(a) => a.ws_url,
                None => None::<String>,
            },
    {
        match self.map.get(id) {
            Some(e) => copy_opt(&e.active.ws_url),
            None => None,
        }
    }

    /// Unregisters profile `id`.
    pub fn remove(&mut self, id: &str)
        requires
            old(self).wf(),
        ensures
            final(self).wf(),
            final(self).entries() == removed(old(self).entries(), id@),
            final(self).active(id@) is None,
            forall|k: Seq<char>| k != id@ ==> #[trigger] final(self).active(k) == old(self).active(k),
            op_done(*old(self), *final(self), RegistryOp::Remove(id@)),
    {
        self.map.remove_key(id);
        proof {
            lemma_lookup_removed(old(self).entries(), id@, id@);
            assert forall|k: Seq<char>| k != id@ implies #[trigger] self.active(k) == old(self).active(k) by {
                lemma_lookup_removed(old(self).entries(), id@, k);
            }
        }
    }

    /// `(id, port)` of every active profile.
    pub fn list(&self) -> (r: Vec<(String, u16)>)
        ensures
            r@.len() == self.entries().len(),
            forall|k: int| 0 <= k < r@.len() ==> #[trigger] r@[k] == (self.entries()[k].id, self.entries()[k].active.port),
    {
        let mut r: Vec<(String, u16)> = Vec::new();
        let mut i: usize = 0;
        while i < self.map.rows.len()
            invariant
                0 <= i <= self.entries().len(),
                r@.len() == i,
                forall|k: int| 0 <= k < i ==> #[trigger] r@[k] == (self.entries()[k].id, self.entries()[k].active.port),
            decreases self.map.rows.len() - i,
        {
            let e = &self.map.rows[i];
            r.push((e.id.clone(), e.active.port));
            i = i + 1;
        }
        r
    }

    /// The ids of every active profile.
    pub fn ids(&self) -> (r: Vec<String>)
        ensures
            r@.len() == self.entries().len(),
            forall|k: int| 0 <= k < r@.len() ==> #[trigger] r@[k] == self.entries()[k].id,
    {
        let mut r: Vec<String> = Vec::new();
        let mut i: usize = 0;
        while i < self.map.rows.len()
            invariant
                0 <= i <= self.entries().len(),
                r@.len() == i,
                forall|k: int| 0 <= k < i ==> #[trigger] r@[k] == self.entries()[k].id,
            decreases self.map.rows.len() - i,
        {
            r.push(self.map.rows[i].id.clone());
            i = i + 1;
        }
        r
    }
}

/// Opening keeps the limit on open profiles: the orchestrator lets a profile open only while
/// fewer than `max_active_profiles` are registered, and registering it then leaves at most
/// `max_active_profiles` registered, whether it was registered before or not.
pub proof fn law_open_within_limit(entries: Seq<RegistryEntry>, e: RegistryEntry, max: usize)
    requires
        entries.len() < max,
    ensures
        upserted(entries, e).len() <= max,
{
}

/// Listing agrees with lookups: a profile id and a port are listed together exactly when the
/// registry holds that profile as running with CDP on that port.
pub proof fn law_list_agrees(reg: ProfileRegistry, id: Seq<char>, port: u16)
    requires
        reg.wf(),
    ensures
        (exists|k: int|
            0 <= k < reg.entries().len() && #[trigger] reg.entries()[k].id@ == id && reg.entries()[k].active.port
                == port) <==> (reg.active(id) matches Some(a) && a.port == port),
{
    if exists|k: int| 0 <= k < reg.entries().len() && #[trigger] reg.entries()[k].id@ == id && reg.entries()[k].active.port == port {
        let k = choose|k: int| 0 <= k < reg.entries().len() && #[trigger] reg.entries()[k].id@ == id && reg.entries()[k].active.port == port;
        lemma_key_index(reg.entries(), k);
    }
    if reg.active(id) matches Some(a) && a.port == port {
        let k = key_index(reg.entries(), id);
        assert(0 <= k < reg.entries().len() && reg.entries()[k].key() == id);
        assert(reg.entries()[k].id@ == id);
    }
}

/// One change of the registry: registering a profile with its port and process, recording its
/// CDP address or its process, or forgetting it.
pub ghost enum RegistryOp {
    Insert(Seq<char>, u16, Option<u32>),
    SetWsUrl(Seq<char>, Seq<char>),
    SetPid(Seq<char>, u32),
    Remove(Seq<char>),
}

/// The profile a change is about.
pub open spec fn op_id(op: RegistryOp) -> Seq<char> {
    match op {
        RegistryOp::Insert(id, _, _) => id,
        RegistryOp::SetWsUrl(id, _) => id,
        RegistryOp::SetPid(id, _) => id,
        RegistryOp::Remove(id) => id,
    }
}

/// `after` is `before` with `op` done, as `insert`, `set_ws_url`, `set_pid` and `remove` state
/// it: the profile of the change as the change leaves it, every other profile as it was.
pub open spec fn op_done(before: ProfileRegistry, after: ProfileRegistry, op: RegistryOp) -> bool {
    &&& forall|k: Seq<char>| k != op_id(op) ==> #[trigger] after.active(k) == before.active(k)
    &&& match op {
        RegistryOp::Insert(id, port, pid) => after.active(id) matches Some(a) && a.port == port && a.ws_url is None
            && a.pid == pid,
        RegistryOp::SetWsUrl(id, w) => (before.active(id) is None ==> after.active(id) is None) && (before.active(
            id,
        ) matches Some(a) ==> (after.active(id) matches Some(b) && b.port == a.port && b.pid == a.pid && (
        b.ws_url matches Some(x) && x@ == w))),
        RegistryOp::SetPid(id, pid) => (before.active(id) is None ==> after.active(id) is None) && (before.active(
            id,
        ) matches Some(a) ==> after.active(id) == Some(ActiveProfile { pid: Some(pid), ..a })),
        RegistryOp::Remove(id) => after.active(id) is None,
    }
}

/// Whether `regs` is a history of the registry through `ops`: each state is the one before with
/// the change done.
pub open spec fn history(regs: Seq<ProfileRegistry>, ops: Seq<RegistryOp>) -> bool {
    &&& regs.len() == ops.len() + 1
    &&& forall|i: int| 0 <= i < ops.len() ==> op_done(#[trigger] regs[i], regs[i + 1], ops[i])
}

proof fn lemma_history_prefix(regs: Seq<ProfileRegistry>, ops: Seq<RegistryOp>)
    requires
        history(regs, ops),
        ops.len() > 0,
    ensures
        history(regs.drop_last(), ops.drop_last()),
{
    assert forall|i: int| 0 <= i < ops.drop_last().len() implies op_done(
        #[trigger] regs.drop_last()[i],
        regs.drop_last()[i + 1],
        ops.drop_last()[i],
    ) by {
        assert(op_done(regs[i], regs[i + 1], ops[i]));
    }
}

/// Reading after writing, over a history: once profile `id` is registered on `port` with process
/// `pid`, it is found with that port and process as long as it is neither registered again, given
/// another process nor forgotten, whatever happens to other profiles; and its CDP address stays
/// unknown until one is recorded for it.
pub proof fn law_registry_read_after_insert(
    regs: Seq<ProfileRegistry>,
    ops: Seq<RegistryOp>,
    id: Seq<char>,
    port: u16,
    pid: Option<u32>,
)
    requires
        history(regs, ops),
        ops.len() > 0,
        ops[0] == RegistryOp::Insert(id, port, pid),
        forall|i: int| 1 <= i < ops.len() && op_id(#[trigger] ops[i]) == id ==> ops[i] is SetWsUrl,
    ensures
        regs.last().active(id) matches Some(a) && a.port == port && a.pid == pid,
        (forall|i: int| 1 <= i < ops.len() ==> op_id(#[trigger] ops[i]) != id) ==> (regs.last().active(id) matches Some(
            a,
        ) && a.ws_url is None),
    decreases ops.len(),
{
    assert(op_done(regs[0], regs[1], ops[0]));
    if ops.len() > 1 {
        lemma_history_prefix(regs, ops);
        let r2 = regs.drop_last();
        let o2 = ops.drop_last();
        assert forall|i: int| 1 <= i < o2.len() && op_id(#[trigger] o2[i]) == id implies o2[i] is SetWsUrl by {
            assert(o2[i] == ops[i]);
        }
        law_registry_read_after_insert(r2, o2, id, port, pid);
        let last = ops.len() - 1;
        assert(op_done(regs[last], regs[last + 1], ops[last]));
        assert(regs[last] == r2.last());
        if (forall|i: int| 1 <= i < ops.len() ==> op_id(#[trigger] ops[i]) != id) {
            assert forall|i: int| 1 <= i < o2.len() implies op_id(#[trigger] o2[i]) != id by {
                assert(o2[i] == ops[i]);
                assert(op_id(ops[i]) != id);
            }
            assert(op_id(ops[last]) != id);
        }
    }
}

/// Once profile `id` is forgotten, it is not found as long as it is not registered again,
/// whatever else happens.
pub proof fn law_registry_read_after_remove(regs: Seq<ProfileRegistry>, ops: Seq<RegistryOp>, id: Seq<char>)
    requires
        history(regs, ops),
        ops.len() > 0,
        ops[0] == RegistryOp::Remove(id),
        forall|i: int| 1 <= i < ops.len() ==> !(#[trigger] ops[i] matches RegistryOp::Insert(x, _, _) && x == id),
    ensures
        regs.last().active(id) is None,
    decreases ops.len(),
{
    assert(op_done(regs[0], regs[1], ops[0]));
    if ops.len() > 1 {
        lemma_history_prefix(regs, ops);
        let r2 = regs.drop_last();
        let o2 = ops.drop_last();
        assert forall|i: int| 1 <= i < o2.len() implies !(#[trigger] o2[i] matches RegistryOp::Insert(x, _, _) && x == id) by {
            assert(o2[i] == ops[i]);
        }
        law_registry_read_after_remove(r2, o2, id);
        let last = ops.len() - 1;
        assert(op_done(regs[last], regs[last + 1], ops[last]));
        assert(regs[last] == r2.last());
    }
}

} // verus!

use vstd::prelude::*;

use crate::msg::names_of;

verus! {

/// One connected, named client: its identity, the username it joined under,
/// and the handle of its outbound delivery queue on the router.
#[derive(Debug)]
pub struct Client {
    pub id: u128,
    pub username: String,
    pub sender: usize,
}

/// Create a client record.
pub fn create_client(id: u128, username: String, sender: usize) -> (c: Client)
    ensures
        c.id == id,
        c.username == username,
        c.sender == sender,
{
    Client { id, username, sender }
}

/// Whether some entry carries the given identity.
pub open spec fn has_id(v: Seq<(u128, Seq<char>)>, id: u128) -> bool {
    exists|i: int| 0 <= i < v.len() && v[i].0 == id
}

/// All entries keep their place, except that the first one carrying the
/// given identity is gone.
pub open spec fn remove_id(v: Seq<(u128, Seq<char>)>, id: u128) -> Seq<(u128, Seq<char>)>
    decreases v.len(),
{
    if v.len() == 0 {
        v
    } else if v[0].0 == id {
        v.skip(1)
    } else {
        seq![v[0]] + remove_id(v.skip(1), id)
    }
}

/// The registry as a mathematical map from identity to username.
pub open spec fn map_of(v: Seq<(u128, Seq<char>)>) -> Map<u128, Seq<char>>
    decreases v.len(),
{
    if v.len() == 0 {
        Map::empty()
    } else {
        map_of(v.drop_last()).insert(v.last().0, v.last().1)
    }
}

/// The authoritative mapping from session identity to session: an insertion
/// ordered list of entries with pairwise distinct identities.
pub struct Registry {
    entries: Vec<Client>,
}

impl View for Registry {
    type V = Seq<(u128, Seq<char>)>;

    closed spec fn view(&self) -> Seq<(u128, Seq<char>)> {
        self.entries@.map_values(|c: Client| (c.id, c.username@))
    }
}

impl Registry {
    /// Identities are pairwise distinct.
    pub open spec fn wf(self) -> bool {
        forall|i: int, j: int|
            0 <= i < j < self@.len() ==> self@[i].0 != self@[j].0
    }

    /// The usernames of the registered sessions, in registration order.
    pub open spec fn usernames(self) -> Seq<Seq<char>> {
        self@.map_values(|e: (u128, Seq<char>)| e.1)
    }

    /// An empty registry.
    pub fn new() -> (r: Registry)
        ensures
            r.wf(),
            r@ == Seq::<(u128, Seq<char>)>::empty(),
    {
        let r = Registry { entries: Vec::new() };
        proof {
            assert(r@ =~= Seq::<(u128, Seq<char>)>::empty());
        }
        r
    }

    /// Whether a session with this identity is registered.
    pub fn contains(&self, id: u128) -> (b: bool)
        ensures
            b == has_id(self@, id),
    {
        let mut i: usize = 0;
        while i < self.entries.len()
            invariant
                0 <= i <= self.entries@.len(),
                self@.len() == self.entries@.len(),
                forall|k: int| 0 <= k < self.entries@.len() ==> self@[k] == (
                self.entries@[k].id, self.entries@[k].username@),
                forall|k: int| 0 <= k < i ==> self@[k].0 != id,
            decreases self.entries@.len() - i,
        {
            if self.entries[i].id == id {
                proof {
                    assert(self@[i as int].0 == id);
                }
                return true;
            }
            i += 1;
        }
        false
    }

    /// Insert a new session.  Identities are never reused, so the identity
    /// must not already be present.
    pub fn register(&mut self, id: u128, username: String, sender: usize)
        requires
            old(self).wf(),
            !has_id(old(self)@, id),
        ensures
            final(self).wf(),
            final(self)@ == old(self)@.push((id, username@)),
    {
        let ghost pre = self@;
        self.entries.push(Client { id, username, sender });
        proof {
            assert(self@ =~= pre.push((id, self.entries@.last().username@)));
        }
    }

    /// Remove the session with this identity, if one is present; absent
    /// identities are a no-op, not an error.
    pub fn deregister(&mut self, id: u128)
        requires
            old(self).wf(),
        ensures
            final(self).wf(),
            final(self)@ == remove_id(old(self)@, id),
    {
        let ghost pre = self@;
        let mut i: usize = 0;
        while i < self.entries.len()
            invariant
                0 <= i <= self.entries@.len(),
                pre == old(self)@,
                self@ == pre,
                forall|a: int, b: int| 0 <= a < b < pre.len() ==> pre[a].0 != pre[b].0,
                self@.len() == self.entries@.len(),
                forall|k: int| 0 <= k < self.entries@.len() ==> self@[k] == (
                self.entries@[k].id, self.entries@[k].username@),
                forall|k: int| 0 <= k < i ==> self@[k].0 != id,
            decreases self.entries@.len() - i,
        {
            if self.entries[i].id == id {
                proof {
                    assert(self@[i as int].0 == id);
                }
                let ghost oe = self.entries@;
                self.entries.remove(i);
                proof {
                    pre.remove_ensures(i as int);
                    oe.remove_ensures(i as int);
                    let w = pre.remove(i as int);
                    assert(self.entries@ == oe.remove(i as int));
                    assert forall|k: int| 0 <= k < self@.len() implies self@[k] == w[k] by {
                        if k < i {
                            assert(self.entries@[k] == oe[k]);
                            assert(w[k] == pre[k]);
                            assert(pre[k] == (oe[k].id, oe[k].username@));
                        } else {
                            assert(self.entries@[k] == oe[k + 1]);
                            assert(w[k] == pre[k + 1]);
                            assert(pre[k + 1] == (oe[k + 1].id, oe[k + 1].username@));
                        }
                    }
                    assert(self@ =~= w);
                    lemma_remove_id_at(pre, id, i as int);
                    assert forall|a: int, b: int|
                        0 <= a < b < w.len() implies w[a].0 != w[b].0 by {
                        let pa = if a < i as int {
                            a
                        } else {
                            a + 1
                        };
                        let pb = if b < i as int {
                            b
                        } else {
                            b + 1
                        };
                        assert(w[a] == pre[pa]);
                        assert(w[b] == pre[pb]);
                        assert(pa < pb < pre.len());
                        assert(pre[pa].0 != pre[pb].0);
                    }
                }
                return ;
            }
            i += 1;
        }
        proof {
            lemma_remove_id_absent(pre, id);
        }
    }

    /// The usernames of all currently registered sessions, in registry
    /// order.
    pub fn snapshot_usernames(&self) -> (r: Vec<String>)
        ensures
            names_of(r@) == self.usernames(),
    {
        let mut r: Vec<String> = Vec::new();
        let mut i: usize = 0;
        while i < self.entries.len()
            invariant
                0 <= i <= self.entries@.len(),
                self@.len() == self.entries@.len(),
                forall|k: int| 0 <= k < self.entries@.len() ==> self@[k] == (
                self.entries@[k].id, self.entries@[k].username@),
                names_of(r@) == self.usernames().take(i as int),
            decreases self.entries@.len() - i,
        {
            let ghost rpre = r@;
            let name = self.entries[i].username.clone();
            r.push(name);
            proof {
                assert(r@ =~= rpre.push(name));
                assert(names_of(r@) =~= names_of(rpre).push(name@));
                assert(name@ == self.usernames()[i as int]);
                assert(names_of(r@) =~= self.usernames().take(i + 1));
            }
            i += 1;
        }
        proof {
            assert(self.usernames().take(self@.len() as int) =~= self.usernames());
        }
        r
    }

    /// How many sessions are registered.
    pub fn len(&self) -> (n: usize)
        ensures
            n == self@.len(),
    {
        self.entries.len()
    }
}

/// Get the list of usernames of the registered clients.
pub fn get_user_list(clients: &Registry) -> (r: Vec<String>)
    ensures
        names_of(r@) == clients.usernames(),
{
    clients.snapshot_usernames()
}

// ---------------------------------------------------------------------------
// Laws of the registry.
// ---------------------------------------------------------------------------

/// Removing an absent identity changes nothing.
pub proof fn lemma_remove_id_absent(v: Seq<(u128, Seq<char>)>, id: u128)
    requires
        !has_id(v, id),
    ensures
        remove_id(v, id) == v,
    decreases v.len(),
{
    if v.len() > 0 {
        assert(v[0].0 != id);
        assert(!has_id(v.skip(1), id)) by {
            assert forall|i: int| 0 <= i < v.skip(1).len() implies v.skip(1)[i].0 != id by {
                assert(v.skip(1)[i] == v[i + 1]);
            }
        }
        lemma_remove_id_absent(v.skip(1), id);
        assert(seq![v[0]] + v.skip(1) =~= v);
    }
}

/// When the first match stands at a known place, removal deletes exactly
/// that entry.
pub proof fn lemma_remove_id_at(v: Seq<(u128, Seq<char>)>, id: u128, i: int)
    requires
        0 <= i < v.len(),
        v[i].0 == id,
        forall|k: int| 0 <= k < i ==> v[k].0 != id,
    ensures
        remove_id(v, id) == v.remove(i),
    decreases i,
{
    if i == 0 {
        assert(remove_id(v, id) == v.skip(1));
        assert(v.remove(0) =~= v.skip(1));
    } else {
        assert(v[0].0 != id);
        assert(v.skip(1)[i - 1].0 == id);
        assert forall|k: int| 0 <= k < i - 1 implies v.skip(1)[k].0 != id by {
            assert(v.skip(1)[k] == v[k + 1]);
        }
        lemma_remove_id_at(v.skip(1), id, i - 1);
        assert(seq![v[0]] + v.skip(1).remove(i - 1) =~= v.remove(i));
    }
}

/// Registering puts the new session into the registry map.
pub proof fn lemma_map_of_register(v: Seq<(u128, Seq<char>)>, id: u128, name: Seq<char>)
    ensures
        map_of(v.push((id, name))) == map_of(v).insert(id, name),
{
    assert(v.push((id, name)).drop_last() =~= v);
}

/// Deregistering takes the session out of the registry map.
pub proof fn lemma_map_of_deregister(v: Seq<(u128, Seq<char>)>, id: u128)
    requires
        forall|i: int, j: int| 0 <= i < j < v.len() ==> v[i].0 != v[j].0,
    ensures
        map_of(remove_id(v, id)) == map_of(v).remove(id),
    decreases v.len(),
{
    if v.len() == 0 {
        assert(map_of(v).remove(id) =~= Map::<u128, Seq<char>>::empty());
    } else {
        let last = v.last();
        let rest = v.drop_last();
        assert forall|i: int, j: int| 0 <= i < j < rest.len() implies rest[i].0 != rest[j].0 by {
            assert(rest[i] == v[i] && rest[j] == v[j]);
        }
        if last.0 == id && !has_id(rest, id) {
            lemma_remove_id_absent_map(v, id);
        } else if last.0 != id {
            lemma_map_of_deregister(rest, id);
            lemma_remove_id_drop_last(v, id);
            assert(map_of(remove_id(v, id)) == map_of(remove_id(rest, id)).insert(last.0, last.1));
            assert(map_of(rest).remove(id).insert(last.0, last.1) =~= map_of(v).remove(id));
        } else {
            assert(has_id(rest, id) ==> false) by {
                if has_id(rest, id) {
                    let i = choose|i: int| 0 <= i < rest.len() && rest[i].0 == id;
                    assert(v[i].0 == id && v[v.len() - 1].0 == id);
                }
            }
        }
    }
}

/// Helper: when only the last entry matches, removal drops exactly it.
proof fn lemma_remove_id_absent_map(v: Seq<(u128, Seq<char>)>, id: u128)
    requires
        v.len() > 0,
        v.last().0 == id,
        !has_id(v.drop_last(), id),
    ensures
        map_of(remove_id(v, id)) == map_of(v).remove(id),
{
    let rest = v.drop_last();
    let i = v.len() - 1;
    assert forall|k: int| 0 <= k < i implies v[k].0 != id by {
        assert(rest[k] == v[k]);
        assert(!(0 <= k < rest.len() && rest[k].0 == id));
    }
    lemma_remove_id_at(v, id, i);
    assert(v.remove(i) =~= rest);
    lemma_map_of_no_key(rest, id);
    assert(map_of(v) == map_of(rest).insert(id, v.last().1));
    assert(map_of(v).remove(id) =~= map_of(rest));
}

/// Helper: removal of an identity commutes with dropping an unrelated last
/// entry.
proof fn lemma_remove_id_drop_last(v: Seq<(u128, Seq<char>)>, id: u128)
    requires
        v.len() > 0,
        v.last().0 != id,
    ensures
        remove_id(v, id).len() > 0,
        remove_id(v, id).last() == v.last(),
        remove_id(v, id).drop_last() == remove_id(v.drop_last(), id),
    decreases v.len(),
{
    if v[0].0 == id {
        assert(remove_id(v, id) == v.skip(1));
        assert(v.skip(1).last() == v.last());
        if v.len() == 1 {
        } else {
            assert(v.skip(1).drop_last() =~= v.drop_last().skip(1));
            assert(v.drop_last()[0].0 == id);
        }
    } else if v.len() == 1 {
        assert(remove_id(v.drop_last(), id) =~= Seq::<(u128, Seq<char>)>::empty());
        assert((seq![v[0]] + remove_id(v.skip(1), id)) =~= seq![v[0]]);
        assert(seq![v[0]].drop_last() =~= Seq::<(u128, Seq<char>)>::empty());
    } else {
        lemma_remove_id_drop_last(v.skip(1), id);
        let r = seq![v[0]] + remove_id(v.skip(1), id);
        assert(remove_id(v, id) == r);
        assert(r.last() == remove_id(v.skip(1), id).last());
        assert(remove_id(v.skip(1), id).last() == v.skip(1).last());
        assert(v.skip(1).last() == v.last());
        assert(v.drop_last()[0] == v[0]);
        assert(v.drop_last().len() > 0);
        if v.drop_last()[0].0 == id {
            assert(v[0].0 == id);
        }
        assert(remove_id(v.drop_last(), id) == seq![v[0]] + remove_id(v.drop_last().skip(1), id));
        assert(v.drop_last().skip(1) =~= v.skip(1).drop_last());
        assert(r.drop_last() =~= seq![v[0]] + remove_id(v.skip(1), id).drop_last());
    }
}

/// Helper: an identity that no entry carries is not a key of the map.
proof fn lemma_map_of_no_key(v: Seq<(u128, Seq<char>)>, id: u128)
    requires
        !has_id(v, id),
    ensures
        !map_of(v).contains_key(id),
    decreases v.len(),
{
    if v.len() > 0 {
        assert(v.last().0 != id);
        assert(!has_id(v.drop_last(), id)) by {
            assert forall|i: int| 0 <= i < v.drop_last().len() implies v.drop_last()[i].0 != id by {
                assert(v.drop_last()[i] == v[i]);
            }
        }
        lemma_map_of_no_key(v.drop_last(), id);
    }
}

/// One step of registry history.
pub enum RegOp {
    Register { id: u128, username: Seq<char> },
    Deregister { id: u128 },
}

/// A register step demands a fresh identity, as the registry does.
pub open spec fn op_ok(v: Seq<(u128, Seq<char>)>, op: RegOp) -> bool {
    match op {
        RegOp::Register { id, .. } => !has_id(v, id),
        RegOp::Deregister { .. } => true,
    }
}

/// The registry state after one step.
pub open spec fn apply_op(v: Seq<(u128, Seq<char>)>, op: RegOp) -> Seq<(u128, Seq<char>)> {
    match op {
        RegOp::Register { id, username } => v.push((id, username)),
        RegOp::Deregister { id } => remove_id(v, id),
    }
}

/// The registry state after a whole history.
pub open spec fn apply_ops(v: Seq<(u128, Seq<char>)>, ops: Seq<RegOp>) -> Seq<(u128, Seq<char>)>
    decreases ops.len(),
{
    if ops.len() == 0 {
        v
    } else {
        apply_ops(apply_op(v, ops[0]), ops.skip(1))
    }
}

/// Every step of a history demands a fresh identity where it registers.
pub open spec fn ops_ok(v: Seq<(u128, Seq<char>)>, ops: Seq<RegOp>) -> bool
    decreases ops.len(),
{
    if ops.len() == 0 {
        true
    } else {
        op_ok(v, ops[0]) && ops_ok(apply_op(v, ops[0]), ops.skip(1))
    }
}

/// The map semantics of a whole history: insert on register, remove on
/// deregister.
pub open spec fn map_of_ops(m: Map<u128, Seq<char>>, ops: Seq<RegOp>) -> Map<u128, Seq<char>>
    decreases ops.len(),
{
    if ops.len() == 0 {
        m
    } else {
        let m2 = match ops[0] {
            RegOp::Register { id, username } => m.insert(id, username),
            RegOp::Deregister { id } => m.remove(id),
        };
        map_of_ops(m2, ops.skip(1))
    }
}

/// Pairwise distinct identities survive one step.
proof fn lemma_wf_step(v: Seq<(u128, Seq<char>)>, op: RegOp)
    requires
        forall|i: int, j: int| 0 <= i < j < v.len() ==> v[i].0 != v[j].0,
        op_ok(v, op),
    ensures
        forall|i: int, j: int|
            0 <= i < j < apply_op(v, op).len() ==> apply_op(v, op)[i].0 != apply_op(v, op)[j].0,
{
    match op {
        RegOp::Register { id, username } => {
            let w = v.push((id, username));
            assert forall|i: int, j: int| 0 <= i < j < w.len() implies w[i].0 != w[j].0 by {
                if j < v.len() {
                } else {
                    assert(w[j] == (id, username));
                    assert(w[i] == v[i]);
                    assert(!(v[i].0 == id)) by {
                        if v[i].0 == id {
                            assert(has_id(v, id));
                        }
                    }
                }
            }
        },
        RegOp::Deregister { id } => {
            if has_id(v, id) {
                lemma_first_match(v, id);
                let i = choose|i: int|
                    0 <= i < v.len() && v[i].0 == id && (forall|k: int|
                        0 <= k < i ==> v[k].0 != id);
                lemma_remove_id_at(v, id, i);
                let w = v.remove(i);
                assert forall|a: int, b: int| 0 <= a < b < w.len() implies w[a].0 != w[b].0 by {
                    if a < i {
                        assert(w[a] == v[a]);
                    } else {
                        assert(w[a] == v[a + 1]);
                    }
                    if b < i {
                        assert(w[b] == v[b]);
                    } else {
                        assert(w[b] == v[b + 1]);
                    }
                }
            } else {
                lemma_remove_id_absent(v, id);
            }
        },
    }
}

/// Helper: where some entry matches, a first match exists.
proof fn lemma_first_match(v: Seq<(u128, Seq<char>)>, id: u128)
    requires
        has_id(v, id),
    ensures
        exists|i: int|
            0 <= i < v.len() && v[i].0 == id && (forall|k: int| 0 <= k < i ==> v[k].0 != id),
    decreases v.len(),
{
    if v[0].0 == id {
        assert(0 <= 0 < v.len() && v[0].0 == id && (forall|k: int| 0 <= k < 0 ==> v[k].0 != id));
    } else {
        assert(has_id(v.skip(1), id)) by {
            let i = choose|i: int| 0 <= i < v.len() && v[i].0 == id;
            assert(v.skip(1)[i - 1].0 == id);
        }
        lemma_first_match(v.skip(1), id);
        let i = choose|i: int|
            0 <= i < v.skip(1).len() && v.skip(1)[i].0 == id && (forall|k: int|
                0 <= k < i ==> v.skip(1)[k].0 != id);
        assert(v[i + 1].0 == id);
        assert forall|k: int| 0 <= k < i + 1 implies v[k].0 != id by {
            if k > 0 {
                assert(v.skip(1)[k - 1].0 != id);
            }
        }
    }
}

/// At any quiescent point, the registry holds exactly the sessions that
/// registered and have not since deregistered: running any valid history
/// leaves the registry's map equal to the history's map semantics, and
/// keeps identities pairwise distinct.  The snapshot operation returns
/// exactly the usernames of these entries.
pub proof fn lemma_registry_history(v: Seq<(u128, Seq<char>)>, ops: Seq<RegOp>)
    requires
        forall|i: int, j: int| 0 <= i < j < v.len() ==> v[i].0 != v[j].0,
        ops_ok(v, ops),
    ensures
        forall|i: int, j: int|
            0 <= i < j < apply_ops(v, ops).len() ==> apply_ops(v, ops)[i].0 != apply_ops(
                v,
                ops,
            )[j].0,
        map_of(apply_ops(v, ops)) == map_of_ops(map_of(v), ops),
    decreases ops.len(),
{
    if ops.len() > 0 {
        let w = apply_op(v, ops[0]);
        lemma_wf_step(v, ops[0]);
        match ops[0] {
            RegOp::Register { id, username } => {
                lemma_map_of_register(v, id, username);
            },
            RegOp::Deregister { id } => {
                lemma_map_of_deregister(v, id);
            },
        }
        lemma_registry_history(w, ops.skip(1));
    }
}

} // verus!

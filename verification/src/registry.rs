//! The client registry: every connected client, in connection order.
//!
//! Each entry pairs a client identity with its display name, which is
//! absent until the client's join handshake completes.  The registry is
//! the single source of truth for who is connected; delivery resolves its
//! recipients from a snapshot of it.

use vstd::prelude::*;

verus! {

/// One registry entry: a connected client and its display name, if any.
pub struct RegEntry {
    pub id: u128,
    pub name: Option<String>,
}

/// Mathematical model of `RegEntry`.
#[verifier::ext_equal]
pub struct RegEntryV {
    pub id: u128,
    pub name: Option<Seq<char>>,
}

impl View for RegEntry {
    type V = RegEntryV;

    open spec fn view(&self) -> RegEntryV {
        RegEntryV { id: self.id, name: self.name.deep_view() }
    }
}

impl DeepView for RegEntry {
    type V = RegEntryV;

    open spec fn deep_view(&self) -> RegEntryV {
        self@
    }
}

impl Clone for RegEntry {
    fn clone(&self) -> (r: Self)
        ensures
            r@ == self@,
    {
        RegEntry {
            id: self.id,
            name: match &self.name {
                Some(n) => Some(n.clone()),
                None => None,
            },
        }
    }
}

/// Whether some entry of `rs` carries the identity `id`.
pub open spec fn reg_has(rs: Seq<RegEntryV>, id: u128) -> bool {
    exists|i: int| 0 <= i < rs.len() && rs[i].id == id
}

/// The index of the entry carrying `id`; meaningful only under
/// `reg_has(rs, id)` together with uniqueness of identities.
pub open spec fn reg_idx(rs: Seq<RegEntryV>, id: u128) -> int {
    choose|i: int| 0 <= i < rs.len() && rs[i].id == id
}

/// The display name recorded for `id`: `None` when `id` is not registered
/// or has not completed its join handshake yet.
pub open spec fn reg_name_of(rs: Seq<RegEntryV>, id: u128) -> Option<Seq<char>> {
    if reg_has(rs, id) {
        rs[reg_idx(rs, id)].name
    } else {
        None
    }
}

/// The registered identities, in connection order.
pub open spec fn reg_ids(rs: Seq<RegEntryV>) -> Seq<u128> {
    rs.map_values(|e: RegEntryV| e.id)
}

/// No two entries carry the same identity.
pub open spec fn regs_unique(rs: Seq<RegEntryV>) -> bool {
    forall|i: int, j: int|
        0 <= i < j < rs.len() ==> (#[trigger] rs[i].id) != (#[trigger] rs[j].id)
}

/// The client registry: connection identity to display name.
///
/// The outbound channel bound to each identity is owned by the transport
/// layer around this library and is keyed by the same identity.
pub struct Registry {
    entries: Vec<RegEntry>,
}

impl View for Registry {
    type V = Seq<RegEntryV>;

    closed spec fn view(&self) -> Seq<RegEntryV> {
        self.entries.deep_view()
    }
}

impl Registry {
    /// No two entries carry the same identity.
    pub open spec fn wf(&self) -> bool {
        regs_unique(self@)
    }

    pub open spec fn spec_has(&self, id: u128) -> bool {
        reg_has(self@, id)
    }

    pub open spec fn spec_name_of(&self, id: u128) -> Option<Seq<char>> {
        reg_name_of(self@, id)
    }

    pub fn new() -> (r: Registry)
        ensures
            r@ == Seq::<RegEntryV>::empty(),
            r.wf(),
    {
        Registry { entries: Vec::new() }
    }

    /// The index of `id`'s entry, or `None` when `id` is not registered.
    fn find(&self, id: u128) -> (r: Option<usize>)
        requires
            self.wf(),
        ensures
            match r {
                Some(i) => i < self@.len() && self@[i as int].id == id && i as int == reg_idx(
                    self@,
                    id,
                ),
                None => !reg_has(self@, id),
            },
    {
        let n = self.entries.len();
        let mut i: usize = 0;
        while i < n
            invariant
                self.wf(),
                n == self@.len(),
                i <= n,
                forall|j: int| 0 <= j < i ==> (#[trigger] self@[j].id) != id,
            decreases n - i,
        {
            if self.entries[i].id == id {
                proof {
                    assert(self@[i as int] == self.entries@[i as int]@);
                    assert(self@[i as int].id == id);
                    assert(reg_has(self@, id));
                    let k = reg_idx(self@, id);
                    assert(0 <= k < self@.len() && self@[k].id == id);
                    assert(k == i as int);
                }
                return Some(i);
            }
            proof {
                assert(self@[i as int] == self.entries@[i as int]@);
            }
            i = i + 1;
        }
        None
    }

    /// Whether `id` is currently registered.
    pub fn has(&self, id: u128) -> (b: bool)
        requires
            self.wf(),
        ensures
            b == self.spec_has(id),
    {
        self.find(id).is_some()
    }

    /// Records a newly connected client, with no display name yet.
    /// Registering an identity that is already present changes nothing:
    /// identities are freshly drawn at connect time and never reused.
    pub fn register(&mut self, id: u128)
        requires
            old(self).wf(),
        ensures
            final(self).wf(),
            old(self).spec_has(id) ==> final(self)@ == old(self)@,
            !old(self).spec_has(id) ==> final(self)@ == old(self)@.push(
                RegEntryV { id, name: None },
            ),
    {
        if self.find(id).is_none() {
            self.entries.push(RegEntry { id, name: None });
            proof {
                assert(self@.drop_last() =~= old(self)@);
                assert(self@ =~= old(self)@.push(RegEntryV { id, name: None }));
            }
        }
    }

    /// Records the display name a client chose in its join handshake.
    /// A no-op for an unregistered identity.
    pub fn set_name(&mut self, id: u128, name: String)
        requires
            old(self).wf(),
        ensures
            final(self).wf(),
            !old(self).spec_has(id) ==> final(self)@ == old(self)@,
            old(self).spec_has(id) ==> final(self)@ == old(self)@.update(
                reg_idx(old(self)@, id),
                RegEntryV { id, name: Some(name@) },
            ),
    {
        if let Some(i) = self.find(id) {
            let entry = &mut self.entries[i];
            entry.id = id;
            entry.name = Some(name);
            proof {
                assert(self@ =~= old(self)@.update(
                    reg_idx(old(self)@, id),
                    RegEntryV { id, name: Some(name@) },
                ));
            }
        }
    }

    /// Removes a client on disconnect; idempotent on unknown identities.
    pub fn unregister(&mut self, id: u128)
        requires
            old(self).wf(),
        ensures
            final(self).wf(),
            !old(self).spec_has(id) ==> final(self)@ == old(self)@,
            old(self).spec_has(id) ==> final(self)@ == old(self)@.remove(reg_idx(old(self)@, id)),
    {
        if let Some(i) = self.find(id) {
            self.entries.remove(i);
            proof {
                assert(self@ =~= old(self)@.remove(reg_idx(old(self)@, id)));
            }
        }
    }

    /// The display name recorded for `id`, or `None` when `id` is unknown
    /// or has not completed its join handshake.
    pub fn name_of(&self, id: u128) -> (r: Option<String>)
        requires
            self.wf(),
        ensures
            r.deep_view() == self.spec_name_of(id),
    {
        match self.find(id) {
            Some(i) => match &self.entries[i].name {
                Some(n) => Some(n.clone()),
                None => None,
            },
            None => None,
        }
    }

    /// A copy of `id`'s entry, or `None` when `id` is not registered.
    pub fn get(&self, id: u128) -> (r: Option<RegEntry>)
        requires
            self.wf(),
        ensures
            match r {
                Some(e) => self.spec_has(id) && e@ == self@[reg_idx(self@, id)],
                None => !self.spec_has(id),
            },
    {
        match self.find(id) {
            Some(i) => Some(self.entries[i].clone()),
            None => None,
        }
    }

    /// A snapshot of every registered identity, in connection order.
    pub fn all_ids(&self) -> (r: Vec<u128>)
        requires
            self.wf(),
        ensures
            r@ == reg_ids(self@),
    {
        let n = self.entries.len();
        let mut r: Vec<u128> = Vec::new();
        let mut i: usize = 0;
        while i < n
            invariant
                n == self@.len(),
                i <= n,
                r@ =~= reg_ids(self@).take(i as int),
            decreases n - i,
        {
            r.push(self.entries[i].id);
            i = i + 1;
        }
        proof {
            assert(r@ =~= reg_ids(self@));
        }
        r
    }
}

} // verus!

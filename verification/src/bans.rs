use vstd::prelude::*;

use crate::text::{push_str, str_eq};

verus! {

/// A persistent ban or mute, matched against a player's IP address and name.
pub struct BanEntry {
    pub id: u64,
    /// `ban` or `mute`.
    pub kind: String,
    pub ip: Option<String>,
    pub name: Option<String>,
    /// The player's name as shown in the list.
    pub display: String,
    pub reason: String,
    /// Time of day it was added.
    pub at: String,
}

fn copy_text(t: &Option<String>) -> (r: Option<String>)
    ensures
        r == *t,
{
    match t {
        Some(s) => Some(s.clone()),
        None => None,
    }
}

/// A copy of an entry.
pub fn copy_entry(e: &BanEntry) -> (r: BanEntry)
    ensures
        r == *e,
{
    BanEntry {
        id: e.id,
        kind: e.kind.clone(),
        ip: copy_text(&e.ip),
        name: copy_text(&e.name),
        display: e.display.clone(),
        reason: e.reason.clone(),
        at: e.at.clone(),
    }
}

/// Whether `e` is an entry of `kind` against address `ip` or name `name`.
pub open spec fn targets(e: BanEntry, ip: Seq<char>, name: Seq<char>, kind: Seq<char>) -> bool {
    &&& e.kind@ == kind
    &&& ((e.ip matches Some(x) && x@ == ip) || (e.name matches Some(x) && x@ == name))
}

/// The entries of `s` whose id is not `id`, in order.
pub open spec fn without_id(s: Seq<BanEntry>, id: u64) -> Seq<BanEntry>
    decreases s.len(),
{
    if s.len() == 0 {
        s
    } else {
        let prev = without_id(s.drop_last(), id);
        if s.last().id == id {
            prev
        } else {
            prev.push(s.last())
        }
    }
}

/// The entries of `s` that are not of `kind` against `ip` or `name`, in order.
pub open spec fn without_targets(s: Seq<BanEntry>, ip: Seq<char>, name: Seq<char>, kind: Seq<char>) -> Seq<BanEntry>
    decreases s.len(),
{
    if s.len() == 0 {
        s
    } else {
        let prev = without_targets(s.drop_last(), ip, name, kind);
        if targets(s.last(), ip, name, kind) {
            prev
        } else {
            prev.push(s.last())
        }
    }
}

fn entry_targets(e: &BanEntry, ip: &str, name: &str, kind: &str) -> (b: bool)
    ensures
        b == targets(*e, ip@, name@, kind@),
{
    if !str_eq(e.kind.as_str(), kind) {
        return false;
    }
    let by_ip = match &e.ip {
        Some(x) => str_eq(x.as_str(), ip),
        None => false,
    };
    let by_name = match &e.name {
        Some(x) => str_eq(x.as_str(), name),
        None => false,
    };
    by_ip || by_name
}

/// The persistent list of bans and mutes, in the order they were added.
pub struct BanList {
    pub entries: Vec<BanEntry>,
    /// The id given to the latest entry (0 before the first).
    pub last_id: u64,
}

impl BanList {
    /// An empty list.
    pub fn new() -> (l: BanList)
        ensures
            l.entries@.len() == 0,
            l.last_id == 0,
    {
        BanList { entries: Vec::new(), last_id: 0 }
    }

    /// Adds an entry under the next id, and returns that id.
    pub fn add(
        &mut self,
        kind: &str,
        ip: Option<String>,
        name: Option<String>,
        display: String,
        reason: String,
        at: String,
    ) -> (id: u64)
        ensures
            id == vstd::wrapping::u64_specs::wrapping_add(old(self).last_id, 1),
            final(self).last_id == id,
            final(self).entries@.len() == old(self).entries@.len() + 1,
            final(self).entries@.drop_last() == old(self).entries@,
            ({
                let e = final(self).entries@.last();
                &&& e.id == id
                &&& e.kind@ == kind@
                &&& e.ip == ip
                &&& e.name == name
                &&& e.display == display
                &&& e.reason == reason
                &&& e.at == at
            }),
    {
        let id = self.last_id.wrapping_add(1);
        self.last_id = id;
        let mut k = String::new();
        push_str(&mut k, kind);
        self.entries.push(BanEntry { id, kind: k, ip, name, display, reason, at });
        proof {
            assert(self.entries@.drop_last() =~= old(self).entries@);
        }
        id
    }

    /// Removes the entry with id `id`, if any.
    pub fn remove(&mut self, id: u64)
        ensures
            final(self).entries@ == without_id(old(self).entries@, id),
            final(self).last_id == old(self).last_id,
    {
        let n = self.entries.len();
        let mut out: Vec<BanEntry> = Vec::new();
        let mut i: usize = 0;
        while i < n
            invariant
                n == self.entries@.len(),
                self.entries@ == old(self).entries@,
                i <= n,
                out@ == without_id(self.entries@.take(i as int), id),
            decreases n - i,
        {
            proof {
                assert(self.entries@.take(i + 1).drop_last() =~= self.entries@.take(i as int));
            }
            if self.entries[i].id != id {
                out.push(copy_entry(&self.entries[i]));
            }
            i = i + 1;
        }
        proof {
            assert(self.entries@.take(n as int) =~= self.entries@);
        }
        self.entries = out;
    }

    /// Removes the entries of `kind` against address `ip` or name `name`.
    pub fn remove_matching(&mut self, ip: &str, name: &str, kind: &str)
        ensures
            final(self).entries@ == without_targets(old(self).entries@, ip@, name@, kind@),
            final(self).last_id == old(self).last_id,
    {
        let n = self.entries.len();
        let mut out: Vec<BanEntry> = Vec::new();
        let mut i: usize = 0;
        while i < n
            invariant
                n == self.entries@.len(),
                self.entries@ == old(self).entries@,
                i <= n,
                out@ == without_targets(self.entries@.take(i as int), ip@, name@, kind@),
            decreases n - i,
        {
            proof {
                assert(self.entries@.take(i + 1).drop_last() =~= self.entries@.take(i as int));
            }
            if !entry_targets(&self.entries[i], ip, name, kind) {
                out.push(copy_entry(&self.entries[i]));
            }
            i = i + 1;
        }
        proof {
            assert(self.entries@.take(n as int) =~= self.entries@);
        }
        self.entries = out;
    }

    /// A copy of the entries, in order.
    pub fn list(&self) -> (r: Vec<BanEntry>)
        ensures
            r@ == self.entries@,
    {
        let n = self.entries.len();
        let mut out: Vec<BanEntry> = Vec::new();
        let mut i: usize = 0;
        while i < n
            invariant
                n == self.entries@.len(),
                i <= n,
                out@ == self.entries@.take(i as int),
            decreases n - i,
        {
            out.push(copy_entry(&self.entries[i]));
            proof {
                assert(out@ =~= self.entries@.take(i + 1));
            }
            i = i + 1;
        }
        proof {
            assert(self.entries@.take(n as int) =~= self.entries@);
        }
        out
    }
}

} // verus!

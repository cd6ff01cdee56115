//! Opaque handles for the local sources that the user picked, so that the
//! interface never sees a private path.
use vstd::prelude::*;

use crate::model::opt_view;
use crate::text::{decimal, decimal_exec, push_str, string_of};

verus! {

/// The paths registered under each handle, as a map.
pub open spec fn entries_map(s: Seq<(String, String)>) -> Map<Seq<char>, Seq<char>>
    decreases s.len(),
{
    if s.len() == 0 {
        Map::empty()
    } else {
        entries_map(s.drop_last()).insert(s.last().0@, s.last().1@)
    }
}

pub open spec fn distinct_handles(s: Seq<(String, String)>) -> bool {
    forall|i: int, j: int| 0 <= i < j < s.len() ==> (#[trigger] s[i]).0@ != (#[trigger] s[j]).0@
}

proof fn lemma_entries_map_at(s: Seq<(String, String)>, i: int)
    requires
        distinct_handles(s),
        0 <= i < s.len(),
    ensures
        entries_map(s).contains_key(s[i].0@),
        entries_map(s)[s[i].0@] == s[i].1@,
    decreases s.len(),
{
    if i < s.len() - 1 {
        assert(s.drop_last()[i] == s[i]);
        lemma_entries_map_at(s.drop_last(), i);
        assert(s[i].0@ != s[s.len() - 1].0@);
    }
}

proof fn lemma_entries_map_keys(s: Seq<(String, String)>, k: Seq<char>)
    requires
        entries_map(s).contains_key(k),
    ensures
        exists|i: int| 0 <= i < s.len() && (#[trigger] s[i]).0@ == k,
    decreases s.len(),
{
    if s.len() > 0 && s.last().0@ != k {
        lemma_entries_map_keys(s.drop_last(), k);
        let i = choose|i: int| 0 <= i < s.drop_last().len() && (#[trigger] s.drop_last()[i]).0@ == k;
        assert(s[i] == s.drop_last()[i]);
    }
}

proof fn lemma_entries_map_update(s: Seq<(String, String)>, i: int, e: (String, String))
    requires
        distinct_handles(s),
        0 <= i < s.len(),
        e.0@ == s[i].0@,
    ensures
        entries_map(s.update(i, e)) == entries_map(s).insert(e.0@, e.1@),
        distinct_handles(s.update(i, e)),
    decreases s.len(),
{
    let u = s.update(i, e);
    if i == s.len() - 1 {
        assert(u.drop_last() =~= s.drop_last());
        assert(entries_map(u) =~= entries_map(s).insert(e.0@, e.1@));
    } else {
        assert(u.drop_last() =~= s.drop_last().update(i, e));
        lemma_entries_map_update(s.drop_last(), i, e);
        assert(s[i].0@ != s.last().0@);
        assert(entries_map(u) =~= entries_map(s).insert(e.0@, e.1@));
    }
    assert forall|a: int, b: int| 0 <= a < b < u.len() implies (#[trigger] u[a]).0@ != (
    #[trigger] u[b]).0@ by {
        assert(s[a].0@ != s[b].0@);
    }
}

/// Registers `path` under `handle`: a handle already present gets the new path.
fn insert_entry(entries: &mut Vec<(String, String)>, handle: String, path: String)
    requires
        distinct_handles(old(entries)@),
    ensures
        distinct_handles(final(entries)@),
        entries_map(final(entries)@) == entries_map(old(entries)@).insert(handle@, path@),
{
    let mut i: usize = 0;
    while i < entries.len()
        invariant
            i <= entries@.len(),
            entries@ == old(entries)@,
            distinct_handles(old(entries)@),
            forall|k: int| 0 <= k < i ==> (#[trigger] entries@[k]).0@ != handle@,
        decreases entries@.len() - i,
    {
        if entries[i].0 == handle {
            proof {
                lemma_entries_map_update(entries@, i as int, (handle, path));
            }
            entries.set(i, (handle, path));
            return;
        }
        i += 1;
    }
    let ghost before = entries@;
    entries.push((handle, path));
    assert(entries@.drop_last() =~= before);
    assert forall|a: int, b: int| 0 <= a < b < entries@.len() implies (
    #[trigger] entries@[a]).0@ != (#[trigger] entries@[b]).0@ by {
        if b < before.len() {
            assert(before[a] == entries@[a] && before[b] == entries@[b]);
        }
    }
}

fn lookup_entry(entries: &Vec<(String, String)>, handle: &str) -> (r: Option<String>)
    requires
        distinct_handles(entries@),
    ensures
        opt_view(r) == if entries_map(entries@).contains_key(handle@) {
            Some(entries_map(entries@)[handle@])
        } else {
            None
        },
{
    let h = handle.to_string();
    let mut i: usize = 0;
    while i < entries.len()
        invariant
            i <= entries@.len(),
            h@ == handle@,
            distinct_handles(entries@),
            forall|k: int| 0 <= k < i ==> (#[trigger] entries@[k]).0@ != handle@,
        decreases entries@.len() - i,
    {
        if entries[i].0 == h {
            proof {
                lemma_entries_map_at(entries@, i as int);
            }
            return Some(entries[i].1.clone());
        }
        i += 1;
    }
    proof {
        if entries_map(entries@).contains_key(handle@) {
            lemma_entries_map_keys(entries@, handle@);
        }
    }
    None
}

/// The handle text for the `n`-th registered backup.
pub open spec fn backup_handle_text(n: u64) -> Seq<char> {
    "backup-source-"@ + decimal(n as nat)
}

/// The handle text for the `n`-th opened export.
pub open spec fn export_handle_text(n: u64) -> Seq<char> {
    "export-source-"@ + decimal(n as nat)
}

pub open spec fn saturating_inc(n: u64) -> u64 {
    if n == u64::MAX {
        n
    } else {
        (n + 1) as u64
    }
}

/// The local paths behind the handles handed to the interface. Backups keep
/// every registration until cleared; only the latest export stays.
pub struct SourceRegistry {
    backup_paths: Vec<(String, String)>,
    export_paths: Vec<(String, String)>,
    next_backup_handle: u64,
    next_export_handle: u64,
}

pub struct SourceRegistryV {
    pub backups: Map<Seq<char>, Seq<char>>,
    pub exports: Map<Seq<char>, Seq<char>>,
    pub next_backup_handle: u64,
    pub next_export_handle: u64,
}

impl View for SourceRegistry {
    type V = SourceRegistryV;

    closed spec fn view(&self) -> SourceRegistryV {
        SourceRegistryV {
            backups: entries_map(self.backup_paths@),
            exports: entries_map(self.export_paths@),
            next_backup_handle: self.next_backup_handle,
            next_export_handle: self.next_export_handle,
        }
    }
}

impl Default for SourceRegistry {
    fn default() -> (r: Self)
        ensures
            r.wf(),
            r@.backups == Map::<Seq<char>, Seq<char>>::empty(),
            r@.exports == Map::<Seq<char>, Seq<char>>::empty(),
            r@.next_backup_handle == 0,
            r@.next_export_handle == 0,
    {
        SourceRegistry {
            backup_paths: Vec::new(),
            export_paths: Vec::new(),
            next_backup_handle: 0,
            next_export_handle: 0,
        }
    }
}

impl SourceRegistry {
    /// No handle is registered twice.
    pub closed spec fn wf(self) -> bool {
        distinct_handles(self.backup_paths@) && distinct_handles(self.export_paths@)
    }

    /// Forgets every registered backup; the handle counter keeps going.
    pub fn clear_backups(&mut self)
        requires
            old(self).wf(),
        ensures
            final(self).wf(),
            final(self)@.backups == Map::<Seq<char>, Seq<char>>::empty(),
            final(self)@.exports == old(self)@.exports,
            final(self)@.next_backup_handle == old(self)@.next_backup_handle,
            final(self)@.next_export_handle == old(self)@.next_export_handle,
    {
        self.backup_paths = Vec::new();
    }

    /// Registers a backup path under a new handle, which names only a counter.
    pub fn register_backup(&mut self, path: String) -> (handle: String)
        requires
            old(self).wf(),
        ensures
            final(self).wf(),
            final(self)@.next_backup_handle == saturating_inc(old(self)@.next_backup_handle),
            handle@ == backup_handle_text(final(self)@.next_backup_handle),
            final(self)@.backups == old(self)@.backups.insert(handle@, path@),
            final(self)@.exports == old(self)@.exports,
            final(self)@.next_export_handle == old(self)@.next_export_handle,
    {
        self.next_backup_handle = self.next_backup_handle.saturating_add(1);
        let mut h: Vec<char> = Vec::new();
        push_str(&mut h, "backup-source-");
        let n = decimal_exec(self.next_backup_handle);
        crate::text::append_all(&mut h, n.as_slice());
        let handle = string_of(h);
        insert_entry(&mut self.backup_paths, handle.clone(), path);
        handle
    }

    /// Registers an export path under a new handle and retires every earlier
    /// export handle.
    pub fn register_export(&mut self, path: String) -> (handle: String)
        requires
            old(self).wf(),
        ensures
            final(self).wf(),
            final(self)@.next_export_handle == saturating_inc(old(self)@.next_export_handle),
            handle@ == export_handle_text(final(self)@.next_export_handle),
            final(self)@.exports == Map::<Seq<char>, Seq<char>>::empty().insert(handle@, path@),
            final(self)@.backups == old(self)@.backups,
            final(self)@.next_backup_handle == old(self)@.next_backup_handle,
    {
        self.export_paths = Vec::new();
        self.next_export_handle = self.next_export_handle.saturating_add(1);
        let mut h: Vec<char> = Vec::new();
        push_str(&mut h, "export-source-");
        let n = decimal_exec(self.next_export_handle);
        crate::text::append_all(&mut h, n.as_slice());
        let handle = string_of(h);
        insert_entry(&mut self.export_paths, handle.clone(), path);
        handle
    }

    /// The backup path registered under `handle`.
    pub fn backup_path(&self, handle: &str) -> (r: Option<String>)
        requires
            self.wf(),
        ensures
            opt_view(r) == if self@.backups.contains_key(handle@) {
                Some(self@.backups[handle@])
            } else {
                None
            },
    {
        lookup_entry(&self.backup_paths, handle)
    }

    /// The backup path registered under `handle`, or the message shown when
    /// the handle no longer names one.
    pub fn registered_backup_path(&self, handle: &str) -> (r: Result<String, String>)
        requires
            self.wf(),
        ensures
            self@.backups.contains_key(handle@) ==> (r matches Ok(p) && p@ == self@.backups[handle@]),
            !self@.backups.contains_key(handle@) ==> (r matches Err(m) && m@
                == "The selected iPhone backup is no longer available. Refresh backups and try again."@),
    {
        match self.backup_path(handle) {
            Some(p) => Ok(p),
            None => Err(
                "The selected iPhone backup is no longer available. Refresh backups and try again.".to_string(),
            ),
        }
    }

    /// The export path registered under `handle`, or the message shown when
    /// the handle no longer names one.
    pub fn registered_export_path(&self, handle: &str) -> (r: Result<String, String>)
        requires
            self.wf(),
        ensures
            self@.exports.contains_key(handle@) ==> (r matches Ok(p) && p@ == self@.exports[handle@]),
            !self@.exports.contains_key(handle@) ==> (r matches Err(m) && m@
                == "The selected WhatsApp export is no longer available. Open it again and try again."@),
    {
        match self.export_path(handle) {
            Some(p) => Ok(p),
            None => Err(
                "The selected WhatsApp export is no longer available. Open it again and try again.".to_string(),
            ),
        }
    }

    /// The export path registered under `handle`.
    pub fn export_path(&self, handle: &str) -> (r: Option<String>)
        requires
            self.wf(),
        ensures
            opt_view(r) == if self@.exports.contains_key(handle@) {
                Some(self@.exports[handle@])
            } else {
                None
            },
    {
        lookup_entry(&self.export_paths, handle)
    }
}


/// Handles issued at different counter values differ, so a refreshed backup
/// list never hands out a handle that named an earlier path.
pub proof fn lemma_handles_are_distinct(a: u64, b: u64)
    requires
        a != b,
    ensures
        backup_handle_text(a) != backup_handle_text(b),
        export_handle_text(a) != export_handle_text(b),
{
    if backup_handle_text(a) == backup_handle_text(b) {
        let p = "backup-source-"@;
        assert(backup_handle_text(a).skip(p.len() as int) =~= decimal(a as nat));
        assert(backup_handle_text(b).skip(p.len() as int) =~= decimal(b as nat));
        crate::text::lemma_decimal_injective(a as nat, b as nat);
    }
    if export_handle_text(a) == export_handle_text(b) {
        let p = "export-source-"@;
        assert(export_handle_text(a).skip(p.len() as int) =~= decimal(a as nat));
        assert(export_handle_text(b).skip(p.len() as int) =~= decimal(b as nat));
        crate::text::lemma_decimal_injective(a as nat, b as nat);
    }
}

/// A registered path reads back under its handle, and registering leaves the
/// paths under every other handle as they were.
pub proof fn lemma_registered_path_reads_back(
    before: Map<Seq<char>, Seq<char>>,
    handle: Seq<char>,
    path: Seq<char>,
    other: Seq<char>,
)
    requires
        other != handle,
    ensures
        before.insert(handle, path).contains_key(handle),
        before.insert(handle, path)[handle] == path,
        before.insert(handle, path).contains_key(other) == before.contains_key(other),
        before.contains_key(other) ==> before.insert(handle, path)[other] == before[other],
{
}

/// After a new export is registered, no earlier export handle resolves.
pub proof fn lemma_earlier_exports_retired(handle: Seq<char>, path: Seq<char>, earlier: Seq<char>)
    requires
        earlier != handle,
    ensures
        !Map::<Seq<char>, Seq<char>>::empty().insert(handle, path).contains_key(earlier),
{
}

} // verus!

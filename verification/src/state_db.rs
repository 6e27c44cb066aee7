//! What the local database keeps between two exports.

use vstd::prelude::*;

use crate::json;
use crate::processings::{ManifestItem, StorageMapping};
use crate::strmap::{string_values, StrMap};
use crate::text;

verus! {

/// An exported processor.
#[derive(Debug, Clone, PartialEq)]
pub struct ProcItem {
    pub name: String,
    pub kind: String,
    pub hash: String,
    pub path: String,
    pub size: u64,
    pub updated: String,
}

/// Where the catalogue of processors is stored, and the names of their kinds.
#[derive(Debug)]
pub struct Discovery {
    pub table: String,
    pub field_storage: String,
    pub field_hash: String,
    pub field_kind: String,
    pub enum_table: String,
    pub hash_is_binary: bool,
    pub discovered_at: Option<String>,
    pub kind_uuid_to_name: StrMap<String>,
}

/// An entry of the log of exports, before it is written.
#[derive(Debug, Clone)]
pub struct ExportLogEntry {
    pub repo: String,
    /// Local time, in the form `%Y-%m-%d %H:%M:%S`.
    pub finished_at: String,
    pub duration_sec: Option<u64>,
    /// `ok` or `fail`.
    pub status: String,
    /// How many events started the export, where events did.
    pub events: Option<u64>,
    pub details: Option<String>,
    pub error: Option<String>,
}

/// An entry of the log of exports, as it is read.
#[derive(Debug, Clone)]
pub struct ExportLogRow {
    pub id: i64,
    pub repo: String,
    pub finished_at: String,
    pub duration_sec: Option<u64>,
    pub status: String,
    pub events: Option<u64>,
    pub details: Option<String>,
    pub error: Option<String>,
}

/// The two hold the same processor.
pub open spec fn same_item(p: ProcItem, m: ManifestItem) -> bool {
    p.name@ == m.name@ && p.kind@ == m.kind@ && p.hash@ == m.hash@ && p.path@ == m.path@ && p.size
        == m.size && p.updated@ == m.updated@
}

/// The two hold the same processors under the same references.
pub open spec fn same_items(
    p: Map<Seq<char>, ProcItem>,
    m: Map<Seq<char>, ManifestItem>,
) -> bool {
    p.dom() == m.dom() && forall|k: Seq<char>| #[trigger]
        m.dom().contains(k) ==> same_item(p[k], m[k])
}

/// The processors of a manifest as the database keeps them.
pub fn items_to_save(items: &StrMap<ManifestItem>) -> (r: StrMap<ProcItem>)
    ensures
        same_items(r@, items@),
{
    let n: usize = items.len();
    let ghost keys = items.keys();
    let mut out: StrMap<ProcItem> = StrMap::new();
    for i in 0..n
        invariant
            n == keys.len(),
            keys == items.keys(),
            forall|k: Seq<char>| #[trigger]
                out@.dom().contains(k) == keys.take(i as int).contains(k),
            forall|k: Seq<char>| #[trigger]
                out@.dom().contains(k) ==> items@.dom().contains(k) && same_item(out@[k], items@[k]),
    {
        let key = items.key_at(i).clone();
        let m = items.value_at(i);
        let p = ProcItem {
            name: m.name.clone(),
            kind: m.kind.clone(),
            hash: m.hash.clone(),
            path: m.path.clone(),
            size: m.size,
            updated: m.updated.clone(),
        };
        let ghost before = out@;
        out.insert(key, p);
        proof {
            let k0 = keys.take(i as int);
            let k1 = keys.take(i + 1);
            assert(k1 =~= k0.push(keys[i as int]));
            assert forall|k: Seq<char>| #[trigger]
                out@.dom().contains(k) == k1.contains(k) by {
                if k0.contains(k) {
                    let j = k0.index_of(k);
                    assert(k1[j] == k);
                }
                if k1.contains(k) {
                    let j = k1.index_of(k);
                    if j < i {
                        assert(k0[j] == k);
                    }
                }
                assert(k1[i as int] == keys[i as int]);
                assert(before.dom().contains(k) == k0.contains(k));
            }
        }
    }
    proof {
        assert(keys.take(n as int) =~= keys);
        assert forall|k: Seq<char>| out@.dom().contains(k) == items@.dom().contains(k) by {
            assert(items@.dom().contains(k) == keys.contains(k));
        }
        assert(out@.dom() =~= items@.dom());
        assert forall|k: Seq<char>| #[trigger] items@.dom().contains(k) implies same_item(
            out@[k],
            items@[k],
        ) by {
            assert(out@.dom().contains(k));
        }
    }
    out
}

/// The processors that the database kept, as a manifest has them.
pub fn items_from_saved(items: &StrMap<ProcItem>) -> (r: StrMap<ManifestItem>)
    ensures
        same_items(items@, r@),
{
    let n: usize = items.len();
    let ghost keys = items.keys();
    let mut out: StrMap<ManifestItem> = StrMap::new();
    for i in 0..n
        invariant
            n == keys.len(),
            keys == items.keys(),
            forall|k: Seq<char>| #[trigger]
                out@.dom().contains(k) == keys.take(i as int).contains(k),
            forall|k: Seq<char>| #[trigger]
                out@.dom().contains(k) ==> items@.dom().contains(k) && same_item(items@[k], out@[k]),
    {
        let key = items.key_at(i).clone();
        let p = items.value_at(i);
        let m = ManifestItem {
            name: p.name.clone(),
            kind: p.kind.clone(),
            hash: p.hash.clone(),
            path: p.path.clone(),
            size: p.size,
            updated: p.updated.clone(),
        };
        let ghost before = out@;
        out.insert(key, m);
        proof {
            let k0 = keys.take(i as int);
            let k1 = keys.take(i + 1);
            assert(k1 =~= k0.push(keys[i as int]));
            assert forall|k: Seq<char>| #[trigger]
                out@.dom().contains(k) == k1.contains(k) by {
                if k0.contains(k) {
                    let j = k0.index_of(k);
                    assert(k1[j] == k);
                }
                if k1.contains(k) {
                    let j = k1.index_of(k);
                    if j < i {
                        assert(k0[j] == k);
                    }
                }
                assert(k1[i as int] == keys[i as int]);
                assert(before.dom().contains(k) == k0.contains(k));
            }
        }
    }
    proof {
        assert(keys.take(n as int) =~= keys);
        assert forall|k: Seq<char>| out@.dom().contains(k) == items@.dom().contains(k) by {
            assert(items@.dom().contains(k) == keys.contains(k));
        }
        assert(out@.dom() =~= items@.dom());
    }
    out
}

impl Discovery {
    /// The mapping that was discovered.
    pub fn mapping(&self) -> (r: StorageMapping)
        ensures
            r.table@ == self.table@,
            r.field_storage@ == self.field_storage@,
            r.field_hash@ == self.field_hash@,
            r.field_kind@ == self.field_kind@,
            r.enum_table@ == self.enum_table@,
            r.hash_is_binary == self.hash_is_binary,
    {
        StorageMapping {
            table: self.table.clone(),
            field_storage: self.field_storage.clone(),
            field_hash: self.field_hash.clone(),
            field_kind: self.field_kind.clone(),
            enum_table: self.enum_table.clone(),
            hash_is_binary: self.hash_is_binary,
        }
    }

    /// What is kept once a mapping was discovered at the given time; the names
    /// of the kinds stay as they were kept before.
    pub fn updated(kept: Option<Discovery>, mapping: &StorageMapping, at: String) -> (r: Discovery)
        ensures
            r.table@ == mapping.table@,
            r.field_storage@ == mapping.field_storage@,
            r.field_hash@ == mapping.field_hash@,
            r.field_kind@ == mapping.field_kind@,
            r.enum_table@ == mapping.enum_table@,
            r.hash_is_binary == mapping.hash_is_binary,
            r.discovered_at == Some(at),
            match kept {
                Some(d) => r.kind_uuid_to_name == d.kind_uuid_to_name,
                None => r.kind_uuid_to_name@ == Map::<Seq<char>, String>::empty(),
            },
    {
        let kinds = match kept {
            Some(d) => d.kind_uuid_to_name,
            None => StrMap::new(),
        };
        Discovery {
            table: mapping.table.clone(),
            field_storage: mapping.field_storage.clone(),
            field_hash: mapping.field_hash.clone(),
            field_kind: mapping.field_kind.clone(),
            enum_table: mapping.enum_table.clone(),
            hash_is_binary: mapping.hash_is_binary,
            discovered_at: Some(at),
            kind_uuid_to_name: kinds,
        }
    }
}

/// The names of kinds that are kept as the text of an object of texts; none
/// where it is no such text.
pub fn saved_kinds(kept: &str) -> (r: StrMap<String>)
    ensures
        string_values(r@) == match json::texts_in(json::json(kept@)) {
            Some(m) => m,
            None => Map::empty(),
        },
{
    match json::text_map(&json::parse_json(kept)) {
        Some(m) => m,
        None => {
            let m: StrMap<String> = StrMap::new();
            assert(string_values(m@) =~= Map::empty());
            m
        },
    }
}

// Laws.

/// An item of the state and one of the manifest are the same where all their
/// fields are.
pub proof fn same_items_have_the_same_fields(p: ProcItem, m: ManifestItem)
    ensures
        same_item(p, m) <==> p.name@ == m.name@ && p.kind@ == m.kind@ && p.hash@ == m.hash@
            && p.path@ == m.path@ && p.size == m.size && p.updated@ == m.updated@,
{
}

} // verus!

//! State records: the manifest document in `$CUVM_HOME`, the per-version
//! sidecars, and the cached driver probe. (The JSON encoding lives with the
//! program that reads and writes the files.)
use vstd::prelude::*;
use vstd::string::*;

use crate::domain::Source;
use crate::resolver::{alias_map, pairs_view};
use crate::text::{opt_str_view, str_eq, string_of};

verus! {

/// Bump when an incompatible on-disk change ships. Readers reject anything
/// higher.
pub const SCHEMA_VERSION: u32 = 1;

/// Root manifest document in `$CUVM_HOME`. `aliases` and `pins` are
/// (key, value) pairs; a later pair for a key replaces an earlier one.
#[derive(Debug, Clone, PartialEq, Eq)]
pub struct Manifest {
    pub schema_version: u32,
    pub bundles: Vec<BundleRecord>,
    pub aliases: Vec<(String, String)>,
    pub pins: Vec<(String, String)>,
    pub last_driver: Option<DriverRecord>,
}

/// One installed/adopted bundle row in the manifest.
#[derive(Debug, Clone, PartialEq, Eq)]
pub struct BundleRecord {
    pub version: String,
    pub source: Source,
    /// Absolute external path for `Adopted`; `versions/<ver>` (relative to
    /// `CUVM_HOME`) for `Downloaded`/`Supplied`.
    pub path: String,
    pub cudnn: Option<String>,
    pub components: Vec<String>,
    pub sha256: Option<String>,
    pub installed_at: time::OffsetDateTime,
}

/// Sidecar at `$CUVM_HOME/versions/<ver>/.cuvm-meta.json`.
#[derive(Debug, Clone, PartialEq, Eq)]
pub struct VersionMeta {
    pub version: String,
    pub source: Source,
    pub cudnn: Option<String>,
    pub components: Vec<String>,
    pub sha256: Option<String>,
    pub has_lib64: bool,
    pub installed_at: time::OffsetDateTime,
}

/// Per-version cuDNN sidecar (`versions/<ver>/.cuvm-cudnn.json`); the
/// manifest's `BundleRecord.cudnn` keeps only the version string.
#[derive(Debug, Clone, PartialEq, Eq)]
pub struct CudnnRecord {
    pub version: String,
    pub cuda_major: u32,
    pub source: Source,
    pub sha256: String,
    pub libs: Vec<String>,
    pub installed_at: time::OffsetDateTime,
}

/// Last driver probe cached in the manifest for offline `doctor`.
#[derive(Debug, Clone, PartialEq, Eq)]
pub struct DriverRecord {
    pub version: String,
    pub cuda_ceiling: String,
}

/// The records whose handle is not `v`, in order.
pub open spec fn without_handle(bs: Seq<BundleRecord>, v: Seq<char>) -> Seq<BundleRecord>
    decreases bs.len(),
{
    if bs.len() == 0 {
        Seq::<BundleRecord>::empty()
    } else if bs.last().version@ == v {
        without_handle(bs.drop_last(), v)
    } else {
        without_handle(bs.drop_last(), v).push(bs.last())
    }
}

/// No record of `without_handle(bs, v)` has handle `v`.
pub proof fn lemma_without_handle(bs: Seq<BundleRecord>, v: Seq<char>)
    ensures
        forall|j: int|
            0 <= j < without_handle(bs, v).len() ==> #[trigger] without_handle(bs, v)[j].version@
                != v,
        without_handle(bs, v).len() <= bs.len(),
    decreases bs.len(),
{
    if bs.len() > 0 {
        lemma_without_handle(bs.drop_last(), v);
        let w = without_handle(bs.drop_last(), v);
        let r = without_handle(bs, v);
        assert forall|j: int| 0 <= j < r.len() implies #[trigger] r[j].version@ != v by {
            if bs.last().version@ != v {
                assert(r == w.push(bs.last()));
                if j < w.len() {
                    assert(r[j] == w[j]);
                    assert(w[j].version@ != v);
                } else {
                    assert(j == w.len());
                    assert(r[j] == bs.last());
                    assert(bs.last().version@ != v);
                }
            } else {
                assert(r == w);
                assert(w[j].version@ != v);
            }
        }
    }
}

/// Upserting a record leaves exactly one record of its handle, the new one,
/// last: `upsert_bundle` never duplicates a handle.
pub proof fn lemma_upsert_keeps_one_record(bs: Seq<BundleRecord>, record: BundleRecord)
    ensures
        ({
            let after = without_handle(bs, record.version@).push(record);
            &&& after.last() == record
            &&& forall|j: int| 0 <= j < after.len() - 1 ==> #[trigger] after[j].version@ != record.version@
        }),
{
    lemma_without_handle(bs, record.version@);
    let w = without_handle(bs, record.version@);
    let after = w.push(record);
    assert forall|j: int| 0 <= j < after.len() - 1 implies #[trigger] after[j].version@ != record.version@ by {
        assert(after[j] == w[j]);
    }
}

/// Aliases read back what was written: after `set_alias(name, target)` the
/// alias `name` names `target` and every other alias is as it was; after
/// `remove_alias(name)` it names nothing and the others are as they were.
pub proof fn lemma_alias_read_back(
    aliases: Seq<(Seq<char>, Seq<char>)>,
    name: Seq<char>,
    target: Seq<char>,
    other: Seq<char>,
)
    requires
        other != name,
    ensures
        alias_map(aliases).insert(name, target).dom().contains(name),
        alias_map(aliases).insert(name, target)[name] == target,
        alias_map(aliases).insert(name, target).dom().contains(other) == alias_map(
            aliases,
        ).dom().contains(other),
        alias_map(aliases).dom().contains(other) ==> alias_map(aliases).insert(name, target)[other]
            == alias_map(aliases)[other],
        !alias_map(aliases).remove(name).dom().contains(name),
        alias_map(aliases).remove(name).dom().contains(other) == alias_map(aliases).dom().contains(
            other,
        ),
        alias_map(aliases).dom().contains(other) ==> alias_map(aliases).remove(name)[other]
            == alias_map(aliases)[other],
{
}

impl Manifest {
    /// An empty manifest at the current schema version.
    pub fn new() -> (m: Manifest)
        ensures
            m.schema_version == SCHEMA_VERSION,
            m.bundles@.len() == 0,
            m.aliases@.len() == 0,
            m.pins@.len() == 0,
            m.last_driver is None,
    {
        Manifest {
            schema_version: SCHEMA_VERSION,
            bundles: Vec::new(),
            aliases: Vec::new(),
            pins: Vec::new(),
            last_driver: None,
        }
    }

    /// Record a bundle, replacing any earlier record with its handle: the
    /// others keep their order and the new record goes last.
    pub fn upsert_bundle(&mut self, record: BundleRecord)
        ensures
            final(self).bundles@ == without_handle(old(self).bundles@, record.version@).push(
                record,
            ),
            final(self).schema_version == old(self).schema_version,
            final(self).aliases@ == old(self).aliases@,
            final(self).pins@ == old(self).pins@,
            final(self).last_driver == old(self).last_driver,
    {
        let mut kept: Vec<BundleRecord> = Vec::new();
        let mut rest: Vec<BundleRecord> = Vec::new();
        std::mem::swap(&mut rest, &mut self.bundles);
        let ghost ob = rest@;
        while rest.len() > 0
            invariant
                rest@.len() <= ob.len(),
                rest@ == ob.subrange(ob.len() - rest@.len(), ob.len() as int),
                kept@ == without_handle(ob.take(ob.len() - rest@.len()), record.version@),
            decreases rest.len(),
        {
            let ghost k = ob.len() - rest@.len();
            let b = rest.remove(0);
            assert(b == ob[k]);
            assert(ob.take(k + 1).drop_last() =~= ob.take(k));
            assert(rest@ =~= ob.subrange(ob.len() - rest@.len(), ob.len() as int));
            if !str_eq(b.version.as_str(), record.version.as_str()) {
                kept.push(b);
            }
        }
        assert(ob.take(ob.len() as int) =~= ob);
        kept.push(record);
        self.bundles = kept;
    }

    /// Record cuDNN `version` on every bundle of `handle`, leaving everything
    /// else as it was.
    pub fn set_cudnn(&mut self, handle: &str, version: &str)
        ensures
            final(self).bundles@.len() == old(self).bundles@.len(),
            forall|i: int|
                0 <= i < old(self).bundles@.len() ==> {
                    let (a, b) = (#[trigger] final(self).bundles@[i], old(self).bundles@[i]);
                    &&& a.version == b.version
                    &&& a.source == b.source
                    &&& a.path == b.path
                    &&& a.components == b.components
                    &&& a.sha256 == b.sha256
                    &&& a.installed_at == b.installed_at
                    &&& if b.version@ == handle@ {
                        opt_str_view(a.cudnn) == Some(version@)
                    } else {
                        a.cudnn == b.cudnn
                    }
                },
            final(self).schema_version == old(self).schema_version,
            final(self).aliases@ == old(self).aliases@,
            final(self).pins@ == old(self).pins@,
            final(self).last_driver == old(self).last_driver,
    {
        let mut done: Vec<BundleRecord> = Vec::new();
        let mut rest: Vec<BundleRecord> = Vec::new();
        std::mem::swap(&mut rest, &mut self.bundles);
        let ghost ob = rest@;
        while rest.len() > 0
            invariant
                rest@.len() <= ob.len(),
                done@.len() == ob.len() - rest@.len(),
                rest@ == ob.subrange(ob.len() - rest@.len(), ob.len() as int),
                forall|i: int|
                    0 <= i < done@.len() ==> {
                        let (a, b) = (#[trigger] done@[i], ob[i]);
                        &&& a.version == b.version
                        &&& a.source == b.source
                        &&& a.path == b.path
                        &&& a.components == b.components
                        &&& a.sha256 == b.sha256
                        &&& a.installed_at == b.installed_at
                        &&& if b.version@ == handle@ {
                            opt_str_view(a.cudnn) == Some(version@)
                        } else {
                            a.cudnn == b.cudnn
                        }
                    },
            decreases rest.len(),
        {
            let ghost k = ob.len() - rest@.len();
            let mut b = rest.remove(0);
            assert(b == ob[k]);
            assert(rest@ =~= ob.subrange(ob.len() - rest@.len(), ob.len() as int));
            if str_eq(b.version.as_str(), handle) {
                b.cudnn = Some(string_of(version));
            }
            done.push(b);
        }
        self.bundles = done;
    }

    /// Point alias `name` at `target`, replacing what it named.
    pub fn set_alias(&mut self, name: &str, target: &str)
        ensures
            alias_map(pairs_view(final(self).aliases@)) == alias_map(pairs_view(old(self).aliases@)).insert(
                name@,
                target@,
            ),
            final(self).bundles@ == old(self).bundles@,
            final(self).pins@ == old(self).pins@,
            final(self).schema_version == old(self).schema_version,
            final(self).last_driver == old(self).last_driver,
    {
        let ghost before = pairs_view(self.aliases@);
        self.aliases.push((string_of(name), string_of(target)));
        assert(pairs_view(self.aliases@).drop_last() =~= before);
    }

    /// Remove alias `name`; false when there was none.
    pub fn remove_alias(&mut self, name: &str) -> (r: bool)
        ensures
            r == alias_map(pairs_view(old(self).aliases@)).dom().contains(name@),
            alias_map(pairs_view(final(self).aliases@)) == alias_map(pairs_view(old(self).aliases@)).remove(
                name@,
            ),
            final(self).bundles@ == old(self).bundles@,
            final(self).pins@ == old(self).pins@,
            final(self).schema_version == old(self).schema_version,
            final(self).last_driver == old(self).last_driver,
    {
        let ghost op = pairs_view(self.aliases@);
        let mut rest: Vec<(String, String)> = Vec::new();
        std::mem::swap(&mut rest, &mut self.aliases);
        let mut kept: Vec<(String, String)> = Vec::new();
        let mut found = false;
        let mut i: usize = 0;
        while i < rest.len()
            invariant
                i <= rest@.len(),
                op == pairs_view(rest@),
                alias_map(pairs_view(kept@)) == alias_map(op.take(i as int)).remove(name@),
                found == alias_map(op.take(i as int)).dom().contains(name@),
            decreases rest.len() - i,
        {
            let ghost prev = pairs_view(kept@);
            assert(op.take(i + 1).drop_last() =~= op.take(i as int));
            assert(op.take(i + 1).last() == op[i as int]);
            if str_eq(rest[i].0.as_str(), name) {
                found = true;
                assert(alias_map(op.take(i + 1)).remove(name@) =~= alias_map(op.take(i as int)).remove(
                    name@,
                ));
            } else {
                let pair = (rest[i].0.clone(), rest[i].1.clone());
                kept.push(pair);
                assert(pairs_view(kept@).drop_last() =~= prev);
                assert(alias_map(op.take(i + 1)).remove(name@) =~= alias_map(op.take(i as int)).remove(
                    name@,
                ).insert(op[i as int].0, op[i as int].1));
            }
            i = i + 1;
        }
        assert(op.take(rest@.len() as int) =~= op);
        self.aliases = kept;
        found
    }

    /// The target of alias `name`, if any.
    pub fn alias_target(&self, name: &str) -> (r: Option<String>)
        ensures
            match r {
                Some(t) => alias_map(pairs_view(self.aliases@)).dom().contains(name@) && alias_map(
                    pairs_view(self.aliases@),
                )[name@] == t@,
                None => !alias_map(pairs_view(self.aliases@)).dom().contains(name@),
            },
    {
        let ghost p = pairs_view(self.aliases@);
        let mut found: Option<usize> = None;
        let mut i: usize = 0;
        while i < self.aliases.len()
            invariant
                i <= self.aliases@.len(),
                p == pairs_view(self.aliases@),
                match found {
                    Some(k) => k < i && alias_map(p.take(i as int)).dom().contains(name@)
                        && alias_map(p.take(i as int))[name@] == self.aliases@[k as int].1@,
                    None => !alias_map(p.take(i as int)).dom().contains(name@),
                },
            decreases self.aliases.len() - i,
        {
            assert(p.take(i + 1).drop_last() =~= p.take(i as int));
            if str_eq(self.aliases[i].0.as_str(), name) {
                found = Some(i);
            }
            i = i + 1;
        }
        assert(p.take(self.aliases@.len() as int) =~= p);
        match found {
            Some(k) => Some(self.aliases[k].1.clone()),
            None => None,
        }
    }
}

impl Default for Manifest {
    fn default() -> (m: Manifest)
        ensures
            m.schema_version == SCHEMA_VERSION,
            m.bundles@.len() == 0,
            m.aliases@.len() == 0,
            m.pins@.len() == 0,
            m.last_driver is None,
    {
        Manifest::new()
    }
}

} // verus!

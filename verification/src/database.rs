//! The difficulty-partitioned fingerprint catalogue.
//!
//! Each difficulty tier owns an independent partition: an ordered collection
//! of records with pairwise distinct names.  Every mutation yields a
//! partition whose serialised form (`save_levels`) callers persist in full;
//! locking and file handling live with the caller, this module is the data
//! and its rules.

use vstd::prelude::*;

use vstd::bytes::{spec_u64_from_le_bytes, u64_from_le_bytes, u64_to_le_bytes};
use vstd::slice::slice_subrange;

use crate::codec::{
    lemma_levels_bytes_push, lemma_partition_roundtrip, levels_bytes, parse_levels,
    parse_partition, partition_bytes,
};
use crate::difficulty::LevelDifficulty;
use crate::level::{Coefficients, Level, LevelView, valid_name};
use crate::{DbError, LoadError};

verus! {

/// Names beginning with this byte (an underscore) mark administrative or
/// test records; such records are skipped when a partition file is loaded.
pub const EXCLUDED_PREFIX: u8 = 0x5f;

/// Does the excluded-prefix convention apply to this name?
pub open spec fn excluded_name(name: Seq<u8>) -> bool {
    name.len() > 0 && name[0] == EXCLUDED_PREFIX
}

/// One difficulty tier's records.
pub struct Partition {
    pub levels: Vec<Level>,
}

impl View for Partition {
    type V = Seq<LevelView>;

    open spec fn view(&self) -> Seq<LevelView> {
        self.levels@.map_values(|l: Level| l@)
    }
}

/// Well-formed records with pairwise distinct names.
pub open spec fn wf_levels(vs: Seq<LevelView>) -> bool {
    &&& forall|i: int| 0 <= i < vs.len() ==> (#[trigger] vs[i]).wf()
    &&& forall|i: int, j: int| 0 <= i < j < vs.len() ==> vs[i].name != vs[j].name
}

/// Index of the first record named `name`, if any.
pub open spec fn find_name(vs: Seq<LevelView>, name: Seq<u8>) -> Option<int>
    decreases vs.len(),
{
    if vs.len() == 0 {
        None
    } else if vs[0].name == name {
        Some(0)
    } else {
        match find_name(vs.drop_first(), name) {
            None => None,
            Some(i) => Some(i + 1),
        }
    }
}

/// Is some record named `name`?
pub open spec fn contains_name(vs: Seq<LevelView>, name: Seq<u8>) -> bool {
    find_name(vs, name) is Some
}

/// What `find_name` finds: the first record bearing the name, and nothing
/// before it does.
pub proof fn lemma_find_name(vs: Seq<LevelView>, name: Seq<u8>)
    ensures
        match find_name(vs, name) {
            Some(i) => {
                &&& 0 <= i < vs.len()
                &&& vs[i].name == name
                &&& forall|j: int| 0 <= j < i ==> vs[j].name != name
            },
            None => forall|j: int| 0 <= j < vs.len() ==> vs[j].name != name,
        },
    decreases vs.len(),
{
    if vs.len() > 0 && vs[0].name != name {
        let rest = vs.drop_first();
        lemma_find_name(rest, name);
        assert(forall|j: int| 0 <= j < rest.len() ==> rest[j] == vs[j + 1]);
        match find_name(rest, name) {
            Some(i) => {
                assert(vs[i + 1].name == name);
                assert forall|j: int| 0 <= j < i + 1 implies vs[j].name != name by {
                    if j > 0 {
                        assert(rest[j - 1].name != name);
                    }
                }
            },
            None => {
                assert forall|j: int| 0 <= j < vs.len() implies vs[j].name != name by {
                    if j > 0 {
                        assert(rest[j - 1].name != name);
                    }
                }
            },
        }
    }
}

/// The converse: a record bearing the name, with none before it, is what
/// `find_name` finds.
pub proof fn lemma_find_name_at(vs: Seq<LevelView>, name: Seq<u8>, i: int)
    requires
        0 <= i < vs.len(),
        vs[i].name == name,
        forall|j: int| 0 <= j < i ==> vs[j].name != name,
    ensures
        find_name(vs, name) == Some(i),
{
    lemma_find_name(vs, name);
    match find_name(vs, name) {
        Some(k) => {
            if k < i {
                assert(vs[k].name != name);
            } else if k > i {
                assert(vs[i].name != name);
            }
        },
        None => {
            assert(vs[i].name != name);
        },
    }
}

/// Insertion: replace the record of the same name in place, else append.
pub open spec fn spec_insert(vs: Seq<LevelView>, v: LevelView) -> Seq<LevelView> {
    match find_name(vs, v.name) {
        Some(i) => vs.update(i, v),
        None => vs.push(v),
    }
}

/// The record at `i` relabelled `new_name`, with any other holder of
/// `new_name` removed first.
pub open spec fn spec_rename(vs: Seq<LevelView>, i: int, new_name: Seq<u8>) -> Seq<LevelView> {
    match find_name(vs, new_name) {
        Some(j) => if j != i {
            let vs1 = vs.remove(j);
            let i1 = if j < i {
                i - 1
            } else {
                i
            };
            vs1.update(i1, LevelView { name: new_name, ..vs1[i1] })
        } else {
            vs.update(i, LevelView { name: new_name, ..vs[i] })
        },
        None => vs.update(i, LevelView { name: new_name, ..vs[i] }),
    }
}

impl Partition {
    pub open spec fn wf(&self) -> bool {
        wf_levels(self@)
    }

    /// An empty partition.
    pub fn new() -> (p: Partition)
        ensures
            p@ == Seq::<LevelView>::empty(),
            p.wf(),
    {
        let p = Partition { levels: Vec::new() };
        proof {
            assert(p@ =~= Seq::<LevelView>::empty());
        }
        p
    }

    pub fn len(&self) -> (n: usize)
        ensures
            n == self@.len(),
    {
        self.levels.len()
    }

    pub fn get(&self, i: usize) -> (l: &Level)
        requires
            i < self@.len(),
        ensures
            l@ == self@[i as int],
    {
        &self.levels[i]
    }

    /// Index of the record named `name`, if any.
    pub fn lookup(&self, name: &Vec<u8>) -> (r: Option<usize>)
        ensures
            match r {
                Some(i) => find_name(self@, name@) == Some(i as int),
                None => find_name(self@, name@) is None,
            },
    {
        let n = self.levels.len();
        let mut i: usize = 0;
        while i < n
            invariant
                n == self@.len(),
                i <= n,
                forall|j: int| 0 <= j < i ==> self@[j].name != name@,
            decreases n - i,
        {
            if crate::text::bytes_eq(&self.levels[i].name, name) {
                proof {
                    lemma_find_name_at(self@, name@, i as int);
                }
                return Some(i);
            }
            i += 1;
        }
        proof {
            lemma_find_name(self@, name@);
            if find_name(self@, name@) is Some {
                let k = find_name(self@, name@)->Some_0;
                assert(self@[k].name != name@);
            }
        }
        None
    }

    /// Insert a record, replacing any record of the same name.  Returns
    /// whether the name was already catalogued — re-learning a known level
    /// signals an upstream inconsistency the caller may surface.
    pub fn insert_or_overwrite(&mut self, level: Level) -> (known_before: bool)
        requires
            old(self).wf(),
            level.wf(),
        ensures
            final(self)@ == spec_insert(old(self)@, level@),
            final(self).wf(),
            known_before == contains_name(old(self)@, level@.name),
    {
        proof {
            lemma_find_name(self@, level@.name);
        }
        match self.lookup(&level.name) {
            Some(i) => {
                self.levels.set(i, level);
                proof {
                    let old_vs = old(self)@;
                    assert(self@ =~= old_vs.update(i as int, level@));
                    assert forall|a: int, b: int|
                        0 <= a < b < self@.len() implies self@[a].name != self@[b].name by {
                        assert(old_vs[a].name != old_vs[b].name);
                        assert(old_vs[i as int].name == level@.name);
                    }
                }
                true
            },
            None => {
                self.levels.push(level);
                proof {
                    let old_vs = old(self)@;
                    assert(self@ =~= old_vs.push(level@));
                    lemma_find_name(old_vs, level@.name);
                    assert forall|a: int, b: int|
                        0 <= a < b < self@.len() implies self@[a].name != self@[b].name by {
                        if b == old_vs.len() {
                            assert(old_vs[a].name != level@.name);
                        } else {
                            assert(old_vs[a].name != old_vs[b].name);
                        }
                    }
                }
                false
            },
        }
    }

    /// Relabel the record named `old_name` as `new_name`; any record already
    /// bearing `new_name` is overwritten.  Fails, changing nothing, when
    /// `old_name` is absent.
    #[verifier::rlimit(100)]
    pub fn rename(&mut self, old_name: &Vec<u8>, new_name: Vec<u8>) -> (r: Result<(), DbError>)
        requires
            old(self).wf(),
            valid_name(new_name@),
        ensures
            match r {
                Ok(()) => {
                    &&& contains_name(old(self)@, old_name@)
                    &&& final(self)@ == spec_rename(
                        old(self)@,
                        find_name(old(self)@, old_name@)->Some_0,
                        new_name@,
                    )
                    &&& final(self).wf()
                },
                Err(e) => {
                    &&& e == DbError::NotFound
                    &&& !contains_name(old(self)@, old_name@)
                    &&& final(self)@ == old(self)@
                },
            },
    {
        let mut i = match self.lookup(old_name) {
            None => {
                return Err(DbError::NotFound);
            },
            Some(i) => i,
        };
        proof {
            lemma_find_name(self@, old_name@);
            lemma_find_name(self@, new_name@);
        }
        let ghost old_vs = self@;
        let ghost i0 = i as int;
        let ghost nn = new_name@;
        match self.lookup(&new_name) {
            Some(j) => {
                if j != i {
                    self.levels.remove(j);
                    proof {
                        assert(self@ =~= old_vs.remove(j as int));
                    }
                    if j < i {
                        i -= 1;
                    }
                }
            },
            None => {},
        }
        let ghost mid_vs = self@;
        proof {
            assert(i < mid_vs.len());
        }
        let mut lvl = self.levels.remove(i);
        lvl.name = new_name;
        self.levels.insert(i, lvl);
        proof {
            assert(self@ =~= mid_vs.update(i as int, LevelView { name: nn, ..mid_vs[i as int] }));
            assert(self@ == spec_rename(old_vs, i0, nn));
            lemma_rename_wf(old_vs, i0, nn);
        }
        Ok(())
    }

    /// Delete the record named `name`.  Fails, changing nothing, when it is
    /// absent.
    pub fn remove(&mut self, name: &Vec<u8>) -> (r: Result<(), DbError>)
        requires
            old(self).wf(),
        ensures
            match r {
                Ok(()) => {
                    &&& contains_name(old(self)@, name@)
                    &&& final(self)@ == old(self)@.remove(find_name(old(self)@, name@)->Some_0)
                    &&& final(self).wf()
                },
                Err(e) => {
                    &&& e == DbError::NotFound
                    &&& !contains_name(old(self)@, name@)
                    &&& final(self)@ == old(self)@
                },
            },
    {
        match self.lookup(name) {
            None => Err(DbError::NotFound),
            Some(i) => {
                let ghost old_vs = self@;
                proof {
                    lemma_find_name(old_vs, name@);
                }
                self.levels.remove(i);
                proof {
                    assert(self@ =~= old_vs.remove(i as int));
                    lemma_remove_wf(old_vs, i as int);
                }
                Ok(())
            },
        }
    }
}

/// Rename keeps the partition well formed.
proof fn lemma_rename_wf(vs: Seq<LevelView>, i: int, new_name: Seq<u8>)
    requires
        wf_levels(vs),
        0 <= i < vs.len(),
        valid_name(new_name),
    ensures
        wf_levels(spec_rename(vs, i, new_name)),
{
    lemma_find_name(vs, new_name);
    let out = spec_rename(vs, i, new_name);
    match find_name(vs, new_name) {
        Some(j) => {
            if j != i {
                let vs1 = vs.remove(j);
                let i1 = if j < i {
                    i - 1
                } else {
                    i
                };
                assert forall|a: int, b: int| 0 <= a < b < out.len() implies out[a].name
                    != out[b].name by {
                    let a0 = if a < j {
                        a
                    } else {
                        a + 1
                    };
                    let b0 = if b < j {
                        b
                    } else {
                        b + 1
                    };
                    assert(a0 < b0 < vs.len());
                    assert(vs1[a] == vs[a0] && vs1[b] == vs[b0]);
                    assert(vs[a0].name != vs[b0].name);
                    if a == i1 || b == i1 {
                        assert(vs[j].name == new_name);
                    }
                }
            } else {
                assert forall|a: int, b: int| 0 <= a < b < out.len() implies out[a].name
                    != out[b].name by {
                    assert(vs[a].name != vs[b].name);
                    assert(vs[i].name == new_name);
                }
            }
        },
        None => {
            assert forall|a: int, b: int| 0 <= a < b < out.len() implies out[a].name
                != out[b].name by {
                assert(vs[a].name != vs[b].name);
                if a == i || b == i {
                    assert(vs[a].name != new_name && vs[b].name != new_name);
                }
            }
        },
    }
}

/// Deletion keeps the partition well formed.
proof fn lemma_remove_wf(vs: Seq<LevelView>, i: int)
    requires
        wf_levels(vs),
        0 <= i < vs.len(),
    ensures
        wf_levels(vs.remove(i)),
{
    let out = vs.remove(i);
    assert forall|a: int, b: int| 0 <= a < b < out.len() implies out[a].name != out[b].name by {
        let a0 = if a < i {
            a
        } else {
            a + 1
        };
        let b0 = if b < i {
            b
        } else {
            b + 1
        };
        assert(out[a] == vs[a0] && out[b] == vs[b0]);
        assert(vs[a0].name != vs[b0].name);
    }
}

// ---------------------------------------------------------------------------
// Persistence.
// ---------------------------------------------------------------------------

/// Serialise a whole partition: record count, then every record.  The caller
/// atomically replaces the tier's file with these bytes.
pub fn save_levels(levels: &Partition) -> (out: Vec<u8>)
    requires
        levels.wf(),
    ensures
        out@ == partition_bytes(levels@),
{
    let n = levels.levels.len();
    let mut out = u64_to_le_bytes(n as u64);
    let ghost head = out@;
    let mut i: usize = 0;
    while i < n
        invariant
            n == levels@.len(),
            i <= n,
            levels.wf(),
            out@ == head + levels_bytes(levels@.take(i as int)),
        decreases n - i,
    {
        self_write(levels, i, &mut out);
        proof {
            assert(levels@.take(i + 1) =~= levels@.take(i as int).push(levels@[i as int]));
            lemma_levels_bytes_push(levels@.take(i as int), levels@[i as int]);
        }
        i += 1;
    }
    proof {
        assert(levels@.take(levels@.len() as int) =~= levels@);
    }
    out
}

/// Append record `i` of the partition to `out`.
fn self_write(levels: &Partition, i: usize, out: &mut Vec<u8>)
    requires
        levels.wf(),
        i < levels@.len(),
    ensures
        final(out)@ == old(out)@ + crate::codec::level_bytes(levels@[i as int]),
{
    proof {
        assert(levels@[i as int] == levels.levels@[i as int]@);
        assert(levels@[i as int].wf());
    }
    levels.levels[i].write(out);
}

/// What loading admits, record by record: excluded names are skipped, the
/// rest are inserted with replacement.
pub open spec fn admit_record(acc: Seq<LevelView>, v: LevelView) -> Seq<LevelView> {
    if excluded_name(v.name) {
        acc
    } else {
        spec_insert(acc, v)
    }
}

/// The partition that loading a parsed record sequence yields.
pub open spec fn load_view(vs: Seq<LevelView>) -> Seq<LevelView>
    decreases vs.len(),
{
    if vs.len() == 0 {
        Seq::empty()
    } else {
        admit_record(load_view(vs.drop_last()), vs.last())
    }
}

spec fn opt_concat(done: Seq<LevelView>, rest: Option<Seq<LevelView>>) -> Option<Seq<LevelView>> {
    match rest {
        None => None,
        Some(r) => Some(done + r),
    }
}

/// Parse a serialised partition.  A file that ends before its record count
/// is satisfied fails; names under the excluded-prefix convention are
/// skipped; a repeated name keeps its last record.
pub fn load_levels(bytes: &Vec<u8>) -> (r: Result<Partition, LoadError>)
    ensures
        match r {
            Ok(p) => {
                &&& parse_partition(bytes@) is Some
                &&& p@ == load_view(parse_partition(bytes@)->Some_0)
                &&& p.wf()
            },
            Err(e) => parse_partition(bytes@) is None && e == LoadError::Truncated,
        },
{
    if bytes.len() < 8 {
        return Err(LoadError::Truncated);
    }
    let count = u64_from_le_bytes(slice_subrange(bytes.as_slice(), 0, 8));
    let mut p = Partition::new();
    let mut pos: usize = 8;
    let mut k: u64 = 0;
    let ghost mut done: Seq<LevelView> = Seq::empty();
    while k < count
        invariant
            k <= count,
            pos <= bytes@.len(),
            bytes@.len() >= 8,
            count == spec_u64_from_le_bytes(bytes@.subrange(0, 8)),
            p.wf(),
            p@ == load_view(done),
            parse_levels(bytes@, 8, count as nat) == opt_concat(
                done,
                parse_levels(bytes@, pos as int, (count - k) as nat),
            ),
        decreases count - k,
    {
        let parsed = Level::read(bytes, pos);
        match parsed {
            Err(_) => {
                proof {
                    assert(parse_levels(bytes@, pos as int, (count - k) as nat) is None);
                    assert(parse_levels(bytes@, 8, count as nat) is None);
                    assert(parse_partition(bytes@) is None);
                }
                return Err(LoadError::Truncated);
            },
            Ok(ok) => {
                let (lvl, next) = ok;
                proof {
                    let m = (count - k) as nat;
                    assert(parse_levels(bytes@, pos as int, m) == opt_concat(
                        seq![lvl@],
                        parse_levels(bytes@, next as int, (m - 1) as nat),
                    ));
                    assert(opt_concat(done, opt_concat(seq![lvl@], parse_levels(bytes@, next as int, (m - 1) as nat)))
                        == opt_concat(done.push(lvl@), parse_levels(bytes@, next as int, (m - 1) as nat))) by {
                        match parse_levels(bytes@, next as int, (m - 1) as nat) {
                            None => {},
                            Some(rest) => {
                                assert(done + (seq![lvl@] + rest) =~= done.push(lvl@) + rest);
                            },
                        }
                    }
                    assert(done.push(lvl@).drop_last() =~= done);
                    assert(done.push(lvl@).last() == lvl@);
                }
                let skip = lvl.name.len() > 0 && lvl.name[0] == EXCLUDED_PREFIX;
                proof {
                    assert(skip == excluded_name(lvl@.name));
                }
                if !skip {
                    p.insert_or_overwrite(lvl);
                } else {
                    proof {
                        assert(load_view(done.push(lvl@)) == load_view(done));
                    }
                }
                proof {
                    done = done.push(lvl@);
                }
                pos = next;
                k = k + 1;
            },
        }
    }
    proof {
        assert(parse_levels(bytes@, pos as int, 0) == Some(Seq::<LevelView>::empty()));
        assert(done + Seq::<LevelView>::empty() =~= done);
        assert(parse_partition(bytes@) == Some(done));
    }
    Ok(p)
}

// ---------------------------------------------------------------------------
// Laws.
// ---------------------------------------------------------------------------

/// No record's name falls under the excluded-prefix convention.
pub open spec fn no_excluded(vs: Seq<LevelView>) -> bool {
    forall|i: int| 0 <= i < vs.len() ==> !excluded_name((#[trigger] vs[i]).name)
}

/// Law: loading admits a well-formed record sequence unchanged when no name
/// is excluded.
pub proof fn lemma_load_view_identity(vs: Seq<LevelView>)
    requires
        wf_levels(vs),
        no_excluded(vs),
    ensures
        load_view(vs) == vs,
    decreases vs.len(),
{
    if vs.len() > 0 {
        let head = vs.drop_last();
        let last = vs.last();
        assert(forall|i: int| 0 <= i < head.len() ==> head[i] == vs[i]);
        lemma_load_view_identity(head);
        lemma_find_name(head, last.name);
        match find_name(head, last.name) {
            Some(i) => {
                assert(vs[i].name == vs[vs.len() - 1].name);
            },
            None => {},
        }
        assert(load_view(vs) == head.push(last));
        assert(head.push(last) =~= vs);
    }
}

/// Law: for any well-formed partition without excluded names, saving and
/// then loading reproduces the same records exactly, coefficients
/// bit for bit.
pub proof fn lemma_save_load_roundtrip(p: Partition)
    requires
        p.wf(),
        p@.len() <= u64::MAX,
        no_excluded(p@),
    ensures
        parse_partition(partition_bytes(p@)) == Some(p@),
        load_view(p@) == p@,
{
    lemma_partition_roundtrip(p@);
    lemma_load_view_identity(p@);
}

/// Law: inserting the same record twice leaves the partition — and hence
/// its saved bytes — exactly as inserting it once.
pub proof fn lemma_insert_idempotent(vs: Seq<LevelView>, v: LevelView)
    requires
        wf_levels(vs),
    ensures
        spec_insert(spec_insert(vs, v), v) == spec_insert(vs, v),
        partition_bytes(spec_insert(spec_insert(vs, v), v)) == partition_bytes(spec_insert(vs, v)),
{
    lemma_find_name(vs, v.name);
    let s1 = spec_insert(vs, v);
    match find_name(vs, v.name) {
        Some(i) => {
            assert(s1 == vs.update(i, v));
            assert forall|j: int| 0 <= j < i implies s1[j].name != v.name by {
                assert(vs[j].name != v.name);
            }
            lemma_find_name_at(s1, v.name, i);
            assert(s1.update(i, v) =~= s1);
        },
        None => {
            assert(s1 == vs.push(v));
            assert forall|j: int| 0 <= j < vs.len() implies s1[j].name != v.name by {
                assert(vs[j].name != v.name);
            }
            lemma_find_name_at(s1, v.name, vs.len() as int);
            assert(s1.update(vs.len() as int, v) =~= s1);
        },
    }
}

// ---------------------------------------------------------------------------
// The four-tier catalogue.
// ---------------------------------------------------------------------------

/// The whole catalogue: one independent partition per difficulty tier.
/// Callers that share it across tasks wrap each partition in its own
/// reader/writer lock; operations here never touch more than the named
/// tier.
pub struct LevelDatabase {
    pub easy: Partition,
    pub medium: Partition,
    pub hard: Partition,
    pub legendary: Partition,
}

impl LevelDatabase {
    pub open spec fn wf(&self) -> bool {
        &&& self.easy.wf()
        &&& self.medium.wf()
        &&& self.hard.wf()
        &&& self.legendary.wf()
    }

    /// The tier's records.
    pub open spec fn spec_partition(&self, d: LevelDifficulty) -> Seq<LevelView> {
        match d {
            LevelDifficulty::Easy => self.easy@,
            LevelDifficulty::Medium => self.medium@,
            LevelDifficulty::Hard => self.hard@,
            LevelDifficulty::Legendary => self.legendary@,
        }
    }

    /// An empty catalogue.
    pub fn new() -> (db: LevelDatabase)
        ensures
            db.wf(),
            forall|d: LevelDifficulty| db.spec_partition(d) == Seq::<LevelView>::empty(),
    {
        LevelDatabase {
            easy: Partition::new(),
            medium: Partition::new(),
            hard: Partition::new(),
            legendary: Partition::new(),
        }
    }

    pub fn partition(&self, d: LevelDifficulty) -> (p: &Partition)
        ensures
            p@ == self.spec_partition(d),
    {
        match d {
            LevelDifficulty::Easy => &self.easy,
            LevelDifficulty::Medium => &self.medium,
            LevelDifficulty::Hard => &self.hard,
            LevelDifficulty::Legendary => &self.legendary,
        }
    }

    /// Insert a record into its difficulty's partition, replacing any record
    /// of the same name there; other tiers are untouched.
    pub fn insert_or_overwrite(&mut self, level: Level) -> (known_before: bool)
        requires
            old(self).wf(),
            level.wf(),
        ensures
            final(self).wf(),
            final(self).spec_partition(level.difficulty) == spec_insert(
                old(self).spec_partition(level.difficulty),
                level@,
            ),
            forall|d: LevelDifficulty|
                d != level.difficulty ==> final(self).spec_partition(d) == old(
                    self,
                ).spec_partition(d),
            known_before == contains_name(old(self).spec_partition(level.difficulty), level@.name),
    {
        match level.difficulty {
            LevelDifficulty::Easy => self.easy.insert_or_overwrite(level),
            LevelDifficulty::Medium => self.medium.insert_or_overwrite(level),
            LevelDifficulty::Hard => self.hard.insert_or_overwrite(level),
            LevelDifficulty::Legendary => self.legendary.insert_or_overwrite(level),
        }
    }

    /// Relabel a record within one tier; see `Partition::rename`.
    pub fn rename(&mut self, d: LevelDifficulty, old_name: &Vec<u8>, new_name: Vec<u8>) -> (r:
        Result<(), DbError>)
        requires
            old(self).wf(),
            valid_name(new_name@),
        ensures
            final(self).wf(),
            forall|d2: LevelDifficulty|
                d2 != d ==> final(self).spec_partition(d2) == old(self).spec_partition(d2),
            match r {
                Ok(()) => {
                    &&& contains_name(old(self).spec_partition(d), old_name@)
                    &&& final(self).spec_partition(d) == spec_rename(
                        old(self).spec_partition(d),
                        find_name(old(self).spec_partition(d), old_name@)->Some_0,
                        new_name@,
                    )
                },
                Err(e) => {
                    &&& e == DbError::NotFound
                    &&& !contains_name(old(self).spec_partition(d), old_name@)
                    &&& final(self).spec_partition(d) == old(self).spec_partition(d)
                },
            },
    {
        match d {
            LevelDifficulty::Easy => self.easy.rename(old_name, new_name),
            LevelDifficulty::Medium => self.medium.rename(old_name, new_name),
            LevelDifficulty::Hard => self.hard.rename(old_name, new_name),
            LevelDifficulty::Legendary => self.legendary.rename(old_name, new_name),
        }
    }

    /// Learn a resolved level: insert or overwrite its record in its tier
    /// and hand back the tier's full serialised bytes.  The caller must
    /// rewrite the tier's file with them before treating the mutation as
    /// durable; a failure to persist must surface, not be swallowed.
    pub fn learn(&mut self, name: Vec<u8>, difficulty: LevelDifficulty, coefficients: Coefficients) -> (r: (
        bool,
        Vec<u8>,
    ))
        requires
            old(self).wf(),
            valid_name(name@),
            coefficients.wf(),
        ensures
            final(self).wf(),
            final(self).spec_partition(difficulty) == spec_insert(
                old(self).spec_partition(difficulty),
                LevelView { name: name@, difficulty, coefficients: coefficients@ },
            ),
            forall|d: LevelDifficulty|
                d != difficulty ==> final(self).spec_partition(d) == old(self).spec_partition(d),
            r.0 == contains_name(old(self).spec_partition(difficulty), name@),
            r.1@ == partition_bytes(final(self).spec_partition(difficulty)),
    {
        let level = Level { name, difficulty, coefficients };
        let known_before = self.insert_or_overwrite(level);
        let bytes = save_levels(self.partition(difficulty));
        (known_before, bytes)
    }

    /// Delete a record within one tier; see `Partition::remove`.
    pub fn remove(&mut self, d: LevelDifficulty, name: &Vec<u8>) -> (r: Result<(), DbError>)
        requires
            old(self).wf(),
        ensures
            final(self).wf(),
            forall|d2: LevelDifficulty|
                d2 != d ==> final(self).spec_partition(d2) == old(self).spec_partition(d2),
            match r {
                Ok(()) => {
                    &&& contains_name(old(self).spec_partition(d), name@)
                    &&& final(self).spec_partition(d) == old(self).spec_partition(d).remove(
                        find_name(old(self).spec_partition(d), name@)->Some_0,
                    )
                },
                Err(e) => {
                    &&& e == DbError::NotFound
                    &&& !contains_name(old(self).spec_partition(d), name@)
                    &&& final(self).spec_partition(d) == old(self).spec_partition(d)
                },
            },
    {
        match d {
            LevelDifficulty::Easy => self.easy.remove(name),
            LevelDifficulty::Medium => self.medium.remove(name),
            LevelDifficulty::Hard => self.hard.remove(name),
            LevelDifficulty::Legendary => self.legendary.remove(name),
        }
    }
}

} // verus!

//! The in-memory shortcut store: a mapping from slug to entry, mutated by
//! `upsert` and `delete`, snapshotted by `to_csv`/`close` at graceful
//! shutdown.
//!
//! The store is modelled as a `Map<Seq<char>, EntryView>`; the concrete
//! representation is a vector of key/entry pairs with pairwise-distinct
//! keys. Request handlers share the store behind a reader/writer lock,
//! which lives outside the verified core: every contract below is stated
//! against the single map value that the lock protects.

use vstd::prelude::*;
use vstd::string::*;
use crate::genlog::{fresh_instance_id, is_instance_id};
use crate::text::{join_chars, lemma_join_push, str_eq};

verus! {

/// One redirect shortcut. The two timestamps are kept as decimal-digit
/// strings end to end; components that do not need their numeric value
/// simply pass them through.
#[derive(Clone)]
pub struct ShortcutEntry {
    pub slug: String,
    pub url: String,
    pub status: String,
    pub since: String,
    pub until: String,
}

/// The mathematical content of a `ShortcutEntry`: its five fields as
/// character sequences.
pub ghost struct EntryView {
    pub slug: Seq<char>,
    pub url: Seq<char>,
    pub status: Seq<char>,
    pub since: Seq<char>,
    pub until: Seq<char>,
}

impl View for ShortcutEntry {
    type V = EntryView;

    open spec fn view(&self) -> EntryView {
        EntryView {
            slug: self.slug@,
            url: self.url@,
            status: self.status@,
            since: self.since@,
            until: self.until@,
        }
    }
}

impl DeepView for ShortcutEntry {
    type V = EntryView;

    open spec fn deep_view(&self) -> EntryView {
        self.view()
    }
}

impl ShortcutEntry {
    /// A field-by-field copy with the same view.
    pub fn duplicate(&self) -> (r: ShortcutEntry)
        ensures
            r@ == self@,
    {
        ShortcutEntry {
            slug: self.slug.clone(),
            url: self.url.clone(),
            status: self.status.clone(),
            since: self.since.clone(),
            until: self.until.clone(),
        }
    }
}

/// Pairwise-distinct keys.
pub open spec fn distinct_keys(pairs: Seq<(Seq<char>, EntryView)>) -> bool {
    forall|x: int, y: int|
        0 <= x < y < pairs.len() ==> #[trigger] pairs[x].0 != #[trigger] pairs[y].0
}

/// Removing a pair keeps the keys distinct, and no remaining pair carries
/// the removed pair's key.
pub proof fn lemma_remove_keeps_distinct(pairs: Seq<(Seq<char>, EntryView)>, i: int)
    requires
        0 <= i < pairs.len(),
        distinct_keys(pairs),
    ensures
        distinct_keys(pairs.remove(i)),
        forall|x: int|
            0 <= x < pairs.remove(i).len() ==> #[trigger] pairs.remove(i)[x].0 != pairs[i].0,
{
    pairs.remove_ensures(i);
    assert forall|x: int, y: int|
        0 <= x < y < pairs.remove(i).len() implies #[trigger] pairs.remove(i)[x].0
        != #[trigger] pairs.remove(i)[y].0 by {
        let xo: int = if x < i { x } else { x + 1 };
        let yo: int = if y < i { y } else { y + 1 };
        assert(pairs.remove(i)[x] == pairs[xo]);
        assert(pairs.remove(i)[y] == pairs[yo]);
    }
    assert forall|x: int| 0 <= x < pairs.remove(i).len() implies #[trigger] pairs.remove(i)[x].0
        != pairs[i].0 by {
        let xo: int = if x < i { x } else { x + 1 };
        assert(pairs.remove(i)[x] == pairs[xo]);
    }
}

/// The map described by a sequence of key/entry pairs; a later pair with
/// the same key supersedes an earlier one.
pub open spec fn map_of(pairs: Seq<(Seq<char>, EntryView)>) -> Map<Seq<char>, EntryView>
    decreases pairs.len(),
{
    if pairs.len() == 0 {
        Map::<Seq<char>, EntryView>::empty()
    } else {
        map_of(pairs.drop_last()).insert(pairs.last().0, pairs.last().1)
    }
}

/// A key occurs in the map exactly when some pair carries it.
pub proof fn lemma_map_of_contains(pairs: Seq<(Seq<char>, EntryView)>, k: Seq<char>)
    ensures
        map_of(pairs).contains_key(k) <==> exists|i: int|
            0 <= i < pairs.len() && #[trigger] pairs[i].0 == k,
    decreases pairs.len(),
{
    if pairs.len() > 0 {
        lemma_map_of_contains(pairs.drop_last(), k);
        if map_of(pairs).contains_key(k) {
            if pairs.last().0 == k {
                assert(pairs[pairs.len() - 1].0 == k);
            } else {
                let i = choose|i: int|
                    0 <= i < pairs.drop_last().len() && #[trigger] pairs.drop_last()[i].0 == k;
                assert(pairs[i].0 == k);
            }
        }
        if exists|i: int| 0 <= i < pairs.len() && #[trigger] pairs[i].0 == k {
            let i = choose|i: int| 0 <= i < pairs.len() && #[trigger] pairs[i].0 == k;
            if i < pairs.len() - 1 {
                assert(pairs.drop_last()[i].0 == k);
            }
        }
    }
}

/// With pairwise-distinct keys, each pair is found in the map unchanged.
pub proof fn lemma_map_of_index(pairs: Seq<(Seq<char>, EntryView)>, i: int)
    requires
        0 <= i < pairs.len(),
        distinct_keys(pairs),
    ensures
        map_of(pairs).contains_key(pairs[i].0),
        map_of(pairs)[pairs[i].0] == pairs[i].1,
    decreases pairs.len(),
{
    if i == pairs.len() - 1 {
        assert(pairs.last() == pairs[i]);
    } else {
        assert(pairs[pairs.len() - 1].0 != pairs[i].0);
        lemma_map_of_index(pairs.drop_last(), i);
        assert(pairs.drop_last()[i] == pairs[i]);
    }
}

/// Removing the unique pair that carries `k` removes `k` from the map.
pub proof fn lemma_map_of_remove(pairs: Seq<(Seq<char>, EntryView)>, i: int)
    requires
        0 <= i < pairs.len(),
        distinct_keys(pairs),
    ensures
        map_of(pairs.remove(i)) == map_of(pairs).remove(pairs[i].0),
    decreases pairs.len(),
{
    let k = pairs[i].0;
    if i == pairs.len() - 1 {
        assert(pairs.remove(i) =~= pairs.drop_last());
        lemma_map_of_contains(pairs.drop_last(), k);
        assert(forall|x: int|
            0 <= x < pairs.drop_last().len() ==> #[trigger] pairs.drop_last()[x].0 != k);
        assert(!map_of(pairs.drop_last()).contains_key(k));
        assert(map_of(pairs.drop_last()).insert(k, pairs[i].1).remove(k) =~= map_of(
            pairs.drop_last(),
        ));
    } else {
        lemma_map_of_remove(pairs.drop_last(), i);
        assert(pairs.remove(i).drop_last() =~= pairs.drop_last().remove(i));
        assert(pairs.remove(i).last() == pairs.last());
        assert(pairs.drop_last()[i] == pairs[i]);
        assert(pairs.last().0 != k);
        assert(map_of(pairs.drop_last()).remove(k).insert(pairs.last().0, pairs.last().1)
            =~= map_of(pairs.drop_last()).insert(pairs.last().0, pairs.last().1).remove(k));
    }
}

/// One mutation of the store, as `upsert` and `delete` describe it in
/// their contracts.
pub ghost enum StoreOp {
    Upsert(Seq<char>, EntryView),
    Delete(Seq<char>),
}

/// The key an operation acts on.
pub open spec fn op_key(op: StoreOp) -> Seq<char> {
    match op {
        StoreOp::Upsert(k, _) => k,
        StoreOp::Delete(k) => k,
    }
}

/// The effect of one operation: exactly the `insert`/`remove` that
/// `upsert`/`delete` promise.
pub open spec fn apply_op(
    m: Map<Seq<char>, EntryView>,
    op: StoreOp,
) -> Map<Seq<char>, EntryView> {
    match op {
        StoreOp::Upsert(k, v) => m.insert(k, v),
        StoreOp::Delete(k) => m.remove(k),
    }
}

/// The effect of a whole sequence of operations, in order.
pub open spec fn apply_ops(
    m: Map<Seq<char>, EntryView>,
    ops: Seq<StoreOp>,
) -> Map<Seq<char>, EntryView>
    decreases ops.len(),
{
    if ops.len() == 0 {
        m
    } else {
        apply_op(apply_ops(m, ops.drop_last()), ops.last())
    }
}

/// The last write per key wins: after any sequence of upserts and
/// deletes, the store holds, at each key, exactly what the last
/// operation on that key left there — the value of the last upsert, or
/// nothing if the last operation was a delete.
pub proof fn lemma_last_write_wins(
    m: Map<Seq<char>, EntryView>,
    ops: Seq<StoreOp>,
    i: int,
)
    requires
        0 <= i < ops.len(),
        forall|j: int| i < j < ops.len() ==> op_key(#[trigger] ops[j]) != op_key(ops[i]),
    ensures
        match ops[i] {
            StoreOp::Upsert(k, v) => apply_ops(m, ops).contains_key(k) && apply_ops(m, ops)[k]
                == v,
            StoreOp::Delete(k) => !apply_ops(m, ops).contains_key(k),
        },
    decreases ops.len(),
{
    if i == ops.len() - 1 {
        assert(ops.last() == ops[i]);
    } else {
        lemma_last_write_wins(m, ops.drop_last(), i);
        assert(ops.drop_last()[i] == ops[i]);
        assert(op_key(ops.last()) != op_key(ops[i]));
    }
}

/// A key no operation touches keeps its prior state.
pub proof fn lemma_untouched_key_unchanged(
    m: Map<Seq<char>, EntryView>,
    ops: Seq<StoreOp>,
    k: Seq<char>,
)
    requires
        forall|j: int| 0 <= j < ops.len() ==> op_key(#[trigger] ops[j]) != k,
    ensures
        apply_ops(m, ops).contains_key(k) == m.contains_key(k),
        m.contains_key(k) ==> apply_ops(m, ops)[k] == m[k],
    decreases ops.len(),
{
    if ops.len() > 0 {
        lemma_untouched_key_unchanged(m, ops.drop_last(), k);
        assert(op_key(ops.last()) != k);
    }
}

/// One row of the snapshot/seed format: the five fields, comma-joined.
pub open spec fn row_chars(e: EntryView) -> Seq<char> {
    e.slug + seq![','] + e.url + seq![','] + e.status + seq![','] + e.since + seq![','] + e.until
}

/// The rows of a sequence of entries, in order.
pub open spec fn rows_seq(entries: Seq<EntryView>) -> Seq<Seq<char>> {
    Seq::new(entries.len(), |i: int| row_chars(entries[i]))
}

/// A whole snapshot: one row per entry, newline-joined, no trailing
/// newline.
pub open spec fn csv_chars(entries: Seq<EntryView>) -> Seq<char> {
    join_chars(rows_seq(entries), '\n')
}

/// The on-disk location of the snapshot of generation `id`, relative to
/// the working directory: `backups/<id>.csv`.
pub open spec fn snapshot_path_chars(id: Seq<char>) -> Seq<char> {
    "backups/"@ + id + ".csv"@
}

/// The in-memory store of one process instance ("generation").
pub struct Database {
    /// Whether a snapshot is written at graceful shutdown at all; test and
    /// ephemeral runs switch it off.
    pub backup: bool,
    /// The identifier of this generation, fresh for each instance.
    pub instance_id: String,
    /// Key/entry pairs; the key of each pair is unique.
    pub data: Vec<(String, ShortcutEntry)>,
}

impl Database {
    /// Key/entry pairs, in storage order, as their views.
    pub open spec fn pairs(&self) -> Seq<(Seq<char>, EntryView)> {
        Seq::new(self.data@.len(), |i: int| (self.data@[i].0@, self.data@[i].1@))
    }

    /// Entries alone, in storage order.
    pub open spec fn stored(&self) -> Seq<EntryView> {
        Seq::new(self.data@.len(), |i: int| self.data@[i].1@)
    }

    /// Well-formedness: keys are pairwise distinct and the instance id has
    /// the generation-identifier shape.
    pub open spec fn wf(&self) -> bool {
        &&& distinct_keys(self.pairs())
        &&& is_instance_id(self.instance_id@)
    }
}

impl View for Database {
    type V = Map<Seq<char>, EntryView>;

    open spec fn view(&self) -> Map<Seq<char>, EntryView> {
        map_of(self.pairs())
    }
}

impl Database {
    /// A fresh, empty store for a new generation.
    pub fn new(backup: bool) -> (r: Database)
        ensures
            r.wf(),
            r@ == Map::<Seq<char>, EntryView>::empty(),
            r.backup == backup,
            r.pairs() =~= Seq::<(Seq<char>, EntryView)>::empty(),
    {
        let r = Database { backup, instance_id: fresh_instance_id(), data: Vec::new() };
        proof {
            assert(r.pairs() =~= Seq::<(Seq<char>, EntryView)>::empty());
        }
        r
    }

    /// A copy of the entry stored under `slug`, if any.
    pub fn read(&self, slug: &String) -> (r: Option<ShortcutEntry>)
        requires
            self.wf(),
        ensures
            match r {
                Some(e) => self@.contains_key(slug@) && e@ == self@[slug@],
                None => !self@.contains_key(slug@),
            },
    {
        let n = self.data.len();
        let mut i: usize = 0;
        while i < n
            invariant
                i <= n == self.data@.len(),
                self.wf(),
                forall|j: int| 0 <= j < i ==> #[trigger] self.pairs()[j].0 != slug@,
            decreases n - i,
        {
            if str_eq(self.data[i].0.as_str(), slug.as_str()) {
                proof {
                    lemma_map_of_index(self.pairs(), i as int);
                }
                return Some(self.data[i].1.duplicate());
            }
            i = i + 1;
        }
        proof {
            lemma_map_of_contains(self.pairs(), slug@);
        }
        None
    }

    /// A snapshot copy of all entries at call time, in storage order.
    pub fn read_all(&self) -> (r: Vec<ShortcutEntry>)
        ensures
            r.deep_view() == self.stored(),
    {
        let n = self.data.len();
        let mut all: Vec<ShortcutEntry> = Vec::new();
        let mut i: usize = 0;
        while i < n
            invariant
                i <= n == self.data@.len(),
                all.deep_view() =~= self.stored().subrange(0, i as int),
            decreases n - i,
        {
            let ghost dv = all.deep_view();
            all.push(self.data[i].1.duplicate());
            proof {
                assert(all.deep_view() =~~= dv.push(self.stored()[i as int]));
                assert(dv.push(self.stored()[i as int]) =~~= self.stored().subrange(0, i + 1));
            }
            i = i + 1;
        }
        proof {
            assert(self.stored().subrange(0, n as int) =~= self.stored());
        }
        all
    }

    /// Insert or overwrite the entry stored under `slug`. The in-memory
    /// store itself cannot fail; the `bool` mirrors the operation's
    /// interface, in which a failure of the surrounding lock reports
    /// `false`.
    pub fn upsert(&mut self, slug: String, value: ShortcutEntry) -> (r: bool)
        requires
            old(self).wf(),
        ensures
            final(self).wf(),
            final(self)@ == old(self)@.insert(slug@, value@),
            final(self).backup == old(self).backup,
            final(self).instance_id == old(self).instance_id,
            r,
    {
        let ghost orig = self.pairs();
        let n = self.data.len();
        let mut i: usize = 0;
        while i < n
            invariant
                i <= n == self.data@.len(),
                self.wf(),
                *self == *old(self),
                forall|j: int| 0 <= j < i ==> #[trigger] self.pairs()[j].0 != slug@,
            decreases n - i,
        {
            if str_eq(self.data[i].0.as_str(), slug.as_str()) {
                proof {
                    lemma_map_of_remove(self.pairs(), i as int);
                    lemma_remove_keeps_distinct(self.pairs(), i as int);
                }
                let ghost removed = self.pairs().remove(i as int);
                self.data.remove(i);
                proof {
                    assert(self.pairs() =~~= removed);
                }
                let ghost mid = self.pairs();
                self.data.push((slug, value));
                proof {
                    assert(self.pairs().drop_last() =~~= mid);
                    assert(self.pairs().last() == (slug@, value@));
                    assert(self@ == map_of(mid).insert(slug@, value@));
                    assert(old(self)@.remove(slug@).insert(slug@, value@) =~= old(
                        self,
                    )@.insert(slug@, value@));
                    assert forall|x: int, y: int|
                        0 <= x < y < self.pairs().len() implies #[trigger] self.pairs()[x].0
                        != #[trigger] self.pairs()[y].0 by {
                        if y < self.pairs().len() - 1 {
                            assert(self.pairs()[x] == mid[x]);
                            assert(self.pairs()[y] == mid[y]);
                        } else {
                            assert(self.pairs()[x] == mid[x]);
                            assert(self.pairs()[y].0 == slug@);
                        }
                    }
                }
                return true;
            }
            i = i + 1;
        }
        let ghost mid = self.pairs();
        proof {
            lemma_map_of_contains(mid, slug@);
            assert(!old(self)@.contains_key(slug@));
        }
        self.data.push((slug, value));
        proof {
            assert(self.pairs().drop_last() =~~= mid);
            assert(self.pairs().last() == (slug@, value@));
            assert(self@ == map_of(mid).insert(slug@, value@));
            assert forall|x: int, y: int|
                0 <= x < y < self.pairs().len() implies #[trigger] self.pairs()[x].0
                != #[trigger] self.pairs()[y].0 by {
                if y < self.pairs().len() - 1 {
                    assert(self.pairs()[x] == mid[x]);
                    assert(self.pairs()[y] == mid[y]);
                } else {
                    assert(self.pairs()[x] == mid[x]);
                    assert(self.pairs()[y].0 == slug@);
                }
            }
        }
        true
    }

    /// Remove the entry stored under `slug`; reports whether one existed.
    /// As with `upsert`, a `false` from a live store means "not found" —
    /// the lock-failure reading of `false` belongs to the unverified
    /// guard around the store.
    pub fn delete(&mut self, slug: &String) -> (r: bool)
        requires
            old(self).wf(),
        ensures
            final(self).wf(),
            final(self)@ == old(self)@.remove(slug@),
            final(self).backup == old(self).backup,
            final(self).instance_id == old(self).instance_id,
            r == old(self)@.contains_key(slug@),
    {
        let ghost orig = self.pairs();
        let n = self.data.len();
        let mut i: usize = 0;
        while i < n
            invariant
                i <= n == self.data@.len(),
                self.wf(),
                *self == *old(self),
                forall|j: int| 0 <= j < i ==> #[trigger] self.pairs()[j].0 != slug@,
            decreases n - i,
        {
            if str_eq(self.data[i].0.as_str(), slug.as_str()) {
                proof {
                    lemma_map_of_index(self.pairs(), i as int);
                    lemma_map_of_remove(self.pairs(), i as int);
                    lemma_remove_keeps_distinct(self.pairs(), i as int);
                }
                let ghost removed = self.pairs().remove(i as int);
                self.data.remove(i);
                proof {
                    assert(self.pairs() =~~= removed);
                }
                return true;
            }
            i = i + 1;
        }
        proof {
            lemma_map_of_contains(self.pairs(), slug@);
            assert(old(self)@.remove(slug@) =~= old(self)@);
        }
        false
    }

    /// Serialize all entries to the snapshot format: one comma-joined row
    /// per entry, rows newline-joined, no trailing newline.
    pub fn to_csv(&self) -> (r: String)
        ensures
            r@ == csv_chars(self.stored()),
    {
        proof {
            reveal_strlit("\n");
            reveal_strlit(",");
        }
        let n = self.data.len();
        let mut out = String::new();
        let mut i: usize = 0;
        proof {
            assert(rows_seq(self.stored()).subrange(0, 0) =~~= Seq::<Seq<char>>::empty());
        }
        while i < n
            invariant
                i <= n == self.data@.len(),
                out@ == join_chars(rows_seq(self.stored()).subrange(0, i as int), '\n'),
            decreases n - i,
        {
            if i > 0 {
                out.append("\n");
            }
            out.append(self.data[i].1.slug.as_str());
            out.append(",");
            out.append(self.data[i].1.url.as_str());
            out.append(",");
            out.append(self.data[i].1.status.as_str());
            out.append(",");
            out.append(self.data[i].1.since.as_str());
            out.append(",");
            out.append(self.data[i].1.until.as_str());
            proof {
                reveal_strlit("\n");
                reveal_strlit(",");
                let rows = rows_seq(self.stored());
                assert(rows.subrange(0, i + 1).drop_last() =~~= rows.subrange(0, i as int));
                lemma_join_push(rows.subrange(0, i as int), rows[i as int], '\n');
                assert(rows.subrange(0, i as int).push(rows[i as int]) =~~= rows.subrange(
                    0,
                    i + 1,
                ));
                assert(","@ =~= seq![',']);
                assert("\n"@ =~= seq!['\n']);
                if i == 0 {
                    assert(out@ =~= row_chars(self.stored()[0]));
                } else {
                    assert(out@ =~= join_chars(rows.subrange(0, i as int), '\n').push('\n')
                        + row_chars(self.stored()[i as int]));
                }
            }
            i = i + 1;
        }
        proof {
            assert(rows_seq(self.stored()).subrange(0, n as int) =~~= rows_seq(self.stored()));
        }
        out
    }

    /// The explicit shutdown step. With backups enabled it yields the
    /// snapshot file's path and contents for this generation; the caller
    /// performs the write, and must treat a failure of that write as
    /// fatal, since no later checkpoint exists. With backups disabled it
    /// yields nothing and no file is written.
    pub fn close(&self) -> (r: Option<(String, String)>)
        ensures
            match r {
                Some(p) => self.backup && p.0@ == snapshot_path_chars(self.instance_id@)
                    && p.1@ == csv_chars(self.stored()),
                None => !self.backup,
            },
    {
        if self.backup {
            let mut path = "backups/".to_owned();
            path.append(self.instance_id.as_str());
            path.append(".csv");
            Some((path, self.to_csv()))
        } else {
            None
        }
    }
}

} // verus!

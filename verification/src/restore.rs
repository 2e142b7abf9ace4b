//! Startup reconstruction: read the generation log, work out which
//! generations are live, merge their snapshots into a fresh store (or
//! fall back to the seed file when no generation is live), and produce
//! the log line that registers the new generation as deprecating every
//! generation it merged.
//!
//! All file contents arrive and leave as plain strings; the reads and
//! the append itself are the caller's. The caller must append the
//! registration line only after this reconstruction has succeeded, and
//! must treat a failure of that append as fatal: serving without a
//! durably registered generation would leave no safe restore point.

use vstd::prelude::*;
use vstd::string::*;
use crate::genlog::{
    contains_id, line_chars, live_ids, live_in, log_records, parse_log, registration_line,
    RecordView,
};
use crate::rows::{parse_rows, rows_of_chars};
use crate::store::{csv_chars, map_of, Database, EntryView, ShortcutEntry};
use crate::text::split_chars;

verus! {

/// One snapshot file found on disk: the generation id from its file
/// name, and its text.
pub struct Snapshot {
    pub id: String,
    pub body: String,
}

/// The mathematical content of a `Snapshot`.
pub ghost struct SnapshotView {
    pub id: Seq<char>,
    pub body: Seq<char>,
}

impl View for Snapshot {
    type V = SnapshotView;

    open spec fn view(&self) -> SnapshotView {
        SnapshotView { id: self.id@, body: self.body@ }
    }
}

impl DeepView for Snapshot {
    type V = SnapshotView;

    open spec fn deep_view(&self) -> SnapshotView {
        self.view()
    }
}

/// Merging rows into a map: each row is keyed by its slug; a later row
/// with the same slug wins.
pub open spec fn merge_rows(
    m: Map<Seq<char>, EntryView>,
    rows: Seq<EntryView>,
) -> Map<Seq<char>, EntryView>
    decreases rows.len(),
{
    if rows.len() == 0 {
        m
    } else {
        merge_rows(m, rows.drop_last()).insert(rows.last().slug, rows.last())
    }
}

/// Merging the snapshots of the live generations, in the order the
/// snapshots are listed; of two rows for one slug, the one processed
/// later wins (which file that is depends only on the listing order
/// handed in).
pub open spec fn merge_snaps(
    records: Seq<RecordView>,
    snaps: Seq<SnapshotView>,
) -> Map<Seq<char>, EntryView>
    decreases snaps.len(),
{
    if snaps.len() == 0 {
        Map::<Seq<char>, EntryView>::empty()
    } else {
        let m = merge_snaps(records, snaps.drop_last());
        if live_in(records, snaps.last().id) {
            merge_rows(m, rows_of_chars(snaps.last().body))
        } else {
            m
        }
    }
}

/// The ids merged by a restore, in processing order: the snapshots whose
/// generation is live.
pub open spec fn loaded_ids(records: Seq<RecordView>, snaps: Seq<SnapshotView>) -> Seq<Seq<char>>
    decreases snaps.len(),
{
    if snaps.len() == 0 {
        Seq::<Seq<char>>::empty()
    } else {
        loaded_ids(records, snaps.drop_last()) + if live_in(records, snaps.last().id) {
            seq![snaps.last().id]
        } else {
            Seq::<Seq<char>>::empty()
        }
    }
}

/// Whether any generation of the log is live.
pub open spec fn has_live(records: Seq<RecordView>) -> bool {
    exists|id: Seq<char>| live_in(records, id)
}

/// The logical state a restore reconstructs: the merge of the live
/// generations' snapshots, or the seed file's well-formed rows when no
/// generation is live.
pub open spec fn restore_map(
    log: Seq<char>,
    snaps: Seq<SnapshotView>,
    seed: Seq<char>,
) -> Map<Seq<char>, EntryView> {
    let records = log_records(log);
    if has_live(records) {
        merge_snaps(records, snaps)
    } else {
        merge_rows(Map::<Seq<char>, EntryView>::empty(), rows_of_chars(seed))
    }
}

/// Every live generation with no snapshot on disk is reported dropped.
pub open spec fn dropped_complete(
    records: Seq<RecordView>,
    snaps: Seq<SnapshotView>,
    dropped: Seq<Seq<char>>,
) -> bool {
    forall|id: Seq<char>|
        live_in(records, id) && !(exists|s: int|
            0 <= s < snaps.len() && #[trigger] snaps[s].id == id) ==> exists|i: int|
            0 <= i < dropped.len() && #[trigger] dropped[i] == id
}

/// What a restore did, beside the store it built: the log line that
/// registers the new generation, the ids it merged, and the live ids
/// it had to drop because no snapshot file was found for them (reported
/// at informational severity, never an error — such a generation was
/// registered but died before flushing).
pub struct RestoreReport {
    pub line: String,
    pub loaded: Vec<String>,
    pub dropped: Vec<String>,
}

/// Upsert each row into the store, keyed by its slug; later rows win.
fn apply_rows(db: &mut Database, rows: &Vec<ShortcutEntry>)
    requires
        old(db).wf(),
    ensures
        final(db).wf(),
        final(db)@ == merge_rows(old(db)@, rows.deep_view()),
        final(db).backup == old(db).backup,
        final(db).instance_id == old(db).instance_id,
{
    let n = rows.len();
    let mut i: usize = 0;
    proof {
        assert(rows.deep_view().subrange(0, 0) =~~= Seq::<EntryView>::empty());
    }
    while i < n
        invariant
            i <= n == rows@.len(),
            db.wf(),
            db@ == merge_rows(old(db)@, rows.deep_view().subrange(0, i as int)),
            db.backup == old(db).backup,
            db.instance_id == old(db).instance_id,
        decreases n - i,
    {
        let row = &rows[i];
        db.upsert(row.slug.clone(), row.duplicate());
        proof {
            assert(rows.deep_view().subrange(0, i + 1).drop_last() =~~= rows.deep_view()
                .subrange(0, i as int));
            assert(rows.deep_view().subrange(0, i + 1).last() == rows@[i as int]@);
        }
        i = i + 1;
    }
    proof {
        assert(rows.deep_view().subrange(0, n as int) =~~= rows.deep_view());
    }
}

/// Rebuild the store from the generation log and the snapshot files, or
/// from the seed file when no generation is live, and produce the
/// registration line for the new generation.
pub fn restore(backup: bool, log_text: &String, snaps: &Vec<Snapshot>, seed_text: &String) -> (r:
    (Database, RestoreReport))
    ensures
        r.0.wf(),
        r.0.backup == backup,
        r.0@ == restore_map(log_text@, snaps.deep_view(), seed_text@),
        r.1.loaded.deep_view() == loaded_ids(log_records(log_text@), snaps.deep_view()),
        r.1.line@ == line_chars(r.0.instance_id@, r.1.loaded.deep_view()),
        forall|i: int|
            0 <= i < r.1.loaded@.len() ==> live_in(
                log_records(log_text@),
                #[trigger] r.1.loaded.deep_view()[i],
            ),
        forall|i: int|
            0 <= i < r.1.dropped@.len() ==> live_in(
                log_records(log_text@),
                #[trigger] r.1.dropped.deep_view()[i],
            ) && !(exists|s: int|
                0 <= s < snaps@.len() && #[trigger] snaps.deep_view()[s].id
                    == r.1.dropped.deep_view()[i]),
        dropped_complete(log_records(log_text@), snaps.deep_view(), r.1.dropped.deep_view()),
{
    let ghost records_spec = log_records(log_text@);
    let mut db = Database::new(backup);
    let records = parse_log(log_text.as_str());
    let live = live_ids(&records);
    let mut loaded: Vec<String> = Vec::new();
    let mut dropped: Vec<String> = Vec::new();
    if live.len() == 0 {
        proof {
            if has_live(records_spec) {
                let id = choose|id: Seq<char>| live_in(records_spec, id);
                assert(exists|k: int|
                    0 <= k < live@.len() && #[trigger] live.deep_view()[k] == id);
            }
            assert(loaded.deep_view() =~~= Seq::<Seq<char>>::empty());
        }
        let rows = parse_rows(seed_text.as_str());
        apply_rows(&mut db, &rows);
        proof {
            lemma_loaded_ids_dead(records_spec, snaps.deep_view());
            assert(dropped_complete(records_spec, snaps.deep_view(), dropped.deep_view())) by {
                assert forall|id: Seq<char>|
                    live_in(records_spec, id) && !(exists|s2: int|
                        0 <= s2 < snaps.deep_view().len() && #[trigger] snaps.deep_view()[s2].id
                            == id) implies exists|i: int|
                    0 <= i < dropped.deep_view().len() && #[trigger] dropped.deep_view()[i]
                        == id by {
                    assert(has_live(records_spec));
                }
            }
        }
    } else {
        let n = snaps.len();
        let mut s: usize = 0;
        proof {
            assert(live_in(records_spec, live.deep_view()[0]));
            assert(snaps.deep_view().subrange(0, 0) =~~= Seq::<SnapshotView>::empty());
            assert(loaded.deep_view() =~~= Seq::<Seq<char>>::empty());
        }
        while s < n
            invariant
                s <= n == snaps@.len(),
                db.wf(),
                db.backup == backup,
                db@ == merge_snaps(records_spec, snaps.deep_view().subrange(0, s as int)),
                loaded.deep_view() == loaded_ids(
                    records_spec,
                    snaps.deep_view().subrange(0, s as int),
                ),
                records.deep_view() == records_spec,
                forall|k: int|
                    0 <= k < live@.len() ==> (live_in(
                        records_spec,
                        #[trigger] live.deep_view()[k],
                    )),
                forall|id: Seq<char>|
                    live_in(records_spec, id) ==> exists|k: int|
                        0 <= k < live@.len() && #[trigger] live.deep_view()[k] == id,
                forall|i: int|
                    0 <= i < loaded@.len() ==> live_in(
                        records_spec,
                        #[trigger] loaded.deep_view()[i],
                    ),
            decreases n - s,
        {
            proof {
                assert(snaps.deep_view().subrange(0, s + 1).drop_last() =~~= snaps.deep_view()
                    .subrange(0, s as int));
                assert(snaps.deep_view().subrange(0, s + 1).last() == snaps@[s as int]@);
            }
            if contains_id(&live, &snaps[s].id) {
                proof {
                    let target = snaps.deep_view()[s as int].id;
                    let k = choose|k: int|
                        0 <= k < live@.len() && #[trigger] live.deep_view()[k] == target;
                    assert(live_in(records_spec, snaps.deep_view()[s as int].id));
                }
                let rows = parse_rows(snaps[s].body.as_str());
                apply_rows(&mut db, &rows);
                let ghost lv = loaded.deep_view();
                loaded.push(snaps[s].id.clone());
                proof {
                    assert(loaded.deep_view() =~~= lv.push(snaps.deep_view()[s as int].id));
                    assert(loaded.deep_view() =~~= loaded_ids(
                        records_spec,
                        snaps.deep_view().subrange(0, s + 1),
                    ));
                }
            } else {
                proof {
                    if live_in(records_spec, snaps.deep_view()[s as int].id) {
                        let k = choose|k: int|
                            0 <= k < live@.len() && #[trigger] live.deep_view()[k]
                                == snaps.deep_view()[s as int].id;
                    }
                    assert(!live_in(records_spec, snaps.deep_view()[s as int].id));
                    assert(loaded.deep_view() =~~= loaded_ids(
                        records_spec,
                        snaps.deep_view().subrange(0, s + 1),
                    ));
                }
            }
            s = s + 1;
        }
        proof {
            assert(snaps.deep_view().subrange(0, n as int) =~~= snaps.deep_view());
            assert(has_live(records_spec));
        }
        // Live generations with no snapshot on disk: registered but never
        // flushed; dropped, and reported for information only.
        let m = live.len();
        let mut k: usize = 0;
        while k < m
            invariant
                k <= m == live@.len(),
                forall|x: int|
                    0 <= x < live@.len() ==> live_in(records_spec, #[trigger] live.deep_view()[x]),
                forall|i: int|
                    0 <= i < dropped@.len() ==> live_in(
                        records_spec,
                        #[trigger] dropped.deep_view()[i],
                    ) && !(exists|s2: int|
                        0 <= s2 < snaps@.len() && #[trigger] snaps.deep_view()[s2].id
                            == dropped.deep_view()[i]),
                forall|x: int|
                    #![trigger live.deep_view()[x]]
                    0 <= x < k && !(exists|s2: int|
                        0 <= s2 < snaps@.len() && #[trigger] snaps.deep_view()[s2].id
                            == live.deep_view()[x]) ==> exists|i: int|
                        0 <= i < dropped@.len() && #[trigger] dropped.deep_view()[i]
                            == live.deep_view()[x],
            decreases m - k,
        {
            let ghost dv = dropped.deep_view();
            let missing = !snaps_contain(snaps, &live[k]);
            if missing {
                dropped.push(live[k].clone());
                proof {
                    assert(dropped.deep_view() =~~= dv.push(live.deep_view()[k as int]));
                }
            }
            proof {
                assert forall|x: int|
                    #![trigger live.deep_view()[x]]
                    0 <= x < k + 1 && !(exists|s2: int|
                        0 <= s2 < snaps@.len() && #[trigger] snaps.deep_view()[s2].id
                            == live.deep_view()[x]) implies exists|i: int|
                        0 <= i < dropped@.len() && #[trigger] dropped.deep_view()[i]
                            == live.deep_view()[x] by {
                    if x == k as int {
                        assert(dropped.deep_view()[dv.len() as int] == live.deep_view()[x]);
                    } else {
                        let i0 = choose|i: int|
                            0 <= i < dv.len() && #[trigger] dv[i] == live.deep_view()[x];
                        assert(dropped.deep_view()[i0] == live.deep_view()[x]);
                    }
                }
            }
            k = k + 1;
        }
        proof {
            assert(dropped_complete(records_spec, snaps.deep_view(), dropped.deep_view())) by {
                assert forall|id: Seq<char>|
                    live_in(records_spec, id) && !(exists|s2: int|
                        0 <= s2 < snaps.deep_view().len() && #[trigger] snaps.deep_view()[s2].id
                            == id) implies exists|i: int|
                    0 <= i < dropped.deep_view().len() && #[trigger] dropped.deep_view()[i]
                        == id by {
                    let x = choose|x: int|
                        0 <= x < live@.len() && #[trigger] live.deep_view()[x] == id;
                    assert(live.deep_view()[x] == id);
                }
            }
        }
    }
    let line = registration_line(&db.instance_id, &loaded);
    (db, RestoreReport { line, loaded, dropped })
}

/// Whether some listed snapshot carries this id.
fn snaps_contain(snaps: &Vec<Snapshot>, id: &String) -> (r: bool)
    ensures
        r == (exists|s: int|
            0 <= s < snaps@.len() && #[trigger] snaps.deep_view()[s].id == id@),
{
    let n = snaps.len();
    let mut i: usize = 0;
    while i < n
        invariant
            i <= n == snaps@.len(),
            forall|j: int| 0 <= j < i ==> #[trigger] snaps.deep_view()[j].id != id@,
        decreases n - i,
    {
        if crate::text::str_eq(snaps[i].id.as_str(), id.as_str()) {
            proof {
                assert(snaps.deep_view()[i as int].id == id@);
            }
            return true;
        }
        i = i + 1;
    }
    false
}

/// The entries of a pair sequence, in order.
spec fn entries_of(pairs: Seq<(Seq<char>, EntryView)>) -> Seq<EntryView> {
    Seq::new(pairs.len(), |i: int| pairs[i].1)
}

/// Merging rows whose slugs are their keys rebuilds the pairs' map.
proof fn lemma_merge_rows_is_map_of(pairs: Seq<(Seq<char>, EntryView)>)
    requires
        forall|i: int| 0 <= i < pairs.len() ==> #[trigger] pairs[i].0 == pairs[i].1.slug,
    ensures
        merge_rows(Map::<Seq<char>, EntryView>::empty(), entries_of(pairs)) == map_of(pairs),
    decreases pairs.len(),
{
    if pairs.len() > 0 {
        lemma_merge_rows_is_map_of(pairs.drop_last());
        assert(entries_of(pairs).drop_last() =~= entries_of(pairs.drop_last()));
        assert(entries_of(pairs).last() == pairs.last().1);
        assert(pairs[pairs.len() - 1].0 == pairs.last().1.slug);
    }
}

/// Round trip: snapshotting a store and restoring with that snapshot as
/// the only live generation reproduces the same logical map, whatever
/// seed file is present. The store's entries must be valid rows (as
/// every row that came in through a snapshot, the seed or validated
/// creation is), each stored under its own slug.
pub proof fn lemma_snapshot_restore_round_trip(db: Database, seed: Seq<char>)
    requires
        db.wf(),
        forall|i: int|
            0 <= i < db.pairs().len() ==> crate::rows::valid_entry(#[trigger] db.pairs()[i].1),
        forall|i: int|
            0 <= i < db.pairs().len() ==> #[trigger] db.pairs()[i].0 == db.pairs()[i].1.slug,
    ensures
        restore_map(
            db.instance_id@,
            seq![SnapshotView { id: db.instance_id@, body: csv_chars(db.stored()) }],
            seed,
        ) == db@,
{
    let id = db.instance_id@;
    let snap = SnapshotView { id, body: csv_chars(db.stored()) };
    crate::genlog::lemma_id_clean(id);
    // The log is the single line registering `id` with no deprecations.
    crate::text::lemma_split_clean(id, '\n');
    crate::text::lemma_split_clean(id, ',');
    assert(split_chars(id, ',') == seq![id]);
    assert(seq![id][0] == id);
    assert forall|i: int| 0 <= i < seq![id].len() implies crate::genlog::is_instance_id(
        #[trigger] seq![id][i],
    ) by {}
    assert(seq![id].skip(1) =~~= Seq::<Seq<char>>::empty());
    let rec = RecordView { id, deprecates: Seq::<Seq<char>>::empty() };
    assert(crate::genlog::parse_line_chars(id) == Some(rec));
    assert(seq![id].drop_last() =~~= Seq::<Seq<char>>::empty());
    assert(crate::genlog::log_records_parts(Seq::<Seq<char>>::empty())
        == Seq::<RecordView>::empty());
    let records = log_records(id);
    assert(records =~= seq![rec]);
    assert(records[0].id == id);
    assert(crate::genlog::listed_in(records, id));
    assert(!crate::genlog::deprecated_in(records, id)) by {
        if crate::genlog::deprecated_in(records, id) {
            let (i, j) = choose|i: int, j: int|
                0 <= i < records.len() && 0 <= j < records[i].deprecates.len()
                    && #[trigger] records[i].deprecates[j] == id;
            assert(records[i] == rec);
        }
    }
    assert(live_in(records, id));
    assert(has_live(records));
    // One live snapshot merges as its parsed rows over the empty map.
    assert(seq![snap].drop_last() =~~= Seq::<SnapshotView>::empty());
    assert(merge_snaps(records, Seq::<SnapshotView>::empty())
        == Map::<Seq<char>, EntryView>::empty());
    assert(seq![snap].last() == snap);
    assert forall|i: int| 0 <= i < db.stored().len() implies crate::rows::valid_entry(
        #[trigger] db.stored()[i],
    ) by {
        assert(db.stored()[i] == db.pairs()[i].1);
    }
    crate::rows::lemma_csv_round_trip(db.stored());
    assert(merge_snaps(records, seq![snap]) == merge_rows(
        Map::<Seq<char>, EntryView>::empty(),
        db.stored(),
    ));
    assert(entries_of(db.pairs()) =~= db.stored());
    lemma_merge_rows_is_map_of(db.pairs());
}

/// Idempotence: the reconstructed state is a function of the log text,
/// the snapshot files and the seed alone — restore keeps no hidden
/// state, so restoring twice from the same immutable inputs yields the
/// same logical map both times.
pub proof fn lemma_restore_idempotent(
    log1: Seq<char>,
    snaps1: Seq<SnapshotView>,
    seed1: Seq<char>,
    log2: Seq<char>,
    snaps2: Seq<SnapshotView>,
    seed2: Seq<char>,
)
    requires
        log1 == log2,
        snaps1 == snaps2,
        seed1 == seed2,
    ensures
        restore_map(log1, snaps1, seed1) == restore_map(log2, snaps2, seed2),
{
}

/// Every id a restore merges belongs to a live generation.
pub proof fn lemma_loaded_are_live(records: Seq<RecordView>, snaps: Seq<SnapshotView>)
    ensures
        forall|k: int|
            0 <= k < loaded_ids(records, snaps).len() ==> live_in(
                records,
                #[trigger] loaded_ids(records, snaps)[k],
            ),
    decreases snaps.len(),
{
    if snaps.len() > 0 {
        lemma_loaded_are_live(records, snaps.drop_last());
        let fore = loaded_ids(records, snaps.drop_last());
        assert forall|k: int| 0 <= k < loaded_ids(records, snaps).len() implies live_in(
            records,
            #[trigger] loaded_ids(records, snaps)[k],
        ) by {
            if k < fore.len() {
                assert(loaded_ids(records, snaps)[k] == fore[k]);
            } else {
                assert(live_in(records, snaps.last().id));
                assert(loaded_ids(records, snaps)[k] == snaps.last().id);
            }
        }
    }
}

/// Deprecation monotonicity: once any line of the log lists an id as
/// deprecated, no restore over any later state of the append-only log
/// merges that id's snapshot, whether or not the file still exists.
pub proof fn lemma_deprecated_never_loaded(
    records: Seq<RecordView>,
    more: Seq<RecordView>,
    snaps: Seq<SnapshotView>,
    id: Seq<char>,
)
    requires
        crate::genlog::deprecated_in(records, id),
    ensures
        forall|k: int|
            0 <= k < loaded_ids(records + more, snaps).len() ==> #[trigger] loaded_ids(
                records + more,
                snaps,
            )[k] != id,
{
    crate::genlog::lemma_deprecation_monotone(records, more, id);
    lemma_loaded_are_live(records + more, snaps);
}

/// Deprecation monotonicity at the file level: the log is only ever
/// appended to, a whole line at a time, so once any line of a
/// newline-terminated log lists an id as deprecated, no restore over
/// that log — however much is appended later — merges that id's
/// snapshot, whether or not the file still exists.
pub proof fn lemma_deprecated_stays_dead(
    log: Seq<char>,
    appended: Seq<char>,
    snaps: Seq<SnapshotView>,
    id: Seq<char>,
)
    requires
        log.len() == 0 || log.last() == '\n',
        crate::genlog::deprecated_in(log_records(log), id),
    ensures
        forall|k: int|
            0 <= k < loaded_ids(log_records(log + appended), snaps).len() ==> #[trigger] loaded_ids(
                log_records(log + appended),
                snaps,
            )[k] != id,
{
    crate::genlog::lemma_log_append(log, appended);
    lemma_deprecated_never_loaded(log_records(log), log_records(appended), snaps, id);
}

/// A snapshot file of a generation that is not live — deprecated, or
/// never registered — contributes nothing to a restore, whether or not
/// it is still on disk.
pub proof fn lemma_dead_snapshot_ignored(
    log: Seq<char>,
    snaps: Seq<SnapshotView>,
    extra: SnapshotView,
    seed: Seq<char>,
)
    requires
        !live_in(log_records(log), extra.id),
    ensures
        restore_map(log, snaps.push(extra), seed) == restore_map(log, snaps, seed),
{
    assert(snaps.push(extra).drop_last() =~= snaps);
    assert(snaps.push(extra).last() == extra);
}

/// Seed fallback: with no well-formed log line and no live generation,
/// a restore imports exactly the well-formed rows of the seed file.
pub proof fn lemma_seed_fallback(log: Seq<char>, snaps: Seq<SnapshotView>, seed: Seq<char>)
    requires
        log_records(log).len() == 0,
    ensures
        restore_map(log, snaps, seed) == merge_rows(
            Map::<Seq<char>, EntryView>::empty(),
            rows_of_chars(seed),
        ),
{
    assert(!has_live(log_records(log))) by {
        if has_live(log_records(log)) {
            let id = choose|id: Seq<char>| live_in(log_records(log), id);
            let i = choose|i: int|
                0 <= i < log_records(log).len() && #[trigger] log_records(log)[i].id == id;
        }
    }
}

/// With no generation live, no snapshot is merged.
proof fn lemma_loaded_ids_dead(records: Seq<RecordView>, snaps: Seq<SnapshotView>)
    requires
        !has_live(records),
    ensures
        loaded_ids(records, snaps) == Seq::<Seq<char>>::empty(),
    decreases snaps.len(),
{
    if snaps.len() > 0 {
        lemma_loaded_ids_dead(records, snaps.drop_last());
        assert(!live_in(records, snaps.last().id));
        assert(loaded_ids(records, snaps) =~~= Seq::<Seq<char>>::empty());
    }
}

} // verus!

//! The append-only generation log: one line per process instance
//! ("generation"), carrying the instance's identifier followed by the
//! comma-joined identifiers of the generations it deprecates.

use vstd::prelude::*;
use vstd::string::*;
use crate::text::{
    char_in, join_chars, lemma_join_push, lemma_split_concat, lemma_split_join, split_chars,
    split_str, CharKind,
};

verus! {

/// The fixed shape of a generation identifier: 36 characters, lowercase
/// hexadecimal with hyphens at positions 8, 13, 18 and 23.
pub open spec fn id_char_ok(i: int, c: char) -> bool {
    if i == 8 || i == 13 || i == 18 || i == 23 {
        c == '-'
    } else {
        char_in(CharKind::HexLower, c)
    }
}

/// Whether `s` has the shape of a generation identifier.
pub open spec fn is_instance_id(s: Seq<char>) -> bool {
    s.len() == 36 && forall|i: int| 0 <= i < 36 ==> #[trigger] id_char_ok(i, s[i])
}

/// A fresh identifier for a new generation.
///
/// Relies on uuid's `Uuid::new_v4` and the `Display` implementation of
/// `Uuid`: a version-4 UUID rendered in its hyphenated form, which is 36
/// characters of lowercase hexadecimal with hyphens at positions 8, 13,
/// 18 and 23. The identifier is random, so nothing beyond its shape is
/// assumed.
#[verifier::external_body]
pub(crate) fn fresh_instance_id() -> (r: String)
    ensures
        is_instance_id(r@),
{
    uuid::Uuid::new_v4().to_string()
}

/// Check that `s` has the shape of a generation identifier.
pub fn check_instance_id(s: &str) -> (r: bool)
    ensures
        r == is_instance_id(s@),
{
    let n = s.unicode_len();
    if n != 36 {
        return false;
    }
    let mut i: usize = 0;
    while i < 36
        invariant
            i <= 36,
            s@.len() == 36,
            forall|j: int| 0 <= j < i ==> #[trigger] id_char_ok(j, s@[j]),
        decreases 36 - i,
    {
        let c = s.get_char(i);
        let ok = if i == 8 || i == 13 || i == 18 || i == 23 {
            c == '-'
        } else {
            ('0' <= c && c <= '9') || ('a' <= c && c <= 'f')
        };
        if !ok {
            assert(!id_char_ok(i as int, s@[i as int]));
            return false;
        }
        i = i + 1;
    }
    true
}

/// One line of the generation log: the generation's own identifier, then
/// the identifiers it deprecates.
pub struct GenerationRecord {
    pub id: String,
    pub deprecates: Vec<String>,
}

/// The mathematical content of a `GenerationRecord`.
pub ghost struct RecordView {
    pub id: Seq<char>,
    pub deprecates: Seq<Seq<char>>,
}

impl View for GenerationRecord {
    type V = RecordView;

    open spec fn view(&self) -> RecordView {
        RecordView { id: self.id@, deprecates: self.deprecates.deep_view() }
    }
}

impl DeepView for GenerationRecord {
    type V = RecordView;

    open spec fn deep_view(&self) -> RecordView {
        self.view()
    }
}

/// The reading of one log line: its comma-separated fields, each of
/// which must have the identifier shape — the first is the generation's
/// id, the rest are the ids it deprecates. Any other line (in particular
/// a line truncated by a crash mid-append) reads as nothing and is
/// discarded as not yet durable.
pub open spec fn parse_line_chars(line: Seq<char>) -> Option<RecordView> {
    let parts = split_chars(line, ',');
    if forall|i: int| 0 <= i < parts.len() ==> is_instance_id(#[trigger] parts[i]) {
        Some(RecordView { id: parts[0], deprecates: parts.skip(1) })
    } else {
        None
    }
}

/// Parse one log line.
pub fn parse_log_line(line: &str) -> (r: Option<GenerationRecord>)
    ensures
        match r {
            Some(rec) => parse_line_chars(line@) == Some(rec@),
            None => parse_line_chars(line@) is None,
        },
{
    let parts = split_str(line, ',');
    let n = parts.len();
    let mut i: usize = 0;
    while i < n
        invariant
            i <= n == parts@.len(),
            parts.deep_view() == split_chars(line@, ','),
            forall|j: int| 0 <= j < i ==> is_instance_id(#[trigger] parts.deep_view()[j]),
        decreases n - i,
    {
        if !check_instance_id(parts[i].as_str()) {
            proof {
                assert(!is_instance_id(parts.deep_view()[i as int]));
            }
            return None;
        }
        i = i + 1;
    }
    let id = parts[0].clone();
    let mut deprecates: Vec<String> = Vec::new();
    let mut k: usize = 1;
    while k < n
        invariant
            1 <= k <= n == parts@.len(),
            parts.deep_view() == split_chars(line@, ','),
            deprecates.deep_view() =~~= parts.deep_view().subrange(1, k as int),
        decreases n - k,
    {
        let ghost dv = deprecates.deep_view();
        deprecates.push(parts[k].clone());
        proof {
            assert(deprecates.deep_view() =~~= dv.push(parts.deep_view()[k as int]));
        }
        k = k + 1;
    }
    let rec = GenerationRecord { id, deprecates };
    proof {
        assert(parts.deep_view().subrange(1, n as int) =~~= parts.deep_view().skip(1));
        assert(rec@.id == parts.deep_view()[0]);
    }
    Some(rec)
}

/// The well-formed records among a sequence of lines, in order.
pub open spec fn log_records_parts(parts: Seq<Seq<char>>) -> Seq<RecordView>
    decreases parts.len(),
{
    if parts.len() == 0 {
        Seq::<RecordView>::empty()
    } else {
        log_records_parts(parts.drop_last()) + match parse_line_chars(parts.last()) {
            Some(rec) => seq![rec],
            None => Seq::<RecordView>::empty(),
        }
    }
}

/// The well-formed records of the whole log text.
pub open spec fn log_records(text: Seq<char>) -> Seq<RecordView> {
    log_records_parts(split_chars(text, '\n'))
}

/// Parse the whole generation log, skipping malformed lines.
pub fn parse_log(text: &str) -> (r: Vec<GenerationRecord>)
    ensures
        r.deep_view() == log_records(text@),
{
    let lines = split_str(text, '\n');
    let n = lines.len();
    let mut out: Vec<GenerationRecord> = Vec::new();
    let mut i: usize = 0;
    proof {
        assert(lines.deep_view().subrange(0, 0) =~~= Seq::<Seq<char>>::empty());
        assert(out.deep_view() =~~= log_records_parts(lines.deep_view().subrange(0, 0)));
    }
    while i < n
        invariant
            i <= n == lines@.len(),
            lines.deep_view() == split_chars(text@, '\n'),
            out.deep_view() == log_records_parts(lines.deep_view().subrange(0, i as int)),
        decreases n - i,
    {
        proof {
            assert(lines.deep_view().subrange(0, i + 1).drop_last() =~~= lines.deep_view()
                .subrange(0, i as int));
            assert(lines.deep_view().subrange(0, i + 1).last() == lines@[i as int]@);
        }
        match parse_log_line(lines[i].as_str()) {
            Some(rec) => {
                let ghost dv = out.deep_view();
                out.push(rec);
                proof {
                    assert(out.deep_view() =~~= dv.push(rec@));
                    assert(out.deep_view() =~~= log_records_parts(lines.deep_view().subrange(
                        0,
                        i + 1,
                    )));
                }
            },
            None => {
                proof {
                    assert(out.deep_view() =~~= log_records_parts(lines.deep_view().subrange(
                        0,
                        i + 1,
                    )));
                }
            },
        }
        i = i + 1;
    }
    proof {
        assert(lines.deep_view().subrange(0, n as int) =~~= lines.deep_view());
    }
    out
}

// ---------------------------------------------------------------------------
// Liveness and deprecation
// ---------------------------------------------------------------------------

/// Some record of the log carries this id.
pub open spec fn listed_in(records: Seq<RecordView>, id: Seq<char>) -> bool {
    exists|i: int| 0 <= i < records.len() && #[trigger] records[i].id == id
}

/// Some record of the log lists this id as deprecated.
pub open spec fn deprecated_in(records: Seq<RecordView>, id: Seq<char>) -> bool {
    exists|i: int, j: int|
        0 <= i < records.len() && 0 <= j < records[i].deprecates.len()
            && #[trigger] records[i].deprecates[j] == id
}

/// A generation is live when it is listed and no line — earlier or later
/// — lists it as deprecated.
pub open spec fn live_in(records: Seq<RecordView>, id: Seq<char>) -> bool {
    listed_in(records, id) && !deprecated_in(records, id)
}

/// Reading lines distributes over concatenation of line sequences.
proof fn lemma_log_records_parts_concat(p1: Seq<Seq<char>>, p2: Seq<Seq<char>>)
    ensures
        log_records_parts(p1 + p2) == log_records_parts(p1) + log_records_parts(p2),
    decreases p2.len(),
{
    if p2.len() == 0 {
        assert(p1 + p2 =~~= p1);
        assert(log_records_parts(p2) =~= Seq::<RecordView>::empty());
        assert(log_records_parts(p1) + log_records_parts(p2) =~= log_records_parts(p1));
    } else {
        lemma_log_records_parts_concat(p1, p2.drop_last());
        assert((p1 + p2).drop_last() =~~= p1 + p2.drop_last());
        assert((p1 + p2).last() == p2.last());
        assert(log_records_parts(p1 + p2) =~= log_records_parts(p1) + log_records_parts(p2));
    }
}

/// The log is append-only, a whole line at a time: extending a
/// newline-terminated log text extends its records, changing none of
/// them.
pub proof fn lemma_log_append(t1: Seq<char>, t2: Seq<char>)
    requires
        t1.len() == 0 || t1.last() == '\n',
    ensures
        log_records(t1 + t2) == log_records(t1) + log_records(t2),
{
    lemma_split_concat(t1, t2, '\n');
    let f1 = split_chars(t1, '\n');
    crate::text::lemma_split_len(t1, '\n');
    assert(f1.last() == Seq::<char>::empty()) by {
        if t1.len() > 0 {
            assert(t1.drop_last().push('\n') =~= t1);
            crate::text::lemma_split_push_sep(t1.drop_last(), '\n');
        }
    }
    assert(Seq::<char>::empty() + t2 =~= t2);
    lemma_log_records_parts_concat(f1.drop_last(), split_chars(t2, '\n'));
    assert(log_records(t1) == log_records_parts(f1.drop_last())) by {
        assert(f1.drop_last().push(f1.last()) =~~= f1);
        assert(split_chars(Seq::<char>::empty(), ',').len() == 1);
        assert(parse_line_chars(Seq::<char>::empty()) is None) by {
            assert(!is_instance_id(split_chars(Seq::<char>::empty(), ',')[0]));
        }
        assert(log_records_parts(f1) =~= log_records_parts(f1.drop_last()));
    }
}

/// Deprecation is line-local and permanent: once any line of the log
/// lists an id as deprecated, no restore over any extension of that log
/// treats the id as live.
pub proof fn lemma_deprecation_monotone(
    records: Seq<RecordView>,
    more: Seq<RecordView>,
    id: Seq<char>,
)
    requires
        deprecated_in(records, id),
    ensures
        deprecated_in(records + more, id),
        !live_in(records + more, id),
{
    let (i, j) = choose|i: int, j: int|
        0 <= i < records.len() && 0 <= j < records[i].deprecates.len()
            && #[trigger] records[i].deprecates[j] == id;
    assert((records + more)[i] == records[i]);
    assert((records + more)[i].deprecates[j] == id);
}

/// Whether `v` holds a string with view `id`.
pub(crate) fn contains_id(v: &Vec<String>, id: &String) -> (r: bool)
    ensures
        r == (exists|i: int| 0 <= i < v@.len() && #[trigger] v.deep_view()[i] == id@),
{
    let n = v.len();
    let mut i: usize = 0;
    while i < n
        invariant
            i <= n == v@.len(),
            forall|j: int| 0 <= j < i ==> #[trigger] v.deep_view()[j] != id@,
        decreases n - i,
    {
        if crate::text::str_eq(v[i].as_str(), id.as_str()) {
            proof {
                assert(v.deep_view()[i as int] == id@);
            }
            return true;
        }
        i = i + 1;
    }
    false
}

/// Whether any record lists `id` as deprecated.
fn is_deprecated(records: &Vec<GenerationRecord>, id: &String) -> (r: bool)
    ensures
        r == deprecated_in(records.deep_view(), id@),
{
    let n = records.len();
    let mut i: usize = 0;
    while i < n
        invariant
            i <= n == records@.len(),
            forall|i2: int, j: int|
                0 <= i2 < i && 0 <= j < records.deep_view()[i2].deprecates.len()
                    ==> #[trigger] records.deep_view()[i2].deprecates[j] != id@,
        decreases n - i,
    {
        if contains_id(&records[i].deprecates, id) {
            proof {
                let j = choose|j: int|
                    0 <= j < records@[i as int].deprecates@.len()
                        && #[trigger] records@[i as int].deprecates.deep_view()[j] == id@;
                assert(records.deep_view()[i as int].deprecates[j] == id@);
            }
            return true;
        }
        i = i + 1;
    }
    proof {
        if deprecated_in(records.deep_view(), id@) {
            let (i2, j) = choose|i2: int, j: int|
                0 <= i2 < records.deep_view().len() && 0 <= j
                    < records.deep_view()[i2].deprecates.len()
                    && #[trigger] records.deep_view()[i2].deprecates[j] == id@;
            assert(records.deep_view()[i2].deprecates[j] == id@);
        }
    }
    false
}

/// The identifiers of the live generations: listed by some line, listed
/// as deprecated by none, each reported once, in order of first listing.
pub fn live_ids(records: &Vec<GenerationRecord>) -> (r: Vec<String>)
    ensures
        forall|i: int|
            0 <= i < r@.len() ==> live_in(records.deep_view(), #[trigger] r.deep_view()[i]),
        forall|id: Seq<char>|
            live_in(records.deep_view(), id) ==> exists|i: int|
                0 <= i < r@.len() && #[trigger] r.deep_view()[i] == id,
        forall|i: int, j: int| 0 <= i < j < r@.len() ==> r.deep_view()[i] != r.deep_view()[j],
{
    let n = records.len();
    let mut out: Vec<String> = Vec::new();
    let mut i: usize = 0;
    while i < n
        invariant
            i <= n == records@.len(),
            forall|k: int|
                0 <= k < out@.len() ==> live_in(records.deep_view(), #[trigger] out.deep_view()[k]),
            forall|i2: int|
                0 <= i2 < i && live_in(records.deep_view(), records.deep_view()[i2].id)
                    ==> exists|k: int|
                    0 <= k < out@.len() && #[trigger] out.deep_view()[k]
                        == records.deep_view()[i2].id,
            forall|x: int, y: int|
                0 <= x < y < out@.len() ==> out.deep_view()[x] != out.deep_view()[y],
        decreases n - i,
    {
        let id = &records[i].id;
        let ghost dv = out.deep_view();
        proof {
            assert(records.deep_view()[i as int].id == id@);
        }
        let present = contains_id(&out, id);
        let dep = is_deprecated(records, id);
        if !present && !dep {
            out.push(id.clone());
            proof {
                assert(out.deep_view() =~~= dv.push(id@));
                assert(listed_in(records.deep_view(), id@));
            }
        }
        proof {
            assert forall|i2: int|
                0 <= i2 < i + 1 && live_in(
                    records.deep_view(),
                    records.deep_view()[i2].id,
                ) implies exists|k: int|
                0 <= k < out@.len() && #[trigger] out.deep_view()[k]
                    == records.deep_view()[i2].id by {
                if i2 == i as int {
                    if present {
                        let k0 = choose|k: int| 0 <= k < dv.len() && #[trigger] dv[k] == id@;
                        assert(out.deep_view()[k0] == id@);
                    } else if !dep {
                        assert(out.deep_view()[dv.len() as int] == id@);
                    }
                } else {
                    let k0 = choose|k: int|
                        0 <= k < dv.len() && #[trigger] dv[k] == records.deep_view()[i2].id;
                    assert(out.deep_view()[k0] == records.deep_view()[i2].id);
                }
            }
        }
        i = i + 1;
    }
    proof {
        assert forall|id: Seq<char>| live_in(records.deep_view(), id) implies exists|k: int|
            0 <= k < out@.len() && #[trigger] out.deep_view()[k] == id by {
            let i2 = choose|i2: int|
                0 <= i2 < records.deep_view().len() && #[trigger] records.deep_view()[i2].id
                    == id;
            assert(live_in(records.deep_view(), records.deep_view()[i2].id));
        }
    }
    out
}

// ---------------------------------------------------------------------------
// Registering a generation
// ---------------------------------------------------------------------------

/// The log line registering generation `id` as deprecating `deps`.
pub open spec fn line_chars(id: Seq<char>, deps: Seq<Seq<char>>) -> Seq<char> {
    join_chars(seq![id] + deps, ',')
}

/// Serialize the log line for generation `id`, deprecating `deps`.
pub fn registration_line(id: &String, deps: &Vec<String>) -> (r: String)
    ensures
        r@ == line_chars(id@, deps.deep_view()),
{
    let mut out = id.clone();
    let n = deps.len();
    let mut i: usize = 0;
    proof {
        reveal_strlit(",");
        assert(seq![id@] + deps.deep_view().subrange(0, 0) =~~= seq![id@]);
    }
    while i < n
        invariant
            i <= n == deps@.len(),
            out@ == join_chars(seq![id@] + deps.deep_view().subrange(0, i as int), ','),
        decreases n - i,
    {
        out.append(",");
        out.append(deps[i].as_str());
        proof {
            reveal_strlit(",");
            let fore = seq![id@] + deps.deep_view().subrange(0, i as int);
            lemma_join_push(fore, deps.deep_view()[i as int], ',');
            assert(fore.push(deps.deep_view()[i as int]) =~~= seq![id@]
                + deps.deep_view().subrange(0, i + 1));
            assert(","@ =~= seq![',']);
        }
        i = i + 1;
    }
    proof {
        assert(seq![id@] + deps.deep_view().subrange(0, n as int) =~~= seq![id@]
            + deps.deep_view());
    }
    out
}

/// An identifier contains neither comma nor newline.
pub proof fn lemma_id_clean(id: Seq<char>)
    requires
        is_instance_id(id),
    ensures
        forall|p: int| 0 <= p < id.len() ==> id[p] != ',' && id[p] != '\n',
{
    assert forall|p: int| 0 <= p < id.len() implies id[p] != ',' && id[p] != '\n' by {
        assert(id_char_ok(p, id[p]));
    }
}

/// Parsing a registration line yields the record back.
pub proof fn lemma_line_round_trip(id: Seq<char>, deps: Seq<Seq<char>>)
    requires
        is_instance_id(id),
        forall|i: int| 0 <= i < deps.len() ==> is_instance_id(#[trigger] deps[i]),
    ensures
        parse_line_chars(line_chars(id, deps)) == Some(RecordView { id, deprecates: deps }),
{
    let parts = seq![id] + deps;
    assert forall|i: int, j: int|
        0 <= i < parts.len() && 0 <= j < parts[i].len() implies #[trigger] parts[i][j] != ',' by {
        if i == 0 {
            assert(parts[0] == id);
            lemma_id_clean(id);
        } else {
            assert(parts[i] == deps[i - 1]);
            lemma_id_clean(deps[i - 1]);
        }
    }
    lemma_split_join(parts, ',');
    assert forall|i: int| 0 <= i < parts.len() implies is_instance_id(#[trigger] parts[i]) by {
        if i > 0 {
            assert(parts[i] == deps[i - 1]);
        }
    }
    assert(parts[0] == id);
    assert(parts.skip(1) =~~= deps);
}

} // verus!

//! Parsing and validation of the five-column snapshot/seed rows
//! (`slug,target,status,availableFrom,availableUntil`), by explicit field
//! splitting and per-field character-class validation. Rows that fail
//! validation are skipped, never an error: a truncated or foreign line in
//! a snapshot or seed file must not abort a restore.

use vstd::prelude::*;
use vstd::string::*;
use crate::store::{csv_chars, row_chars, rows_seq, EntryView, ShortcutEntry};
use crate::text::{
    all_in, char_in, join_chars, lemma_split_join, range_in, split_chars, split_str, str_eq,
    str_in, CharKind,
};

verus! {

// ---------------------------------------------------------------------------
// Field validity
// ---------------------------------------------------------------------------

/// A slug: nonempty lowercase alphanumeric.
pub open spec fn valid_slug(s: Seq<char>) -> bool {
    s.len() > 0 && all_in(CharKind::LowerAlnum, s)
}

/// A status: exactly `trusted` or `untrusted`.
pub open spec fn valid_status(s: Seq<char>) -> bool {
    s == "trusted"@ || s == "untrusted"@
}

/// A timestamp: a nonempty all-digit string.
pub open spec fn valid_stamp(s: Seq<char>) -> bool {
    s.len() > 0 && all_in(CharKind::Digit, s)
}

/// One admissible reading of the part of a URL after its scheme: a host
/// of 1 to 256 host-class characters up to the dot at position `i`, a
/// top-level domain of 1 to 6 characters ending (exclusively) at `j`, and
/// a tail of tail-class characters.
pub open spec fn url_split_ok(r: Seq<char>, i: int, j: int) -> bool {
    &&& 1 <= i <= 256
    &&& i < r.len()
    &&& r[i] == '.'
    &&& all_in(CharKind::Host, r.subrange(0, i))
    &&& i + 2 <= j <= r.len()
    &&& j - (i + 1) <= 6
    &&& all_in(CharKind::Tld, r.subrange(i + 1, j))
    &&& all_in(CharKind::Tail, r.subrange(j, r.len() as int))
}

/// The part of a URL after its scheme admits some host/tld/tail reading.
pub open spec fn valid_host_part(r: Seq<char>) -> bool {
    exists|i: int, j: int| url_split_ok(r, i, j)
}

/// The constrained URL shape accepted for a shortcut target: an `http`
/// or `https` scheme followed by a well-shaped host, dot, top-level
/// domain and tail.
pub open spec fn valid_url(s: Seq<char>) -> bool {
    ||| ("http://"@.is_prefix_of(s) && valid_host_part(s.skip(7)))
    ||| ("https://"@.is_prefix_of(s) && valid_host_part(s.skip(8)))
}

/// A fully valid row's worth of fields.
pub open spec fn valid_entry(e: EntryView) -> bool {
    &&& valid_slug(e.slug)
    &&& valid_url(e.url)
    &&& valid_status(e.status)
    &&& valid_stamp(e.since)
    &&& valid_stamp(e.until)
}

// ---------------------------------------------------------------------------
// URL validation
// ---------------------------------------------------------------------------

/// Search all host/tld/tail readings of `s@.skip(off)`.
fn check_host_part(s: &str, off: usize) -> (r: bool)
    requires
        off <= s@.len(),
    ensures
        r == valid_host_part(s@.skip(off as int)),
{
    let ghost rr = s@.skip(off as int);
    let n = s.unicode_len();
    let m = n - off;
    if m < 3 {
        proof {
            assert forall|i2: int, j: int| !url_split_ok(rr, i2, j) by {
                assert(rr.len() == m);
            }
        }
        return false;
    }
    // `host_ok` tracks whether every character of `rr[0 .. i]` lies in
    // the host class.
    let c0 = s.get_char(off);
    let mut host_ok: bool = char_in_host(c0);
    let mut i: usize = 1;
    proof {
        assert(rr[0] == s@[off as int]);
    }
    while i <= 256 && i + 2 <= m
        invariant
            1 <= i <= m,
            off + m == n,
            n == s@.len(),
            rr == s@.skip(off as int),
            rr.len() == m,
            m >= 3,
            host_ok == (forall|p: int| 0 <= p < i ==> char_in(CharKind::Host, #[trigger] rr[p])),
            forall|i2: int, j: int| 1 <= i2 < i ==> !url_split_ok(rr, i2, j),
        decreases m - i,
    {
        let c = s.get_char(off + i);
        proof {
            assert(rr[i as int] == s@[off + i]);
        }
        if c == '.' && host_ok {
            proof {
                assert forall|p: int| 0 <= p < i implies char_in(
                    CharKind::Host,
                    #[trigger] rr.subrange(0, i as int)[p],
                ) by {
                    assert(rr.subrange(0, i as int)[p] == rr[p]);
                }
            }
            // Try every admissible end of the top-level domain.
            let jmax = if i + 7 <= m {
                i + 7
            } else {
                m
            };
            let mut e = i + 2;
            let mut dead = false;
            let ghost mut pbad: int = 0;
            while e <= jmax
                invariant
                    i + 2 <= e <= jmax + 1,
                    jmax == if i + 7 <= m { (i + 7) as int } else { m as int },
                    1 <= i <= 256,
                    i + 2 <= m,
                    off + m == n,
                    n == s@.len(),
                    rr == s@.skip(off as int),
                    rr.len() == m,
                    all_in(CharKind::Host, rr.subrange(0, i as int)),
                    rr[i as int] == '.',
                    !dead ==> forall|p: int|
                        i + 1 <= p < e - 1 ==> char_in(CharKind::Tld, #[trigger] rr[p]),
                    dead ==> i + 1 <= pbad < e - 1 && !char_in(CharKind::Tld, rr[pbad]),
                    forall|j: int| j < e ==> !url_split_ok(rr, i as int, j),
                decreases m + 8 - e,
            {
                if !dead {
                    let ct = s.get_char(off + e - 1);
                    proof {
                        assert(rr[e - 1] == s@[off + e - 1]);
                    }
                    if char_in_tld(ct) {
                        proof {
                            assert forall|p: int| 0 <= p < e - (i + 1) implies char_in(
                                CharKind::Tld,
                                #[trigger] rr.subrange(i + 1, e as int)[p],
                            ) by {
                                assert(rr.subrange(i + 1, e as int)[p] == rr[i + 1 + p]);
                            }
                        }
                        if range_in(CharKind::Tail, s, off + e, n) {
                            proof {
                                assert(s@.subrange((off + e) as int, n as int) =~= rr.subrange(
                                    e as int,
                                    m as int,
                                ));
                                assert(url_split_ok(rr, i as int, e as int));
                            }
                            return true;
                        }
                        proof {
                            assert(s@.subrange((off + e) as int, n as int) =~= rr.subrange(
                                e as int,
                                m as int,
                            ));
                            assert(!url_split_ok(rr, i as int, e as int));
                        }
                    } else {
                        dead = true;
                        proof {
                            pbad = e - 1;
                            assert(!url_split_ok(rr, i as int, e as int)) by {
                                if url_split_ok(rr, i as int, e as int) {
                                    assert(rr.subrange(i + 1, e as int)[e - 1 - (i + 1)] == rr[e
                                        - 1]);
                                }
                            }
                        }
                    }
                } else {
                    proof {
                        assert(!url_split_ok(rr, i as int, e as int)) by {
                            if url_split_ok(rr, i as int, e as int) {
                                assert(rr.subrange(i + 1, e as int)[pbad - (i + 1)] == rr[pbad]);
                            }
                        }
                    }
                }
                e = e + 1;
            }
            proof {
                assert forall|j: int| !url_split_ok(rr, i as int, j) by {
                    if j >= e {
                        if url_split_ok(rr, i as int, j) {
                            if dead {
                                assert(rr.subrange(i + 1, j)[pbad - (i + 1)] == rr[pbad]);
                            } else {
                                assert(j > jmax);
                                assert(j - (i + 1) > 6 || j > m);
                            }
                        }
                    }
                }
            }
        } else {
            proof {
                if c == '.' {
                    let p = choose|p: int| 0 <= p < i && !char_in(CharKind::Host, #[trigger] rr[p]);
                    assert forall|j: int| !url_split_ok(rr, i as int, j) by {
                        if url_split_ok(rr, i as int, j) {
                            assert(rr.subrange(0, i as int)[p] == rr[p]);
                        }
                    }
                } else {
                    assert(rr[i as int] != '.');
                    assert forall|j: int| !url_split_ok(rr, i as int, j) by {}
                }
            }
        }
        let ch_ok = char_in_host(c);
        host_ok = host_ok && ch_ok;
        i = i + 1;
    }
    proof {
        assert forall|i2: int, j: int| !url_split_ok(rr, i2, j) by {
            if 1 <= i2 < i {
            } else if i2 >= i {
                if i > 256 {
                } else {
                    assert(i + 2 > m);
                }
            }
        }
    }
    false
}

/// Membership in the host character class.
fn char_in_host(c: char) -> (r: bool)
    ensures
        r == char_in(CharKind::Host, c),
{
    ('0' <= c && c <= '9') || ('a' <= c && c <= 'z') || ('A' <= c && c <= 'Z') || c == '-' || c
        == '@' || c == ':' || c == '%' || c == '.' || c == '_' || c == '+' || c == '~' || c == '#'
        || c == '='
}

/// Membership in the top-level-domain character class.
fn char_in_tld(c: char) -> (r: bool)
    ensures
        r == char_in(CharKind::Tld, c),
{
    ('0' <= c && c <= '9') || ('a' <= c && c <= 'z') || ('A' <= c && c <= 'Z') || c == '(' || c
        == ')'
}

/// Check the constrained URL shape.
pub fn check_url(s: &str) -> (r: bool)
    ensures
        r == valid_url(s@),
{
    proof {
        reveal_strlit("http://");
        reveal_strlit("https://");
    }
    let n = s.unicode_len();
    if n >= 7 && str_eq(s.substring_char(0, 7), "http://") {
        proof {
            assert("http://"@.is_prefix_of(s@));
            assert(!"https://"@.is_prefix_of(s@)) by {
                if "https://"@.is_prefix_of(s@) {
                    assert(s@.subrange(0, 8)[4] == s@[4]);
                    assert(s@.subrange(0, 7)[4] == s@[4]);
                }
            }
        }
        check_host_part(s, 7)
    } else if n >= 8 && str_eq(s.substring_char(0, 8), "https://") {
        proof {
            assert("https://"@.is_prefix_of(s@));
            assert(!"http://"@.is_prefix_of(s@)) by {
                if "http://"@.is_prefix_of(s@) {
                    assert(s@.subrange(0, 8)[4] == s@[4]);
                    assert(s@.subrange(0, 7)[4] == s@[4]);
                }
            }
        }
        check_host_part(s, 8)
    } else {
        proof {
            if "http://"@.is_prefix_of(s@) {
                assert(s@.subrange(0, 7) == "http://"@);
            }
            if "https://"@.is_prefix_of(s@) {
                assert(s@.subrange(0, 8) == "https://"@);
            }
        }
        false
    }
}

// ---------------------------------------------------------------------------
// Row parsing
// ---------------------------------------------------------------------------

/// The reading of one row: its five comma-separated fields if each
/// passes its validation, nothing otherwise.
pub open spec fn parse_row_chars(line: Seq<char>) -> Option<EntryView> {
    let parts = split_chars(line, ',');
    if parts.len() == 5 && valid_slug(parts[0]) && valid_url(parts[1]) && valid_status(parts[2])
        && valid_stamp(parts[3]) && valid_stamp(parts[4]) {
        Some(
            EntryView {
                slug: parts[0],
                url: parts[1],
                status: parts[2],
                since: parts[3],
                until: parts[4],
            },
        )
    } else {
        None
    }
}

/// Parse one row, skipping it if any field fails validation.
pub fn parse_row(line: &str) -> (r: Option<ShortcutEntry>)
    ensures
        match r {
            Some(e) => parse_row_chars(line@) == Some(e@),
            None => parse_row_chars(line@) is None,
        },
{
    proof {
        reveal_strlit("trusted");
        reveal_strlit("untrusted");
    }
    let parts = split_str(line, ',');
    if parts.len() != 5 {
        return None;
    }
    if !str_in(CharKind::LowerAlnum, parts[0].as_str()) || parts[0].as_str().unicode_len() == 0 {
        return None;
    }
    if !check_url(parts[1].as_str()) {
        return None;
    }
    if !(str_eq(parts[2].as_str(), "trusted") || str_eq(parts[2].as_str(), "untrusted")) {
        return None;
    }
    if !str_in(CharKind::Digit, parts[3].as_str()) || parts[3].as_str().unicode_len() == 0 {
        return None;
    }
    if !str_in(CharKind::Digit, parts[4].as_str()) || parts[4].as_str().unicode_len() == 0 {
        return None;
    }
    let e = ShortcutEntry {
        slug: parts[0].clone(),
        url: parts[1].clone(),
        status: parts[2].clone(),
        since: parts[3].clone(),
        until: parts[4].clone(),
    };
    proof {
        assert(parts.deep_view()[0] == parts@[0]@);
        assert(parts.deep_view()[1] == parts@[1]@);
        assert(parts.deep_view()[2] == parts@[2]@);
        assert(parts.deep_view()[3] == parts@[3]@);
        assert(parts.deep_view()[4] == parts@[4]@);
    }
    Some(e)
}

/// The well-formed rows among a sequence of lines, in order.
pub open spec fn parse_rows_parts(parts: Seq<Seq<char>>) -> Seq<EntryView>
    decreases parts.len(),
{
    if parts.len() == 0 {
        Seq::<EntryView>::empty()
    } else {
        parse_rows_parts(parts.drop_last()) + match parse_row_chars(parts.last()) {
            Some(e) => seq![e],
            None => Seq::<EntryView>::empty(),
        }
    }
}

/// The well-formed rows of a whole snapshot or seed file.
pub open spec fn rows_of_chars(text: Seq<char>) -> Seq<EntryView> {
    parse_rows_parts(split_chars(text, '\n'))
}

/// Parse a whole snapshot or seed file: split into lines, keep the rows
/// that validate, in file order.
pub fn parse_rows(text: &str) -> (r: Vec<ShortcutEntry>)
    ensures
        r.deep_view() == rows_of_chars(text@),
{
    let lines = split_str(text, '\n');
    let n = lines.len();
    let mut out: Vec<ShortcutEntry> = Vec::new();
    let mut i: usize = 0;
    proof {
        assert(lines.deep_view().subrange(0, 0) =~~= Seq::<Seq<char>>::empty());
        assert(out.deep_view() =~~= parse_rows_parts(lines.deep_view().subrange(0, 0)));
    }
    while i < n
        invariant
            i <= n == lines@.len(),
            lines.deep_view() == split_chars(text@, '\n'),
            out.deep_view() == parse_rows_parts(lines.deep_view().subrange(0, i as int)),
        decreases n - i,
    {
        proof {
            assert(lines.deep_view().subrange(0, i + 1).drop_last() =~~= lines.deep_view()
                .subrange(0, i as int));
            assert(lines.deep_view().subrange(0, i + 1).last() == lines@[i as int]@);
        }
        match parse_row(lines[i].as_str()) {
            Some(e) => {
                let ghost dv = out.deep_view();
                out.push(e);
                proof {
                    assert(out.deep_view() =~~= dv.push(e@));
                    assert(out.deep_view() =~~= parse_rows_parts(lines.deep_view().subrange(
                        0,
                        i + 1,
                    )));
                }
            },
            None => {
                proof {
                    assert(out.deep_view() =~~= parse_rows_parts(lines.deep_view().subrange(
                        0,
                        i + 1,
                    )));
                }
            },
        }
        i = i + 1;
    }
    proof {
        assert(lines.deep_view().subrange(0, n as int) =~~= lines.deep_view());
    }
    out
}

// ---------------------------------------------------------------------------
// Round trips
// ---------------------------------------------------------------------------

/// No field character class contains a comma or a newline.
proof fn lemma_class_clean(k: CharKind)
    ensures
        forall|c: char| char_in(k, c) ==> c != ',' && c != '\n',
{
}

/// A valid URL contains neither comma nor newline.
proof fn lemma_url_clean(u: Seq<char>)
    requires
        valid_url(u),
    ensures
        forall|p: int| 0 <= p < u.len() ==> u[p] != ',' && u[p] != '\n',
{
    reveal_strlit("http://");
    reveal_strlit("https://");
    if "http://"@.is_prefix_of(u) && "https://"@.is_prefix_of(u) {
        assert(u.subrange(0, 8)[4] == u[4]);
        assert(u.subrange(0, 7)[4] == u[4]);
        assert(false);
    }
    let off: int = if "http://"@.is_prefix_of(u) {
        7
    } else {
        8
    };
    let r = u.skip(off);
    assert(valid_host_part(r));
    let (i, j) = choose|i: int, j: int| url_split_ok(r, i, j);
    assert(url_split_ok(r, i, j));
    assert forall|p: int| 0 <= p < u.len() implies u[p] != ',' && u[p] != '\n' by {
        if p < off {
            assert(u.subrange(0, off) =~= if off == 7 {
                "http://"@
            } else {
                "https://"@
            });
            assert(u[p] == u.subrange(0, off)[p]);
        } else {
            let q = p - off;
            assert(u[p] == r[q]);
            if q < i {
                assert(r.subrange(0, i)[q] == r[q]);
                assert(char_in(CharKind::Host, r[q]));
            } else if q == i {
            } else if q < j {
                assert(r.subrange(i + 1, j)[q - (i + 1)] == r[q]);
                assert(char_in(CharKind::Tld, r[q]));
            } else {
                assert(r.subrange(j, r.len() as int)[q - j] == r[q]);
                assert(char_in(CharKind::Tail, r[q]));
            }
        }
    }
}

/// No character of a valid entry's row is a comma outside the four field
/// separators, and none is a newline at all.
proof fn lemma_fields_clean(e: EntryView)
    requires
        valid_entry(e),
    ensures
        forall|p: int| 0 <= p < e.slug.len() ==> e.slug[p] != ',' && e.slug[p] != '\n',
        forall|p: int| 0 <= p < e.url.len() ==> e.url[p] != ',' && e.url[p] != '\n',
        forall|p: int| 0 <= p < e.status.len() ==> e.status[p] != ',' && e.status[p] != '\n',
        forall|p: int| 0 <= p < e.since.len() ==> e.since[p] != ',' && e.since[p] != '\n',
        forall|p: int| 0 <= p < e.until.len() ==> e.until[p] != ',' && e.until[p] != '\n',
{
    lemma_class_clean(CharKind::LowerAlnum);
    lemma_class_clean(CharKind::Digit);
    lemma_url_clean(e.url);
    reveal_strlit("trusted");
    reveal_strlit("untrusted");
}

/// The five fields of a valid entry, as the row's split.
spec fn fields_of(e: EntryView) -> Seq<Seq<char>> {
    seq![e.slug, e.url, e.status, e.since, e.until]
}

/// Joining five fields, written out.
proof fn lemma_join_five(a: Seq<char>, b: Seq<char>, c: Seq<char>, d: Seq<char>, f: Seq<char>, sep: char)
    ensures
        join_chars(seq![a, b, c, d, f], sep) == a + seq![sep] + b + seq![sep] + c + seq![sep] + d
            + seq![sep] + f,
{
    assert(seq![a, b].drop_last() =~~= seq![a]);
    assert(seq![a, b, c].drop_last() =~~= seq![a, b]);
    assert(seq![a, b, c, d].drop_last() =~~= seq![a, b, c]);
    assert(seq![a, b, c, d, f].drop_last() =~~= seq![a, b, c, d]);
    assert(join_chars(seq![a], sep) == a);
    assert(join_chars(seq![a, b], sep) == join_chars(seq![a], sep).push(sep) + b);
    assert(join_chars(seq![a, b, c], sep) == join_chars(seq![a, b], sep).push(sep) + c);
    assert(join_chars(seq![a, b, c, d], sep) == join_chars(seq![a, b, c], sep).push(sep) + d);
    assert(join_chars(seq![a, b, c, d, f], sep) == join_chars(seq![a, b, c, d], sep).push(sep)
        + f);
    assert(join_chars(seq![a, b, c, d, f], sep) =~= a + seq![sep] + b + seq![sep] + c + seq![sep]
        + d + seq![sep] + f);
}

/// Parsing a valid entry's row yields the entry back.
pub proof fn lemma_row_round_trip(e: EntryView)
    requires
        valid_entry(e),
    ensures
        parse_row_chars(row_chars(e)) == Some(e),
{
    lemma_fields_clean(e);
    let parts = fields_of(e);
    lemma_join_five(e.slug, e.url, e.status, e.since, e.until, ',');
    assert(join_chars(parts, ',') == row_chars(e));
    assert forall|i: int, j: int|
        0 <= i < parts.len() && 0 <= j < parts[i].len() implies #[trigger] parts[i][j] != ',' by {
        if i == 0 {
            assert(parts[i][j] == e.slug[j]);
        } else if i == 1 {
            assert(parts[i][j] == e.url[j]);
        } else if i == 2 {
            assert(parts[i][j] == e.status[j]);
        } else if i == 3 {
            assert(parts[i][j] == e.since[j]);
        } else {
            assert(parts[i][j] == e.until[j]);
        }
    }
    lemma_split_join(parts, ',');
    assert(split_chars(row_chars(e), ',') == parts);
    assert(parse_row_chars(row_chars(e)) == Some(e));
}

/// A valid entry's row contains no newline.
proof fn lemma_row_clean(e: EntryView)
    requires
        valid_entry(e),
    ensures
        forall|p: int| 0 <= p < row_chars(e).len() ==> #[trigger] row_chars(e)[p] != '\n',
{
    lemma_fields_clean(e);
}

/// Parsing a serialized sequence of valid entries yields the entries
/// back: the snapshot format round-trips.
pub proof fn lemma_csv_round_trip(entries: Seq<EntryView>)
    requires
        forall|i: int| 0 <= i < entries.len() ==> valid_entry(#[trigger] entries[i]),
    ensures
        rows_of_chars(csv_chars(entries)) == entries,
{
    if entries.len() == 0 {
        assert(rows_seq(entries) =~~= Seq::<Seq<char>>::empty());
        assert(csv_chars(entries) == Seq::<char>::empty());
        assert(split_chars(Seq::<char>::empty(), '\n') == seq![Seq::<char>::empty()]);
        assert(split_chars(Seq::<char>::empty(), ',').len() == 1);
        assert(parse_row_chars(Seq::<char>::empty()) is None);
        assert(seq![Seq::<char>::empty()].drop_last() =~~= Seq::<Seq<char>>::empty());
        assert(parse_rows_parts(Seq::<Seq<char>>::empty()) == Seq::<EntryView>::empty());
        assert(parse_rows_parts(seq![Seq::<char>::empty()]) =~= Seq::<EntryView>::empty());
        assert(rows_of_chars(csv_chars(entries)) =~= entries);
    } else {
        let rows = rows_seq(entries);
        assert forall|i: int, j: int|
            0 <= i < rows.len() && 0 <= j < rows[i].len() implies #[trigger] rows[i][j]
            != '\n' by {
            lemma_row_clean(entries[i]);
            assert(rows[i] == row_chars(entries[i]));
        }
        lemma_split_join(rows, '\n');
        lemma_parse_rows_of_rows(entries);
    }
}

/// Parsing each row of a sequence of valid entries yields the sequence.
proof fn lemma_parse_rows_of_rows(entries: Seq<EntryView>)
    requires
        forall|i: int| 0 <= i < entries.len() ==> valid_entry(#[trigger] entries[i]),
    ensures
        parse_rows_parts(rows_seq(entries)) == entries,
    decreases entries.len(),
{
    if entries.len() == 0 {
        assert(rows_seq(entries) =~~= Seq::<Seq<char>>::empty());
        assert(parse_rows_parts(rows_seq(entries)) =~= entries);
    } else {
        lemma_parse_rows_of_rows(entries.drop_last());
        assert(rows_seq(entries).drop_last() =~~= rows_seq(entries.drop_last()));
        assert(rows_seq(entries).last() == row_chars(entries.last()));
        lemma_row_round_trip(entries.last());
        assert(parse_rows_parts(rows_seq(entries)) =~= entries.drop_last() + seq![
            entries.last(),
        ]);
        assert(entries.drop_last() + seq![entries.last()] =~= entries);
    }
}

} // verus!

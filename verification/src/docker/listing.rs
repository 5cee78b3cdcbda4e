//! Rows of the Docker CLI's container listing, one container per line as
//! `id|names|state|networks|mounts`, and the snapshots an offline frame is
//! built from. Reading the listing is the caller's I/O; this module decides
//! which lines are rows, in what order they come, and what each becomes.

use vstd::prelude::*;
use vstd::string::*;

use crate::docker::domain::{map_status, spec_map_status, ContainerSnapshot};
use crate::text::{
    join, join_strings, lemma_lex_lt_irreflexive, lemma_lex_lt_transitive, lex_lt, min_name, min_string, split_all, split_on, str_lt, text_lines,
    text_lines_of, trim, trim_str, views,
};

verus! {

/// One row of the listing: id, names, state, networks, mounts.
pub type PsRow = (Seq<char>, Seq<char>, Seq<char>, Seq<char>, Seq<char>);

/// One container of the CLI listing, its fields as the listing gave them.
#[derive(Debug, Clone, PartialEq, Eq)]
pub struct PsRecord {
    pub id: String,
    pub name: String,
    pub state: String,
    pub networks: String,
    pub mounts: String,
}

impl View for PsRecord {
    type V = PsRow;

    open spec fn view(&self) -> PsRow {
        (self.id@, self.name@, self.state@, self.networks@, self.mounts@)
    }
}

/// The row a listing line holds: its `|`-separated fields, the fifth taking
/// the rest of the line; a line with fewer than five fields, or with an
/// empty id, holds none.
pub open spec fn row_of_line(line: Seq<char>) -> Option<PsRow> {
    let p = split_all(line, '|');
    if p.len() >= 5 && p[0].len() > 0 {
        Some((p[0], p[1], p[2], p[3], join(p.skip(4), seq!['|'])))
    } else {
        None
    }
}

/// The rows of a list of lines, in line order.
pub open spec fn rows_of(lines: Seq<Seq<char>>) -> Seq<PsRow>
    decreases lines.len(),
{
    if lines.len() == 0 {
        Seq::empty()
    } else {
        let r = rows_of(lines.drop_last());
        match row_of_line(lines.last()) {
            Some(row) => r.push(row),
            None => r,
        }
    }
}

/// `rows` with `row` placed after every row whose name does not sort after
/// its own.
pub open spec fn insert_by_name(rows: Seq<PsRow>, row: PsRow) -> Seq<PsRow>
    decreases rows.len(),
{
    if rows.len() == 0 {
        seq![row]
    } else if lex_lt(row.1, rows[0].1) {
        seq![row] + rows
    } else {
        seq![rows[0]] + insert_by_name(rows.drop_first(), row)
    }
}

/// `rows` stably sorted by name: equal names keep their listing order.
pub open spec fn sort_by_name(rows: Seq<PsRow>) -> Seq<PsRow>
    decreases rows.len(),
{
    if rows.len() == 0 {
        Seq::empty()
    } else {
        insert_by_name(sort_by_name(rows.drop_last()), rows.last())
    }
}

/// The rows of a whole listing, sorted by name.
pub open spec fn listing_rows(text: Seq<char>) -> Seq<PsRow> {
    sort_by_name(rows_of(text_lines(text)))
}

/// Views of a list of records.
pub open spec fn record_views(v: Seq<PsRecord>) -> Seq<PsRow> {
    v.map_values(|r: PsRecord| r@)
}

/// The row of one listing line, if it holds one.
pub fn parse_ps_line(line: &str) -> (r: Option<PsRecord>)
    ensures
        match r {
            Some(rec) => row_of_line(line@) == Some(rec@),
            None => row_of_line(line@) is None,
        },
{
    let parts = split_on(line, '|');
    if parts.len() < 5 || parts[0].unicode_len() == 0 {
        return None;
    }
    let mut rest: Vec<String> = Vec::new();
    let mut i: usize = 4;
    while i < parts.len()
        invariant
            4 <= i <= parts@.len(),
            views(rest@) =~= views(parts@).skip(4).take(i - 4),
        decreases parts@.len() - i,
    {
        let ghost before = views(rest@);
        rest.push(String::from_str(parts[i].as_str()));
        proof {
            assert(views(rest@) =~= before.push(parts@[i as int]@));
            assert(views(parts@).skip(4).take(i - 4 + 1) =~= views(parts@).skip(4).take(
                i - 4,
            ).push(views(parts@)[i as int]));
        }
        i = i + 1;
    }
    let mounts = join_strings(&rest, "|");
    proof {
        reveal_strlit("|");
        assert(views(parts@).skip(4).take(parts@.len() - 4) =~= views(parts@).skip(4));
        assert("|"@ =~= seq!['|']);
    }
    Some(
        PsRecord {
            id: String::from_str(parts[0].as_str()),
            name: String::from_str(parts[1].as_str()),
            state: String::from_str(parts[2].as_str()),
            networks: String::from_str(parts[3].as_str()),
            mounts,
        },
    )
}

proof fn lemma_insert_at(rows: Seq<PsRow>, row: PsRow, k: int)
    requires
        0 <= k <= rows.len(),
        forall|j: int| 0 <= j < k ==> !lex_lt(row.1, #[trigger] rows[j].1),
        k == rows.len() || lex_lt(row.1, rows[k].1),
    ensures
        insert_by_name(rows, row) == rows.insert(k, row),
    decreases k,
{
    if k == 0 {
        if rows.len() == 0 {
            assert(rows.insert(0, row) =~= seq![row]);
        } else {
            assert(rows.insert(0, row) =~= seq![row] + rows);
        }
    } else {
        let t = rows.drop_first();
        assert forall|j: int| 0 <= j < k - 1 implies !lex_lt(row.1, #[trigger] t[j].1) by {
            assert(t[j] == rows[j + 1]);
        }
        if k < rows.len() {
            assert(t[k - 1] == rows[k]);
        }
        lemma_insert_at(t, row, k - 1);
        assert(!lex_lt(row.1, rows[0].1));
        assert(rows.insert(k, row) =~= seq![rows[0]] + t.insert(k - 1, row));
    }
}

/// Place `rec` into the name-sorted `sorted` after every record whose name
/// does not sort after its own.
fn insert_record(sorted: &mut Vec<PsRecord>, rec: PsRecord)
    ensures
        record_views(final(sorted)@) == insert_by_name(record_views(old(sorted)@), rec@),
{
    let n = sorted.len();
    let mut k: usize = 0;
    while k < n && !str_lt(rec.name.as_str(), sorted[k].name.as_str())
        invariant
            n == sorted@.len(),
            k <= n,
            forall|j: int| 0 <= j < k ==> !lex_lt(rec@.1, #[trigger] sorted@[j]@.1),
        decreases n - k,
    {
        k = k + 1;
    }
    let ghost before = record_views(sorted@);
    proof {
        assert forall|j: int| 0 <= j < k implies !lex_lt(rec@.1, #[trigger] before[j].1) by {
            assert(before[j] == sorted@[j]@);
        }
        if k < n {
            assert(before[k as int] == sorted@[k as int]@);
        }
        lemma_insert_at(before, rec@, k as int);
    }
    let ghost r = rec@;
    sorted.insert(k, rec);
    proof {
        assert(record_views(sorted@) =~= before.insert(k as int, r));
    }
}

/// The rows of a whole listing, sorted by name (stably: equal names keep
/// their listing order). Lines that hold no row are skipped.
pub fn parse_ps_listing(text: &str) -> (r: Vec<PsRecord>)
    ensures
        record_views(r@) == listing_rows(text@),
{
    let lines = text_lines_of(text);
    let mut sorted: Vec<PsRecord> = Vec::new();
    let mut i: usize = 0;
    while i < lines.len()
        invariant
            views(lines@) == text_lines(text@),
            i <= lines@.len(),
            record_views(sorted@) == sort_by_name(rows_of(views(lines@).take(i as int))),
        decreases lines@.len() - i,
    {
        let ghost t = views(lines@).take(i as int + 1);
        proof {
            assert(t.drop_last() =~= views(lines@).take(i as int));
            assert(t.last() == lines@[i as int]@);
        }
        match parse_ps_line(lines[i].as_str()) {
            Some(rec) => {
                proof {
                    assert(rows_of(t) == rows_of(t.drop_last()).push(rec@));
                    assert(rows_of(t).drop_last() =~= rows_of(t.drop_last()));
                }
                insert_record(&mut sorted, rec);
            },
            None => {},
        }
        i = i + 1;
    }
    proof {
        assert(views(lines@).take(lines@.len() as int) =~= views(lines@));
    }
    sorted
}

/// Whether `rows` is in non-decreasing name order.
pub open spec fn sorted_by_name(rows: Seq<PsRow>) -> bool {
    forall|i: int, j: int| 0 <= i < j < rows.len() ==> !lex_lt(#[trigger] rows[j].1, #[trigger] rows[i].1)
}

/// Whether no row of `rows` has a name sorting before `b`.
spec fn none_below(rows: Seq<PsRow>, b: Seq<char>) -> bool {
    forall|k: int| 0 <= k < rows.len() ==> !lex_lt(#[trigger] rows[k].1, b)
}

proof fn lemma_insert_none_below(rows: Seq<PsRow>, row: PsRow, b: Seq<char>)
    requires
        none_below(rows, b),
        !lex_lt(row.1, b),
    ensures
        none_below(insert_by_name(rows, row), b),
    decreases rows.len(),
{
    if rows.len() > 0 && !lex_lt(row.1, rows[0].1) {
        let t = rows.drop_first();
        assert forall|k: int| 0 <= k < t.len() implies !lex_lt(#[trigger] t[k].1, b) by {
            assert(t[k] == rows[k + 1]);
        }
        lemma_insert_none_below(t, row, b);
        let r = insert_by_name(rows, row);
        assert forall|k: int| 0 <= k < r.len() implies !lex_lt(#[trigger] r[k].1, b) by {
            if k > 0 {
                assert(r[k] == insert_by_name(t, row)[k - 1]);
            }
        }
    }
}

proof fn lemma_insert_sorted(rows: Seq<PsRow>, row: PsRow)
    requires
        sorted_by_name(rows),
    ensures
        sorted_by_name(insert_by_name(rows, row)),
        insert_by_name(rows, row).to_multiset() =~= rows.to_multiset().insert(row),
    decreases rows.len(),
{
    broadcast use vstd::seq_lib::group_seq_properties;
    let r = insert_by_name(rows, row);
    if rows.len() == 0 {
        assert(r =~= seq![row]);
    } else if lex_lt(row.1, rows[0].1) {
        assert forall|i: int, j: int| 0 <= i < j < r.len() implies !lex_lt(#[trigger] r[j].1, #[trigger] r[i].1) by {
            if i == 0 {
                assert(r[j] == rows[j - 1]);
                if lex_lt(rows[j - 1].1, row.1) {
                    lemma_lex_lt_transitive(rows[j - 1].1, row.1, rows[0].1);
                    if j - 1 == 0 {
                        lemma_lex_lt_irreflexive(rows[0].1);
                    }
                }
            } else {
                assert(r[i] == rows[i - 1] && r[j] == rows[j - 1]);
            }
        }
        vstd::seq_lib::lemma_multiset_commutative(seq![row], rows);
    } else {
        let t = rows.drop_first();
        assert forall|i: int, j: int| 0 <= i < j < t.len() implies !lex_lt(#[trigger] t[j].1, #[trigger] t[i].1) by {
            assert(t[i] == rows[i + 1] && t[j] == rows[j + 1]);
        }
        assert forall|k: int| 0 <= k < t.len() implies !lex_lt(#[trigger] t[k].1, rows[0].1) by {
            assert(t[k] == rows[k + 1]);
        }
        lemma_insert_sorted(t, row);
        lemma_insert_none_below(t, row, rows[0].1);
        let u = insert_by_name(t, row);
        assert forall|i: int, j: int| 0 <= i < j < r.len() implies !lex_lt(#[trigger] r[j].1, #[trigger] r[i].1) by {
            assert(r[j] == u[j - 1]);
            if i > 0 {
                assert(r[i] == u[i - 1]);
            }
        }
        vstd::seq_lib::lemma_multiset_commutative(seq![rows[0]], u);
        vstd::seq_lib::lemma_multiset_commutative(seq![rows[0]], t);
        assert(seq![rows[0]] + t =~= rows);
    }
}

/// Name sorting is a sort: its output is in non-decreasing name order and
/// holds exactly the rows of its input, as a multiset.
pub proof fn lemma_sort_by_name_sorts(rows: Seq<PsRow>)
    ensures
        sorted_by_name(sort_by_name(rows)),
        sort_by_name(rows).to_multiset() =~= rows.to_multiset(),
    decreases rows.len(),
{
    broadcast use vstd::seq_lib::group_seq_properties;
    if rows.len() > 0 {
        lemma_sort_by_name_sorts(rows.drop_last());
        lemma_insert_sorted(sort_by_name(rows.drop_last()), rows.last());
        assert(rows.drop_last().push(rows.last()) =~= rows);
    }
}

/// The rows of a listing come in name order, and they are exactly the rows
/// its lines hold.
pub proof fn lemma_listing_rows_sorted(text: Seq<char>)
    ensures
        sorted_by_name(listing_rows(text)),
        listing_rows(text).to_multiset() =~= rows_of(text_lines(text)).to_multiset(),
{
    lemma_sort_by_name_sorts(rows_of(text_lines(text)));
}

/// The non-empty entries of a list.
pub open spec fn non_empty(items: Seq<Seq<char>>) -> Seq<Seq<char>>
    decreases items.len(),
{
    if items.len() == 0 {
        Seq::empty()
    } else {
        let r = non_empty(items.drop_last());
        if items.last().len() > 0 {
            r.push(items.last())
        } else {
            r
        }
    }
}

/// The entries of a comma-separated field: each trimmed, empty ones dropped.
pub open spec fn list_entries(field: Seq<char>) -> Seq<Seq<char>> {
    non_empty(split_all(field, ',').map_values(|x: Seq<char>| trim(x)))
}

/// The group of a listed container: the alphabetically first of its
/// networks, `none` when it lists none.
pub open spec fn listing_group(networks: Seq<char>) -> Seq<char> {
    let e = list_entries(networks);
    if e.len() > 0 {
        min_name(e)
    } else {
        "none"@
    }
}

/// The entries of a comma-separated field, each trimmed, empty ones
/// dropped.
pub fn field_entries(field: &str) -> (r: Vec<String>)
    ensures
        views(r@) == list_entries(field@),
{
    let parts = split_on(field, ',');
    let ghost trimmed = views(parts@).map_values(|x: Seq<char>| trim(x));
    let mut out: Vec<String> = Vec::new();
    let mut i: usize = 0;
    while i < parts.len()
        invariant
            i <= parts@.len(),
            trimmed == views(parts@).map_values(|x: Seq<char>| trim(x)),
            views(out@) == non_empty(trimmed.take(i as int)),
        decreases parts@.len() - i,
    {
        let t = trim_str(parts[i].as_str());
        proof {
            let u = trimmed.take(i as int + 1);
            assert(u.drop_last() =~= trimmed.take(i as int));
            assert(u.last() == t@);
        }
        if t.unicode_len() > 0 {
            let ghost before = views(out@);
            let ghost tv = t@;
            out.push(t);
            proof {
                assert(views(out@) =~= before.push(tv));
            }
        }
        i = i + 1;
    }
    proof {
        assert(trimmed.take(parts@.len() as int) =~= trimmed);
    }
    out
}

/// The snapshot of one listed container: its id, name and state as listed,
/// grouped under its first network, with as many mounts as its mounts field
/// lists; no ports (the listing has none).
pub fn snapshot_of_record(rec: &PsRecord) -> (s: ContainerSnapshot)
    ensures
        s.id@ == rec.id@,
        s.name@ == rec.name@,
        s.status == spec_map_status(rec.state@, None, None),
        s.group_key@ == listing_group(rec.networks@),
        s.ports@ == Seq::<crate::docker::domain::PortSummary>::empty(),
        s.mount_count == list_entries(rec.mounts@).len(),
{
    let nets = field_entries(rec.networks.as_str());
    let group_key = if nets.len() > 0 {
        min_string(&nets)
    } else {
        String::from_str("none")
    };
    let mounts = field_entries(rec.mounts.as_str());
    ContainerSnapshot {
        id: String::from_str(rec.id.as_str()),
        name: String::from_str(rec.name.as_str()),
        status: map_status(rec.state.as_str(), None, None),
        group_key,
        ports: Vec::new(),
        mount_count: mounts.len(),
    }
}

} // verus!

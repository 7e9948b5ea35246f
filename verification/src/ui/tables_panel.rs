//! The table list: tables grouped by schema in schema order, the name
//! filter, the labels, and what a click on a table does.
use crate::app::Rosemary;
use crate::postgres::{
    bytes_order, compare_bytes, lemma_bytes_order_laws, lemma_bytes_order_zero, str_equals,
};
use crate::query_functions::pg_data::PublicTable;
use crate::query_functions::pg_query_handlers::{editor_formatted, format_sql};
use crate::text::{
    append_str, contains, contains_seq, decimal, is_blank, lowercase, to_lowercase, trim_seq,
    u128_to_decimal,
};
use vstd::prelude::*;
use vstd::utf8::{encode_utf8, encode_utf8_decode_utf8};

verus! {

/// The tables of one schema, by their positions in the table list.
#[derive(Debug, Clone)]
pub struct SchemaGroup {
    pub schema: String,
    pub tables: Vec<usize>,
}

/// The schema of a table, where it has one.
pub open spec fn schema_of(t: PublicTable) -> Option<Seq<char>> {
    match t.table_schema {
        Some(s) => Some(s@),
        None => None,
    }
}

/// Schema `a` sorts before schema `b`: by their bytes, as `String`'s `Ord`
/// (and so a `BTreeMap` keyed by them) orders them.
pub open spec fn schema_before(a: Seq<char>, b: Seq<char>) -> bool {
    bytes_order(encode_utf8(a), encode_utf8(b)) < 0
}

/// `groups` holds one group for each schema that a table of `tables` has,
/// in schema order, each with the positions of that schema's tables in
/// increasing order (so never empty); tables without a schema are in no
/// group.
pub open spec fn grouped_by_schema(groups: Seq<SchemaGroup>, tables: Seq<PublicTable>) -> bool {
    &&& forall|i: int, j: int|
        0 <= i < j < groups.len() ==> schema_before(
            (#[trigger] groups[i]).schema@,
            (#[trigger] groups[j]).schema@,
        )
    &&& forall|g: int| 0 <= g < groups.len() ==> (#[trigger] groups[g]).tables@.len() > 0
    &&& forall|g: int, k: int|
        0 <= g < groups.len() && 0 <= k < groups[g].tables@.len() ==> {
            let t = #[trigger] groups[g].tables@[k];
            &&& t < tables.len()
            &&& schema_of(tables[t as int]) == Some(groups[g].schema@)
        }
    &&& forall|g: int, k1: int, k2: int|
        0 <= g < groups.len() && 0 <= k1 < k2 < groups[g].tables@.len() ==> #[trigger] groups[g].tables@[k1]
            < #[trigger] groups[g].tables@[k2]
    &&& forall|t: int|
        0 <= t < tables.len() && (#[trigger] schema_of(tables[t])) is Some ==> exists|g: int|
            0 <= g < groups.len() && groups[g].schema@ == schema_of(tables[t])->0
                && (#[trigger] groups[g].tables@).contains(t as usize)
}

/// Two schema names are the same exactly when their bytes are.
proof fn lemma_same_schema(a: Seq<char>, b: Seq<char>)
    ensures
        bytes_order(encode_utf8(a), encode_utf8(b)) == 0 <==> a == b,
{
    lemma_bytes_order_zero(encode_utf8(a), encode_utf8(b));
    encode_utf8_decode_utf8(a);
    encode_utf8_decode_utf8(b);
}

/// Compares two schema names by their bytes.
fn compare_schemas(a: &String, b: &String) -> (r: i8)
    ensures
        r as int == bytes_order(encode_utf8(a@), encode_utf8(b@)),
{
    compare_bytes(a.as_str().as_bytes(), b.as_str().as_bytes())
}

/// Groups the tables by schema (see `grouped_by_schema`).
pub fn group_tables_by_schema(tables: &Vec<PublicTable>) -> (groups: Vec<SchemaGroup>)
    ensures
        grouped_by_schema(groups@, tables@),
{
    let n = tables.len();
    let mut groups: Vec<SchemaGroup> = Vec::new();
    let mut t: usize = 0;
    while t < n
        invariant
            n == tables@.len(),
            t <= n,
            grouped_by_schema(groups@, tables@.take(t as int)),
            forall|g: int, k: int|
                0 <= g < groups@.len() && 0 <= k < groups@[g].tables@.len() ==> #[trigger] groups@[g].tables@[k]
                    < t,
        decreases n - t,
    {
        let ghost before = tables@.take(t as int);
        let ghost after = tables@.take(t + 1);
        assert(forall|x: int| 0 <= x < t ==> #[trigger] after[x] == before[x]);
        assert(after[t as int] == tables@[t as int]);
        if let Some(schema) = &tables[t].table_schema {
            let gn = groups.len();
            let mut g: usize = 0;
            while g < gn && !str_equals(groups[g].schema.as_str(), schema.as_str())
                invariant
                    gn == groups@.len(),
                    g <= gn,
                    forall|x: int| 0 <= x < g ==> (#[trigger] groups@[x]).schema@ != schema@,
                decreases gn - g,
            {
                g = g + 1;
            }
            if g < gn {
                let ghost old_groups = groups@;
                let mut grp = SchemaGroup { schema: String::new(), tables: Vec::new() };
                std::mem::swap(&mut grp, &mut groups[g]);
                grp.tables.push(t);
                std::mem::swap(&mut grp, &mut groups[g]);
                proof {
                    assert forall|x: int| 0 <= x < groups@.len() && x != g implies #[trigger] groups@[x]
                        == old_groups[x] by {}
                    assert(groups@[g as int].schema == old_groups[g as int].schema);
                    assert(groups@[g as int].tables@ == old_groups[g as int].tables@.push(t));
                    assert forall|u: int|
                        0 <= u < after.len() && (#[trigger] schema_of(after[u])) is Some implies exists|h: int|
                        0 <= h < groups@.len() && groups@[h].schema@ == schema_of(after[u])->0
                            && (#[trigger] groups@[h].tables@).contains(u as usize) by {
                        if u < t {
                            assert(schema_of(before[u]) is Some);
                            let h = choose|h: int|
                                0 <= h < old_groups.len() && old_groups[h].schema@ == schema_of(
                                    before[u],
                                )->0 && (#[trigger] old_groups[h].tables@).contains(u as usize);
                            let k = choose|k: int|
                                0 <= k < old_groups[h].tables@.len() && old_groups[h].tables@[k]
                                    == u as usize;
                            if h == g {
                                assert(groups@[h].tables@[k] == u as usize);
                            } else {
                                assert(groups@[h] == old_groups[h]);
                            }
                            assert(groups@[h].tables@.contains(u as usize));
                        } else {
                            assert(groups@[g as int].tables@.last() == t);
                            assert(groups@[g as int].tables@.contains(u as usize));
                        }
                    }
                }
            } else {
                // the new schema goes before the first schema that follows it
                let mut pos: usize = 0;
                while pos < gn && compare_schemas(&groups[pos].schema, schema) < 0
                    invariant
                        gn == groups@.len(),
                        pos <= gn,
                        forall|x: int| 0 <= x < pos ==> schema_before(
                            (#[trigger] groups@[x]).schema@,
                            schema@,
                        ),
                    decreases gn - pos,
                {
                    pos = pos + 1;
                }
                let ghost old_groups = groups@;
                let mut ts: Vec<usize> = Vec::new();
                ts.push(t);
                groups.insert(pos, SchemaGroup { schema: schema.clone(), tables: ts });
                proof {
                    if pos < gn {
                        lemma_same_schema(old_groups[pos as int].schema@, schema@);
                        lemma_bytes_order_laws(
                            encode_utf8(old_groups[pos as int].schema@),
                            encode_utf8(schema@),
                            encode_utf8(schema@),
                        );
                        assert(schema_before(schema@, old_groups[pos as int].schema@));
                    }
                    assert forall|i: int, j: int|
                        0 <= i < j < groups@.len() implies schema_before(
                        (#[trigger] groups@[i]).schema@,
                        (#[trigger] groups@[j]).schema@,
                    ) by {
                        let s = schema@;
                        if i < pos && j == pos {
                        } else if i < pos && j > pos {
                            assert(groups@[j] == old_groups[j - 1]);
                            if j - 1 > pos {
                                assert(schema_before(
                                    old_groups[pos as int].schema@,
                                    old_groups[j - 1].schema@,
                                ));
                            }
                            lemma_bytes_order_laws(
                                encode_utf8(groups@[i].schema@),
                                encode_utf8(s),
                                encode_utf8(groups@[j].schema@),
                            );
                            lemma_bytes_order_laws(
                                encode_utf8(s),
                                encode_utf8(groups@[j].schema@),
                                encode_utf8(groups@[i].schema@),
                            );
                            lemma_bytes_order_laws(
                                encode_utf8(groups@[j].schema@),
                                encode_utf8(groups@[i].schema@),
                                encode_utf8(s),
                            );
                            lemma_bytes_order_laws(
                                encode_utf8(groups@[i].schema@),
                                encode_utf8(groups@[j].schema@),
                                encode_utf8(s),
                            );
                        } else if i == pos && j > pos {
                            assert(groups@[j] == old_groups[j - 1]);
                            if j - 1 > pos {
                                assert(schema_before(
                                    old_groups[pos as int].schema@,
                                    old_groups[j - 1].schema@,
                                ));
                                lemma_bytes_order_laws(
                                    encode_utf8(s),
                                    encode_utf8(old_groups[pos as int].schema@),
                                    encode_utf8(old_groups[j - 1].schema@),
                                );
                                lemma_bytes_order_laws(
                                    encode_utf8(old_groups[j - 1].schema@),
                                    encode_utf8(s),
                                    encode_utf8(old_groups[pos as int].schema@),
                                );
                                lemma_bytes_order_laws(
                                    encode_utf8(old_groups[pos as int].schema@),
                                    encode_utf8(old_groups[j - 1].schema@),
                                    encode_utf8(s),
                                );
                            }
                        } else if j < pos {
                        } else {
                            assert(groups@[i] == old_groups[i - 1]);
                            assert(groups@[j] == old_groups[j - 1]);
                        }
                    }
                    assert forall|u: int|
                        0 <= u < after.len() && (#[trigger] schema_of(after[u])) is Some implies exists|h: int|
                        0 <= h < groups@.len() && groups@[h].schema@ == schema_of(after[u])->0
                            && (#[trigger] groups@[h].tables@).contains(u as usize) by {
                        if u < t {
                            assert(schema_of(before[u]) is Some);
                            let h = choose|h: int|
                                0 <= h < old_groups.len() && old_groups[h].schema@ == schema_of(
                                    before[u],
                                )->0 && (#[trigger] old_groups[h].tables@).contains(u as usize);
                            if h < pos {
                                assert(groups@[h] == old_groups[h]);
                            } else {
                                assert(groups@[h + 1] == old_groups[h]);
                            }
                        } else {
                            assert(groups@[pos as int].tables@[0] == t);
                            assert(groups@[pos as int].tables@.contains(u as usize));
                        }
                    }
                }
            }
        } else {
            proof {
                assert forall|u: int|
                    0 <= u < after.len() && (#[trigger] schema_of(after[u])) is Some implies exists|h: int|
                    0 <= h < groups@.len() && groups@[h].schema@ == schema_of(after[u])->0
                        && (#[trigger] groups@[h].tables@).contains(u as usize) by {
                    assert(u < t);
                    assert(schema_of(before[u]) is Some);
                }
            }
        }
        t = t + 1;
    }
    assert(tables@.take(n as int) =~= tables@);
    groups
}


// ------------------------------------------------------------------
// The name filter
// ------------------------------------------------------------------

/// The name of a table, `NULL` where it has none.
pub open spec fn name_or_null(t: PublicTable) -> Seq<char> {
    match t.table_name {
        Some(s) => s@,
        None => "NULL"@,
    }
}

/// The type of a table, `NULL` where it has none.
pub open spec fn type_or_null(t: PublicTable) -> Seq<char> {
    match t.table_type {
        Some(s) => s@,
        None => "NULL"@,
    }
}

/// The schema of a table, `NULL` where it has none.
pub open spec fn schema_or_null(t: PublicTable) -> Seq<char> {
    match t.table_schema {
        Some(s) => s@,
        None => "NULL"@,
    }
}

/// A table passes the filter when the filter is blank or its lower-cased
/// name holds the filter.
pub open spec fn passes_filter(t: PublicTable, filter: Seq<char>) -> bool {
    trim_seq(filter).len() == 0 || contains_seq(lowercase(name_or_null(t)), filter)
}

/// The positions among `idx` of the tables that pass the filter, in order.
pub open spec fn filtered(idx: Seq<usize>, tables: Seq<PublicTable>, filter: Seq<char>) -> Seq<usize>
    decreases idx.len(),
{
    if idx.len() == 0 {
        Seq::empty()
    } else {
        let rest = filtered(idx.drop_last(), tables, filter);
        if passes_filter(tables[idx.last() as int], filter) {
            rest.push(idx.last())
        } else {
            rest
        }
    }
}

fn show_or_null(v: &Option<String>) -> (s: String)
    ensures
        s@ == (match *v {
            Some(x) => x@,
            None => "NULL"@,
        }),
{
    match v {
        Some(x) => x.clone(),
        None => {
            let mut s = String::new();
            append_str(&mut s, "NULL");
            s
        },
    }
}

/// The tables of a group that pass the filter.
pub fn filter_tables(tables: &Vec<PublicTable>, idx: &Vec<usize>, filter: &str) -> (v: Vec<usize>)
    requires
        forall|k: int| 0 <= k < idx@.len() ==> #[trigger] idx@[k] < tables@.len(),
    ensures
        v@ == filtered(idx@, tables@, filter@),
{
    let blank = is_blank(filter);
    let n = idx.len();
    let mut out: Vec<usize> = Vec::new();
    let mut i: usize = 0;
    assert(idx@.take(0) =~= Seq::<usize>::empty());
    while i < n
        invariant
            n == idx@.len(),
            i <= n,
            blank == (trim_seq(filter@).len() == 0),
            forall|k: int| 0 <= k < idx@.len() ==> #[trigger] idx@[k] < tables@.len(),
            out@ == filtered(idx@.take(i as int), tables@, filter@),
        decreases n - i,
    {
        assert(idx@.take(i + 1).drop_last() =~= idx@.take(i as int));
        let t = idx[i];
        let keep = if blank {
            true
        } else {
            let name = show_or_null(&tables[t].table_name);
            let low = to_lowercase(name.as_str());
            contains(low.as_str(), filter)
        };
        if keep {
            out.push(t);
        }
        i = i + 1;
    }
    assert(idx@.take(n as int) =~= idx@);
    out
}

/// The filter as kept: lower case.
pub fn normalize_filter(app: &mut Rosemary)
    ensures
        final(app).table_filter@ == lowercase(old(app).table_filter@),
        *final(app) == (Rosemary { table_filter: final(app).table_filter, ..*old(app) }),
{
    app.table_filter = to_lowercase(app.table_filter.as_str());
}

/// The filter's clear button.
pub fn clear_filter(app: &mut Rosemary)
    ensures
        final(app).table_filter@ == Seq::<char>::empty(),
        *final(app) == (Rosemary { table_filter: final(app).table_filter, ..*old(app) }),
{
    app.table_filter = String::new();
}

// ------------------------------------------------------------------
// Labels and clicks
// ------------------------------------------------------------------

/// The heading of a schema's group: the schema and, in brackets, how many
/// of its tables pass the filter.
pub open spec fn schema_heading_text(schema: Seq<char>, count: nat) -> Seq<char> {
    schema + " ( "@ + decimal(count) + " )"@
}

/// The heading of a schema's group.
pub fn schema_heading(schema: &str, count: usize) -> (s: String)
    ensures
        s@ == schema_heading_text(schema@, count as nat),
{
    let mut s = String::new();
    append_str(&mut s, schema);
    append_str(&mut s, " ( ");
    let c = u128_to_decimal(count as u128);
    append_str(&mut s, c.as_str());
    append_str(&mut s, " )");
    s
}

/// The button of a table: its name and, in square brackets, its type.
pub open spec fn table_button_text(t: PublicTable) -> Seq<char> {
    name_or_null(t) + " ["@ + type_or_null(t) + "]"@
}

/// The button of a table.
pub fn table_button_label(t: &PublicTable) -> (s: String)
    ensures
        s@ == table_button_text(*t),
{
    let mut s = show_or_null(&t.table_name);
    append_str(&mut s, " [");
    let ty = show_or_null(&t.table_type);
    append_str(&mut s, ty.as_str());
    append_str(&mut s, "]");
    s
}

/// The statement that selects all of a table.
pub open spec fn select_all_text(t: PublicTable) -> Seq<char> {
    "SELECT * FROM "@ + schema_or_null(t) + "."@ + name_or_null(t) + ";"@
}

/// The statement that selects all of a table.
pub fn select_all_statement(t: &PublicTable) -> (s: String)
    ensures
        s@ == select_all_text(*t),
{
    let mut s = String::new();
    append_str(&mut s, "SELECT * FROM ");
    let schema = show_or_null(&t.table_schema);
    append_str(&mut s, schema.as_str());
    append_str(&mut s, ".");
    let name = show_or_null(&t.table_name);
    append_str(&mut s, name.as_str());
    append_str(&mut s, ";");
    s
}

/// A click on a table's button: its select-all statement is added to the
/// editor's text (or replaces it, when queries are not additive) and the
/// text is formatted; the statement is then run, in the second table with
/// Shift (which is then shown), else in the first. Returns (first, second).
pub fn click_table(app: &mut Rosemary, t: usize, shift: bool) -> (r: (bool, bool))
    requires
        t < old(app).tables@.len(),
    ensures
        r == (!shift, shift),
        final(app).code@ == editor_formatted(
            if old(app).table_queries_are_additive {
                old(app).code@ + select_all_text(old(app).tables@[t as int])
            } else {
                select_all_text(old(app).tables@[t as int])
            },
        ),
        *final(app) == (Rosemary {
            code: final(app).code,
            split_results_table: old(app).split_results_table || shift,
            ..*old(app)
        }),
{
    let stmt = select_all_statement(&app.tables[t]);
    if app.table_queries_are_additive {
        let mut code = app.code.clone();
        append_str(&mut code, stmt.as_str());
        app.code = format_sql(code.as_str());
    } else {
        app.code = format_sql(stmt.as_str());
    }
    if shift {
        if !app.split_results_table {
            app.split_results_table = true;
        }
        (false, true)
    } else {
        (true, false)
    }
}


// ------------------------------------------------------------------
// Laws of the table list
// ------------------------------------------------------------------

/// Each table that has a schema is listed exactly once: in the one group
/// of its schema.
pub proof fn lemma_table_in_exactly_one_group(
    groups: Seq<SchemaGroup>,
    tables: Seq<PublicTable>,
    t: int,
)
    requires
        grouped_by_schema(groups, tables),
        0 <= t < tables.len(),
        schema_of(tables[t]) is Some,
    ensures
        exists|g: int| 0 <= g < groups.len() && (#[trigger] groups[g].tables@).contains(t as usize),
        forall|g1: int, g2: int|
            0 <= g1 < groups.len() && 0 <= g2 < groups.len() && (#[trigger] groups[g1].tables@).contains(
                t as usize,
            ) && (#[trigger] groups[g2].tables@).contains(t as usize) ==> g1 == g2,
{
    assert(schema_of(tables[t]) is Some);
    assert forall|g1: int, g2: int|
        0 <= g1 < groups.len() && 0 <= g2 < groups.len() && (#[trigger] groups[g1].tables@).contains(
            t as usize,
        ) && (#[trigger] groups[g2].tables@).contains(t as usize) implies g1 == g2 by {
        let k1 = choose|k: int| 0 <= k < groups[g1].tables@.len() && groups[g1].tables@[k] == t as usize;
        let k2 = choose|k: int| 0 <= k < groups[g2].tables@.len() && groups[g2].tables@[k] == t as usize;
        assert(schema_of(tables[t]) == Some(groups[g1].schema@));
        assert(schema_of(tables[t]) == Some(groups[g2].schema@));
        let x = groups[g1].schema@;
        lemma_same_schema(x, x);
        if g1 < g2 {
            assert(schema_before(groups[g1].schema@, groups[g2].schema@));
        } else if g2 < g1 {
            assert(schema_before(groups[g2].schema@, groups[g1].schema@));
        }
    }
}

/// A blank filter lets every table through.
pub proof fn lemma_blank_filter_keeps_all(idx: Seq<usize>, tables: Seq<PublicTable>, filter: Seq<char>)
    requires
        trim_seq(filter).len() == 0,
    ensures
        filtered(idx, tables, filter) == idx,
    decreases idx.len(),
{
    if idx.len() > 0 {
        lemma_blank_filter_keeps_all(idx.drop_last(), tables, filter);
        assert(idx.drop_last().push(idx.last()) =~= idx);
    }
}

/// The filter only removes tables: what it lets through are tables of the
/// group that pass it, in the group's order.
pub proof fn lemma_filter_keeps_order(idx: Seq<usize>, tables: Seq<PublicTable>, filter: Seq<char>)
    ensures
        filtered(idx, tables, filter).len() <= idx.len(),
        forall|i: int|
            0 <= i < filtered(idx, tables, filter).len() ==> idx.contains(
                #[trigger] filtered(idx, tables, filter)[i],
            ) && passes_filter(tables[filtered(idx, tables, filter)[i] as int], filter),
    decreases idx.len(),
{
    if idx.len() > 0 {
        lemma_filter_keeps_order(idx.drop_last(), tables, filter);
        let rest = filtered(idx.drop_last(), tables, filter);
        assert forall|i: int| 0 <= i < rest.len() implies idx.contains(#[trigger] rest[i]) by {
            let k = choose|k: int| 0 <= k < idx.drop_last().len() && idx.drop_last()[k] == rest[i];
            assert(idx[k] == rest[i]);
        }
        assert(idx[idx.len() - 1] == idx.last());
    }
}


/// The filter keeps, in their order, exactly the tables whose lower-cased
/// name holds the filter somewhere (at its start, its end or anywhere in
/// between), or all of them when the filter is blank.
pub proof fn lemma_filter_finds_the_filter_anywhere(
    idx: Seq<usize>,
    tables: Seq<PublicTable>,
    filter: Seq<char>,
)
    ensures
        filtered(idx, tables, filter) == idx.filter(
            |j: usize|
                trim_seq(filter).len() == 0 || exists|k: int|
                    0 <= k && k + filter.len() <= lowercase(name_or_null(tables[j as int])).len()
                        && #[trigger] lowercase(name_or_null(tables[j as int])).subrange(
                        k,
                        k + filter.len(),
                    ) == filter,
        ),
    decreases idx.len(),
{
    reveal(Seq::filter);
    if idx.len() > 0 {
        lemma_filter_finds_the_filter_anywhere(idx.drop_last(), tables, filter);
    }
}

} // verus!

//! The embedding store: one row per record, holding its name, its header and
//! its vector as comma-joined decimal components.
use vstd::prelude::*;
use vstd::string::*;

use crate::error::SemanticSearchError;
use crate::table::{read_csv_records, rows_view, csv_records};

verus! {

/// A document's identity together with its embedding vector, whose
/// components are kept as decimal text.
#[derive(Clone, Debug, PartialEq, Eq)]
pub struct EmbeddingRecord {
    pub name: String,
    pub header: String,
    pub vector: Vec<String>,
}

pub open spec fn texts_view(v: Seq<String>) -> Seq<Seq<char>> {
    v.map_values(|s: String| s@)
}

/// A record as (name, header, vector components).
pub open spec fn record_view(r: EmbeddingRecord) -> (Seq<char>, Seq<char>, Seq<Seq<char>>) {
    (r.name@, r.header@, texts_view(r.vector@))
}

/// Components joined by commas.
pub open spec fn join_components(toks: Seq<Seq<char>>) -> Seq<char>
    decreases toks.len(),
{
    if toks.len() == 0 {
        seq![]
    } else if toks.len() == 1 {
        toks[0]
    } else {
        join_components(toks.drop_last()) + seq![','] + toks.last()
    }
}

/// A text cut at every comma; a text without commas is one component.
pub open spec fn split_components(s: Seq<char>) -> Seq<Seq<char>>
    decreases s.len(),
{
    if s.len() == 0 {
        seq![seq![]]
    } else {
        let p = split_components(s.drop_last());
        if s.last() == ',' {
            p.push(seq![])
        } else {
            p.update(p.len() - 1, p.last().push(s.last()))
        }
    }
}

/// Components that a vector field can carry and give back: at least one,
/// none empty, none holding a comma.
pub open spec fn storable_components(toks: Seq<Seq<char>>) -> bool {
    toks.len() > 0 && forall|i: int|
        0 <= i < toks.len() ==> #[trigger] toks[i].len() > 0 && !toks[i].contains(',')
}

/// No component is empty.
pub open spec fn components_present(toks: Seq<Seq<char>>) -> bool {
    forall|i: int| 0 <= i < toks.len() ==> #[trigger] toks[i].len() > 0
}

/// The fields of a record's store row.
pub open spec fn row_of_record(name: Seq<char>, header: Seq<char>, toks: Seq<Seq<char>>) -> Seq<
    Seq<char>,
> {
    seq![name, header, join_components(toks)]
}

/// The record a store row holds, if it holds one.
pub open spec fn record_of_row(row: Seq<Seq<char>>) -> Option<
    (Seq<char>, Seq<char>, Seq<Seq<char>>),
> {
    if row.len() < 3 || !components_present(split_components(row[2])) {
        None
    } else {
        Some((row[0], row[1], split_components(row[2])))
    }
}

proof fn lemma_split_nonempty(s: Seq<char>)
    ensures
        split_components(s).len() >= 1,
    decreases s.len(),
{
    if s.len() > 0 {
        lemma_split_nonempty(s.drop_last());
    }
}

/// Appending comma-free text extends the last component.
proof fn lemma_split_extend(x: Seq<char>, b: Seq<char>)
    requires
        !b.contains(','),
    ensures
        split_components(x + b) == split_components(x).update(
            split_components(x).len() - 1,
            split_components(x).last() + b,
        ),
    decreases b.len(),
{
    lemma_split_nonempty(x);
    if b.len() == 0 {
        assert(x + b =~= x);
        assert(split_components(x).last() + b =~= split_components(x).last());
        assert(split_components(x).update(split_components(x).len() - 1, split_components(x).last())
            =~= split_components(x));
    } else {
        let b1 = b.drop_last();
        assert(!b1.contains(',')) by {
            if b1.contains(',') {
                let k = choose|k: int| 0 <= k < b1.len() && b1[k] == ',';
                assert(b[k] == ',');
            }
        }
        assert(b.last() != ',') by {
            assert(b[b.len() - 1] == b.last());
        }
        lemma_split_extend(x, b1);
        assert((x + b).drop_last() =~= x + b1);
        assert(split_components(x).last() + b =~= (split_components(x).last() + b1).push(b.last()));
        assert(split_components(x + b) =~= split_components(x).update(
            split_components(x).len() - 1,
            split_components(x).last() + b,
        ));
    }
}

/// Store round trip of a vector field: joining storable components and
/// cutting the result at its commas gives the same components back.
pub proof fn lemma_vector_round_trip(toks: Seq<Seq<char>>)
    requires
        storable_components(toks),
    ensures
        split_components(join_components(toks)) == toks,
    decreases toks.len(),
{
    let e: Seq<char> = seq![];
    if toks.len() == 1 {
        lemma_split_extend(e, toks[0]);
        assert(e + toks[0] =~= toks[0]);
        assert(split_components(e) =~= seq![e]);
        assert(split_components(join_components(toks)) =~= toks);
    } else {
        let d = toks.drop_last();
        assert(storable_components(d)) by {
            assert forall|i: int| 0 <= i < d.len() implies #[trigger] d[i].len() > 0 && !d[i].contains(
                ',',
            ) by {
                assert(d[i] == toks[i]);
            }
        }
        lemma_vector_round_trip(d);
        let x = join_components(d) + seq![','];
        assert(!toks.last().contains(',')) by {
            assert(toks.last() == toks[toks.len() - 1]);
        }
        lemma_split_extend(x, toks.last());
        assert(x.drop_last() =~= join_components(d));
        assert(split_components(x) =~= d.push(e));
        assert(e + toks.last() =~= toks.last());
        assert(split_components(join_components(toks)) =~= toks);
    }
}

/// Store round trip of a record: the row written for a record with
/// storable components reads back as the same name, header and vector.
pub proof fn lemma_record_round_trip(name: Seq<char>, header: Seq<char>, toks: Seq<Seq<char>>)
    requires
        storable_components(toks),
    ensures
        record_of_row(row_of_record(name, header, toks)) == Some((name, header, toks)),
{
    lemma_vector_round_trip(toks);
    let row = row_of_record(name, header, toks);
    assert(row[2] == join_components(toks));
}

/// The vector field of a store row: the components joined by commas.
pub fn encode_vector(vector: &Vec<String>) -> (r: String)
    ensures
        r@ == join_components(texts_view(vector@)),
{
    let ghost tv = texts_view(vector@);
    let mut out = String::new();
    let mut i: usize = 0;
    while i < vector.len()
        invariant
            tv == texts_view(vector@),
            i <= vector@.len(),
            out@ == join_components(tv.take(i as int)),
        decreases vector@.len() - i,
    {
        if i > 0 {
            out.append(",");
        }
        out.append(vector[i].as_str());
        proof {
            reveal_strlit(",");
            let t1 = tv.take(i as int + 1);
            assert(t1.drop_last() =~= tv.take(i as int));
            if i == 0 {
                assert(tv.take(0) =~= seq![]);
            }
        }
        i = i + 1;
    }
    assert(tv.take(i as int) =~= tv);
    out
}

/// The components of a vector field: its text cut at every comma.
pub fn split_vector(field: &str) -> (r: Vec<String>)
    ensures
        texts_view(r@) == split_components(field@),
{
    let n = field.unicode_len();
    let mut parts: Vec<String> = Vec::new();
    let mut start: usize = 0;
    let mut j: usize = 0;
    assert(field@.take(0) =~= seq![]);
    assert(texts_view(parts@).push(field@.subrange(0, 0)) =~= seq![seq![]]);
    while j < n
        invariant
            n == field@.len(),
            start <= j <= n,
            split_components(field@.take(j as int)) == texts_view(parts@).push(
                field@.subrange(start as int, j as int),
            ),
        decreases n - j,
    {
        let c = field.get_char(j);
        proof {
            assert(field@.take(j as int + 1).drop_last() =~= field@.take(j as int));
            assert(field@.take(j as int + 1).last() == c);
        }
        if c == ',' {
            let piece = String::from_str(field.substring_char(start, j));
            let ghost prev = parts@;
            parts.push(piece);
            start = j + 1;
            proof {
                assert(texts_view(parts@) =~= texts_view(prev).push(piece@));
            }
        }
        j = j + 1;
        proof {
            assert(field@.subrange(start as int, j as int) =~= if c == ',' {
                seq![]
            } else {
                field@.subrange(start as int, j - 1).push(c)
            });
            if c == ',' {
                assert(split_components(field@.take(j as int)) =~= texts_view(parts@).push(
                    field@.subrange(start as int, j as int),
                ));
            } else {
                assert(split_components(field@.take(j as int)) =~= texts_view(parts@).push(
                    field@.subrange(start as int, j as int),
                ));
            }
        }
    }
    let last = String::from_str(field.substring_char(start, n));
    let ghost before = parts@;
    parts.push(last);
    assert(field@.take(n as int) =~= field@);
    assert(texts_view(parts@) =~= texts_view(before).push(last@));
    parts
}

/// The CSV text of one record: its fields, quoted where they need it, and a
/// line end; nothing where the writer fails on them.
pub uninterp spec fn csv_record_text(fields: Seq<Seq<char>>) -> Option<Seq<char>>;

/// Relies on csv::Writer::write_record and Writer::into_inner: the CSV text
/// of one record with these fields, or nothing where the writer failed.
#[verifier::external_body]
pub(crate) fn write_csv_record(fields: &Vec<String>) -> (r: Option<String>)
    ensures
        match r {
            Some(t) => csv_record_text(texts_view(fields@)) == Some(t@),
            None => csv_record_text(texts_view(fields@)) is None,
        },
{
    let mut writer = csv::Writer::from_writer(Vec::new());
    writer.write_record(fields).ok()?;
    String::from_utf8(writer.into_inner().ok()?).ok()
}

/// The store text of a sequence of records: each record's row, in order.
pub open spec fn store_text_spec(records: Seq<EmbeddingRecord>) -> Option<Seq<char>>
    decreases records.len(),
{
    if records.len() == 0 {
        Some(seq![])
    } else {
        let r = records.last();
        match (
            store_text_spec(records.drop_last()),
            csv_record_text(row_of_record(r.name@, r.header@, texts_view(r.vector@))),
        ) {
            (Some(a), Some(b)) => Some(a + b),
            _ => None,
        }
    }
}

/// The store text of records given as (name, header, components): each
/// record's row, in order.
pub open spec fn store_text_of(records: Seq<(Seq<char>, Seq<char>, Seq<Seq<char>>)>) -> Option<
    Seq<char>,
>
    decreases records.len(),
{
    if records.len() == 0 {
        Some(seq![])
    } else {
        let r = records.last();
        match (store_text_of(records.drop_last()), csv_record_text(row_of_record(r.0, r.1, r.2))) {
            (Some(a), Some(b)) => Some(a + b),
            _ => None,
        }
    }
}

/// The store text of records is that of their views.
pub proof fn lemma_store_text_views(records: Seq<EmbeddingRecord>)
    ensures
        store_text_spec(records) == store_text_of(
            records.map_values(|x: EmbeddingRecord| record_view(x)),
        ),
    decreases records.len(),
{
    if records.len() > 0 {
        lemma_store_text_views(records.drop_last());
        assert(records.drop_last().map_values(|x: EmbeddingRecord| record_view(x))
            =~= records.map_values(|x: EmbeddingRecord| record_view(x)).drop_last());
    }
}

/// A prefix that cannot be written makes the whole sequence unwritable.
proof fn lemma_store_text_fails(records: Seq<EmbeddingRecord>, k: int)
    requires
        0 <= k <= records.len(),
        store_text_spec(records.take(k)) is None,
    ensures
        store_text_spec(records) is None,
    decreases records.len() - k,
{
    if k < records.len() {
        assert(records.take(k + 1).drop_last() =~= records.take(k));
        lemma_store_text_fails(records, k + 1);
    } else {
        assert(records.take(k) =~= records);
    }
}

/// The error for a store row that holds no record.
pub open spec fn row_error(row: Seq<Seq<char>>, index: usize) -> SemanticSearchError {
    if row.len() < 3 {
        SemanticSearchError::MissingColumn { row: index, expected: 3, found: row.len() as usize }
    } else {
        SemanticSearchError::MalformedVector { row: index }
    }
}

/// The fields of a record's store row: name, header, joined vector.
pub fn record_fields(record: &EmbeddingRecord) -> (r: Vec<String>)
    ensures
        texts_view(r@) == row_of_record(
            record.name@,
            record.header@,
            texts_view(record.vector@),
        ),
{
    let mut fields: Vec<String> = Vec::new();
    fields.push(record.name.clone());
    fields.push(record.header.clone());
    fields.push(encode_vector(&record.vector));
    assert(texts_view(fields@) =~= row_of_record(
        record.name@,
        record.header@,
        texts_view(record.vector@),
    ));
    fields
}

/// The store text of records, ready to be appended to the store.
pub fn store_text(records: &Vec<EmbeddingRecord>) -> (r: Result<String, SemanticSearchError>)
    ensures
        match r {
            Ok(text) => store_text_spec(records@) == Some(text@),
            Err(e) => store_text_spec(records@) is None && e == SemanticSearchError::StoreWrite,
        },
{
    let mut out = String::new();
    let mut i: usize = 0;
    while i < records.len()
        invariant
            i <= records@.len(),
            store_text_spec(records@.take(i as int)) == Some(out@),
        decreases records@.len() - i,
    {
        let fields = record_fields(&records[i]);
        proof {
            assert(records@.take(i as int + 1).drop_last() =~= records@.take(i as int));
        }
        match write_csv_record(&fields) {
            None => {
                proof {
                    lemma_store_text_fails(records@, i as int + 1);
                }
                return Err(SemanticSearchError::StoreWrite);
            },
            Some(line) => {
                out.append(line.as_str());
            },
        }
        proof {
            assert(records@.take(i as int + 1).drop_last() =~= records@.take(i as int));
        }
        i = i + 1;
    }
    assert(records@.take(i as int) =~= records@);
    Ok(out)
}

/// The record of store row number `index`: its name, its header and the
/// components of its vector field.
pub fn record_from_fields(row: &Vec<String>, index: usize) -> (r: Result<
    EmbeddingRecord,
    SemanticSearchError,
>)
    ensures
        match r {
            Ok(rec) => record_of_row(texts_view(row@)) == Some(record_view(rec)),
            Err(e) => record_of_row(texts_view(row@)) is None && e == row_error(
                texts_view(row@),
                index,
            ),
        },
{
    let ghost rv = texts_view(row@);
    if row.len() < 3 {
        return Err(SemanticSearchError::MissingColumn { row: index, expected: 3, found: row.len() });
    }
    let vector = split_vector(row[2].as_str());
    let mut k: usize = 0;
    while k < vector.len()
        invariant
            rv == texts_view(row@),
            row@.len() >= 3,
            texts_view(vector@) == split_components(row@[2]@),
            k <= vector@.len(),
            forall|m: int| 0 <= m < k ==> #[trigger] vector@[m]@.len() > 0,
        decreases vector@.len() - k,
    {
        if vector[k].as_str().is_empty() {
            assert(texts_view(vector@)[k as int].len() == 0);
            assert(rv[2] == row@[2]@);
            assert(!components_present(split_components(rv[2])));
            return Err(SemanticSearchError::MalformedVector { row: index });
        }
        k = k + 1;
    }
    assert(components_present(texts_view(vector@)));
    let rec = EmbeddingRecord { name: row[0].clone(), header: row[1].clone(), vector };
    assert(rv[0] == rec.name@ && rv[1] == rec.header@ && rv[2] == row@[2]@);
    Ok(rec)
}

/// The records of a store text (rows without a header row).
pub fn parse_store(input: &str) -> (r: Result<Vec<EmbeddingRecord>, SemanticSearchError>)
    ensures
        match csv_records(input@, false) {
            Err(m) => r matches Err(SemanticSearchError::MalformedTable(msg)) && msg@ == m,
            Ok(rows) => match r {
                Ok(recs) => recs@.len() == rows.len() && forall|i: int|
                    0 <= i < recs@.len() ==> record_of_row(rows[i]) == Some(
                        record_view(#[trigger] recs@[i]),
                    ),
                Err(e) => exists|i: int|
                    {
                        &&& 0 <= i < rows.len()
                        &&& record_of_row(rows[i]) is None
                        &&& forall|j: int| 0 <= j < i ==> #[trigger] record_of_row(rows[j]) is Some
                        &&& e == row_error(rows[i], i as usize)
                    },
            },
        },
{
    let rows = match read_csv_records(input, false) {
        Err(message) => {
            return Err(SemanticSearchError::MalformedTable(message));
        },
        Ok(rows) => rows,
    };
    let ghost table = rows_view(rows@);
    let mut recs: Vec<EmbeddingRecord> = Vec::new();
    let mut i: usize = 0;
    while i < rows.len()
        invariant
            table == rows_view(rows@),
            csv_records(input@, false) == Ok::<Seq<Seq<Seq<char>>>, Seq<char>>(table),
            i <= rows@.len(),
            recs@.len() == i,
            forall|j: int|
                0 <= j < i ==> record_of_row(table[j]) == Some(record_view(#[trigger] recs@[j])),
        decreases rows@.len() - i,
    {
        assert(table[i as int] == texts_view(rows@[i as int]@));
        let rec = match record_from_fields(&rows[i], i) {
            Ok(rec) => rec,
            Err(e) => {
                assert forall|j: int| 0 <= j < i implies #[trigger] record_of_row(table[j]) is Some by {
                    assert(record_of_row(table[j]) == Some(record_view(recs@[j])));
                }
                return Err(e);
            },
        };
        recs.push(rec);
        i = i + 1;
    }
    Ok(recs)
}

} // verus!

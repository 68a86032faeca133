//! Users that are imported from a table.

use vstd::prelude::*;
use vstd::string::*;

use crate::audit::{user_did, AuditEntry};
use crate::error::{
    checks, conflict, conflict_error, validation, validation_error, ApiError, ErrorView,
};
use crate::groups::copy_texts;
use crate::identity::{is_email, normalize_email, normalize_group_name, normalized, IdentityError};
use crate::ids::{uuid_parsed, Uuid};
use crate::lines::{fields_of, sort_unique_texts, sorted_unique, split_on};
use crate::models::{
    ImportFormat, ImportUserRowResponse, ImportUsersPreviewResponse, ImportUsersRequest,
};
use crate::providers::EmailRow;
use crate::rows::{named_id, named_id_fault, or_fault, unless};
use crate::text::{
    ascii_lowered, byte_count, byte_len, chars_of, copy_text, decimal, decimal_text, push_text,
    same_text, texts, to_ascii_lowercase, trim, trimmed,
};

verus! {

/// How large an import is at most.
pub const MAX_IMPORT_BYTES: usize = 2097152;

/// How many rows an import has at most.
pub const MAX_IMPORT_ROWS: usize = 10000;

/// A table: the names of its columns, and its rows; each may be unreadable.
pub struct Table {
    pub headers: Result<Vec<String>, String>,
    pub records: Vec<Result<Vec<String>, String>>,
}

/// The contents of a row, or what is wrong with it.
pub open spec fn cells(r: Result<Vec<String>, String>) -> Result<Seq<Seq<char>>, Seq<char>> {
    match r {
        Ok(v) => Ok(texts(v@)),
        Err(e) => Err(e@),
    }
}

/// The contents of the rows of a table.
pub open spec fn all_cells(records: Seq<Result<Vec<String>, String>>) -> Seq<
    Result<Seq<Seq<char>>, Seq<char>>,
> {
    records.map_values(|r: Result<Vec<String>, String>| cells(r))
}

/// The table that `csv` reads in a text with a delimiter, where it is told to trim all fields and
/// to refuse rows that are longer or shorter than the headers: the headers, then the rows.
pub uninterp spec fn csv_table(content: Seq<char>, delimiter: u8) -> (
    Result<Seq<Seq<char>>, Seq<char>>,
    Seq<Result<Seq<Seq<char>>, Seq<char>>>,
);

/// Calls `csv::Reader::headers` and `csv::Reader::records` on a text, with a reader that trims all
/// fields and is not flexible about the lengths of rows: [`csv_table`] of the text and the
/// delimiter.
#[verifier::external_body]
fn read_table(content: &str, delimiter: u8) -> (r: Table)
    ensures
        cells(r.headers) == csv_table(content@, delimiter).0,
        all_cells(r.records@) == csv_table(content@, delimiter).1,
{
    let mut reader = csv::ReaderBuilder::new().delimiter(delimiter).trim(csv::Trim::All).flexible(
        false,
    ).from_reader(content.as_bytes());
    let headers = reader.headers().map(|row| row.iter().map(str::to_owned).collect()).map_err(
        |error| error.to_string(),
    );
    let records = reader.records().map(
        |row|
            row.map(|cells| cells.iter().map(str::to_owned).collect()).map_err(
                |error| error.to_string(),
            ),
    ).collect();
    Table { headers, records }
}

/// Which column holds what.
#[derive(Debug, Clone, Copy)]
pub struct Columns {
    pub name: usize,
    pub email: usize,
    pub title: Option<usize>,
    pub groups: Option<usize>,
}

/// The name of a column in its normal form.
pub open spec fn column(header: Seq<char>) -> Seq<char> {
    ascii_lowered(trimmed(header))
}

/// Whether a column can be imported.
pub open spec fn known_column(c: Seq<char>) -> bool {
    c == "name"@ || c == "email"@ || c == "title"@ || c == "groups"@
}

/// Whether one of some columns has a name.
pub open spec fn has_column(headers: Seq<Seq<char>>, c: Seq<char>) -> bool {
    exists|k: int| 0 <= k < headers.len() && column(#[trigger] headers[k]) == c
}

/// What is wrong with a column, given the columns before it.
pub open spec fn one_column_fault(header: Seq<char>, earlier: Seq<Seq<char>>) -> Option<ErrorView> {
    if !known_column(column(header)) {
        Some(validation("unsupported import column "@ + header))
    } else if has_column(earlier, column(header)) {
        Some(validation("duplicate import column "@ + header))
    } else {
        None
    }
}

/// What is wrong with the first column that something is wrong with.
pub open spec fn columns_fault(headers: Seq<Seq<char>>) -> Option<ErrorView>
    decreases headers.len(),
{
    if headers.len() == 0 {
        None
    } else {
        or_fault(
            columns_fault(headers.drop_last()),
            one_column_fault(headers.last(), headers.drop_last()),
        )
    }
}

/// What is wrong with the columns of an import.
pub open spec fn header_fault(headers: Seq<Seq<char>>) -> Option<ErrorView> {
    if columns_fault(headers) is Some {
        columns_fault(headers)
    } else if !has_column(headers, "name"@) {
        Some(validation("missing required name column"@))
    } else if !has_column(headers, "email"@) {
        Some(validation("missing required email column"@))
    } else {
        None
    }
}

/// Whether a place is the one of the column with a name, where there is one.
pub open spec fn is_place(place: Option<usize>, headers: Seq<Seq<char>>, c: Seq<char>) -> bool {
    match place {
        Some(i) => i < headers.len() && column(headers[i as int]) == c,
        None => !has_column(headers, c),
    }
}

/// Whether columns are where they are said to be.
pub open spec fn are_columns(c: Columns, headers: Seq<Seq<char>>) -> bool {
    &&& is_place(Some(c.name), headers, "name"@)
    &&& is_place(Some(c.email), headers, "email"@)
    &&& is_place(c.title, headers, "title"@)
    &&& is_place(c.groups, headers, "groups"@)
}

fn find_column(headers: &[String], upto: usize, c: &str) -> (r: Option<usize>)
    requires
        upto <= headers@.len(),
    ensures
        is_place(r, texts(headers@).take(upto as int), c@),
{
    let ghost all = texts(headers@).take(upto as int);
    let mut i: usize = 0;
    while i < upto
        invariant
            i <= upto <= headers@.len(),
            all == texts(headers@).take(upto as int),
            forall|k: int| 0 <= k < i ==> column(#[trigger] all[k]) != c@,
        decreases upto - i,
    {
        let normal = to_ascii_lowercase(trim(headers[i].as_str()).as_str());
        assert(all[i as int] == headers@[i as int]@);
        if same_text(normal.as_str(), c) {
            return Some(i);
        }
        i = i + 1;
    }
    None
}

proof fn lemma_later_columns(headers: Seq<Seq<char>>, i: int)
    requires
        0 <= i <= headers.len(),
        columns_fault(headers.take(i)) is Some,
    ensures
        columns_fault(headers) == columns_fault(headers.take(i)),
    decreases headers.len(),
{
    if i == headers.len() {
        assert(headers.take(i) =~= headers);
    } else {
        assert(headers.drop_last().take(i) =~= headers.take(i));
        lemma_later_columns(headers.drop_last(), i);
    }
}

/// Which column holds what.
pub fn header_indices(headers: &[String]) -> (r: Result<Columns, ApiError>)
    ensures
        match r {
            Ok(c) => header_fault(texts(headers@)) is None && are_columns(c, texts(headers@)),
            Err(e) => header_fault(texts(headers@)) == Some(e@),
        },
{
    let ghost all = texts(headers@);
    let mut i: usize = 0;
    while i < headers.len()
        invariant
            i <= headers@.len(),
            all == texts(headers@),
            columns_fault(all.take(i as int)) is None,
        decreases headers@.len() - i,
    {
        let ghost next = all.take(i + 1);
        proof {
            assert(next.drop_last() =~= all.take(i as int));
            assert(next.last() == headers@[i as int]@);
        }
        let header = &headers[i];
        let normal = to_ascii_lowercase(trim(header.as_str()).as_str());
        if !same_text(normal.as_str(), "name") && !same_text(normal.as_str(), "email") && !same_text(
            normal.as_str(),
            "title",
        ) && !same_text(normal.as_str(), "groups") {
            proof {
                lemma_later_columns(all, i + 1);
            }
            return Err(
                validation_error(
                    String::from_str("unsupported import column ").concat(header.as_str()).as_str(),
                ),
            );
        }
        if let Some(place) = find_column(headers, i, normal.as_str()) {
            proof {
                assert(column(all.take(i as int)[place as int]) == normal@);
                lemma_later_columns(all, i + 1);
            }
            return Err(
                validation_error(
                    String::from_str("duplicate import column ").concat(header.as_str()).as_str(),
                ),
            );
        }
        i = i + 1;
    }
    assert(all.take(i as int) =~= all);
    let name = match find_column(headers, headers.len(), "name") {
        Some(place) => place,
        None => return Err(validation_error("missing required name column")),
    };
    assert(column(all[name as int]) == "name"@);
    let email = match find_column(headers, headers.len(), "email") {
        Some(place) => place,
        None => return Err(validation_error("missing required email column")),
    };
    assert(column(all[email as int]) == "email"@);
    Ok(
        Columns {
            name,
            email,
            title: find_column(headers, headers.len(), "title"),
            groups: find_column(headers, headers.len(), "groups"),
        },
    )
}

/// A row of an import.
#[derive(Debug, Clone)]
pub struct ParsedRow {
    pub row: usize,
    pub email: String,
    pub name: String,
    pub title: String,
    pub groups: Vec<String>,
    pub errors: Vec<String>,
}

/// The text in a column of a row.
pub open spec fn cell(record: Seq<Seq<char>>, place: Option<usize>) -> Seq<char> {
    match place {
        Some(i) => if i < record.len() {
            record[i as int]
        } else {
            Seq::empty()
        },
        None => Seq::empty(),
    }
}

fn value(record: &[String], place: Option<usize>) -> (r: String)
    ensures
        r@ == cell(texts(record@), place),
{
    match place {
        Some(i) => if i < record.len() {
            copy_text(&record[i])
        } else {
            String::new()
        },
        None => String::new(),
    }
}

/// The address in a row, or nothing where it is invalid.
pub open spec fn email_in(record: Seq<Seq<char>>, c: Columns) -> Seq<char> {
    let normal = normalized(cell(record, Some(c.email)));
    if is_email(normal) {
        normal
    } else {
        Seq::empty()
    }
}

/// The addresses of some rows.
pub open spec fn emails(rows: Seq<ParsedRow>) -> Seq<Seq<char>> {
    rows.map_values(|row: ParsedRow| row.email@)
}

/// What is wrong with the address of a row, given those of the rows before it.
pub open spec fn email_errors(email: Seq<char>, earlier: Seq<Seq<char>>) -> Seq<Seq<char>> {
    if email.len() == 0 {
        seq!["email is invalid"@]
    } else if earlier.contains(email) {
        seq!["email is duplicated in this import"@]
    } else {
        Seq::empty()
    }
}

/// What is wrong with the name of a row.
pub open spec fn name_errors(name: Seq<char>) -> Seq<Seq<char>> {
    if name.len() == 0 {
        seq!["name is required"@]
    } else {
        Seq::empty()
    }
}

/// The groups among the parts of a cell.
pub open spec fn groups_in(pieces: Seq<Seq<char>>) -> Seq<Seq<char>>
    decreases pieces.len(),
{
    if pieces.len() == 0 {
        Seq::empty()
    } else if trimmed(pieces.last()).len() > 0 && normalized(pieces.last()).len() > 0 {
        groups_in(pieces.drop_last()).push(normalized(pieces.last()))
    } else {
        groups_in(pieces.drop_last())
    }
}

/// What is wrong with the groups among the parts of a cell.
pub open spec fn group_errors(pieces: Seq<Seq<char>>) -> Seq<Seq<char>>
    decreases pieces.len(),
{
    if pieces.len() == 0 {
        Seq::empty()
    } else if trimmed(pieces.last()).len() > 0 && normalized(pieces.last()).len() == 0 {
        group_errors(pieces.drop_last()).push(IdentityError::EmptyGroup.text())
    } else {
        group_errors(pieces.drop_last())
    }
}

/// The parts of the cell with the groups.
pub open spec fn group_pieces(record: Seq<Seq<char>>, c: Columns) -> Seq<Seq<char>> {
    fields_of(cell(record, c.groups), ';')
}

/// Whether a row says what a record of the table says.
pub open spec fn is_row(
    row: ParsedRow,
    record: Seq<Seq<char>>,
    c: Columns,
    earlier: Seq<Seq<char>>,
    index: int,
) -> bool {
    let name = trimmed(cell(record, Some(c.name)));
    let pieces = group_pieces(record, c);
    &&& row.row == index + 2
    &&& row.email@ == email_in(record, c)
    &&& row.name@ == name
    &&& row.title@ == trimmed(cell(record, c.title))
    &&& texts(row.groups@) == sorted_unique(groups_in(pieces))
    &&& texts(row.errors@) == email_errors(row.email@, earlier) + name_errors(name)
        + group_errors(pieces)
}

fn read_groups(pieces: &[String], errors: &mut Vec<String>) -> (r: Vec<String>)
    ensures
        texts(r@) == sorted_unique(groups_in(texts(pieces@))),
        texts(final(errors)@) == texts(old(errors)@) + group_errors(texts(pieces@)),
{
    let ghost all = texts(pieces@);
    let ghost before = texts(errors@);
    let mut out: Vec<String> = Vec::new();
    let mut i: usize = 0;
    assert(texts(out@) =~= groups_in(all.take(0)));
    assert(before + group_errors(all.take(0)) =~= before);
    while i < pieces.len()
        invariant
            i <= pieces@.len(),
            all == texts(pieces@),
            texts(out@) == groups_in(all.take(i as int)),
            texts(errors@) == before + group_errors(all.take(i as int)),
        decreases pieces@.len() - i,
    {
        let ghost next = all.take(i + 1);
        proof {
            assert(next.drop_last() =~= all.take(i as int));
            assert(next.last() == pieces@[i as int]@);
        }
        let piece = pieces[i].as_str();
        if chars_of(trim(piece).as_str()).len() > 0 {
            match normalize_group_name(piece) {
                Ok(group) => {
                    push_text(&mut out, group);
                },
                Err(error) => {
                    let ghost errors_before = texts(errors@);
                    push_text(errors, error.message());
                    assert(texts(errors@) =~= before + group_errors(next));
                },
            }
        }
        i = i + 1;
    }
    assert(all.take(i as int) =~= all);
    sort_unique_texts(&mut out);
    out
}

fn read_row(
    record: &[String],
    c: Columns,
    rows: &[ParsedRow],
    index: usize,
) -> (r: ParsedRow)
    requires
        index < MAX_IMPORT_ROWS,
    ensures
        is_row(
            r,
            texts(record@),
            c,
            emails(rows@),
            index as int,
        ),
{
    let ghost earlier = emails(rows@);
    let raw = value(record, Some(c.email));
    let email = match normalize_email(raw.as_str()) {
        Ok(email) => email,
        Err(_) => String::new(),
    };
    proof {
        if is_email(normalized(raw@)) {
            assert(email@ == email_in(texts(record@), c));
        } else {
            assert(email@ =~= email_in(texts(record@), c));
        }
    }
    let name = trim(value(record, Some(c.name)).as_str());
    let title = trim(value(record, c.title).as_str());
    let mut errors: Vec<String> = Vec::new();
    if chars_of(email.as_str()).len() == 0 {
        push_text(&mut errors, String::from_str("email is invalid"));
        assert(texts(errors@) =~= email_errors(email@, earlier));
    } else {
        let mut seen = false;
        let mut k: usize = 0;
        while k < rows.len()
            invariant
                k <= rows@.len(),
                earlier == emails(rows@),
                seen == (exists|j: int| 0 <= j < k && #[trigger] earlier[j] == email@),
            decreases rows@.len() - k,
        {
            assert(earlier[k as int] == rows@[k as int].email@);
            if same_text(rows[k].email.as_str(), email.as_str()) {
                seen = true;
            }
            k = k + 1;
        }
        proof {
            assert(seen == earlier.contains(email@)) by {
                if earlier.contains(email@) {
                    let j = choose|j: int| 0 <= j < earlier.len() && earlier[j] == email@;
                    assert(0 <= j < k && earlier[j] == email@);
                }
            }
        }
        if seen {
            push_text(&mut errors, String::from_str("email is duplicated in this import"));
        }
        assert(texts(errors@) =~= email_errors(email@, earlier));
    }
    if chars_of(name.as_str()).len() == 0 {
        push_text(&mut errors, String::from_str("name is required"));
    }
    assert(texts(errors@) =~= email_errors(email@, earlier) + name_errors(name@));
    let cell_text = value(record, c.groups);
    let pieces = split_on(cell_text.as_str(), ';');
    let groups = read_groups(pieces.as_slice(), &mut errors);
    ParsedRow { row: index + 2, email, name, title, groups, errors }
}

/// What is wrong with a record of the table at a place.
pub open spec fn record_fault(record: Result<Seq<Seq<char>>, Seq<char>>, index: int) -> Option<
    ErrorView,
> {
    if index >= MAX_IMPORT_ROWS {
        Some(validation("import exceeds 10,000 rows"@))
    } else {
        match record {
            Ok(_) => None,
            Err(error) => Some(
                validation(
                    "invalid import row "@ + decimal((index + 2) as nat) + ": "@ + error,
                ),
            ),
        }
    }
}

/// What is wrong with the first record that something is wrong with.
pub open spec fn records_fault(records: Seq<Result<Seq<Seq<char>>, Seq<char>>>) -> Option<ErrorView>
    decreases records.len(),
{
    if records.len() == 0 {
        None
    } else {
        or_fault(
            records_fault(records.drop_last()),
            record_fault(records.last(), records.len() - 1),
        )
    }
}

/// What is wrong with an import.
pub open spec fn import_fault(request: ImportUsersRequest) -> Option<ErrorView> {
    if byte_count(request.content@) > MAX_IMPORT_BYTES {
        Some(validation("import file exceeds 2 MiB"@))
    } else {
        let table = csv_table(request.content@, delimiter_of(request.format));
        match table.0 {
            Err(error) => Some(validation("invalid import header: "@ + error)),
            Ok(headers) => or_fault(header_fault(headers), records_fault(table.1)),
        }
    }
}

/// What separates the cells of a row.
pub open spec fn delimiter_of(format: ImportFormat) -> u8 {
    match format {
        ImportFormat::Csv => 44,
        ImportFormat::Tsv => 9,
    }
}

/// What is wrong with a table that was read.
pub open spec fn table_fault(table: Table) -> Option<ErrorView> {
    match table.headers {
        Err(error) => Some(validation("invalid import header: "@ + error@)),
        Ok(headers) => or_fault(
            header_fault(texts(headers@)),
            records_fault(all_cells(table.records@)),
        ),
    }
}

/// Whether the row at a place says what the record of the table there says.
pub open spec fn is_row_at(
    rows: Seq<ParsedRow>,
    records: Seq<Result<Seq<Seq<char>>, Seq<char>>>,
    c: Columns,
    i: int,
) -> bool {
    records[i] is Ok && is_row(rows[i], records[i]->Ok_0, c, emails(rows.take(i)), i)
}

/// Whether rows say what the records of a table say.
pub open spec fn are_rows(
    rows: Seq<ParsedRow>,
    headers: Seq<Seq<char>>,
    records: Seq<Result<Seq<Seq<char>>, Seq<char>>>,
) -> bool {
    &&& rows.len() == records.len()
    &&& exists|c: Columns|
        {
            &&& #[trigger] are_columns(c, headers)
            &&& forall|i: int|
                0 <= i < rows.len() ==> #[trigger] is_row_at(rows, records, c, i)
        }
}

proof fn lemma_later_records(records: Seq<Result<Seq<Seq<char>>, Seq<char>>>, i: int)
    requires
        0 <= i <= records.len(),
        records_fault(records.take(i)) is Some,
    ensures
        records_fault(records) == records_fault(records.take(i)),
    decreases records.len(),
{
    if i == records.len() {
        assert(records.take(i) =~= records);
    } else {
        assert(records.drop_last().take(i) =~= records.take(i));
        lemma_later_records(records.drop_last(), i);
    }
}

/// The rows of a table that was read. An address that stands in an earlier row is marked as such.
pub fn parse_table(table: &Table) -> (r: Result<Vec<ParsedRow>, ApiError>)
    ensures
        match r {
            Ok(rows) => table_fault(*table) is None && table.headers is Ok && are_rows(
                rows@,
                texts(table.headers->Ok_0@),
                all_cells(table.records@),
            ),
            Err(e) => table_fault(*table) == Some(e@),
        },
{
    let headers = match &table.headers {
        Ok(h) => h,
        Err(error) => return Err(
            validation_error(
                String::from_str("invalid import header: ").concat(error.as_str()).as_str(),
            ),
        ),
    };
    let c = header_indices(headers.as_slice())?;
    let ghost all = all_cells(table.records@);
    let mut rows: Vec<ParsedRow> = Vec::new();
    let mut i: usize = 0;
    while i < table.records.len()
        invariant
            i <= table.records@.len(),
            i <= MAX_IMPORT_ROWS,
            all == all_cells(table.records@),
            table.headers == Ok::<Vec<String>, String>(*headers),
            header_fault(texts(headers@)) is None,
            rows@.len() == i,
            records_fault(all.take(i as int)) is None,
            forall|k: int| 0 <= k < i ==> #[trigger] is_row_at(rows@, all, c, k),
            are_columns(c, texts(headers@)),
        decreases table.records@.len() - i,
    {
        let ghost next = all.take(i + 1);
        proof {
            assert(next.drop_last() =~= all.take(i as int));
            assert(next.last() == all[i as int]);
            assert(all[i as int] == cells(table.records@[i as int]));
        }
        if i >= MAX_IMPORT_ROWS {
            proof {
                lemma_later_records(all, i + 1);
            }
            return Err(validation_error("import exceeds 10,000 rows"));
        }
        match &table.records[i] {
            Err(error) => {
                proof {
                    lemma_later_records(all, i + 1);
                }
                return Err(
                    validation_error(
                        String::from_str("invalid import row ").concat(
                            decimal_text((i + 2) as u64).as_str(),
                        ).concat(": ").concat(error.as_str()).as_str(),
                    ),
                );
            },
            Ok(record) => {
                let ghost before = rows@;
                let row = read_row(record.as_slice(), c, rows.as_slice(), i);
                rows.push(row);
                proof {
                    assert(rows@.take(i as int) =~= before);
                    assert forall|k: int| 0 <= k < i + 1 implies #[trigger] is_row_at(
                        rows@,
                        all,
                        c,
                        k,
                    ) by {
                        if k < i {
                            assert(rows@.take(k) =~= before.take(k));
                            assert(is_row_at(before, all, c, k));
                        }
                    }
                }
            },
        }
        i = i + 1;
    }
    assert(all.take(i as int) =~= all);
    Ok(rows)
}

/// The rows of an import.
pub fn parse(request: &ImportUsersRequest) -> (r: Result<Vec<ParsedRow>, ApiError>)
    ensures
        match r {
            Ok(rows) => {
                let table = csv_table(request.content@, delimiter_of(request.format));
                &&& import_fault(*request) is None
                &&& table.0 is Ok
                &&& are_rows(rows@, table.0->Ok_0, table.1)
            },
            Err(e) => import_fault(*request) == Some(e@),
        },
{
    if byte_len(request.content.as_str()) > MAX_IMPORT_BYTES {
        return Err(validation_error("import file exceeds 2 MiB"));
    }
    let delimiter: u8 = match request.format {
        ImportFormat::Csv => 44,
        ImportFormat::Tsv => 9,
    };
    let table = read_table(request.content.as_str(), delimiter);
    parse_table(&table)
}

/// What is known of the user with the address of a row.
#[derive(Debug, Clone, Copy, PartialEq, Eq, Structural)]
pub enum Existing {
    Nobody,
    Present,
    SoftDeleted,
}

/// What an import does with a row.
#[derive(Debug, Clone, Copy, PartialEq, Eq, Structural)]
pub enum ImportAction {
    Create,
    Link,
    Error,
}

/// What an import does with a row.
pub open spec fn action_for(row: ParsedRow, existing: Existing) -> ImportAction {
    if row.errors@.len() > 0 || existing == Existing::SoftDeleted {
        ImportAction::Error
    } else if existing == Existing::Present {
        ImportAction::Link
    } else {
        ImportAction::Create
    }
}

/// The name of what an import does with a row.
pub open spec fn action_text(action: ImportAction) -> Seq<char> {
    match action {
        ImportAction::Create => "create"@,
        ImportAction::Link => "link"@,
        ImportAction::Error => "error"@,
    }
}

/// How many rows an import does something with.
pub open spec fn count_of(rows: Seq<ParsedRow>, existing: Seq<Existing>, action: ImportAction) -> nat
    decreases rows.len(),
{
    if rows.len() == 0 {
        0
    } else {
        count_of(rows.drop_last(), existing, action) + (if action_for(
            rows.last(),
            existing[rows.len() - 1],
        ) == action {
            1nat
        } else {
            0nat
        })
    }
}

/// Whether a response tells what an import does with a row.
pub open spec fn tells_row(r: ImportUserRowResponse, row: ParsedRow, existing: Existing) -> bool {
    &&& r.row == row.row
    &&& r.email@ == row.email@
    &&& r.name@ == row.name@
    &&& r.title@ == row.title@
    &&& texts(r.groups@) == texts(row.groups@)
    &&& r.action@ == action_text(action_for(row, existing))
    &&& texts(r.errors@) == (if row.errors@.len() == 0 && existing == Existing::SoftDeleted {
        seq!["email belongs to a soft-deleted user; restore or purge it first"@]
    } else {
        texts(row.errors@)
    })
}

fn preview_row(row: &ParsedRow, existing: Existing) -> (r: (ImportUserRowResponse, ImportAction))
    ensures
        r.1 == action_for(*row, existing),
        tells_row(r.0, *row, existing),
{
    let mut errors = copy_texts(&row.errors);
    let action = if row.errors.len() > 0 {
        ImportAction::Error
    } else {
        match existing {
            Existing::SoftDeleted => {
                push_text(
                    &mut errors,
                    String::from_str(
                        "email belongs to a soft-deleted user; restore or purge it first",
                    ),
                );
                assert(texts(errors@)
                    =~= seq!["email belongs to a soft-deleted user; restore or purge it first"@]);
                ImportAction::Error
            },
            Existing::Present => ImportAction::Link,
            Existing::Nobody => ImportAction::Create,
        }
    };
    let name = match action {
        ImportAction::Create => "create",
        ImportAction::Link => "link",
        ImportAction::Error => "error",
    };
    (
        ImportUserRowResponse {
            row: row.row,
            email: copy_text(&row.email),
            name: copy_text(&row.name),
            title: copy_text(&row.title),
            groups: copy_texts(&row.groups),
            action: name.to_owned(),
            errors,
        },
        action,
    )
}

/// Whether a preview tells what an import does.
pub open spec fn tells_import(
    p: ImportUsersPreviewResponse,
    rows: Seq<ParsedRow>,
    existing: Seq<Existing>,
) -> bool {
    &&& p.rows@.len() == rows.len()
    &&& forall|i: int| 0 <= i < rows.len() ==> #[trigger] tells_row(p.rows@[i], rows[i], existing[i])
    &&& p.creates == count_of(rows, existing, ImportAction::Create)
    &&& p.links == count_of(rows, existing, ImportAction::Link)
    &&& p.errors == count_of(rows, existing, ImportAction::Error)
    &&& p.valid == (p.errors == 0 && rows.len() > 0)
}

proof fn lemma_counts(rows: Seq<ParsedRow>, existing: Seq<Existing>, action: ImportAction)
    ensures
        count_of(rows, existing, action) <= rows.len(),
    decreases rows.len(),
{
    if rows.len() > 0 {
        lemma_counts(rows.drop_last(), existing, action);
    }
}

/// What an import does, given what is known of the users with the addresses of its rows.
pub fn preview_rows(rows: &[ParsedRow], existing: &[Existing]) -> (r: ImportUsersPreviewResponse)
    requires
        rows@.len() == existing@.len(),
    ensures
        tells_import(r, rows@, existing@),
{
    let mut out: Vec<ImportUserRowResponse> = Vec::new();
    let mut creates: usize = 0;
    let mut links: usize = 0;
    let mut errors: usize = 0;
    let mut i: usize = 0;
    while i < rows.len()
        invariant
            i <= rows@.len(),
            rows@.len() == existing@.len(),
            out@.len() == i,
            forall|k: int|
                0 <= k < i ==> #[trigger] tells_row(out@[k], rows@[k], existing@[k]),
            creates == count_of(rows@.take(i as int), existing@, ImportAction::Create),
            links == count_of(rows@.take(i as int), existing@, ImportAction::Link),
            errors == count_of(rows@.take(i as int), existing@, ImportAction::Error),
        decreases rows@.len() - i,
    {
        let ghost next = rows@.take(i + 1);
        proof {
            assert(next.drop_last() =~= rows@.take(i as int));
            assert(next.last() == rows@[i as int]);
            lemma_counts(next, existing@, ImportAction::Create);
            lemma_counts(next, existing@, ImportAction::Link);
            lemma_counts(next, existing@, ImportAction::Error);
        }
        let (told, action) = preview_row(&rows[i], existing[i]);
        match action {
            ImportAction::Create => {
                creates = creates + 1;
            },
            ImportAction::Link => {
                links = links + 1;
            },
            ImportAction::Error => {
                errors = errors + 1;
            },
        }
        out.push(told);
        i = i + 1;
    }
    assert(rows@.take(i as int) =~= rows@);
    ImportUsersPreviewResponse {
        valid: errors == 0 && out.len() > 0,
        creates,
        links,
        errors,
        rows: out,
    }
}

/// Lets imports pass that have rows and no errors.
pub fn check_preview(preview: &ImportUsersPreviewResponse) -> (r: Result<(), ApiError>)
    ensures
        checks(
            r,
            unless(
                preview.valid,
                validation("import has validation errors; review the preview before applying"@),
            ),
        ),
{
    if preview.valid {
        Ok(())
    } else {
        Err(validation_error("import has validation errors; review the preview before applying"))
    }
}

/// An import is carried out only where every row creates or links a user, and there are rows.
pub proof fn law_imports_are_all_or_nothing(
    p: ImportUsersPreviewResponse,
    rows: Seq<ParsedRow>,
    existing: Seq<Existing>,
)
    requires
        tells_import(p, rows, existing),
        rows.len() == existing.len(),
    ensures
        p.valid <==> rows.len() > 0 && forall|i: int|
            0 <= i < rows.len() ==> action_for(#[trigger] rows[i], existing[i])
                != ImportAction::Error,
        p.creates + p.links + p.errors == rows.len(),
{
    lemma_no_errors(rows, existing);
    lemma_count_sum(rows, existing);
}

proof fn lemma_no_errors(rows: Seq<ParsedRow>, existing: Seq<Existing>)
    ensures
        count_of(rows, existing, ImportAction::Error) == 0 <==> forall|i: int|
            0 <= i < rows.len() ==> action_for(#[trigger] rows[i], existing[i])
                != ImportAction::Error,
    decreases rows.len(),
{
    if rows.len() > 0 {
        let d = rows.drop_last();
        lemma_no_errors(d, existing);
        if forall|i: int|
            0 <= i < rows.len() ==> action_for(#[trigger] rows[i], existing[i])
                != ImportAction::Error {
            assert forall|i: int| 0 <= i < d.len() implies action_for(#[trigger] d[i], existing[i])
                != ImportAction::Error by {
                assert(rows[i] == d[i]);
            }
            assert(rows[rows.len() - 1] == rows.last());
        }
        if count_of(rows, existing, ImportAction::Error) == 0 {
            assert forall|i: int| 0 <= i < rows.len() implies action_for(
                #[trigger] rows[i],
                existing[i],
            ) != ImportAction::Error by {
                if i < d.len() {
                    assert(d[i] == rows[i]);
                }
            }
        }
    }
}

proof fn lemma_count_sum(rows: Seq<ParsedRow>, existing: Seq<Existing>)
    ensures
        count_of(rows, existing, ImportAction::Create) + count_of(rows, existing, ImportAction::Link)
            + count_of(rows, existing, ImportAction::Error) == rows.len(),
    decreases rows.len(),
{
    if rows.len() > 0 {
        lemma_count_sum(rows.drop_last(), existing);
    }
}

/// How a row of an import becomes a user.
pub enum ImportStep {
    /// The user exists; it may still lack a local identity.
    Existing { user_id: Uuid, add_identity: bool },
    /// The user is created with a local identity.
    Create { user_id: Uuid },
}

/// Why a row of an import does not become a user.
pub open spec fn import_step_fault(email: Seq<char>, user: Option<EmailRow>) -> Option<ErrorView> {
    match user {
        None => None,
        Some(u) => if u.soft_deleted_at is Some {
            Some(conflict(email + " became soft-deleted after preview"@))
        } else {
            named_id_fault(u.id@, "user"@)
        },
    }
}

/// How a row of an import becomes a user.
pub fn import_row(email: &str, user: &Option<EmailRow>, has_local: bool, new_id: Uuid) -> (r: Result<
    ImportStep,
    ApiError,
>)
    ensures
        match r {
            Ok(step) => {
                &&& import_step_fault(email@, *user) is None
                &&& match *user {
                    Some(u) => step matches ImportStep::Existing { user_id, add_identity }
                        && uuid_parsed(u.id@) == Ok::<Uuid, Seq<char>>(user_id) && add_identity
                        == !has_local,
                    None => step matches ImportStep::Create { user_id } && user_id == new_id,
                }
            },
            Err(e) => import_step_fault(email@, *user) == Some(e@),
        },
{
    match user {
        None => Ok(ImportStep::Create { user_id: new_id }),
        Some(u) => {
            if u.soft_deleted_at.is_some() {
                return Err(
                    conflict_error(
                        email.to_owned().concat(" became soft-deleted after preview").as_str(),
                    ),
                );
            }
            let user_id = named_id(u.id.as_str(), "user")?;
            Ok(ImportStep::Existing { user_id, add_identity: !has_local })
        },
    }
}

/// What is written down of an import.
pub open spec fn import_details(p: ImportUsersPreviewResponse, affected: nat) -> Seq<char> {
    "{\"affected_users\":"@ + decimal(affected) + ",\"creates\":"@ + decimal(p.creates as nat)
        + ",\"links\":"@ + decimal(p.links as nat) + ",\"rows\":"@ + decimal(p.rows@.len())
        + "}"@
}

/// What is written down of an import.
pub fn import_audit(actor: Uuid, preview: &ImportUsersPreviewResponse, affected: usize) -> (r: (
    AuditEntry,
    String,
))
    ensures
        r.0.by_user(actor, "users.import"@, "user"@, None),
        r.1@ == import_details(*preview, affected as nat),
{
    let details = String::from_str("{\"affected_users\":").concat(
        decimal_text(affected as u64).as_str(),
    ).concat(",\"creates\":").concat(decimal_text(preview.creates as u64).as_str()).concat(
        ",\"links\":",
    ).concat(decimal_text(preview.links as u64).as_str()).concat(",\"rows\":").concat(
        decimal_text(preview.rows.len() as u64).as_str(),
    ).concat("}");
    (user_did(actor, "users.import", "user", None), details)
}

} // verus!

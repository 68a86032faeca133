//! What importing users promises.

use vstd::prelude::*;
use vstd::utf8::encode_utf8;

use crate::identity::{is_email, normalized};
use crate::ids::uuid_parsed;
use crate::models::{ImportFormat, ImportUserRowResponse, ImportUsersRequest};
use crate::providers::EmailRow;
use crate::text::{ascii_lowered, lowercased, texts, trimmed};
use crate::user_import::{
    action_for, are_columns, are_rows, cell, columns_fault, count_of, csv_table, delimiter_of,
    email_errors, emails, group_errors, group_pieces, groups_in, has_column, header_fault,
    import_fault, import_step_fault, is_row, records_fault, tells_row, Columns, Existing,
    ImportAction, ParsedRow,
};

verus! {

/// What a column is called, whatever its letters and the blanks around it.
spec fn called(header: Seq<char>) -> Seq<char> {
    ascii_lowered(trimmed(header))
}

proof fn lemma_columns(headers: Seq<Seq<char>>)
    ensures
        columns_fault(headers) is None <==> {
            &&& forall|i: int|
                0 <= i < headers.len() ==> called(#[trigger] headers[i]) == "name"@ || called(
                    headers[i],
                ) == "email"@ || called(headers[i]) == "title"@ || called(headers[i]) == "groups"@
            &&& forall|i: int, j: int|
                0 <= i < j < headers.len() ==> called(#[trigger] headers[i]) != called(
                    #[trigger] headers[j],
                )
        },
    decreases headers.len(),
{
    if headers.len() > 0 {
        let less = headers.drop_last();
        let last = headers.last();
        lemma_columns(less);
        assert(headers[headers.len() - 1] == last);
        assert(forall|i: int| 0 <= i < less.len() ==> less[i] == headers[i]);
        if columns_fault(headers) is None {
            assert forall|i: int| 0 <= i < headers.len() implies called(#[trigger] headers[i])
                == "name"@ || called(headers[i]) == "email"@ || called(headers[i]) == "title"@
                || called(headers[i]) == "groups"@ by {
                if i < less.len() {
                    assert(less[i] == headers[i]);
                }
            }
            assert forall|i: int, j: int| 0 <= i < j < headers.len() implies called(
                #[trigger] headers[i],
            ) != called(#[trigger] headers[j]) by {
                assert(less[i] == headers[i]);
                if j < less.len() {
                    assert(less[j] == headers[j]);
                } else {
                    assert(!has_column(less, called(last)));
                    assert(crate::user_import::column(less[i]) == called(less[i]));
                }
            }
        }
        if {
            &&& forall|i: int|
                0 <= i < headers.len() ==> called(#[trigger] headers[i]) == "name"@ || called(
                    headers[i],
                ) == "email"@ || called(headers[i]) == "title"@ || called(headers[i]) == "groups"@
            &&& forall|i: int, j: int|
                0 <= i < j < headers.len() ==> called(#[trigger] headers[i]) != called(
                    #[trigger] headers[j],
                )
        } {
            assert forall|i: int| 0 <= i < less.len() implies called(#[trigger] less[i]) == "name"@
                || called(less[i]) == "email"@ || called(less[i]) == "title"@ || called(less[i])
                == "groups"@ by {
                assert(less[i] == headers[i]);
            }
            assert forall|i: int, j: int| 0 <= i < j < less.len() implies called(
                #[trigger] less[i],
            ) != called(#[trigger] less[j]) by {
                assert(called(headers[i]) != called(headers[j]));
            }
            assert(called(headers[headers.len() - 1]) == called(last));
            if has_column(less, called(last)) {
                let k = choose|k: int|
                    0 <= k < less.len() && crate::user_import::column(#[trigger] less[k]) == called(
                        last,
                    );
                assert(called(headers[k]) != called(headers[headers.len() - 1]));
            }
        }
    }
}

/// A file is read if and only if its columns are known ones, each is there once, and there are a
/// name and a mail address.
pub proof fn law_imports_have_known_columns(headers: Seq<Seq<char>>)
    ensures
        header_fault(headers) is None <==> {
            &&& forall|i: int|
                0 <= i < headers.len() ==> ascii_lowered(trimmed(#[trigger] headers[i])) == "name"@
                    || ascii_lowered(trimmed(headers[i])) == "email"@ || ascii_lowered(
                    trimmed(headers[i]),
                ) == "title"@ || ascii_lowered(trimmed(headers[i])) == "groups"@
            &&& forall|i: int, j: int|
                0 <= i < j < headers.len() ==> ascii_lowered(trimmed(#[trigger] headers[i]))
                    != ascii_lowered(trimmed(#[trigger] headers[j]))
            &&& exists|i: int|
                0 <= i < headers.len() && ascii_lowered(trimmed(#[trigger] headers[i])) == "name"@
            &&& exists|i: int|
                0 <= i < headers.len() && ascii_lowered(trimmed(#[trigger] headers[i])) == "email"@
        },
{
    lemma_columns(headers);
    assert(forall|i: int|
        0 <= i < headers.len() ==> called(#[trigger] headers[i]) == ascii_lowered(
            trimmed(headers[i]),
        ));
    if exists|i: int|
        0 <= i < headers.len() && ascii_lowered(trimmed(#[trigger] headers[i])) == "name"@ {
        let i = choose|i: int|
            0 <= i < headers.len() && ascii_lowered(trimmed(#[trigger] headers[i])) == "name"@;
        assert(crate::user_import::column(headers[i]) == "name"@);
    }
    if exists|i: int|
        0 <= i < headers.len() && ascii_lowered(trimmed(#[trigger] headers[i])) == "email"@ {
        let i = choose|i: int|
            0 <= i < headers.len() && ascii_lowered(trimmed(#[trigger] headers[i])) == "email"@;
        assert(crate::user_import::column(headers[i]) == "email"@);
    }
}

proof fn lemma_records(records: Seq<Result<Seq<Seq<char>>, Seq<char>>>)
    ensures
        records_fault(records) is None <==> records.len() <= 10000 && forall|i: int|
            0 <= i < records.len() ==> #[trigger] records[i] is Ok,
    decreases records.len(),
{
    if records.len() > 0 {
        let less = records.drop_last();
        lemma_records(less);
        assert(records[records.len() - 1] == records.last());
        assert(forall|i: int| 0 <= i < less.len() ==> less[i] == records[i]);
        if records_fault(records) is None {
            assert forall|i: int| 0 <= i < records.len() implies #[trigger] records[i] is Ok by {
                if i < less.len() {
                    assert(less[i] is Ok);
                }
            }
        }
        if records.len() <= 10000 && forall|i: int|
            0 <= i < records.len() ==> #[trigger] records[i] is Ok {
            assert forall|i: int| 0 <= i < less.len() implies #[trigger] less[i] is Ok by {
                assert(records[i] is Ok);
            }
        }
    }
}

/// A file is read if and only if it has no more than two mebibytes, no more than ten thousand rows,
/// and every row can be read; a comma is between the cells of one sort of file, and a tab between
/// those of the other.
pub proof fn law_imports_are_bounded(request: ImportUsersRequest)
    ensures
        request.format == ImportFormat::Csv ==> delimiter_of(request.format) == 0x2c,
        request.format == ImportFormat::Tsv ==> delimiter_of(request.format) == 0x09,
        import_fault(request) is None <==> {
            let table = csv_table(request.content@, delimiter_of(request.format));
            &&& encode_utf8(request.content@).len() <= 2 * 1024 * 1024
            &&& table.0 is Ok
            &&& header_fault(table.0->Ok_0) is None
            &&& table.1.len() <= 10000
            &&& forall|i: int| 0 <= i < table.1.len() ==> #[trigger] table.1[i] is Ok
        },
{
    lemma_records(csv_table(request.content@, delimiter_of(request.format)).1);
}

proof fn lemma_groups_in(pieces: Seq<Seq<char>>, group: Seq<char>)
    ensures
        groups_in(pieces).contains(group) <==> exists|i: int|
            0 <= i < pieces.len() && trimmed(#[trigger] pieces[i]).len() > 0 && group == lowercased(
                trimmed(pieces[i]),
            ) && group.len() > 0,
    decreases pieces.len(),
{
    if pieces.len() > 0 {
        let less = pieces.drop_last();
        lemma_groups_in(less, group);
        assert(pieces[pieces.len() - 1] == pieces.last());
        let before = groups_in(less);
        let all = groups_in(pieces);
        if before.contains(group) {
            let k = choose|k: int| 0 <= k < before.len() && before[k] == group;
            assert(all[k] == group);
            let i = choose|i: int|
                0 <= i < less.len() && trimmed(#[trigger] less[i]).len() > 0 && group == lowercased(
                    trimmed(less[i]),
                ) && group.len() > 0;
            assert(pieces[i] == less[i]);
        }
        if all.len() > before.len() {
            assert(all[before.len() as int] == normalized(pieces.last()));
            if all.contains(group) && !before.contains(group) {
                let k = choose|k: int| 0 <= k < all.len() && all[k] == group;
                if k < before.len() {
                    assert(before[k] == group);
                }
            }
        }
        if exists|i: int|
            0 <= i < pieces.len() && trimmed(#[trigger] pieces[i]).len() > 0 && group == lowercased(
                trimmed(pieces[i]),
            ) && group.len() > 0 {
            let i = choose|i: int|
                0 <= i < pieces.len() && trimmed(#[trigger] pieces[i]).len() > 0 && group
                    == lowercased(trimmed(pieces[i])) && group.len() > 0;
            if i < less.len() {
                assert(less[i] == pieces[i]);
            }
        }
    }
}

/// A row is without error only if its mail address is one and no earlier row has it, and there is
/// a name. It has its cells without the blanks around them, and the groups between semicolons.
pub proof fn law_rows_are_read_from_their_cells(
    row: ParsedRow,
    record: Seq<Seq<char>>,
    c: Columns,
    earlier: Seq<Seq<char>>,
    index: int,
)
    requires
        is_row(row, record, c, earlier, index),
    ensures
        row.row == index + 2,
        row.errors@.len() == 0 ==> is_email(row.email@) && row.email@ == lowercased(
            trimmed(cell(record, Some(c.email))),
        ) && !earlier.contains(row.email@) && row.name@.len() > 0,
        !is_email(lowercased(trimmed(cell(record, Some(c.email))))) ==> row.errors@.len() > 0
            && row.email@.len() == 0,
        is_email(row.email@) && earlier.contains(row.email@) ==> row.errors@.len() > 0,
        c.name < record.len() ==> row.name@ == trimmed(record[c.name as int]),
        c.title is Some && c.title->0 < record.len() ==> row.title@ == trimmed(
            record[c.title->0 as int],
        ),
        c.title is None ==> row.title@.len() == 0,
        trimmed(cell(record, Some(c.name))).len() == 0 ==> row.errors@.len() > 0,
{
    let name = trimmed(cell(record, Some(c.name)));
    let pieces = group_pieces(record, c);
    let all = email_errors(row.email@, earlier) + crate::user_import::name_errors(name)
        + group_errors(pieces);
    assert(texts(row.errors@).len() == row.errors@.len());
    assert(all.len() == row.errors@.len());
    if c.title is None {
        crate::text::lemma_trimmed(Seq::<char>::empty());
    }
    lemma_email_has_length(lowercased(trimmed(cell(record, Some(c.email)))));
}

proof fn lemma_email_has_length(s: Seq<char>)
    ensures
        is_email(s) ==> s.len() > 0,
        !is_email(Seq::<char>::empty()),
{
    if s.len() == 0 {
        assert(!s.contains('@'));
    }
    assert(!Seq::<char>::empty().contains('@'));
}

/// The groups of a row are those between semicolons, in their normal form and without empty ones.
pub proof fn law_groups_of_rows_are_read(pieces: Seq<Seq<char>>, group: Seq<char>)
    ensures
        groups_in(pieces).contains(group) <==> exists|i: int|
            0 <= i < pieces.len() && trimmed(#[trigger] pieces[i]).len() > 0 && group == lowercased(
                trimmed(pieces[i]),
            ) && group.len() > 0,
{
    lemma_groups_in(pieces, group);
}

/// A row with an error, or of a user who was deleted, is refused; another one is linked to the
/// user who has its address, or a user is created.
pub proof fn law_rows_are_linked_or_created(row: ParsedRow, existing: Existing)
    ensures
        action_for(row, existing) == ImportAction::Error <==> row.errors@.len() > 0 || existing
            == Existing::SoftDeleted,
        action_for(row, existing) == ImportAction::Link <==> row.errors@.len() == 0 && existing
            == Existing::Present,
        action_for(row, existing) == ImportAction::Create <==> row.errors@.len() == 0 && existing
            == Existing::Nobody,
{
}

/// A row is not applied to a user who was deleted meanwhile.
pub proof fn law_imports_pass_over_deleted_users(email: Seq<char>, user: EmailRow)
    ensures
        import_step_fault(email, None) is None,
        import_step_fault(email, Some(user)) is None <==> user.soft_deleted_at is None
            && uuid_parsed(user.id@) is Ok,
{
}

proof fn lemma_no_group_errors(pieces: Seq<Seq<char>>)
    ensures
        group_errors(pieces).len() == 0 <==> forall|i: int|
            0 <= i < pieces.len() && trimmed(#[trigger] pieces[i]).len() > 0 ==> lowercased(
                trimmed(pieces[i]),
            ).len() > 0,
    decreases pieces.len(),
{
    if pieces.len() > 0 {
        let less = pieces.drop_last();
        lemma_no_group_errors(less);
        assert(pieces[pieces.len() - 1] == pieces.last());
        if group_errors(pieces).len() == 0 {
            assert forall|i: int|
                0 <= i < pieces.len() && trimmed(#[trigger] pieces[i]).len() > 0 implies lowercased(
                trimmed(pieces[i]),
            ).len() > 0 by {
                if i < less.len() {
                    assert(less[i] == pieces[i]);
                }
            }
        }
        if forall|i: int|
            0 <= i < pieces.len() && trimmed(#[trigger] pieces[i]).len() > 0 ==> lowercased(
                trimmed(pieces[i]),
            ).len() > 0 {
            assert forall|i: int|
                0 <= i < less.len() && trimmed(#[trigger] less[i]).len() > 0 implies lowercased(
                trimmed(less[i]),
            ).len() > 0 by {
                assert(pieces[i] == less[i]);
            }
        }
    }
}

/// A row with a mail address that no earlier row has, with a name, and with groups that are called
/// something, is without error; its groups are those that are named in its cell, each once.
pub proof fn law_sound_rows_are_without_error(
    row: ParsedRow,
    record: Seq<Seq<char>>,
    c: Columns,
    earlier: Seq<Seq<char>>,
    index: int,
    group: Seq<char>,
)
    requires
        is_row(row, record, c, earlier, index),
    ensures
        ({
            let pieces = crate::lines::fields_of(cell(record, c.groups), ';');
            let email = lowercased(trimmed(cell(record, Some(c.email))));
            &&& is_email(email) && !earlier.contains(email) && trimmed(
                cell(record, Some(c.name)),
            ).len() > 0 && (forall|i: int|
                0 <= i < pieces.len() && trimmed(#[trigger] pieces[i]).len() > 0 ==> lowercased(
                    trimmed(pieces[i]),
                ).len() > 0) ==> row.errors@.len() == 0
            &&& texts(row.groups@).no_duplicates()
            &&& texts(row.groups@).contains(group) <==> exists|i: int|
                0 <= i < pieces.len() && trimmed(#[trigger] pieces[i]).len() > 0 && group
                    == lowercased(trimmed(pieces[i])) && group.len() > 0
        }),
{
    let pieces = group_pieces(record, c);
    let email = lowercased(trimmed(cell(record, Some(c.email))));
    lemma_no_group_errors(pieces);
    lemma_groups_in(pieces, group);
    lemma_email_has_length(email);
    crate::laws::directories::lemma_sorted_unique_members(groups_in(pieces), group);
    assert(texts(row.errors@).len() == row.errors@.len());
}

/// The columns that are read are those of their names.
pub proof fn law_columns_are_found_by_name(c: Columns, headers: Seq<Seq<char>>, k: int)
    requires
        are_columns(c, headers),
    ensures
        c.name < headers.len() && ascii_lowered(trimmed(headers[c.name as int])) == "name"@,
        c.email < headers.len() && ascii_lowered(trimmed(headers[c.email as int])) == "email"@,
        c.title is Some ==> c.title->0 < headers.len() && ascii_lowered(
            trimmed(headers[c.title->0 as int]),
        ) == "title"@,
        c.groups is Some ==> c.groups->0 < headers.len() && ascii_lowered(
            trimmed(headers[c.groups->0 as int]),
        ) == "groups"@,
        0 <= k < headers.len() && ascii_lowered(trimmed(headers[k])) == "title"@ ==> c.title is Some,
        0 <= k < headers.len() && ascii_lowered(trimmed(headers[k])) == "groups"@
            ==> c.groups is Some,
{
    if 0 <= k < headers.len() {
        assert(crate::user_import::column(headers[k]) == ascii_lowered(trimmed(headers[k])));
    }
}

/// Each row is read from its own record, and an address counts as used before if an earlier row has
/// it.
pub proof fn law_rows_follow_their_records(
    rows: Seq<ParsedRow>,
    headers: Seq<Seq<char>>,
    records: Seq<Result<Seq<Seq<char>>, Seq<char>>>,
    i: int,
    k: int,
)
    requires
        are_rows(rows, headers, records),
        0 <= k < i < rows.len(),
    ensures
        rows.len() == records.len(),
        rows[i].row == i + 2,
        rows[k].email@ == rows[i].email@ ==> rows[i].errors@.len() > 0,
{
    let c = choose|c: Columns|
        {
            &&& #[trigger] are_columns(c, headers)
            &&& forall|j: int|
                0 <= j < rows.len() ==> #[trigger] crate::user_import::is_row_at(
                    rows,
                    records,
                    c,
                    j,
                )
        };
    assert(crate::user_import::is_row_at(rows, records, c, i));
    let earlier = emails(rows.take(i));
    assert(earlier[k] == rows[k].email@);
    assert(earlier.contains(rows[k].email@));
    assert(texts(rows[i].errors@).len() == rows[i].errors@.len());
}

/// A row is told as it was read, with what will be done about it; of a row of a deleted user it is
/// told why nothing will.
pub proof fn law_rows_are_told_as_they_were_read(
    r: ImportUserRowResponse,
    row: ParsedRow,
    existing: Existing,
)
    requires
        tells_row(r, row, existing),
    ensures
        r.row == row.row,
        r.email@ == row.email@,
        r.name@ == row.name@,
        r.title@ == row.title@,
        texts(r.groups@) == texts(row.groups@),
        row.errors@.len() == 0 && existing == Existing::Nobody ==> r.action@ == "create"@,
        row.errors@.len() == 0 && existing == Existing::Present ==> r.action@ == "link"@,
        row.errors@.len() > 0 || existing == Existing::SoftDeleted ==> r.action@ == "error"@
            && r.errors@.len() > 0,
        row.errors@.len() == 0 && existing != Existing::SoftDeleted ==> r.errors@.len() == 0,
{
    assert(texts(r.errors@).len() == r.errors@.len());
    assert(texts(row.errors@).len() == row.errors@.len());
}

/// Every row counts once, under what will be done about it.
pub proof fn law_rows_count_once(
    rows: Seq<ParsedRow>,
    existing: Seq<Existing>,
    row: ParsedRow,
    action: ImportAction,
)
    requires
        rows.len() < existing.len(),
    ensures
        count_of(Seq::<ParsedRow>::empty(), existing, action) == 0,
        action_for(row, existing[rows.len() as int]) == action ==> count_of(
            rows.push(row),
            existing,
            action,
        ) == count_of(rows, existing, action) + 1,
        action_for(row, existing[rows.len() as int]) != action ==> count_of(
            rows.push(row),
            existing,
            action,
        ) == count_of(rows, existing, action),
{
    assert(rows.push(row).drop_last() =~= rows);
}
} // verus!

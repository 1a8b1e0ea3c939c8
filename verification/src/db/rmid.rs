//! Removing the `id` column from the `INSERT` statements of a SQL dump.
//!
//! The text is rewritten in two passes over the whole of it. The first takes
//! the `id` column out of each column list. The second, which reads what the
//! first wrote, takes the first value out of each value tuple, whether or not
//! the column list before it named an `id`: the first value is taken to be
//! the id by its place.
//!
//! The passes read characters, not bytes, so every character that they do not
//! remove comes out as it went in, whatever its encoding takes.
//!
//! A dump is rewritten in place in three steps, each of which can fail: the
//! file is read, a copy of it as it was is written beside it, and the new
//! text is written over it. The library decides what each step hands to the
//! next and what a failure ends in; the caller reads and writes.

use crate::db::columns::{
    columns_rewritten, lemma_columns_count_bound, lemma_columns_unchanged_without_id,
    lemma_count_is_lists_naming_id, lists_naming_id, remove_id_from_insert_columns,
};
use crate::db::Rewritten;
use crate::db::tuples::{
    lemma_values_count_bound, remove_first_value_from_values_tuples, values_rewritten,
};
use crate::text::{chars_of, string_of};
use vstd::prelude::*;
use vstd::string::StringExecFns;

verus! {

/// `doc` after both passes, and the sum of what they counted.
pub open spec fn rmid_rewritten(doc: Seq<char>) -> Rewritten {
    let columns = columns_rewritten(doc);
    let values = values_rewritten(columns.text);
    Rewritten { text: values.text, count: columns.count + values.count }
}

/// The name of the file that keeps a copy of a dump as it was before it was
/// rewritten: the name of the dump with `.bak` behind it.
pub fn backup_file_name(file_name: &str) -> (name: String)
    ensures
        name@ == file_name@ + ".bak"@,
{
    let mut name = file_name.to_owned();
    name.append(".bak");
    name
}

/// Rewrites the text of a SQL dump: returns the new text and the number of
/// column lists and value tuples that were changed.
pub fn rmid_text(content: &str) -> (r: (String, usize))
    ensures
        r.0@ == rmid_rewritten(content@).text,
        r.1 == rmid_rewritten(content@).count,
{
    let input = chars_of(content);
    let mut changed_count: usize = 0;
    proof {
        lemma_columns_count_bound(input@, 0);
        assert(input@.len() == input.len());
    }
    let columns = remove_id_from_insert_columns(input.as_slice(), &mut changed_count);
    proof {
        lemma_values_count_bound(columns@, 0);
        assert(columns@.len() == columns.len());
    }
    let values = remove_first_value_from_values_tuples(columns.as_slice(), &mut changed_count);
    (string_of(values.as_slice()), changed_count)
}

/// What is counted: the column lists that lost a token, and the tuples that
/// lost their first value.
pub proof fn lemma_count_adds_lists_and_tuples(doc: Seq<char>)
    ensures
        rmid_rewritten(doc).count == lists_naming_id(doc, 0) + values_rewritten(
            columns_rewritten(doc).text,
        ).count,
{
    lemma_count_is_lists_naming_id(doc, 0);
}

/// The first values go whether or not a column list named `id`: a document
/// none of whose column lists names `id` comes out as the second pass alone
/// leaves it.
pub proof fn lemma_values_go_without_id_column(doc: Seq<char>)
    requires
        lists_naming_id(doc, 0) == 0,
    ensures
        rmid_rewritten(doc).text == values_rewritten(doc).text,
        rmid_rewritten(doc).count == values_rewritten(doc).count,
{
    lemma_columns_unchanged_without_id(doc, 0);
    assert(doc.skip(0) =~= doc);
}

/// The step at which the rewriting of a file failed.
#[derive(Clone, Copy, Debug, PartialEq, Eq, Structural)]
pub enum FailedStep {
    /// The file could not be read as text. Nothing was written.
    Read,
    /// The copy of the file could not be written. The file was not touched.
    Backup,
    /// The new text could not be written. The copy holds the file as it was;
    /// the file may be cut short.
    Write,
}

/// Why the rewriting of a file failed.
#[derive(Debug)]
pub struct RmidError {
    pub step: FailedStep,
    /// What the caller said of the failure.
    pub cause: String,
}

/// What is to be written to the copy of the file.
#[derive(Debug)]
pub struct Backup {
    pub content: String,
}

/// What is to be written to the file, and the count to give when that has
/// worked.
#[derive(Debug)]
pub struct Rewrite {
    pub text: String,
    pub count: usize,
}

/// What follows the reading of the file: the copy to write holds the text
/// exactly as it was read; a failure to read ends the work.
pub fn after_read(read: Result<String, String>) -> (r: Result<Backup, RmidError>)
    ensures
        match read {
            Ok(content) => r is Ok && r->Ok_0.content@ == content@,
            Err(cause) => r is Err && r->Err_0.step == FailedStep::Read && r->Err_0.cause@
                == cause@,
        },
{
    match read {
        Ok(content) => Ok(Backup { content }),
        Err(cause) => Err(RmidError { step: FailedStep::Read, cause }),
    }
}

/// What follows the writing of the copy: the text to write to the file is
/// the text of the copy after both passes; a failure to write the copy ends
/// the work before the file is written to.
pub fn after_backup(backup: Backup, written: Result<(), String>) -> (r: Result<
    Rewrite,
    RmidError,
>)
    ensures
        match written {
            Ok(()) => {
                &&& r is Ok
                &&& r->Ok_0.text@ == rmid_rewritten(backup.content@).text
                &&& r->Ok_0.count == rmid_rewritten(backup.content@).count
            },
            Err(cause) => r is Err && r->Err_0.step == FailedStep::Backup && r->Err_0.cause@
                == cause@,
        },
{
    match written {
        Ok(()) => {
            let (text, count) = rmid_text(backup.content.as_str());
            Ok(Rewrite { text, count })
        },
        Err(cause) => Err(RmidError { step: FailedStep::Backup, cause }),
    }
}

/// What follows the writing of the file: the count, or the failure.
pub fn after_write(rewrite: Rewrite, written: Result<(), String>) -> (r: Result<usize, RmidError>)
    ensures
        match written {
            Ok(()) => r == Ok::<usize, RmidError>(rewrite.count),
            Err(cause) => r is Err && r->Err_0.step == FailedStep::Write && r->Err_0.cause@
                == cause@,
        },
{
    match written {
        Ok(()) => Ok(rewrite.count),
        Err(cause) => Err(RmidError { step: FailedStep::Write, cause }),
    }
}

} // verus!

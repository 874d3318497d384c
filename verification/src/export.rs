//! Export of a record to a text file: where the file goes and what it
//! holds. Writing the file is left to the caller.

use crate::record::{LogRecord, RecordView};
use crate::store::LogStore;
use vstd::prelude::*;

verus! {

/// A file to be written: its path and its whole contents.
#[derive(Clone, Debug, PartialEq, Eq)]
pub struct ExportFile {
    pub path: String,
    pub contents: String,
}

/// The path of the export of `record` under `directory`. The file is
/// named after the project and the fingerprint, so that a record is
/// always exported to the same file. Neither the directory nor the
/// project name is altered in any way.
pub open spec fn export_path_of(directory: Seq<char>, record: RecordView) -> Seq<char> {
    directory + "/traza_export_"@ + record.project + "_"@ + record.hash + ".txt"@
}

/// The contents of the export of `record`: a header of two lines with the
/// project and the timestamp, an empty line, then the log as it is.
pub open spec fn export_contents_of(record: RecordView) -> Seq<char> {
    "# Project: "@ + record.project + "\n# Timestamp: "@ + record.timestamp + "\n\n"@
        + record.log
}

/// Prepares the export of `record` under `destination_dir`.
///
/// A file that is already at the path is meant to be overwritten.
pub fn export(record: &LogRecord, destination_dir: &str) -> (file: ExportFile)
    ensures
        file.path@ == export_path_of(destination_dir@, record@),
        file.contents@ == export_contents_of(record@),
{
    let mut path = String::new();
    path.append(destination_dir);
    path.append("/traza_export_");
    path.append(record.project.as_str());
    path.append("_");
    path.append(record.hash.as_str());
    path.append(".txt");
    let mut contents = String::new();
    contents.append("# Project: ");
    contents.append(record.project.as_str());
    contents.append("\n# Timestamp: ");
    contents.append(record.timestamp.as_str());
    contents.append("\n\n");
    contents.append(record.log.as_str());
    assert(path@ =~= export_path_of(destination_dir@, record@));
    assert(contents@ =~= export_contents_of(record@));
    ExportFile { path, contents }
}

/// Resolves `prefix` in `store` and prepares the export of the record
/// found; `None` when no fingerprint starts with `prefix`.
pub fn export_by_prefix(store: &LogStore, prefix: &str, destination_dir: &str) -> (r: Option<
    ExportFile,
>)
    ensures
        store@.wf(),
        match r {
            Some(file) => exists|record: RecordView|
                {
                    &&& #[trigger] store@.is_resolution(prefix@, Some(record))
                    &&& file.path@ == export_path_of(destination_dir@, record)
                    &&& file.contents@ == export_contents_of(record)
                },
            None => store@.is_resolution(prefix@, None),
        },
{
    match store.resolve(prefix) {
        Some(record) => {
            assert(store@.is_resolution(prefix@, Some(record@)));
            Some(export(record, destination_dir))
        },
        None => None,
    }
}

} // verus!

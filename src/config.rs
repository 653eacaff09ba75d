//! Run-level configuration checks, made before any engine starts.
use vstd::prelude::*;
use crate::text::{split_commas, split_list};

verus! {

/// Why a run could not start, or failed as a whole.
#[derive(Debug)]
pub enum Fw2tarError {
    /// The firmware path exists but is not a regular file.
    FirmwareNotAFile(String),
    /// Nothing exists at the firmware path.
    FirmwareDoesNotExist(String),
    /// An earlier canonical archive or scratch tree is in the way.
    OutputExists(String),
    /// An engine name that no engine has.
    InvalidExtractor(String),
    /// A filesystem operation of the run failed.
    IoError(String),
}

/// The names of the known engines, in their default order.
pub open spec fn known_engines() -> Seq<Seq<char>> {
    seq!["binwalk"@, "binwalkv3"@, "unblob"@]
}

pub open spec fn is_known_engine(name: Seq<char>) -> bool {
    known_engines().contains(name)
}

/// The names of all known engines, in their default order.
pub fn all_extractor_names() -> (r: Vec<String>)
    ensures
        r@.map_values(|s: String| s@) == known_engines(),
{
    let mut v: Vec<String> = Vec::new();
    v.push(String::from_str("binwalk"));
    v.push(String::from_str("binwalkv3"));
    v.push(String::from_str("unblob"));
    assert(v@.map_values(|s: String| s@) =~= known_engines());
    v
}

/// Whether `name` is the name of a known engine.
pub fn is_known_extractor(name: &String) -> (r: bool)
    ensures
        r == is_known_engine(name@),
{
    let known = all_extractor_names();
    let mut i: usize = 0;
    while i < known.len()
        invariant
            i <= known@.len(),
            known@.map_values(|s: String| s@) == known_engines(),
            forall|j: int| 0 <= j < i ==> known_engines()[j] != name@,
        decreases known@.len() - i,
    {
        assert(known@.map_values(|s: String| s@)[i as int] == known@[i as int]@);
        if known[i] == *name {
            assert(known_engines()[i as int] == name@);
            return true;
        }
        i = i + 1;
    }
    assert(!known_engines().contains(name@)) by {
        if known_engines().contains(name@) {
            let j = choose|j: int| 0 <= j < known_engines().len() && known_engines()[j] == name@;
            assert(known_engines()[j] != name@);
        }
    }
    false
}

/// Piece `k` of `parts` is the first that names no known engine.
pub open spec fn first_unknown(parts: Seq<Seq<char>>, k: int) -> bool {
    &&& 0 <= k < parts.len()
    &&& !is_known_engine(parts[k])
    &&& forall|j: int| 0 <= j < k ==> is_known_engine(#[trigger] parts[j])
}

/// `e` reports `name` as no engine's name.
pub open spec fn reports_invalid(e: Fw2tarError, name: Seq<char>) -> bool {
    match e {
        Fw2tarError::InvalidExtractor(n) => n@ == name,
        _ => false,
    }
}

/// The engines to run: all known ones when no list is given, else the
/// comma-separated names of `list`, each of which must be known; the first
/// one that is not is reported.
pub fn parse_extractors(list: Option<&str>) -> (r: Result<Vec<String>, Fw2tarError>)
    ensures
        list is None ==> r is Ok && r->Ok_0@.map_values(|p: String| p@) == known_engines(),
        list is Some ==> match r {
            Ok(v) => v@.map_values(|p: String| p@) == split_commas(list->Some_0@) && forall|k: int|
                0 <= k < v@.len() ==> is_known_engine(#[trigger] split_commas(list->Some_0@)[k]),
            Err(e) => exists|k: int|
                first_unknown(split_commas(list->Some_0@), k) && reports_invalid(
                    e,
                    split_commas(list->Some_0@)[k],
                ),
        },
{
    match list {
        None => Ok(all_extractor_names()),
        Some(s) => {
            assert(list is Some);
            let names = split_list(s);
            let ghost parts = split_commas(s@);
            let mut i: usize = 0;
            while i < names.len()
                invariant
                    list == Some(s),
                    parts == split_commas(s@),
                    i <= names@.len(),
                    names@.map_values(|p: String| p@) == parts,
                    forall|j: int| 0 <= j < i ==> is_known_engine(#[trigger] parts[j]),
                decreases names@.len() - i,
            {
                assert(names@.map_values(|p: String| p@)[i as int] == names@[i as int]@);
                if !is_known_extractor(&names[i]) {
                    let bad = names[i].clone();
                    let e = Fw2tarError::InvalidExtractor(bad);
                    assert(first_unknown(parts, i as int));
                    assert(reports_invalid(e, parts[i as int]));
                    assert(s@ == list->Some_0@);
                    assert(first_unknown(split_commas(list->Some_0@), i as int));
                    assert(reports_invalid(e, split_commas(list->Some_0@)[i as int]));
                    return Err(e);
                }
                i = i + 1;
            }
            Ok(names)
        },
    }
}

/// Checks that the firmware path names a regular file.
pub fn check_firmware(firmware: &String, is_file: bool, exists: bool) -> (r: Result<(), Fw2tarError>)
    ensures
        is_file ==> r is Ok,
        !is_file && exists ==> r == Err::<(), Fw2tarError>(Fw2tarError::FirmwareNotAFile(*firmware)),
        !is_file && !exists ==> r == Err::<(), Fw2tarError>(
            Fw2tarError::FirmwareDoesNotExist(*firmware),
        ),
{
    if is_file {
        Ok(())
    } else if exists {
        Err(Fw2tarError::FirmwareNotAFile(firmware.clone()))
    } else {
        Err(Fw2tarError::FirmwareDoesNotExist(firmware.clone()))
    }
}

/// What must be removed from the output directory before a run.
#[derive(Clone, Copy, Debug, PartialEq, Eq, Structural)]
pub struct OutputCleanup {
    pub remove_archive: bool,
    pub remove_scratch: bool,
}

/// Checks the output directory for an earlier canonical archive (at
/// `archive`) or scratch tree (at `scratch`). Without `force` either one is
/// an error, the archive reported first; with it both are removed.
pub fn check_outputs(
    archive: &String,
    scratch: &String,
    archive_exists: bool,
    scratch_exists: bool,
    force: bool,
) -> (r: Result<OutputCleanup, Fw2tarError>)
    ensures
        !force && archive_exists ==> r == Err::<OutputCleanup, Fw2tarError>(
            Fw2tarError::OutputExists(*archive),
        ),
        !force && !archive_exists && scratch_exists ==> r == Err::<OutputCleanup, Fw2tarError>(
            Fw2tarError::OutputExists(*scratch),
        ),
        force || (!archive_exists && !scratch_exists) ==> r == Ok::<OutputCleanup, Fw2tarError>(
            (OutputCleanup { remove_archive: force && archive_exists, remove_scratch: force && scratch_exists }),
        ),
{
    if !force && archive_exists {
        Err(Fw2tarError::OutputExists(archive.clone()))
    } else if !force && scratch_exists {
        Err(Fw2tarError::OutputExists(scratch.clone()))
    } else {
        Ok(OutputCleanup { remove_archive: force && archive_exists, remove_scratch: force && scratch_exists })
    }
}

} // verus!

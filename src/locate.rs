//! From configuration, home directory and date argument to the entry's
//! location on disk.
use crate::config::ConfigMap;
use crate::date::{opt_text, resolve_date, resolved_date, CalendarDate, InvalidDateError};
use crate::path::{
    entry_directory, entry_directory_text, entry_file_name, entry_path, entry_path_text,
    joined_text, lemma_entry_in_directory,
};
use crate::root::{resolve_root, resolved_root, ConfigurationError};
use vstd::prelude::*;

verus! {

/// Where the entry for one day lives.
#[derive(Debug)]
pub struct EntryLocation {
    /// The date of the entry.
    pub date: CalendarDate,
    /// The directory that holds the entry: `<root>/<year>/<month>`.
    pub directory: String,
    /// The entry file: `<root>/<year>/<month>/<day>.txt`.
    pub path: String,
}

/// Why an entry could not be located.
#[derive(Debug)]
pub enum LocateError {
    Configuration(ConfigurationError),
    InvalidDate(InvalidDateError),
}

/// Locates the entry for the day that `arg` names, or for `today` when
/// there is no argument, under the root that the configuration and the home
/// directory give. A missing root is reported before a bad date.
pub fn locate_entry(
    config: &ConfigMap,
    home: Option<&str>,
    arg: Option<&str>,
    today: CalendarDate,
) -> (r: Result<EntryLocation, LocateError>)
    requires
        today.wf(),
    ensures
        resolved_root(config@, opt_text(home)) is None <==> r matches Err(
            LocateError::Configuration(_),
        ),
        r matches Err(LocateError::InvalidDate(e)) ==> {
            &&& resolved_date(opt_text(arg), today) is None
            &&& arg matches Some(s) && e.input@ == s@
        },
        r is Ok <==> resolved_root(config@, opt_text(home)) is Some && resolved_date(
            opt_text(arg),
            today,
        ) is Some,
        r matches Ok(loc) ==> {
            let root = resolved_root(config@, opt_text(home))->0;
            &&& loc.date.wf()
            &&& Some(loc.date) == resolved_date(opt_text(arg), today)
            &&& loc.directory@ == entry_directory_text(root, loc.date)
            &&& loc.path@ == entry_path_text(root, loc.date)
            &&& loc.path@ == joined_text(loc.directory@, entry_file_name(loc.date))
        },
{
    let root = match resolve_root(config, home) {
        Ok(root) => root,
        Err(e) => {
            return Err(LocateError::Configuration(e));
        },
    };
    let date = match resolve_date(arg, today) {
        Ok(d) => d,
        Err(e) => {
            return Err(LocateError::InvalidDate(e));
        },
    };
    let directory = entry_directory(root.as_str(), &date);
    let path = entry_path(root.as_str(), &date);
    proof {
        lemma_entry_in_directory(root@, date);
    }
    Ok(EntryLocation { date, directory, path })
}

} // verus!

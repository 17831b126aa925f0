//! The top-level audio pass: which discovered candidates a scan will hand to
//! the worker pool.

use vstd::prelude::*;

use crate::database::files_not_in_db;
use crate::error::ScanError;
use crate::structs::entries_view;

verus! {

/// What a scan will process: the discovered audio candidates, filtered
/// against the catalog — unless `force` is set, in which case the filter is
/// skipped and the whole list is scanned.  With no candidates the catalog is
/// never touched.
pub fn songs_to_scan(database: &str, file_list: &Vec<(String, u64)>, force: bool) -> (r: Result<
    Vec<(String, u64)>,
    ScanError,
>)
    ensures
        force ==> (r matches Ok(v) && entries_view(v@) == entries_view(file_list@)),
        !force ==> match r {
            Ok(v) => {
                &&& forall|i: int|
                    0 <= i < v@.len() ==> entries_view(file_list@).contains(
                        #[trigger] entries_view(v@)[i],
                    )
                &&& entries_view(v@).no_duplicates()
            },
            Err(e) => file_list@.len() > 0 && e is Sqlite3Error,
        },
        file_list@.len() == 0 ==> (r matches Ok(v) && v@.len() == 0),
{
    if force {
        let mut copy: Vec<(String, u64)> = Vec::new();
        let mut i: usize = 0;
        proof {
            assert(entries_view(copy@) =~= entries_view(file_list@).take(0));
        }
        while i < file_list.len()
            invariant
                i <= file_list@.len(),
                entries_view(copy@) == entries_view(file_list@).take(i as int),
            decreases file_list@.len() - i,
        {
            let ghost prev = entries_view(copy@);
            let item = (file_list[i].0.clone(), file_list[i].1);
            proof {
                assert(crate::structs::entry_view(item) == entries_view(file_list@)[i as int]);
            }
            copy.push(item);
            proof {
                assert(entries_view(copy@) =~= prev.push(entries_view(file_list@)[i as int]));
                assert(entries_view(file_list@).take(i + 1) =~= prev.push(
                    entries_view(file_list@)[i as int],
                ));
            }
            i = i + 1;
        }
        proof {
            assert(entries_view(file_list@).take(file_list@.len() as int) =~= entries_view(
                file_list@,
            ));
            assert(entries_view(file_list@).len() == file_list@.len());
        }
        Ok(copy)
    } else {
        files_not_in_db(database, file_list)
    }
}

} // verus!

//! What a failure of SQLite means for the caller.
use vstd::prelude::*;

use crate::error::{ErrorView, StoreError};

verus! {

/// What a failure with the result code `code` means. Contention may pass; a disk
/// that is full, a file that may not be opened or written, and a medium that
/// fails have to be seen to; a file that is damaged or no database holds nothing
/// to rely on.
pub open spec fn failure_view(code: Option<i32>, message: Seq<char>) -> ErrorView {
    match code {
        Some(c) => if c < 0 {
            ErrorView::Backend(message)
        } else {
            // An extended code holds the primary one in its lowest byte.
            let primary = c % 256;
            if primary == 5 || primary == 6 {
                ErrorView::Busy(message)
            } else if primary == 3 || primary == 8 || primary == 10 || primary == 13 || primary
                == 14 {
                ErrorView::Storage(message)
            } else if primary == 11 || primary == 26 {
                ErrorView::Corruption(message)
            } else {
                ErrorView::Backend(message)
            }
        },
        None => ErrorView::Backend(message),
    }
}

/// The error for a failure with the result code `code`; `None` where SQLite was
/// not asked at all.
pub fn to_store_err(code: Option<i32>, message: String) -> (r: StoreError)
    ensures
        r@ == failure_view(code, message@),
{
    match code {
        Some(c) => {
            if c < 0 {
                return StoreError::Backend(message);
            }
            let primary: i32 = c % 256;
            if primary == 5 || primary == 6 {
                StoreError::Busy(message)
            } else if primary == 3 || primary == 8 || primary == 10 || primary == 13 || primary
                == 14 {
                StoreError::Storage(message)
            } else if primary == 11 || primary == 26 {
                StoreError::Corruption(message)
            } else {
                StoreError::Backend(message)
            }
        },
        None => StoreError::Backend(message),
    }
}

/// What is behind a failure: contention, the storage, damage, or something else. An
/// extended result code means what the primary one in its lowest byte means. Nothing
/// but the message goes with it.
pub proof fn a_failure_is_known_by_its_primary_code(code: i32, message: Seq<char>)
    ensures
        code >= 0 ==> failure_view(Some(code), message) == failure_view(
            Some((code % 256) as i32),
            message,
        ),
        // SQLITE_BUSY and SQLITE_LOCKED.
        code == 5 || code == 6 ==> failure_view(Some(code), message) == ErrorView::Busy(message),
        // SQLITE_PERM, SQLITE_READONLY, SQLITE_IOERR, SQLITE_FULL and SQLITE_CANTOPEN.
        code == 3 || code == 8 || code == 10 || code == 13 || code == 14 ==> failure_view(
            Some(code),
            message,
        ) == ErrorView::Storage(message),
        // SQLITE_CORRUPT and SQLITE_NOTADB.
        code == 11 || code == 26 ==> failure_view(Some(code), message) == ErrorView::Corruption(
            message,
        ),
        code < 0 || (code < 256 && ![5i32, 6, 3, 8, 10, 13, 14, 11, 26]@.contains(code))
            ==> failure_view(Some(code), message) == ErrorView::Backend(message),
        failure_view(None, message) == ErrorView::Backend(message),
{
    let listed = [5i32, 6, 3, 8, 10, 13, 14, 11, 26]@;
    assert(listed[0] == 5 && listed[1] == 6 && listed[2] == 3 && listed[3] == 8 && listed[4] == 10);
    assert(listed[5] == 13 && listed[6] == 14 && listed[7] == 11 && listed[8] == 26);
}

} // verus!

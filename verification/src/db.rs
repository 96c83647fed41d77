//! Decisions of the database layer that do not depend on the database.

use vstd::prelude::*;

use crate::errors::DBError;

verus! {

/// The frame count of an image from the largest frame number among its
/// pixels; an image with no pixels has no largest frame, which is an error.
pub fn frame_count_from_max(max_frame: Option<i32>) -> (r: Result<i32, DBError>)
    requires
        max_frame matches Some(v) ==> v < i32::MAX,
    ensures
        match max_frame {
            Some(v) => r == Ok::<i32, DBError>((v + 1) as i32),
            None => r matches Err(DBError::DatabaseError(m)) && m@
                == "Failed to find column while search for frame count"@,
        },
{
    match max_frame {
        Some(v) => Ok(v + 1),
        None => Err(
            DBError::DatabaseError(
                "Failed to find column while search for frame count".to_owned(),
            ),
        ),
    }
}

/// Which pixels of an image a delete removes.
#[derive(Clone, Copy, PartialEq, Eq, Debug, Structural)]
pub enum DeleteScope {
    AllFrames,
    Frame(i32),
}

/// A frame number of -1 stands for all frames.
pub fn pixel_delete_scope(frame: i32) -> (s: DeleteScope)
    ensures
        s == if frame == -1 {
            DeleteScope::AllFrames
        } else {
            DeleteScope::Frame(frame)
        },
{
    if frame == -1 {
        DeleteScope::AllFrames
    } else {
        DeleteScope::Frame(frame)
    }
}

} // verus!

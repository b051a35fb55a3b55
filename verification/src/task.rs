use vstd::prelude::*;

use crate::error::YoloError;

verus! {

/// The task kinds the model can be built for. Unknown task strings are
/// rejected at construction time, never deep in the decode path.
#[derive(Clone, Copy, Debug, PartialEq, Eq, Structural)]
pub enum Task {
    Classify,
    Detect,
    Pose,
    Segment,
}

/// Character-by-character string comparison.
pub(crate) fn str_eq(a: &str, b: &str) -> (r: bool)
    ensures
        r == (a@ == b@),
{
    let la = a.unicode_len();
    let lb = b.unicode_len();
    if la != lb {
        proof {
            assert(a@ != b@) by {
                assert(a@.len() != b@.len());
            }
        }
        return false;
    }
    let mut i: usize = 0;
    while i < la
        invariant
            i <= la,
            la == a@.len(),
            la == b@.len(),
            forall|j: int| 0 <= j < i ==> a@[j] == b@[j],
        decreases la - i,
    {
        if a.get_char(i) != b.get_char(i) {
            return false;
        }
        i = i + 1;
    }
    proof {
        assert(a@ =~= b@);
    }
    true
}

impl Task {
    /// Parse a task string from model metadata or configuration.
    /// Exactly "classify", "detect", "pose" and "segment" are accepted;
    /// anything else is an `UnsupportedTask` error.
    pub fn from_name(s: &str) -> (r: Result<Task, YoloError>)
        ensures
            s@ == "classify"@ ==> r == Ok::<Task, YoloError>(Task::Classify),
            s@ == "detect"@ ==> r == Ok::<Task, YoloError>(Task::Detect),
            s@ == "pose"@ ==> r == Ok::<Task, YoloError>(Task::Pose),
            s@ == "segment"@ ==> r == Ok::<Task, YoloError>(Task::Segment),
            s@ != "classify"@ && s@ != "detect"@ && s@ != "pose"@ && s@ != "segment"@ ==> r
                == Err::<Task, YoloError>(YoloError::UnsupportedTask),
    {
        proof {
            reveal_strlit("classify");
            reveal_strlit("detect");
            reveal_strlit("pose");
            reveal_strlit("segment");
            assert("classify"@.len() == 8);
            assert("detect"@.len() == 6);
            assert("pose"@.len() == 4);
            assert("segment"@.len() == 7);
        }
        if str_eq(s, "classify") {
            Ok(Task::Classify)
        } else if str_eq(s, "detect") {
            Ok(Task::Detect)
        } else if str_eq(s, "pose") {
            Ok(Task::Pose)
        } else if str_eq(s, "segment") {
            Ok(Task::Segment)
        } else {
            Err(YoloError::UnsupportedTask)
        }
    }
}

} // verus!

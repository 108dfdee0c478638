use vstd::prelude::*;
use vstd::string::StrSliceExecFns;
use crate::models::Direction;

verus! {

/// The direction a key name asks for: the four arrow keys, and no other.
pub open spec fn direction_of_key(key: Seq<char>) -> Option<Direction> {
    if key == "ArrowUp"@ {
        Some(Direction::Up)
    } else if key == "ArrowDown"@ {
        Some(Direction::Down)
    } else if key == "ArrowLeft"@ {
        Some(Direction::Left)
    } else if key == "ArrowRight"@ {
        Some(Direction::Right)
    } else {
        None
    }
}

/// Whether two strings hold the same characters.
pub fn same_text(a: &str, b: &str) -> (r: bool)
    ensures
        r == (a@ == b@),
{
    let n = a.unicode_len();
    if n != b.unicode_len() {
        return false;
    }
    let mut i: usize = 0;
    while i < n
        invariant
            n == a@.len(),
            n == b@.len(),
            i <= n,
            forall|j: int| 0 <= j < i ==> a@[j] == b@[j],
        decreases n - i,
    {
        if a.get_char(i) != b.get_char(i) {
            return false;
        }
        i += 1;
    }
    assert(a@ =~= b@);
    true
}

/// Maps a key name to the direction it asks for; other keys ask for none.
pub fn get_direction_from_key(key: &str) -> (r: Option<Direction>)
    ensures
        r == direction_of_key(key@),
{
    if same_text(key, "ArrowUp") {
        Some(Direction::Up)
    } else if same_text(key, "ArrowDown") {
        Some(Direction::Down)
    } else if same_text(key, "ArrowLeft") {
        Some(Direction::Left)
    } else if same_text(key, "ArrowRight") {
        Some(Direction::Right)
    } else {
        None
    }
}

} // verus!
